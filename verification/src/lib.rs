//! Regeneration-and-commit engine for one private-key node of a cluster's
//! trust graph: replace the node's key material from a pre-filled RSA pool,
//! cascade the change to every dependent credential and to the paired
//! public-key entity, and replay the new PEM into every recorded copy of the
//! key, whether it lives in a configuration-store resource or in a file.

pub mod bytemap;
pub mod bytes;
pub mod cnsanreplace;
pub mod filesystem;
pub mod k8s_etcd;
pub mod distributed_private_key;
pub mod distributed_public_key;
pub mod errors;
pub mod file_utils;
pub mod keys;
pub mod locations;
pub mod pem_utils;
pub mod rsa_key_pool;
pub mod signee;
