use vstd::prelude::*;

verus! {

/// Where inside a raw PEM bundle a key's copy stands: the position of its
/// block, counting from zero.
pub struct PemLocationInfo {
    pub pem_bundle_index: usize,
}

/// The shape of the value a raw filesystem location points at.  Only PEM
/// values can be committed; any other shape is rejected at commit time.
pub enum LocationValueType {
    Pem(PemLocationInfo),
    Unknown,
}

/// How a file holds the key: as a raw bundle of concatenated PEM blocks, or
/// as a flat YAML document with the key's PEM under one path.
pub enum FileContentLocation {
    Raw(LocationValueType),
    Yaml(Vec<u8>),
}

/// One copy of the key on the filesystem.
pub struct FileLocation {
    pub path: Vec<u8>,
    pub content_location: FileContentLocation,
}

/// One copy of the key inside a configuration-store resource: the store key
/// of the resource and the YAML path of the value to rewrite.
pub struct K8sLocation {
    pub resource_key: Vec<u8>,
    pub yaml_path: Vec<u8>,
}

/// One physical copy of a key or certificate.
pub enum Location {
    K8s(K8sLocation),
    Filesystem(FileLocation),
}

/// Every place holding a copy of one key's material; all of them must stay
/// in sync when the key is regenerated.
pub struct Locations(pub Vec<Location>);

} // verus!
