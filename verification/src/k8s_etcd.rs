use vstd::prelude::*;

use crate::bytemap::{spec_lookup, spec_store, ByteMap};
use crate::errors::Error;
use crate::file_utils::{parse_document, spec_parse_document, YamlResource};

verus! {

/// The configuration store as the engine sees it: an in-memory association
/// of store keys with resource bytes, filled by whoever drives the run and
/// flushed by it afterwards.
pub struct InMemoryK8sEtcd {
    pub store: ByteMap,
}

impl InMemoryK8sEtcd {
    /// The resources, keyed by store key.
    pub open spec fn view(&self) -> Seq<(Seq<u8>, Seq<u8>)> {
        self.store@
    }

    /// An empty store.
    pub fn new() -> (r: Self)
        ensures
            r@ == Seq::<(Seq<u8>, Seq<u8>)>::empty(),
    {
        InMemoryK8sEtcd { store: ByteMap::new() }
    }

    /// The bytes of the resource under `key`, if it exists.
    pub fn get(&self, key: &Vec<u8>) -> (r: Option<Vec<u8>>)
        ensures
            match r {
                Some(v) => spec_lookup(self@, key@) == Some(v@),
                None => spec_lookup(self@, key@) is None,
            },
    {
        self.store.get(key)
    }

    /// Stores `value` under `key`.
    pub fn put(&mut self, key: &Vec<u8>, value: Vec<u8>)
        ensures
            final(self)@ == spec_store(old(self)@, key@, value@),
    {
        self.store.put(key, value);
    }
}

/// Fetches the resource under `resource_key` and parses its YAML-shaped
/// body.
pub fn get_etcd_yaml(etcd_client: &InMemoryK8sEtcd, resource_key: &Vec<u8>) -> (r: Result<
    YamlResource,
    Error,
>)
    ensures
        r matches Ok(res) ==> spec_lookup(etcd_client@, resource_key@) matches Some(bytes)
            && spec_parse_document(bytes) == Some(res@),
        r == Result::<YamlResource, Error>::Err(Error::EtcdResourceMissing) <==> spec_lookup(
            etcd_client@,
            resource_key@,
        ) is None,
        r == Result::<YamlResource, Error>::Err(Error::MalformedYaml) <==> (spec_lookup(
            etcd_client@,
            resource_key@,
        ) matches Some(bytes) && spec_parse_document(bytes) is None),
        r matches Err(e) ==> (e == Error::EtcdResourceMissing || e == Error::MalformedYaml),
{
    let bytes = match etcd_client.get(resource_key) {
        Some(bytes) => bytes,
        None => {
            return Err(Error::EtcdResourceMissing);
        },
    };
    parse_document(&bytes)
}

} // verus!
