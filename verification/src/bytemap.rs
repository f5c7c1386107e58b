use vstd::prelude::*;

use crate::bytes::{bytes_eq, copy_range};

verus! {

/// One association of a byte-string key with a byte-string value.
pub struct ByteMapEntry {
    pub key: Vec<u8>,
    pub value: Vec<u8>,
}

/// An association list from byte strings to byte strings, looked up by the
/// first entry whose key matches.  Both the configuration store and the
/// filesystem are modeled on it.
pub struct ByteMap {
    pub entries: Vec<ByteMapEntry>,
}

/// The value under `key`, if any: the first entry's whose key matches.
pub open spec fn spec_lookup(entries: Seq<(Seq<u8>, Seq<u8>)>, key: Seq<u8>) -> Option<Seq<u8>>
    decreases entries.len(),
{
    if entries.len() == 0 {
        None
    } else if entries[0].0 == key {
        Some(entries[0].1)
    } else {
        spec_lookup(entries.skip(1), key)
    }
}

/// The map after binding `key` to `v`: the first entry keyed `key` is
/// replaced, or a new entry is appended when none exists.
pub open spec fn spec_store(
    entries: Seq<(Seq<u8>, Seq<u8>)>,
    key: Seq<u8>,
    v: Seq<u8>,
) -> Seq<(Seq<u8>, Seq<u8>)>
    decreases entries.len(),
{
    if entries.len() == 0 {
        seq![(key, v)]
    } else if entries[0].0 == key {
        seq![(key, v)] + entries.skip(1)
    } else {
        seq![entries[0]] + spec_store(entries.skip(1), key, v)
    }
}

/// What was just stored is what lookup finds under that key.
pub proof fn lemma_store_then_lookup(entries: Seq<(Seq<u8>, Seq<u8>)>, key: Seq<u8>, v: Seq<u8>)
    ensures
        spec_lookup(spec_store(entries, key, v), key) == Some(v),
    decreases entries.len(),
{
    if entries.len() == 0 {
        assert(spec_store(entries, key, v)[0] == (key, v));
    } else if entries[0].0 == key {
        assert(spec_store(entries, key, v)[0] == (key, v));
    } else {
        lemma_store_then_lookup(entries.skip(1), key, v);
        let st = seq![entries[0]] + spec_store(entries.skip(1), key, v);
        assert(st[0] == entries[0]);
        assert(st.skip(1) =~= spec_store(entries.skip(1), key, v));
    }
}

impl ByteMap {
    /// The entries as pairs of byte strings, in order.
    pub open spec fn view(&self) -> Seq<(Seq<u8>, Seq<u8>)> {
        self.entries@.map_values(|e: ByteMapEntry| (e.key@, e.value@))
    }

    /// An empty map.
    pub fn new() -> (r: Self)
        ensures
            r@ == Seq::<(Seq<u8>, Seq<u8>)>::empty(),
    {
        let r = ByteMap { entries: Vec::new() };
        proof {
            assert(r@ =~= Seq::<(Seq<u8>, Seq<u8>)>::empty());
        }
        r
    }

    /// Looks `key` up, handing back a copy of the value under it.
    #[verifier::loop_isolation(false)]
    pub fn get(&self, key: &Vec<u8>) -> (r: Option<Vec<u8>>)
        ensures
            match r {
                Some(v) => spec_lookup(self@, key@) == Some(v@),
                None => spec_lookup(self@, key@) is None,
            },
    {
        proof {
            assert(self@.skip(0) =~= self@);
        }
        let mut i: usize = 0;
        while i < self.entries.len()
            invariant
                i <= self.entries@.len(),
                spec_lookup(self@, key@) == spec_lookup(self@.skip(i as int), key@),
            decreases self.entries@.len() - i,
        {
            proof {
                assert(self@.skip(i as int)[0] == self@[i as int]);
                assert(self@.skip(i as int).skip(1) =~= self@.skip(i as int + 1));
            }
            if bytes_eq(&self.entries[i].key, key) {
                return Some(copy_range(&self.entries[i].value, 0, self.entries[i].value.len()));
            }
            i = i + 1;
        }
        proof {
            assert(self@.skip(i as int) =~= Seq::<(Seq<u8>, Seq<u8>)>::empty());
        }
        None
    }

    /// Binds `key` to `value`.
    #[verifier::loop_isolation(false)]
    pub fn put(&mut self, key: &Vec<u8>, value: Vec<u8>)
        ensures
            final(self)@ == spec_store(old(self)@, key@, value@),
    {
        let ghost pre = self@;
        proof {
            assert(pre.skip(0) =~= pre);
            assert(pre.subrange(0, 0) + spec_store(pre.skip(0), key@, value@) =~= spec_store(
                pre,
                key@,
                value@,
            ));
        }
        let mut i: usize = 0;
        while i < self.entries.len()
            invariant
                i <= self.entries@.len(),
                self@ == pre,
                spec_store(pre, key@, value@) == pre.subrange(0, i as int) + spec_store(
                    pre.skip(i as int),
                    key@,
                    value@,
                ),
            decreases self.entries@.len() - i,
        {
            proof {
                assert(pre.skip(i as int)[0] == pre[i as int]);
                assert(pre.skip(i as int).skip(1) =~= pre.skip(i as int + 1));
                assert(pre.subrange(0, i as int) + (seq![pre[i as int]] + spec_store(
                    pre.skip(i as int + 1),
                    key@,
                    value@,
                )) =~= pre.subrange(0, i as int + 1) + spec_store(
                    pre.skip(i as int + 1),
                    key@,
                    value@,
                ));
            }
            if bytes_eq(&self.entries[i].key, key) {
                let entry = self.entries.remove(i);
                self.entries.insert(i, ByteMapEntry { key: entry.key, value });
                proof {
                    assert(spec_store(pre.skip(i as int), key@, value@) == seq![(key@, value@)]
                        + pre.skip(i as int + 1));
                    assert(self@ =~= pre.subrange(0, i as int) + (seq![(key@, value@)] + pre.skip(
                        i as int + 1,
                    )));
                }
                return ;
            }
            i = i + 1;
        }
        proof {
            assert(pre.skip(i as int) =~= Seq::<(Seq<u8>, Seq<u8>)>::empty());
            assert(pre.subrange(0, i as int) =~= pre);
        }
        let ghost key_view = key@;
        let ghost value_view = value@;
        let key_copy = copy_range(key, 0, key.len());
        proof {
            assert(key@.subrange(0, key@.len() as int) =~= key@);
        }
        self.entries.push(ByteMapEntry { key: key_copy, value });
        proof {
            assert(self@ =~= pre.push((key_view, value_view)));
            assert(pre + seq![(key_view, value_view)] =~= pre.push((key_view, value_view)));
        }
    }
}

} // verus!
