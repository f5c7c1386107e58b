use vstd::prelude::*;

use crate::bytes::copy_range;

verus! {

/// One subject/SAN rewrite: a value to look for and what replaces it.
pub struct CnSanReplace {
    pub source: Vec<u8>,
    pub replacement: Vec<u8>,
}

/// The rule set applied to a dependent credential's subject when it is
/// re-signed.  The first rule whose source matches wins; a subject no rule
/// matches is kept as it is.
pub struct CnSanReplaceRules {
    pub rules: Vec<CnSanReplace>,
}

/// What a rule list maps `name` to: the first matching rule's replacement,
/// or `name` itself.
pub open spec fn spec_apply(rules: Seq<(Seq<u8>, Seq<u8>)>, name: Seq<u8>) -> Seq<u8>
    decreases rules.len(),
{
    if rules.len() == 0 {
        name
    } else if rules[0].0 == name {
        rules[0].1
    } else {
        spec_apply(rules.skip(1), name)
    }
}

impl CnSanReplaceRules {
    /// The rules as pairs of byte strings, in order.
    pub open spec fn view(&self) -> Seq<(Seq<u8>, Seq<u8>)> {
        self.rules@.map_values(|r: CnSanReplace| (r.source@, r.replacement@))
    }

    /// Applies the rule set to one subject value.
    pub fn apply(&self, name: &Vec<u8>) -> (r: Vec<u8>)
        ensures
            r@ == spec_apply(self@, name@),
    {
        proof {
            assert(self@.skip(0) =~= self@);
        }
        let mut i: usize = 0;
        while i < self.rules.len()
            invariant
                i <= self.rules@.len(),
                spec_apply(self@, name@) == spec_apply(self@.skip(i as int), name@),
            decreases self.rules@.len() - i,
        {
            proof {
                assert(self@.skip(i as int)[0] == self@[i as int]);
                assert(self@.skip(i as int).skip(1) =~= self@.skip(i as int + 1));
            }
            if crate::bytes::bytes_eq(&self.rules[i].source, name) {
                return copy_range(&self.rules[i].replacement, 0, self.rules[i].replacement.len());
            }
            i = i + 1;
        }
        proof {
            assert(self@.skip(i as int) =~= Seq::<(Seq<u8>, Seq<u8>)>::empty());
        }
        copy_range(name, 0, name.len())
    }
}

} // verus!
