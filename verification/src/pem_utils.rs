use vstd::prelude::*;

use crate::bytes::{append_bytes, copy_range};
use crate::errors::Error;

verus! {

/// The bytes of "-----BEGIN ", which open every PEM block.
pub open spec fn spec_begin_marker() -> Seq<u8> {
    seq![45u8, 45u8, 45u8, 45u8, 45u8, 66u8, 69u8, 71u8, 73u8, 78u8, 32u8]
}

/// The bytes of "-----END ", which open the closing line of a PEM block.
pub open spec fn spec_end_marker() -> Seq<u8> {
    seq![45u8, 45u8, 45u8, 45u8, 45u8, 69u8, 78u8, 68u8, 32u8]
}

/// `pat` occurs in `s` at position `i`.
pub open spec fn matches_at(s: Seq<u8>, i: int, pat: Seq<u8>) -> bool {
    0 <= i && i + pat.len() <= s.len() && s.subrange(i, i + pat.len()) == pat
}

/// The first position at or after `from` where `pat` occurs in `s`.
pub open spec fn spec_find(s: Seq<u8>, pat: Seq<u8>, from: int) -> Option<int>
    decreases s.len() - from,
{
    if from < 0 || from + pat.len() > s.len() {
        None
    } else if matches_at(s, from, pat) {
        Some(from)
    } else if from >= s.len() {
        None
    } else {
        spec_find(s, pat, from + 1)
    }
}

/// A found occurrence lies within the text, at or after the start of the
/// search.
pub proof fn lemma_find_some_bounds(s: Seq<u8>, pat: Seq<u8>, from: int)
    ensures
        spec_find(s, pat, from) matches Some(j) ==> {
            &&& from <= j
            &&& j + pat.len() <= s.len()
            &&& matches_at(s, j, pat)
        },
    decreases s.len() - from,
{
    if from < 0 || from + pat.len() > s.len() {
    } else if matches_at(s, from, pat) {
    } else if from >= s.len() {
    } else {
        lemma_find_some_bounds(s, pat, from + 1);
    }
}

/// Where the PEM block that starts at `i` ends: one past the newline that
/// closes the first end-marker line after `i`, or nothing if no whole block
/// starts there.
pub open spec fn spec_block_end_at(s: Seq<u8>, i: int) -> Option<int> {
    if !matches_at(s, i, spec_begin_marker()) {
        None
    } else {
        match spec_find(s, spec_end_marker(), i) {
            None => None,
            Some(e) => match spec_find(s, seq![10u8], e) {
                None => None,
                Some(n) => Some(n + 1),
            },
        }
    }
}

/// Splits `s` from position `i` on into consecutive PEM blocks.  A bundle is
/// exactly the concatenation of its blocks; any stray content makes the
/// whole text fail to parse.
pub open spec fn spec_parse_from(s: Seq<u8>, i: int) -> Option<Seq<Seq<u8>>>
    decreases s.len() - i,
{
    if i == s.len() {
        Some(Seq::empty())
    } else if i < 0 || i > s.len() {
        None
    } else {
        match spec_block_end_at(s, i) {
            None => None,
            Some(n) => {
                if i < n <= s.len() {
                    match spec_parse_from(s, n) {
                        None => None,
                        Some(rest) => Some(seq![s.subrange(i, n)] + rest),
                    }
                } else {
                    None
                }
            },
        }
    }
}

/// The blocks of a PEM bundle, in order, or nothing if the text is not a
/// bundle.
pub open spec fn spec_parse_bundle(s: Seq<u8>) -> Option<Seq<Seq<u8>>> {
    spec_parse_from(s, 0)
}

/// The concatenation of a list of byte strings.
pub open spec fn spec_concat(bs: Seq<Seq<u8>>) -> Seq<u8>
    decreases bs.len(),
{
    if bs.len() == 0 {
        Seq::empty()
    } else {
        bs[0] + spec_concat(bs.skip(1))
    }
}

/// Appending one byte string to a list appends it to the concatenation.
pub proof fn lemma_concat_push(bs: Seq<Seq<u8>>, b: Seq<u8>)
    ensures
        spec_concat(bs.push(b)) == spec_concat(bs) + b,
    decreases bs.len(),
{
    if bs.len() == 0 {
        assert(bs.push(b)[0] == b);
        assert(bs.push(b).skip(1) =~= Seq::<Seq<u8>>::empty());
        assert(spec_concat(bs.push(b)) == b + spec_concat(Seq::<Seq<u8>>::empty()));
        assert(b + Seq::<u8>::empty() =~= b);
        assert(Seq::<u8>::empty() + b =~= b);
        assert(spec_concat(bs.push(b)) =~= spec_concat(bs) + b);
    } else {
        lemma_concat_push(bs.skip(1), b);
        assert(bs.push(b).skip(1) =~= bs.skip(1).push(b));
        assert(bs.push(b)[0] == bs[0]);
        assert(spec_concat(bs.push(b)) == bs[0] + spec_concat(bs.skip(1).push(b)));
        assert(bs[0] + (spec_concat(bs.skip(1)) + b) =~= (bs[0] + spec_concat(bs.skip(1))) + b);
        assert(spec_concat(bs.push(b)) =~= spec_concat(bs) + b);
    }
}

/// Parsing splits a bundle exactly: the blocks concatenate back to the text
/// they were split from.
pub proof fn lemma_parse_from_reassembles(s: Seq<u8>, i: int)
    ensures
        spec_parse_from(s, i) matches Some(bs) ==> spec_concat(bs) == s.subrange(i, s.len() as int),
    decreases s.len() - i,
{
    if i == s.len() {
        assert(s.subrange(i, s.len() as int) =~= Seq::<u8>::empty());
    } else if 0 <= i < s.len() {
        match spec_block_end_at(s, i) {
            None => {},
            Some(n) => {
                if i < n <= s.len() {
                    lemma_parse_from_reassembles(s, n);
                    match spec_parse_from(s, n) {
                        None => {},
                        Some(rest) => {
                            assert((seq![s.subrange(i, n)] + rest).skip(1) =~= rest);
                            assert(spec_concat(seq![s.subrange(i, n)] + rest) == s.subrange(i, n)
                                + spec_concat(rest));
                            assert(s.subrange(i, n) + s.subrange(n, s.len() as int)
                                =~= s.subrange(i, s.len() as int));
                        },
                    }
                }
            },
        }
    }
}

/// A whole bundle's blocks concatenate back to the bundle text.
pub proof fn lemma_parse_reassembles(s: Seq<u8>)
    ensures
        spec_parse_bundle(s) matches Some(bs) ==> spec_concat(bs) == s,
{
    lemma_parse_from_reassembles(s, 0);
    assert(s.subrange(0, s.len() as int) =~= s);
}

/// Whether `pat` occurs in `s` at position `i`.
#[verifier::loop_isolation(false)]
fn check_match_at(s: &Vec<u8>, i: usize, pat: &Vec<u8>) -> (r: bool)
    requires
        i + pat@.len() <= s@.len(),
    ensures
        r == matches_at(s@, i as int, pat@),
{
    let mut j: usize = 0;
    while j < pat.len()
        invariant
            j <= pat@.len(),
            i + pat@.len() <= s@.len(),
            forall|k: int| 0 <= k < j ==> s@[i + k] == pat@[k],
        decreases pat@.len() - j,
    {
        let s_len = s.len();
        proof {
            assert(i + j < s_len);
        }
        if s[i + j] != pat[j] {
            proof {
                assert(s@.subrange(i as int, i + pat@.len())[j as int] == s@[i + j]);
            }
            return false;
        }
        j = j + 1;
    }
    proof {
        assert(s@.subrange(i as int, i + pat@.len()) =~= pat@);
    }
    true
}

/// The first occurrence of `pat` in `s` at or after `from`.
#[verifier::loop_isolation(false)]
fn find_pattern(s: &Vec<u8>, pat: &Vec<u8>, from: usize) -> (r: Option<usize>)
    requires
        pat@.len() >= 1,
    ensures
        match r {
            Some(i) => spec_find(s@, pat@, from as int) == Some(i as int),
            None => spec_find(s@, pat@, from as int) is None,
        },
{
    if pat.len() > s.len() {
        return None;
    }
    let mut i: usize = from;
    while i <= s.len() - pat.len()
        invariant
            from <= i,
            spec_find(s@, pat@, from as int) == spec_find(s@, pat@, i as int),
        decreases s@.len() - i,
    {
        if check_match_at(s, i, pat) {
            return Some(i);
        }
        i = i + 1;
    }
    None
}

/// The bytes of "-----BEGIN ".
fn begin_marker() -> (r: Vec<u8>)
    ensures
        r@ == spec_begin_marker(),
{
    let mut v: Vec<u8> = Vec::new();
    v.push(45);
    v.push(45);
    v.push(45);
    v.push(45);
    v.push(45);
    v.push(66);
    v.push(69);
    v.push(71);
    v.push(73);
    v.push(78);
    v.push(32);
    proof {
        assert(v@ =~= spec_begin_marker());
    }
    v
}

/// The bytes of "-----END ".
fn end_marker() -> (r: Vec<u8>)
    ensures
        r@ == spec_end_marker(),
{
    let mut v: Vec<u8> = Vec::new();
    v.push(45);
    v.push(45);
    v.push(45);
    v.push(45);
    v.push(45);
    v.push(69);
    v.push(78);
    v.push(68);
    v.push(32);
    proof {
        assert(v@ =~= spec_end_marker());
    }
    v
}

/// Splits a bundle into its PEM blocks; nothing if the text is not exactly a
/// concatenation of blocks.
#[verifier::loop_isolation(false)]
pub fn parse_pem_bundle(bundle: &Vec<u8>) -> (r: Option<Vec<Vec<u8>>>)
    ensures
        match r {
            Some(blocks) => spec_parse_bundle(bundle@) == Some(
                blocks@.map_values(|b: Vec<u8>| b@),
            ),
            None => spec_parse_bundle(bundle@) is None,
        },
{
    let begin = begin_marker();
    let end = end_marker();
    let mut newline: Vec<u8> = Vec::new();
    newline.push(10);
    proof {
        assert(newline@ =~= seq![10u8]);
    }

    let mut blocks: Vec<Vec<u8>> = Vec::new();
    let mut i: usize = 0;
    while i < bundle.len()
        invariant
            i <= bundle@.len(),
            match spec_parse_from(bundle@, i as int) {
                Some(rest) => spec_parse_bundle(bundle@) == Some(
                    blocks@.map_values(|b: Vec<u8>| b@) + rest,
                ),
                None => spec_parse_bundle(bundle@) is None,
            },
        decreases bundle@.len() - i,
    {
        if bundle.len() - i < begin.len() || !check_match_at(bundle, i, &begin) {
            return None;
        }
        let e = match find_pattern(bundle, &end, i) {
            Some(e) => e,
            None => {
                return None;
            },
        };
        let n = match find_pattern(bundle, &newline, e) {
            Some(n) => n,
            None => {
                return None;
            },
        };
        proof {
            lemma_find_some_bounds(bundle@, end@, i as int);
            lemma_find_some_bounds(bundle@, newline@, e as int);
            assert(spec_block_end_at(bundle@, i as int) == Some(n + 1));
        }
        let block = copy_range(bundle, i, n + 1);
        let ghost prev = blocks@.map_values(|b: Vec<u8>| b@);
        blocks.push(block);
        proof {
            assert(blocks@.map_values(|b: Vec<u8>| b@) =~= prev.push(block@));
            if spec_parse_from(bundle@, n + 1) is Some {
                let rest2 = spec_parse_from(bundle@, n + 1).unwrap();
                assert(spec_parse_from(bundle@, i as int) == Some(
                    seq![bundle@.subrange(i as int, n + 1)] + rest2,
                ));
                assert(prev.push(block@) + rest2 =~= prev + (seq![
                    bundle@.subrange(i as int, n + 1),
                ] + rest2));
            }
        }
        i = n + 1;
    }
    proof {
        assert(spec_parse_from(bundle@, i as int) == Some(Seq::<Seq<u8>>::empty()));
        assert(blocks@.map_values(|b: Vec<u8>| b@) + Seq::<Seq<u8>>::empty() =~= blocks@.map_values(
            |b: Vec<u8>| b@,
        ));
    }
    Some(blocks)
}

/// Joins blocks back into one text.
pub fn join_blocks(blocks: &Vec<Vec<u8>>) -> (r: Vec<u8>)
    ensures
        r@ == spec_concat(blocks@.map_values(|b: Vec<u8>| b@)),
{
    let mut out: Vec<u8> = Vec::new();
    let mut i: usize = 0;
    while i < blocks.len()
        invariant
            i <= blocks@.len(),
            out@ == spec_concat(blocks@.map_values(|b: Vec<u8>| b@).subrange(0, i as int)),
        decreases blocks@.len() - i,
    {
        proof {
            let mapped = blocks@.map_values(|b: Vec<u8>| b@);
            assert(mapped.subrange(0, i as int + 1) =~= mapped.subrange(0, i as int).push(
                mapped[i as int],
            ));
            lemma_concat_push(mapped.subrange(0, i as int), mapped[i as int]);
        }
        append_bytes(&mut out, &blocks[i]);
        i = i + 1;
    }
    proof {
        let mapped = blocks@.map_values(|b: Vec<u8>| b@);
        assert(mapped.subrange(0, i as int) =~= mapped);
    }
    out
}

/// Replaces exactly the block at `pem_bundle_index` with `new_pem`, leaving
/// every other block of the bundle byte-identical; text that is not a PEM
/// bundle, or an index past the last block, is rejected before anything is
/// built.
pub fn pem_bundle_replace_pem_at_index(
    bundle: &Vec<u8>,
    pem_bundle_index: usize,
    new_pem: &Vec<u8>,
) -> (r: Result<Vec<u8>, Error>)
    ensures
        (r is Ok) <==> (spec_parse_bundle(bundle@) matches Some(blocks) && (
        pem_bundle_index as int) < blocks.len()),
        r matches Ok(out) ==> spec_parse_bundle(bundle@) matches Some(blocks) && {
            &&& (pem_bundle_index as int) < blocks.len()
            &&& out@ == spec_concat(blocks.update(pem_bundle_index as int, new_pem@))
        },
        r == Result::<Vec<u8>, Error>::Err(Error::CannotCommitNonPem) <==> spec_parse_bundle(
            bundle@,
        ) is None,
        r == Result::<Vec<u8>, Error>::Err(Error::PemBundleIndexOutOfRange) <==> (
        spec_parse_bundle(bundle@) matches Some(blocks) && blocks.len() <= pem_bundle_index as int),
{
    let mut blocks = match parse_pem_bundle(bundle) {
        Some(blocks) => blocks,
        None => {
            return Err(Error::CannotCommitNonPem);
        },
    };
    if pem_bundle_index >= blocks.len() {
        return Err(Error::PemBundleIndexOutOfRange);
    }
    let ghost parsed = blocks@.map_values(|b: Vec<u8>| b@);
    let replacement = copy_range(new_pem, 0, new_pem.len());
    proof {
        assert(new_pem@.subrange(0, new_pem@.len() as int) =~= new_pem@);
    }
    blocks.remove(pem_bundle_index);
    blocks.insert(pem_bundle_index, replacement);
    proof {
        assert(blocks@.map_values(|b: Vec<u8>| b@) =~= parsed.update(
            pem_bundle_index as int,
            new_pem@,
        ));
    }
    Ok(join_blocks(&blocks))
}

} // verus!
