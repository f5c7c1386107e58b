use vstd::prelude::*;

use crate::bytes::{append_bytes, bytes_eq, copy_range};
use crate::errors::Error;
use crate::pem_utils::{lemma_concat_push, spec_concat};

verus! {

/// One entry of a flat YAML-shaped document: a key and the scalar under it.
pub struct YamlEntry {
    pub key: Vec<u8>,
    pub value: Vec<u8>,
}

/// A YAML-shaped resource in parsed form: a flat mapping, one entry per
/// line of the document it was read from.
pub struct YamlResource {
    pub entries: Vec<YamlEntry>,
}

impl YamlResource {
    /// The entries as pairs of byte strings, in order.
    pub open spec fn view(&self) -> Seq<(Seq<u8>, Seq<u8>)> {
        self.entries@.map_values(|e: YamlEntry| (e.key@, e.value@))
    }
}

/// Which encoding a rewritten document is serialized back into.
#[derive(Clone, Copy, PartialEq, Eq, Structural)]
pub enum RecreateYamlEncoding {
    Json,
    Yaml,
}

/// How one byte is written inside a double-quoted scalar: backslash, quote,
/// newline, carriage return and tab are escaped, everything else stands for
/// itself.
pub open spec fn esc_byte(b: u8) -> Seq<u8> {
    if b == 92 {
        seq![92u8, 92u8]
    } else if b == 34 {
        seq![92u8, 34u8]
    } else if b == 10 {
        seq![92u8, 110u8]
    } else if b == 13 {
        seq![92u8, 114u8]
    } else if b == 9 {
        seq![92u8, 116u8]
    } else {
        seq![b]
    }
}

/// The escaped form of a whole scalar.
pub open spec fn spec_escape(s: Seq<u8>) -> Seq<u8>
    decreases s.len(),
{
    if s.len() == 0 {
        Seq::empty()
    } else {
        esc_byte(s[0]) + spec_escape(s.skip(1))
    }
}

/// What an escape introducer is followed by, and the byte it stands for.
pub open spec fn unesc_byte(c: u8) -> Option<u8> {
    if c == 92 {
        Some(92u8)
    } else if c == 34 {
        Some(34u8)
    } else if c == 110 {
        Some(10u8)
    } else if c == 114 {
        Some(13u8)
    } else if c == 116 {
        Some(9u8)
    } else {
        None
    }
}

/// Scans a key from position `i` up to the colon that ends it.  Keys carry
/// no quote, newline, backslash or colon.
pub open spec fn spec_scan_key(s: Seq<u8>, i: int) -> Option<(Seq<u8>, int)>
    decreases s.len() - i,
{
    if i < 0 || i >= s.len() {
        None
    } else if s[i] == 58 {
        Some((Seq::empty(), i + 1))
    } else if s[i] == 34 || s[i] == 10 || s[i] == 92 {
        None
    } else {
        match spec_scan_key(s, i + 1) {
            None => None,
            Some(km) => Some((seq![s[i]] + km.0, km.1)),
        }
    }
}

/// Scans a double-quoted scalar from position `i` (just past the opening
/// quote) to its closing quote, undoing the escapes; the returned position
/// is just past the closing quote.
pub open spec fn spec_scan_value(s: Seq<u8>, i: int) -> Option<(Seq<u8>, int)>
    decreases s.len() - i,
{
    if i < 0 || i >= s.len() {
        None
    } else if s[i] == 34 {
        Some((Seq::empty(), i + 1))
    } else if s[i] == 10 {
        None
    } else if s[i] == 92 {
        if i + 1 < s.len() {
            match unesc_byte(s[i + 1]) {
                None => None,
                Some(b) => match spec_scan_value(s, i + 2) {
                    None => None,
                    Some(vm) => Some((seq![b] + vm.0, vm.1)),
                },
            }
        } else {
            None
        }
    } else {
        match spec_scan_value(s, i + 1) {
            None => None,
            Some(vm) => Some((seq![s[i]] + vm.0, vm.1)),
        }
    }
}

/// Parses a flat document from position `i` on: each line is a key, a colon
/// and a space, then a double-quoted scalar.
pub open spec fn spec_parse_entries(s: Seq<u8>, i: int) -> Option<Seq<(Seq<u8>, Seq<u8>)>>
    decreases s.len() - i,
{
    if i == s.len() {
        Some(Seq::empty())
    } else if i < 0 || i > s.len() {
        None
    } else {
        match spec_scan_key(s, i) {
            None => None,
            Some(km) => {
                if km.0.len() == 0 {
                    None
                } else if km.1 + 2 <= s.len() && s[km.1] == 32 && s[km.1 + 1] == 34 {
                    match spec_scan_value(s, km.1 + 2) {
                        None => None,
                        Some(vm) => {
                            if vm.1 < s.len() && s[vm.1] == 10 && i < vm.1 + 1 <= s.len() {
                                match spec_parse_entries(s, vm.1 + 1) {
                                    None => None,
                                    Some(rest) => Some(seq![(km.0, vm.0)] + rest),
                                }
                            } else {
                                None
                            }
                        },
                    }
                } else {
                    None
                }
            },
        }
    }
}

/// One line of the YAML rendering of an entry.
pub open spec fn spec_yaml_line(key: Seq<u8>, value: Seq<u8>) -> Seq<u8> {
    key + seq![58u8, 32u8, 34u8] + spec_escape(value) + seq![34u8, 10u8]
}

/// The YAML rendering of a whole document.
pub open spec fn spec_yaml_text(entries: Seq<(Seq<u8>, Seq<u8>)>) -> Seq<u8> {
    spec_concat(entries.map_values(|e: (Seq<u8>, Seq<u8>)| spec_yaml_line(e.0, e.1)))
}

/// Parses the members of a flat JSON object from position `i`, which must
/// stand at the opening quote of a member's key; the closing brace must
/// end the text.
pub open spec fn spec_parse_json_members(s: Seq<u8>, i: int) -> Option<Seq<(Seq<u8>, Seq<u8>)>>
    decreases s.len() - i,
{
    if i < 0 || i >= s.len() {
        None
    } else if s[i] != 34 {
        None
    } else {
        match spec_scan_value(s, i + 1) {
            None => None,
            Some(km) => {
                if km.1 + 2 <= s.len() && s[km.1] == 58 && s[km.1 + 1] == 34 {
                    match spec_scan_value(s, km.1 + 2) {
                        None => None,
                        Some(vm) => {
                            if vm.1 < s.len() && s[vm.1] == 125 && vm.1 + 1 == s.len() {
                                Some(seq![(km.0, vm.0)])
                            } else if vm.1 < s.len() && s[vm.1] == 44 && i < vm.1 + 1 <= s.len() {
                                match spec_parse_json_members(s, vm.1 + 1) {
                                    None => None,
                                    Some(rest) => Some(seq![(km.0, vm.0)] + rest),
                                }
                            } else {
                                None
                            }
                        },
                    }
                } else {
                    None
                }
            },
        }
    }
}

/// The entries of a flat JSON object with string members, or nothing if
/// the text is not one.
pub open spec fn spec_parse_json(s: Seq<u8>) -> Option<Seq<(Seq<u8>, Seq<u8>)>> {
    if s.len() == 2 && s[0] == 123 && s[1] == 125 {
        Some(Seq::empty())
    } else if s.len() >= 1 && s[0] == 123 {
        spec_parse_json_members(s, 1)
    } else {
        None
    }
}

/// A YAML-shaped document in either of the encodings the engine meets: the
/// flat JSON object form when the text opens with a brace, the flat YAML
/// line form otherwise.
pub open spec fn spec_parse_document(s: Seq<u8>) -> Option<Seq<(Seq<u8>, Seq<u8>)>> {
    if s.len() >= 1 && s[0] == 123 {
        spec_parse_json(s)
    } else {
        spec_parse_entries(s, 0)
    }
}

/// One member of the JSON rendering of an entry.
pub open spec fn spec_json_item(e: (Seq<u8>, Seq<u8>)) -> Seq<u8> {
    seq![34u8] + spec_escape(e.0) + seq![34u8, 58u8, 34u8] + spec_escape(e.1) + seq![34u8]
}

/// The members of the JSON rendering, each but the first preceded by its
/// comma.
pub open spec fn spec_json_middle(entries: Seq<(Seq<u8>, Seq<u8>)>) -> Seq<u8> {
    spec_concat(
        entries.map(
            |i: int, e: (Seq<u8>, Seq<u8>)|
                if i == 0 {
                    spec_json_item(e)
                } else {
                    seq![44u8] + spec_json_item(e)
                },
        ),
    )
}

/// The JSON rendering of a whole document: one flat object.
pub open spec fn spec_json_text(entries: Seq<(Seq<u8>, Seq<u8>)>) -> Seq<u8> {
    seq![123u8] + spec_json_middle(entries) + seq![125u8]
}

/// The document with the scalar under `path` replaced by `v`: the first
/// entry keyed `path` changes, every other entry stays; nothing if no entry
/// is keyed `path`.
pub open spec fn spec_rewrite(
    entries: Seq<(Seq<u8>, Seq<u8>)>,
    path: Seq<u8>,
    v: Seq<u8>,
) -> Option<Seq<(Seq<u8>, Seq<u8>)>>
    decreases entries.len(),
{
    if entries.len() == 0 {
        None
    } else if entries[0].0 == path {
        Some(seq![(path, v)] + entries.skip(1))
    } else {
        match spec_rewrite(entries.skip(1), path, v) {
            None => None,
            Some(rest) => Some(seq![entries[0]] + rest),
        }
    }
}

/// A key that the YAML rendering can carry on a line of its own: nonempty,
/// with no colon, quote, newline or backslash.
pub open spec fn wf_key(k: Seq<u8>) -> bool {
    k.len() >= 1 && forall|i: int|
        0 <= i < k.len() ==> #[trigger] k[i] != 58 && k[i] != 34 && k[i] != 10 && k[i] != 92
}

/// Every key of the document is well-formed.
pub open spec fn wf_entries(entries: Seq<(Seq<u8>, Seq<u8>)>) -> bool {
    forall|i: int| 0 <= i < entries.len() ==> wf_key(#[trigger] entries[i].0)
}

/// Scanning a rendered key finds exactly that key.
proof fn lemma_scan_key_at(s: Seq<u8>, i: int, key: Seq<u8>)
    requires
        0 <= i,
        i + key.len() + 1 <= s.len(),
        forall|j: int| 0 <= j < key.len() ==> s[i + j] == #[trigger] key[j],
        s[i + key.len()] == 58,
        forall|j: int|
            0 <= j < key.len() ==> #[trigger] key[j] != 58 && key[j] != 34 && key[j] != 10
                && key[j] != 92,
    ensures
        spec_scan_key(s, i) == Some((key, i + key.len() + 1)),
    decreases key.len(),
{
    if key.len() == 0 {
        assert(s[i] == 58);
    } else {
        assert(s[i] == key[0]);
        assert(forall|j: int|
            0 <= j < key.skip(1).len() ==> #[trigger] key.skip(1)[j] == key[1 + j]);
        lemma_scan_key_at(s, i + 1, key.skip(1));
        assert(seq![s[i]] + key.skip(1) =~= key);
    }
}

/// Scanning the escaped rendering of a scalar, up to its closing quote,
/// recovers exactly that scalar.
proof fn lemma_scan_value_escaped(s: Seq<u8>, i: int, v: Seq<u8>)
    requires
        0 <= i,
        i + spec_escape(v).len() + 1 <= s.len(),
        forall|j: int| 0 <= j < spec_escape(v).len() ==> s[i + j] == #[trigger] spec_escape(v)[j],
        s[i + spec_escape(v).len()] == 34,
    ensures
        spec_scan_value(s, i) == Some((v, i + spec_escape(v).len() + 1)),
    decreases v.len(),
{
    if v.len() == 0 {
        assert(s[i] == 34);
    } else {
        let e0 = esc_byte(v[0]);
        let rest = spec_escape(v.skip(1));
        assert(spec_escape(v) == e0 + rest);
        let n0 = e0.len() as int;
        assert(forall|j: int| 0 <= j < rest.len() ==> #[trigger] rest[j] == spec_escape(v)[n0 + j]);
        assert(forall|j: int| 0 <= j < rest.len() ==> s[i + n0 + j] == #[trigger] rest[j]);
        assert(spec_escape(v).len() == n0 + rest.len());
        if v[0] == 92 || v[0] == 34 || v[0] == 10 || v[0] == 13 || v[0] == 9 {
            assert(n0 == 2);
            assert(spec_escape(v)[0] == 92);
            assert(s[i] == 92);
            assert(spec_escape(v)[1] == e0[1]);
            assert(s[i + 1] == e0[1]);
            assert(unesc_byte(s[i + 1]) == Some(v[0]));
            lemma_scan_value_escaped(s, i + 2, v.skip(1));
            assert(seq![v[0]] + v.skip(1) =~= v);
        } else {
            assert(n0 == 1);
            assert(spec_escape(v)[0] == v[0]);
            assert(s[i] == v[0]);
            lemma_scan_value_escaped(s, i + 1, v.skip(1));
            assert(seq![v[0]] + v.skip(1) =~= v);
        }
    }
}

/// Parsing the YAML rendering of a well-formed document, from position `i`
/// at which the rendering stands, recovers exactly its entries.
proof fn lemma_parse_entries_of_yaml(s: Seq<u8>, i: int, entries: Seq<(Seq<u8>, Seq<u8>)>)
    requires
        0 <= i <= s.len(),
        s.len() == i + spec_yaml_text(entries).len(),
        forall|j: int|
            0 <= j < spec_yaml_text(entries).len() ==> s[i + j] == #[trigger] spec_yaml_text(
                entries,
            )[j],
        wf_entries(entries),
    ensures
        spec_parse_entries(s, i) == Some(entries),
    decreases entries.len(),
{
    let text = spec_yaml_text(entries);
    let mapped = entries.map_values(|e: (Seq<u8>, Seq<u8>)| spec_yaml_line(e.0, e.1));
    if entries.len() == 0 {
        assert(mapped =~= Seq::<Seq<u8>>::empty());
        assert(text.len() == 0);
        assert(i == s.len());
    } else {
        let key = entries[0].0;
        let value = entries[0].1;
        let line = spec_yaml_line(key, value);
        let rest_text = spec_yaml_text(entries.skip(1));
        assert(mapped[0] == line);
        assert(mapped.skip(1) =~= entries.skip(1).map_values(
            |e: (Seq<u8>, Seq<u8>)| spec_yaml_line(e.0, e.1),
        ));
        assert(text == line + rest_text);
        assert(forall|j: int| 0 <= j < line.len() ==> #[trigger] line[j] == text[j]);
        assert(forall|j: int|
            0 <= j < rest_text.len() ==> #[trigger] rest_text[j] == text[line.len() + j]);

        let kl = key.len() as int;
        let el = spec_escape(value).len() as int;
        // The line is key ++ ": \"" ++ escaped value ++ "\"\n".
        assert(line.len() == kl + 3 + el + 2);
        assert(forall|j: int| 0 <= j < kl ==> #[trigger] key[j] == line[j]);
        assert(forall|j: int| 0 <= j < kl ==> s[i + j] == #[trigger] key[j]);
        assert(line[kl] == 58);
        assert(s[i + kl] == 58);
        assert(wf_key(key));
        lemma_scan_key_at(s, i, key);
        assert(line[kl + 1] == 32);
        assert(s[i + kl + 1] == 32);
        assert(line[kl + 2] == 34);
        assert(s[i + kl + 2] == 34);
        assert(forall|j: int|
            0 <= j < el ==> #[trigger] spec_escape(value)[j] == line[kl + 3 + j]);
        assert(forall|j: int|
            0 <= j < el ==> s[i + kl + 3 + j] == #[trigger] spec_escape(value)[j]);
        assert(line[kl + 3 + el] == 34);
        assert(s[i + kl + 3 + el] == 34);
        lemma_scan_value_escaped(s, i + kl + 3, value);
        let m = i + kl + 3 + el + 1;
        assert(line[kl + 3 + el + 1] == 10);
        assert(s[m] == 10);
        assert(forall|j: int|
            0 <= j < rest_text.len() ==> s[m + 1 + j] == #[trigger] rest_text[j]);
        lemma_parse_entries_of_yaml(s, m + 1, entries.skip(1));
        assert(seq![(key, value)] + entries.skip(1) =~= entries);
    }
}

/// The members of a JSON rendering after the first, each preceded by its
/// comma.
pub open spec fn spec_json_tail(entries: Seq<(Seq<u8>, Seq<u8>)>) -> Seq<u8> {
    spec_concat(entries.map_values(|e: (Seq<u8>, Seq<u8>)| seq![44u8] + spec_json_item(e)))
}

/// Scanning the rendering of one member and what follows it, the members
/// of the rest comma-prefixed and the closing brace ending the text,
/// recovers exactly the entries.
proof fn lemma_parse_json_members_of_text(s: Seq<u8>, i: int, entries: Seq<(Seq<u8>, Seq<u8>)>)
    requires
        entries.len() >= 1,
        0 <= i,
        s.len() == i + (spec_json_item(entries[0]) + spec_json_tail(entries.skip(1))
            + seq![125u8]).len(),
        forall|j: int|
            0 <= j < (spec_json_item(entries[0]) + spec_json_tail(entries.skip(1))
                + seq![125u8]).len() ==> s[i + j] == #[trigger] (spec_json_item(entries[0])
                + spec_json_tail(entries.skip(1)) + seq![125u8])[j],
    ensures
        spec_parse_json_members(s, i) == Some(entries),
    decreases entries.len(),
{
    let k0 = entries[0].0;
    let v0 = entries[0].1;
    let item = spec_json_item(entries[0]);
    let tail = spec_json_tail(entries.skip(1));
    let t = item + tail + seq![125u8];
    let ekl = spec_escape(k0).len() as int;
    let evl = spec_escape(v0).len() as int;
    assert(item == seq![34u8] + spec_escape(k0) + seq![34u8, 58u8, 34u8] + spec_escape(v0)
        + seq![34u8]);
    assert(item.len() == ekl + evl + 5);
    assert(forall|j: int| 0 <= j < item.len() ==> #[trigger] item[j] == t[j]);
    assert(forall|j: int| 0 <= j < item.len() ==> s[i + j] == #[trigger] item[j]);
    assert(item[0] == 34);
    assert(s[i] == 34);
    assert(forall|j: int| 0 <= j < ekl ==> #[trigger] spec_escape(k0)[j] == item[1 + j]);
    assert(forall|j: int| 0 <= j < ekl ==> s[i + 1 + j] == #[trigger] spec_escape(k0)[j]);
    assert(item[1 + ekl] == 34);
    assert(s[i + 1 + ekl] == 34);
    lemma_scan_value_escaped(s, i + 1, k0);
    let jpos = i + 2 + ekl;
    assert(item[2 + ekl] == 58);
    assert(s[jpos] == 58);
    assert(item[3 + ekl] == 34);
    assert(s[jpos + 1] == 34);
    assert(forall|j: int| 0 <= j < evl ==> #[trigger] spec_escape(v0)[j] == item[4 + ekl + j]);
    assert(forall|j: int| 0 <= j < evl ==> s[jpos + 2 + j] == #[trigger] spec_escape(v0)[j]);
    assert(item[4 + ekl + evl] == 34);
    assert(s[jpos + 2 + evl] == 34);
    lemma_scan_value_escaped(s, jpos + 2, v0);
    let m = jpos + 2 + evl + 1;
    assert(m == i + item.len());
    if entries.len() == 1 {
        assert(entries.skip(1).map_values(|e: (Seq<u8>, Seq<u8>)| seq![44u8] + spec_json_item(e))
            =~= Seq::<Seq<u8>>::empty());
        assert(tail.len() == 0);
        assert(t[item.len() as int] == 125);
        assert(s[m] == 125);
        assert(m + 1 == s.len());
        assert(seq![(k0, v0)] =~= entries);
    } else {
        let rest_entries = entries.skip(1);
        let mt = rest_entries.map_values(|e: (Seq<u8>, Seq<u8>)| seq![44u8] + spec_json_item(e));
        assert(mt[0] == seq![44u8] + spec_json_item(rest_entries[0]));
        assert(tail == mt[0] + spec_concat(mt.skip(1)));
        assert(forall|j: int| 0 <= j < tail.len() ==> #[trigger] tail[j] == t[item.len() as int + j]);
        assert(forall|j: int| 0 <= j < tail.len() ==> s[m + j] == #[trigger] tail[j]);
        assert(tail[0] == 44);
        assert(s[m] == 44);
        assert(mt.skip(1) =~= rest_entries.skip(1).map_values(
            |e: (Seq<u8>, Seq<u8>)| seq![44u8] + spec_json_item(e),
        ));
        let item2 = spec_json_item(rest_entries[0]);
        let tail2 = spec_json_tail(rest_entries.skip(1));
        let t2 = item2 + tail2 + seq![125u8];
        assert(tail.len() == 1 + item2.len() + tail2.len());
        assert(s.len() == m + 1 + t2.len());
        assert(forall|j: int| 0 <= j < t2.len() - 1 ==> #[trigger] t2[j] == tail[1 + j]);
        assert(t2[t2.len() as int - 1] == 125);
        assert(t[t.len() as int - 1] == 125);
        assert(s[i + t.len() as int - 1] == 125);
        assert(forall|j: int| 0 <= j < t2.len() ==> s[m + 1 + j] == #[trigger] t2[j]);
        lemma_parse_json_members_of_text(s, m + 1, rest_entries);
        assert(seq![(k0, v0)] + rest_entries =~= entries);
    }
}

/// A committed store resource is valid JSON: rendering a document as a
/// flat JSON object and parsing the text back yields the same entries.
pub proof fn lemma_json_round_trip(entries: Seq<(Seq<u8>, Seq<u8>)>)
    ensures
        spec_parse_json(spec_json_text(entries)) == Some(entries),
{
    let s = spec_json_text(entries);
    let m = entries.map(
        |i: int, e: (Seq<u8>, Seq<u8>)|
            if i == 0 {
                spec_json_item(e)
            } else {
                seq![44u8] + spec_json_item(e)
            },
    );
    if entries.len() == 0 {
        assert(m =~= Seq::<Seq<u8>>::empty());
        assert(spec_json_middle(entries) == spec_concat(Seq::<Seq<u8>>::empty()));
        assert(s =~= seq![123u8, 125u8]);
    } else {
        assert(m[0] == spec_json_item(entries[0]));
        assert(m.skip(1) =~= entries.skip(1).map_values(
            |e: (Seq<u8>, Seq<u8>)| seq![44u8] + spec_json_item(e),
        ));
        assert(spec_json_middle(entries) == m[0] + spec_concat(m.skip(1)));
        let t = spec_json_item(entries[0]) + spec_json_tail(entries.skip(1)) + seq![125u8];
        assert(s =~= seq![123u8] + t);
        assert(s[0] == 123);
        assert(s.len() == 1 + t.len());
        assert(spec_json_item(entries[0]) == seq![34u8] + spec_escape(entries[0].0) + seq![
            34u8,
            58u8,
            34u8,
        ] + spec_escape(entries[0].1) + seq![34u8]);
        assert(spec_json_item(entries[0]).len() >= 5);
        assert(forall|j: int| 0 <= j < t.len() ==> s[1 + j] == #[trigger] t[j]);
        lemma_parse_json_members_of_text(s, 1, entries);
    }
}

/// A key scanned out of a document carries none of the delimiter bytes.
proof fn lemma_scan_key_chars(s: Seq<u8>, i: int)
    ensures
        spec_scan_key(s, i) matches Some(km) ==> forall|j: int|
            0 <= j < km.0.len() ==> #[trigger] km.0[j] != 58 && km.0[j] != 34 && km.0[j] != 10
                && km.0[j] != 92,
    decreases s.len() - i,
{
    if i < 0 || i >= s.len() {
    } else if s[i] == 58 {
    } else if s[i] == 34 || s[i] == 10 || s[i] == 92 {
    } else {
        lemma_scan_key_chars(s, i + 1);
        if spec_scan_key(s, i + 1) is Some {
            let tail = spec_scan_key(s, i + 1).unwrap().0;
            let whole = seq![s[i]] + tail;
            assert(forall|j: int|
                0 <= j < whole.len() ==> #[trigger] whole[j] != 58 && whole[j] != 34 && whole[j]
                    != 10 && whole[j] != 92);
        }
    }
}

/// A document that parses has well-formed keys, so what `emit_yaml` makes
/// of it parses back (see `lemma_yaml_round_trip`).
pub proof fn lemma_parsed_entries_are_wf(s: Seq<u8>, i: int)
    ensures
        spec_parse_entries(s, i) matches Some(en) ==> wf_entries(en),
    decreases s.len() - i,
{
    if i == s.len() {
    } else if i < 0 || i > s.len() {
    } else {
        lemma_scan_key_chars(s, i);
        match spec_scan_key(s, i) {
            None => {},
            Some(km) => {
                if km.0.len() == 0 {
                } else if km.1 + 2 <= s.len() && s[km.1] == 32 && s[km.1 + 1] == 34 {
                    match spec_scan_value(s, km.1 + 2) {
                        None => {},
                        Some(vm) => {
                            if vm.1 < s.len() && s[vm.1] == 10 && i < vm.1 + 1 <= s.len() {
                                lemma_parsed_entries_are_wf(s, vm.1 + 1);
                                match spec_parse_entries(s, vm.1 + 1) {
                                    None => {},
                                    Some(rest) => {
                                        let whole = seq![(km.0, vm.0)] + rest;
                                        assert(wf_key(km.0));
                                        assert(forall|k: int|
                                            0 <= k < whole.len() ==> wf_key(
                                                #[trigger] whole[k].0,
                                            ));
                                    },
                                }
                            }
                        },
                    }
                }
            },
        }
    }
}

/// Replacing a value keeps every key, so a rewritten document's keys are as
/// well-formed as they were.
pub proof fn lemma_rewrite_keeps_wf(entries: Seq<(Seq<u8>, Seq<u8>)>, path: Seq<u8>, v: Seq<u8>)
    requires
        wf_entries(entries),
    ensures
        spec_rewrite(entries, path, v) matches Some(en) ==> wf_entries(en),
    decreases entries.len(),
{
    if entries.len() == 0 {
    } else if entries[0].0 == path {
        let whole = seq![(path, v)] + entries.skip(1);
        assert(wf_key(entries[0].0));
        assert(forall|k: int|
            0 <= k < entries.skip(1).len() ==> wf_key(#[trigger] entries.skip(1)[k].0));
        assert(forall|k: int| 0 <= k < whole.len() ==> wf_key(#[trigger] whole[k].0));
    } else {
        assert(forall|k: int|
            0 <= k < entries.skip(1).len() ==> wf_key(#[trigger] entries.skip(1)[k].0));
        lemma_rewrite_keeps_wf(entries.skip(1), path, v);
        match spec_rewrite(entries.skip(1), path, v) {
            None => {},
            Some(rest) => {
                let whole = seq![entries[0]] + rest;
                assert(forall|k: int| 0 <= k < whole.len() ==> wf_key(#[trigger] whole[k].0));
            },
        }
    }
}

/// A rewritten file is valid YAML: serializing a document whose keys are
/// well-formed and parsing the text back yields the same entries.
pub proof fn lemma_yaml_round_trip(entries: Seq<(Seq<u8>, Seq<u8>)>)
    requires
        wf_entries(entries),
    ensures
        spec_parse_entries(spec_yaml_text(entries), 0) == Some(entries),
{
    let s = spec_yaml_text(entries);
    lemma_parse_entries_of_yaml(s, 0, entries);
}

/// The byte `unesc_byte` maps an escape code to.
fn unescape_byte(c: u8) -> (r: Option<u8>)
    ensures
        r == unesc_byte(c),
{
    if c == 92 {
        Some(92)
    } else if c == 34 {
        Some(34)
    } else if c == 110 {
        Some(10)
    } else if c == 114 {
        Some(13)
    } else if c == 116 {
        Some(9)
    } else {
        None
    }
}

/// Renders a scalar in its escaped form.
#[verifier::loop_isolation(false)]
pub fn escape_bytes(v: &Vec<u8>) -> (r: Vec<u8>)
    ensures
        r@ == spec_escape(v@),
{
    let mut out: Vec<u8> = Vec::new();
    proof {
        assert(v@.skip(0) =~= v@);
        assert(Seq::<u8>::empty() + spec_escape(v@) =~= spec_escape(v@));
    }
    let mut i: usize = 0;
    while i < v.len()
        invariant
            i <= v@.len(),
            spec_escape(v@) == out@ + spec_escape(v@.skip(i as int)),
        decreases v@.len() - i,
    {
        let ghost prev = out@;
        let c = v[i];
        if c == 92 {
            out.push(92);
            out.push(92);
        } else if c == 34 {
            out.push(92);
            out.push(34);
        } else if c == 10 {
            out.push(92);
            out.push(110);
        } else if c == 13 {
            out.push(92);
            out.push(114);
        } else if c == 9 {
            out.push(92);
            out.push(116);
        } else {
            out.push(c);
        }
        proof {
            assert(out@ =~= prev + esc_byte(c));
            assert(v@.skip(i as int)[0] == v@[i as int]);
            assert(v@.skip(i as int).skip(1) =~= v@.skip(i as int + 1));
            assert(prev + (esc_byte(c) + spec_escape(v@.skip(i as int + 1))) =~= (prev + esc_byte(
                c,
            )) + spec_escape(v@.skip(i as int + 1)));
        }
        i = i + 1;
    }
    proof {
        assert(spec_escape(v@.skip(i as int)) =~= Seq::<u8>::empty());
        assert(out@ + Seq::<u8>::empty() =~= out@);
    }
    out
}

/// Scans a key as `spec_scan_key` describes it.
#[verifier::loop_isolation(false)]
fn scan_key(s: &Vec<u8>, i: usize) -> (r: Option<(Vec<u8>, usize)>)
    ensures
        match r {
            Some(km) => {
                &&& spec_scan_key(s@, i as int) == Some((km.0@, km.1 as int))
                &&& i < km.1 <= s@.len()
            },
            None => spec_scan_key(s@, i as int) is None,
        },
{
    let mut acc: Vec<u8> = Vec::new();
    let mut j: usize = i;
    while j < s.len()
        invariant
            i <= j,
            match spec_scan_key(s@, j as int) {
                Some(km) => spec_scan_key(s@, i as int) == Some((acc@ + km.0, km.1)),
                None => spec_scan_key(s@, i as int) is None,
            },
        decreases s@.len() - j,
    {
        let c = s[j];
        if c == 58 {
            proof {
                assert(acc@ + Seq::<u8>::empty() =~= acc@);
            }
            return Some((acc, j + 1));
        }
        if c == 34 || c == 10 || c == 92 {
            return None;
        }
        proof {
            if spec_scan_key(s@, j as int + 1) is Some {
                let km = spec_scan_key(s@, j as int + 1).unwrap();
                assert(spec_scan_key(s@, j as int) == Some((seq![s@[j as int]] + km.0, km.1)));
                assert(acc@.push(s@[j as int]) + km.0 =~= acc@ + (seq![s@[j as int]] + km.0));
            }
        }
        acc.push(c);
        j = j + 1;
    }
    None
}

/// Scans a double-quoted scalar as `spec_scan_value` describes it.
#[verifier::loop_isolation(false)]
fn scan_value(s: &Vec<u8>, i: usize) -> (r: Option<(Vec<u8>, usize)>)
    ensures
        match r {
            Some(vm) => {
                &&& spec_scan_value(s@, i as int) == Some((vm.0@, vm.1 as int))
                &&& i < vm.1 <= s@.len()
            },
            None => spec_scan_value(s@, i as int) is None,
        },
{
    let mut acc: Vec<u8> = Vec::new();
    let mut j: usize = i;
    while j < s.len()
        invariant
            i <= j,
            match spec_scan_value(s@, j as int) {
                Some(vm) => spec_scan_value(s@, i as int) == Some((acc@ + vm.0, vm.1)),
                None => spec_scan_value(s@, i as int) is None,
            },
        decreases s@.len() - j,
    {
        let c = s[j];
        if c == 34 {
            proof {
                assert(acc@ + Seq::<u8>::empty() =~= acc@);
            }
            return Some((acc, j + 1));
        }
        if c == 10 {
            return None;
        }
        if c == 92 {
            if j + 1 >= s.len() {
                return None;
            }
            let b = match unescape_byte(s[j + 1]) {
                Some(b) => b,
                None => {
                    return None;
                },
            };
            proof {
                if spec_scan_value(s@, j as int + 2) is Some {
                    let vm = spec_scan_value(s@, j as int + 2).unwrap();
                    assert(spec_scan_value(s@, j as int) == Some((seq![b] + vm.0, vm.1)));
                    assert(acc@.push(b) + vm.0 =~= acc@ + (seq![b] + vm.0));
                }
            }
            acc.push(b);
            j = j + 2;
        } else {
            proof {
                if spec_scan_value(s@, j as int + 1) is Some {
                    let vm = spec_scan_value(s@, j as int + 1).unwrap();
                    assert(spec_scan_value(s@, j as int) == Some((seq![s@[j as int]] + vm.0, vm.1)));
                    assert(acc@.push(s@[j as int]) + vm.0 =~= acc@ + (seq![s@[j as int]] + vm.0));
                }
            }
            acc.push(c);
            j = j + 1;
        }
    }
    None
}

/// Parses the bytes of a flat YAML document.  Anything that is not exactly
/// a sequence of `key: "value"` lines is rejected.
#[verifier::loop_isolation(false)]
pub fn parse_yaml_resource(bytes: &Vec<u8>) -> (r: Result<YamlResource, Error>)
    ensures
        r matches Ok(res) ==> spec_parse_entries(bytes@, 0) == Some(res@),
        (r is Err) <==> spec_parse_entries(bytes@, 0) is None,
        r matches Err(e) ==> e == Error::MalformedYaml,
{
    let mut entries: Vec<YamlEntry> = Vec::new();
    let mut i: usize = 0;
    while i < bytes.len()
        invariant
            i <= bytes@.len(),
            match spec_parse_entries(bytes@, i as int) {
                Some(rest) => spec_parse_entries(bytes@, 0) == Some(
                    entries@.map_values(|e: YamlEntry| (e.key@, e.value@)) + rest,
                ),
                None => spec_parse_entries(bytes@, 0) is None,
            },
        decreases bytes@.len() - i,
    {
        let (key, j) = match scan_key(bytes, i) {
            Some(km) => km,
            None => {
                return Err(Error::MalformedYaml);
            },
        };
        if key.len() == 0 {
            return Err(Error::MalformedYaml);
        }
        if bytes.len() - j < 2 || bytes[j] != 32 || bytes[j + 1] != 34 {
            return Err(Error::MalformedYaml);
        }
        let (value, m) = match scan_value(bytes, j + 2) {
            Some(vm) => vm,
            None => {
                return Err(Error::MalformedYaml);
            },
        };
        if m >= bytes.len() || bytes[m] != 10 {
            return Err(Error::MalformedYaml);
        }
        let ghost prev = entries@.map_values(|e: YamlEntry| (e.key@, e.value@));
        let ghost key_view = key@;
        let ghost value_view = value@;
        entries.push(YamlEntry { key, value });
        proof {
            assert(entries@.map_values(|e: YamlEntry| (e.key@, e.value@)) =~= prev.push(
                (key_view, value_view),
            ));
            if spec_parse_entries(bytes@, m + 1) is Some {
                let rest2 = spec_parse_entries(bytes@, m + 1).unwrap();
                assert(spec_parse_entries(bytes@, i as int) == Some(
                    seq![(key_view, value_view)] + rest2,
                ));
                assert(prev.push((key_view, value_view)) + rest2 =~= prev + (seq![
                    (key_view, value_view),
                ] + rest2));
            } else {
                assert(spec_parse_entries(bytes@, i as int) is None);
            }
        }
        i = m + 1;
    }
    proof {
        assert(spec_parse_entries(bytes@, i as int) == Some(Seq::<(Seq<u8>, Seq<u8>)>::empty()));
        assert(entries@.map_values(|e: YamlEntry| (e.key@, e.value@)) + Seq::<
            (Seq<u8>, Seq<u8>),
        >::empty() =~= entries@.map_values(|e: YamlEntry| (e.key@, e.value@)));
    }
    Ok(YamlResource { entries })
}

/// Parses the bytes of a flat JSON object with string members.  Anything
/// else, including trailing content after the closing brace, is rejected.
#[verifier::loop_isolation(false)]
pub fn parse_json_resource(bytes: &Vec<u8>) -> (r: Result<YamlResource, Error>)
    ensures
        r matches Ok(res) ==> spec_parse_json(bytes@) == Some(res@),
        (r is Err) <==> spec_parse_json(bytes@) is None,
        r matches Err(e) ==> e == Error::MalformedYaml,
{
    if bytes.len() == 0 || bytes[0] != 123 {
        return Err(Error::MalformedYaml);
    }
    if bytes.len() == 2 {
        if bytes[1] == 125 {
            let res = YamlResource { entries: Vec::new() };
            proof {
                assert(res@ =~= Seq::<(Seq<u8>, Seq<u8>)>::empty());
            }
            return Ok(res);
        }
    }
    let mut entries: Vec<YamlEntry> = Vec::new();
    let mut i: usize = 1;
    loop
        invariant
            1 <= i,
            match spec_parse_json_members(bytes@, i as int) {
                Some(rest) => spec_parse_json(bytes@) == Some(
                    entries@.map_values(|e: YamlEntry| (e.key@, e.value@)) + rest,
                ),
                None => spec_parse_json(bytes@) is None,
            },
        decreases bytes@.len() - i,
    {
        if i >= bytes.len() || bytes[i] != 34 {
            return Err(Error::MalformedYaml);
        }
        let (key, j) = match scan_value(bytes, i + 1) {
            Some(km) => km,
            None => {
                return Err(Error::MalformedYaml);
            },
        };
        if bytes.len() - j < 2 || bytes[j] != 58 || bytes[j + 1] != 34 {
            return Err(Error::MalformedYaml);
        }
        let (value, m) = match scan_value(bytes, j + 2) {
            Some(vm) => vm,
            None => {
                return Err(Error::MalformedYaml);
            },
        };
        let ghost prev = entries@.map_values(|e: YamlEntry| (e.key@, e.value@));
        let ghost key_view = key@;
        let ghost value_view = value@;
        if m < bytes.len() && bytes[m] == 125 && m + 1 == bytes.len() {
            entries.push(YamlEntry { key, value });
            proof {
                assert(entries@.map_values(|e: YamlEntry| (e.key@, e.value@)) =~= prev.push(
                    (key_view, value_view),
                ));
                assert(spec_parse_json_members(bytes@, i as int) == Some(
                    seq![(key_view, value_view)],
                ));
                assert(prev.push((key_view, value_view)) =~= prev + seq![(key_view, value_view)]);
            }
            return Ok(YamlResource { entries });
        }
        if m >= bytes.len() || bytes[m] != 44 {
            return Err(Error::MalformedYaml);
        }
        entries.push(YamlEntry { key, value });
        proof {
            assert(entries@.map_values(|e: YamlEntry| (e.key@, e.value@)) =~= prev.push(
                (key_view, value_view),
            ));
            if spec_parse_json_members(bytes@, m + 1) is Some {
                let rest2 = spec_parse_json_members(bytes@, m + 1).unwrap();
                assert(spec_parse_json_members(bytes@, i as int) == Some(
                    seq![(key_view, value_view)] + rest2,
                ));
                assert(prev.push((key_view, value_view)) + rest2 =~= prev + (seq![
                    (key_view, value_view),
                ] + rest2));
            } else {
                assert(spec_parse_json_members(bytes@, i as int) is None);
            }
        }
        i = m + 1;
    }
}

/// Parses a document in whichever of the two encodings it stands: the flat
/// JSON object form when it opens with a brace, the flat YAML line form
/// otherwise.
pub fn parse_document(bytes: &Vec<u8>) -> (r: Result<YamlResource, Error>)
    ensures
        r matches Ok(res) ==> spec_parse_document(bytes@) == Some(res@),
        (r is Err) <==> spec_parse_document(bytes@) is None,
        r matches Err(e) ==> e == Error::MalformedYaml,
{
    if bytes.len() >= 1 {
        if bytes[0] == 123 {
            return parse_json_resource(bytes);
        }
    }
    parse_yaml_resource(bytes)
}

/// Renders a document as YAML text, one `key: "value"` line per entry.
#[verifier::loop_isolation(false)]
pub fn emit_yaml(resource: &YamlResource) -> (r: Vec<u8>)
    ensures
        r@ == spec_yaml_text(resource@),
{
    let ghost mapped = resource@.map_values(|e: (Seq<u8>, Seq<u8>)| spec_yaml_line(e.0, e.1));
    let mut out: Vec<u8> = Vec::new();
    let mut i: usize = 0;
    while i < resource.entries.len()
        invariant
            i <= resource.entries@.len(),
            out@ == spec_concat(mapped.subrange(0, i as int)),
        decreases resource.entries@.len() - i,
    {
        let mut line = copy_range(&resource.entries[i].key, 0, resource.entries[i].key.len());
        line.push(58);
        line.push(32);
        line.push(34);
        let escaped = escape_bytes(&resource.entries[i].value);
        append_bytes(&mut line, &escaped);
        line.push(34);
        line.push(10);
        proof {
            let e = resource.entries@[i as int];
            assert(e.key@.subrange(0, e.key@.len() as int) =~= e.key@);
            assert(line@ =~= spec_yaml_line(e.key@, e.value@));
            assert(mapped[i as int] == spec_yaml_line(e.key@, e.value@));
            assert(mapped.subrange(0, i as int + 1) =~= mapped.subrange(0, i as int).push(
                mapped[i as int],
            ));
            lemma_concat_push(mapped.subrange(0, i as int), mapped[i as int]);
        }
        append_bytes(&mut out, &line);
        i = i + 1;
    }
    proof {
        assert(mapped.subrange(0, i as int) =~= mapped);
    }
    out
}

/// Renders a document as JSON text: one flat object with string members.
#[verifier::loop_isolation(false)]
pub fn emit_json(resource: &YamlResource) -> (r: Vec<u8>)
    ensures
        r@ == spec_json_text(resource@),
{
    let ghost mapped = resource@.map(
        |i: int, e: (Seq<u8>, Seq<u8>)|
            if i == 0 {
                spec_json_item(e)
            } else {
                seq![44u8] + spec_json_item(e)
            },
    );
    let mut out: Vec<u8> = Vec::new();
    out.push(123);
    let mut i: usize = 0;
    while i < resource.entries.len()
        invariant
            i <= resource.entries@.len(),
            out@ == seq![123u8] + spec_concat(mapped.subrange(0, i as int)),
        decreases resource.entries@.len() - i,
    {
        let mut item: Vec<u8> = Vec::new();
        if i > 0 {
            item.push(44);
        }
        item.push(34);
        let escaped_key = escape_bytes(&resource.entries[i].key);
        append_bytes(&mut item, &escaped_key);
        item.push(34);
        item.push(58);
        item.push(34);
        let escaped_value = escape_bytes(&resource.entries[i].value);
        append_bytes(&mut item, &escaped_value);
        item.push(34);
        proof {
            let e = resource.entries@[i as int];
            assert(resource@[i as int] == (e.key@, e.value@));
            assert(item@ =~= mapped[i as int]);
            assert(mapped.subrange(0, i as int + 1) =~= mapped.subrange(0, i as int).push(
                mapped[i as int],
            ));
            lemma_concat_push(mapped.subrange(0, i as int), mapped[i as int]);
            assert((seq![123u8] + spec_concat(mapped.subrange(0, i as int))) + item@ =~= seq![123u8]
                + (spec_concat(mapped.subrange(0, i as int)) + item@));
        }
        append_bytes(&mut out, &item);
        i = i + 1;
    }
    out.push(125);
    proof {
        assert(mapped.subrange(0, i as int) =~= mapped);
        assert(out@ =~= spec_json_text(resource@));
    }
    out
}

/// Replaces the scalar under `path`, keeping every other entry; fails when
/// the document has no such path.
#[verifier::loop_isolation(false)]
pub fn rewrite_value_at_path(
    resource: YamlResource,
    path: &Vec<u8>,
    new_value: &Vec<u8>,
) -> (r: Result<YamlResource, Error>)
    ensures
        r matches Ok(out) ==> spec_rewrite(resource@, path@, new_value@) == Some(out@),
        (r is Err) <==> spec_rewrite(resource@, path@, new_value@) is None,
        r matches Err(e) ==> e == Error::YamlPathMissing,
{
    let ghost pre = resource@;
    proof {
        assert(pre.skip(0) =~= pre);
    }
    let mut resource = resource;
    let mut i: usize = 0;
    while i < resource.entries.len()
        invariant
            i <= resource.entries@.len(),
            resource@ == pre,
            match spec_rewrite(pre.skip(i as int), path@, new_value@) {
                Some(rest) => spec_rewrite(pre, path@, new_value@) == Some(
                    pre.subrange(0, i as int) + rest,
                ),
                None => spec_rewrite(pre, path@, new_value@) is None,
            },
        decreases resource.entries@.len() - i,
    {
        proof {
            assert(pre.skip(i as int)[0] == pre[i as int]);
            assert(pre.skip(i as int).skip(1) =~= pre.skip(i as int + 1));
        }
        if bytes_eq(&resource.entries[i].key, path) {
            let entry = resource.entries.remove(i);
            let replacement = copy_range(new_value, 0, new_value.len());
            proof {
                assert(new_value@.subrange(0, new_value@.len() as int) =~= new_value@);
            }
            resource.entries.insert(i, YamlEntry { key: entry.key, value: replacement });
            proof {
                assert(spec_rewrite(pre.skip(i as int), path@, new_value@) == Some(
                    seq![(path@, new_value@)] + pre.skip(i as int + 1),
                ));
                assert(resource@ =~= pre.subrange(0, i as int) + (seq![(path@, new_value@)]
                    + pre.skip(i as int + 1)));
            }
            return Ok(resource);
        }
        i = i + 1;
    }
    proof {
        assert(pre.skip(i as int) =~= Seq::<(Seq<u8>, Seq<u8>)>::empty());
    }
    Err(Error::YamlPathMissing)
}

/// Rewrites the scalar under `yaml_location` to the new PEM and serializes
/// the whole document back, as JSON for the store, as YAML text for a file.
pub fn recreate_yaml_at_location_with_new_pem(
    resource: YamlResource,
    yaml_location: &Vec<u8>,
    new_pem: &Vec<u8>,
    encoding: RecreateYamlEncoding,
) -> (r: Result<Vec<u8>, Error>)
    ensures
        r matches Ok(out) ==> spec_rewrite(resource@, yaml_location@, new_pem@) matches Some(en)
            && out@ == (match encoding {
            RecreateYamlEncoding::Json => spec_json_text(en),
            RecreateYamlEncoding::Yaml => spec_yaml_text(en),
        }),
        (r is Err) <==> spec_rewrite(resource@, yaml_location@, new_pem@) is None,
        r matches Err(e) ==> e == Error::YamlPathMissing,
{
    let rewritten = match rewrite_value_at_path(resource, yaml_location, new_pem) {
        Ok(res) => res,
        Err(e) => {
            return Err(e);
        },
    };
    match encoding {
        RecreateYamlEncoding::Json => Ok(emit_json(&rewritten)),
        RecreateYamlEncoding::Yaml => Ok(emit_yaml(&rewritten)),
    }
}

} // verus!
