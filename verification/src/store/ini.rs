//! `<key> = <value>`, one per line: the shape every per-cart preference on the card is
//! written in, at the layer that knows nothing about what a value means.
//!
//! Two rules, both because a person edits these files in a text editor on a card:
//!
//! - Every malformed line is skipped rather than raised.
//! - A write replaces one line in place and never rebuilds the file from the map, so every
//!   comment, blank line and unparsed line survives.
//!
//! The functions here take and give the file's text; reading and writing the file itself is
//! the caller's.
use crate::text::{
    all_ws, append_range, append_str, chars_eq, chars_of, find_char, index_of, is_ws,
    lemma_index_of, lemma_index_of_is, lemma_lines_no_newline, lemma_trim_commutes,
    lemma_trim_end_shape, lemma_trim_end_stops, lemma_trim_start_idem, lemma_trim_start_shape,
    lemma_trim_start_stops, lemma_trim_ws_around, line_ranges, lines, ranges_are, split_once,
    string_of, strip_cr, trim, trim_end, trim_range, trim_start,
};
use vstd::prelude::*;

verus! {

// ---------------------------------------------------------------------------------------------
// What a file says
// ---------------------------------------------------------------------------------------------

/// The key and value one line names, if it names one: comments (`#`, `;`), section headers
/// (`[`), blank lines, lines with no `=` and lines with an empty key name nothing. Key and
/// value are trimmed; an empty value is kept.
pub open spec fn ini_entry(line: Seq<char>) -> Option<(Seq<char>, Seq<char>)> {
    let t = trim(line);
    if t.len() == 0 || t[0] == '#' || t[0] == ';' || t[0] == '[' {
        None
    } else {
        match split_once(t, '=') {
            None => None,
            Some((k, v)) => if trim(k).len() == 0 {
                None
            } else {
                Some((trim(k), trim(v)))
            },
        }
    }
}

/// What a run of lines says, a later line for a key replacing an earlier one.
pub open spec fn ini_lines_map(ls: Seq<Seq<char>>) -> Map<Seq<char>, Seq<char>>
    decreases ls.len(),
{
    if ls.len() == 0 {
        Map::empty()
    } else {
        let m = ini_lines_map(ls.drop_last());
        match ini_entry(ls.last()) {
            Some((k, v)) => m.insert(k, v),
            None => m,
        }
    }
}

/// What a file says: every key it names, with the value of its last line.
pub open spec fn ini_map(text: Seq<char>) -> Map<Seq<char>, Seq<char>> {
    ini_lines_map(lines(text))
}

/// `pairs` lists the map `m` exactly, each key once, in some order.
pub open spec fn lists_map(pairs: Seq<(Seq<char>, Seq<char>)>, m: Map<Seq<char>, Seq<char>>) -> bool {
    &&& forall|i: int, j: int|
        0 <= i < j < pairs.len() ==> (#[trigger] pairs[i]).0 != (#[trigger] pairs[j]).0
    &&& forall|i: int|
        0 <= i < pairs.len() ==> m.contains_key((#[trigger] pairs[i]).0) && m[pairs[i].0]
            == pairs[i].1
    &&& forall|k: Seq<char>|
        m.contains_key(k) ==> exists|i: int| 0 <= i < pairs.len() && (#[trigger] pairs[i]).0 == k
}

/// Owned key/value pairs, as character sequences.
pub open spec fn pairs_view(v: Seq<(String, String)>) -> Seq<(Seq<char>, Seq<char>)> {
    Seq::new(v.len(), |i: int| (v[i].0@, v[i].1@))
}

// ---------------------------------------------------------------------------------------------
// What a write does
// ---------------------------------------------------------------------------------------------

/// The key a line would be written under: whatever stands before its first `=`, trimmed.
/// Unlike `ini_entry` this does not look at comments, which is what `write` matches on.
pub open spec fn line_key(line: Seq<char>) -> Option<Seq<char>> {
    match split_once(line, '=') {
        Some((k, _)) => Some(trim(k)),
        None => None,
    }
}

pub open spec fn is_key_line(line: Seq<char>, key: Seq<char>) -> bool {
    line_key(line) == Some(key)
}

pub open spec fn has_key_line(ls: Seq<Seq<char>>, key: Seq<char>) -> bool {
    exists|i: int| 0 <= i < ls.len() && is_key_line(#[trigger] ls[i], key)
}

/// `<key> = <value>`.
pub open spec fn entry_line(key: Seq<char>, value: Seq<char>) -> Seq<char> {
    key + seq![' ', '=', ' '] + value
}

/// The lines of a file with the first line for `key` replaced by `entry` and every later
/// one dropped; every other line as it was.
pub open spec fn replace_key_lines(ls: Seq<Seq<char>>, key: Seq<char>, entry: Seq<char>) -> Seq<
    Seq<char>,
>
    decreases ls.len(),
{
    if ls.len() == 0 {
        Seq::empty()
    } else {
        let prev = replace_key_lines(ls.drop_last(), key, entry);
        if !is_key_line(ls.last(), key) {
            prev.push(ls.last())
        } else if has_key_line(ls.drop_last(), key) {
            prev
        } else {
            prev.push(entry)
        }
    }
}

/// The lines of a file with every line for `key` dropped.
pub open spec fn drop_key_lines(ls: Seq<Seq<char>>, key: Seq<char>) -> Seq<Seq<char>>
    decreases ls.len(),
{
    if ls.len() == 0 {
        Seq::empty()
    } else {
        let prev = drop_key_lines(ls.drop_last(), key);
        if is_key_line(ls.last(), key) {
            prev
        } else {
            prev.push(ls.last())
        }
    }
}

/// Lines put back together, each ended by a newline.
pub open spec fn join_lines(ls: Seq<Seq<char>>) -> Seq<char>
    decreases ls.len(),
{
    if ls.len() == 0 {
        Seq::empty()
    } else {
        join_lines(ls.drop_last()) + ls.last() + seq!['\n']
    }
}

/// The file `write` leaves: the key's line replaced in place, or appended when it had none.
/// Joining one more line appends it and its newline.
pub proof fn lemma_join_push(ls: Seq<Seq<char>>, l: Seq<char>)
    ensures
        join_lines(ls.push(l)) == join_lines(ls) + l + seq!['\n'],
{
    assert(ls.push(l).drop_last() == ls);
}

pub open spec fn ini_written(text: Seq<char>, key: Seq<char>, value: Seq<char>) -> Seq<char> {
    let ls = lines(text);
    let e = entry_line(key, value);
    let body = replace_key_lines(ls, key, e);
    join_lines(
        if has_key_line(ls, key) {
            body
        } else {
            body.push(e)
        },
    )
}

/// The file `remove` leaves: every line for the key gone, every other line as it was.
pub open spec fn ini_removed(text: Seq<char>, key: Seq<char>) -> Seq<char> {
    join_lines(drop_key_lines(lines(text), key))
}

// ---------------------------------------------------------------------------------------------
// Reading
// ---------------------------------------------------------------------------------------------

/// The entry the line `v[lo..hi]` names, as character vectors.
fn entry_in(v: &Vec<char>, lo: usize, hi: usize) -> (r: Option<(Vec<char>, Vec<char>)>)
    requires
        lo <= hi <= v.len(),
    ensures
        match r {
            Some((k, val)) => ini_entry(v@.subrange(lo as int, hi as int)) == Some((k@, val@)),
            None => ini_entry(v@.subrange(lo as int, hi as int)) is None,
        },
{
    let ghost line = v@.subrange(lo as int, hi as int);
    let (a, b) = trim_range(v, lo, hi);
    let ghost t = v@.subrange(a as int, b as int);
    if a == b || v[a] == '#' || v[a] == ';' || v[a] == '[' {
        assert(t.len() == 0 || t[0] == v@[a as int]);
        return None;
    }
    assert(t[0] == v@[a as int]);
    match find_char(v, a, b, '=') {
        None => None,
        Some(e) => {
            let (ka, kb) = trim_range(v, a, e);
            let (va, vb) = trim_range(v, e + 1, b);
            assert(t.take(e - a) == v@.subrange(a as int, e as int));
            assert(t.skip(e - a + 1) == v@.subrange(e + 1, b as int));
            if ka == kb {
                return None;
            }
            let mut k: Vec<char> = Vec::new();
            append_range(&mut k, v, ka, kb);
            let mut val: Vec<char> = Vec::new();
            append_range(&mut val, v, va, vb);
            assert(k@ == v@.subrange(ka as int, kb as int));
            assert(val@ == v@.subrange(va as int, vb as int));
            Some((k, val))
        },
    }
}

/// Where `key` stands in `pairs`, if it does.
fn position(pairs: &Vec<(Vec<char>, Vec<char>)>, key: &Vec<char>) -> (r: Option<usize>)
    ensures
        match r {
            Some(i) => i < pairs.len() && pairs@[i as int].0@ == key@,
            None => forall|i: int| 0 <= i < pairs.len() ==> pairs@[i].0@ != key@,
        },
{
    let mut i: usize = 0;
    while i < pairs.len()
        invariant
            i <= pairs.len(),
            forall|j: int| 0 <= j < i ==> pairs@[j].0@ != key@,
        decreases pairs.len() - i,
    {
        let ghost here = pairs@[i as int].0@;
        if chars_eq(&pairs[i].0, 0, pairs[i].0.len(), key, 0, key.len()) {
            assert(pairs@[i as int].0@.subrange(0, pairs@[i as int].0@.len() as int) == here);
            assert(key@.subrange(0, key@.len() as int) == key@);
            return Some(i);
        }
        assert(pairs@[i as int].0@.subrange(0, pairs@[i as int].0@.len() as int) == here);
        assert(key@.subrange(0, key@.len() as int) == key@);
        i += 1;
    }
    None
}

pub open spec fn vec_pairs_view(v: Seq<(Vec<char>, Vec<char>)>) -> Seq<(Seq<char>, Seq<char>)> {
    Seq::new(v.len(), |i: int| (v[i].0@, v[i].1@))
}

/// Every key the text names, with its value trimmed, as character vectors.
fn read_pairs(text: &str) -> (r: Vec<(Vec<char>, Vec<char>)>)
    ensures
        lists_map(vec_pairs_view(r@), ini_map(text@)),
{
    let v = chars_of(text);
    let ranges = line_ranges(&v);
    let ghost ls = lines(v@);
    let mut out: Vec<(Vec<char>, Vec<char>)> = Vec::new();
    let mut i: usize = 0;
    assert(ls.take(0) =~= Seq::<Seq<char>>::empty());
    while i < ranges.len()
        invariant
            i <= ranges.len(),
            ls == lines(v@),
            ranges_are(v@, ranges@, ls),
            lists_map(vec_pairs_view(out@), ini_lines_map(ls.take(i as int))),
        decreases ranges.len() - i,
    {
        let (lo, hi) = ranges[i];
        assert(ranges@[i as int].0 <= ranges@[i as int].1 <= v@.len());
        let ghost m0 = ini_lines_map(ls.take(i as int));
        assert(ls.take(i + 1).drop_last() == ls.take(i as int));
        assert(ls.take(i + 1).last() == ls[i as int]);
        match entry_in(&v, lo, hi) {
            None => {},
            Some((k, val)) => {
                let ghost m1 = m0.insert(k@, val@);
                match position(&out, &k) {
                    Some(j) => {
                        let ghost before = out@;
                        out.set(j, (k, val));
                        proof {
                            lemma_lists_set(vec_pairs_view(before), m0, j as int, (k@, val@));
                            assert(vec_pairs_view(out@) == vec_pairs_view(before).update(
                                j as int,
                                (k@, val@),
                            ));
                        }
                    },
                    None => {
                        let ghost before = out@;
                        out.push((k, val));
                        proof {
                            lemma_lists_push(vec_pairs_view(before), m0, (k@, val@));
                            assert(vec_pairs_view(out@) == vec_pairs_view(before).push((k@, val@)));
                        }
                    },
                }
            },
        }
        i += 1;
    }
    assert(ls.take(ranges.len() as int) == ls);
    out
}

proof fn lemma_lists_set(
    pairs: Seq<(Seq<char>, Seq<char>)>,
    m: Map<Seq<char>, Seq<char>>,
    j: int,
    kv: (Seq<char>, Seq<char>),
)
    requires
        lists_map(pairs, m),
        0 <= j < pairs.len(),
        pairs[j].0 == kv.0,
    ensures
        lists_map(pairs.update(j, kv), m.insert(kv.0, kv.1)),
{
    let p2 = pairs.update(j, kv);
    let m2 = m.insert(kv.0, kv.1);
    assert forall|k: Seq<char>| m2.contains_key(k) implies exists|i: int|
        0 <= i < p2.len() && (#[trigger] p2[i]).0 == k by {
        if k == kv.0 {
            assert(p2[j].0 == k);
        } else {
            let i = choose|i: int| 0 <= i < pairs.len() && (#[trigger] pairs[i]).0 == k;
            assert(p2[i].0 == k);
        }
    }
    assert forall|a: int, b: int| 0 <= a < b < p2.len() implies (#[trigger] p2[a]).0 != (
    #[trigger] p2[b]).0 by {
        assert(pairs[a].0 != pairs[b].0);
    }
    assert forall|i: int| 0 <= i < p2.len() implies m2.contains_key((#[trigger] p2[i]).0)
        && m2[p2[i].0] == p2[i].1 by {
        if i != j {
            assert(pairs[i].0 != pairs[j].0);
        }
    }
}

proof fn lemma_lists_push(
    pairs: Seq<(Seq<char>, Seq<char>)>,
    m: Map<Seq<char>, Seq<char>>,
    kv: (Seq<char>, Seq<char>),
)
    requires
        lists_map(pairs, m),
        forall|i: int| 0 <= i < pairs.len() ==> pairs[i].0 != kv.0,
    ensures
        lists_map(pairs.push(kv), m.insert(kv.0, kv.1)),
{
    let p2 = pairs.push(kv);
    let m2 = m.insert(kv.0, kv.1);
    assert forall|k: Seq<char>| m2.contains_key(k) implies exists|i: int|
        0 <= i < p2.len() && (#[trigger] p2[i]).0 == k by {
        if k == kv.0 {
            assert(p2[pairs.len() as int].0 == k);
        } else {
            let i = choose|i: int| 0 <= i < pairs.len() && (#[trigger] pairs[i]).0 == k;
            assert(p2[i].0 == k);
        }
    }
    assert forall|a: int, b: int| 0 <= a < b < p2.len() implies (#[trigger] p2[a]).0 != (
    #[trigger] p2[b]).0 by {
        if b < pairs.len() {
            assert(pairs[a].0 != pairs[b].0);
        }
    }
    assert forall|i: int| 0 <= i < p2.len() implies m2.contains_key((#[trigger] p2[i]).0)
        && m2[p2[i].0] == p2[i].1 by {
        if i < pairs.len() {
            assert(pairs[i].0 != kv.0);
        }
    }
}

/// Every key the file's text names, with its value trimmed. An empty value is kept; a later
/// line for the same key replaces an earlier one; a malformed line is skipped.
pub fn read(text: &str) -> (r: Vec<(String, String)>)
    ensures
        lists_map(pairs_view(r@), ini_map(text@)),
{
    let pairs = read_pairs(text);
    let mut out: Vec<(String, String)> = Vec::new();
    let mut i: usize = 0;
    while i < pairs.len()
        invariant
            i <= pairs.len(),
            out@.len() == i,
            forall|j: int| 0 <= j < i ==> pairs_view(out@)[j] == vec_pairs_view(pairs@)[j],
        decreases pairs.len() - i,
    {
        let k = string_of(&pairs[i].0);
        let val = string_of(&pairs[i].1);
        out.push((k, val));
        i += 1;
    }
    assert(pairs_view(out@) =~= vec_pairs_view(pairs@));
    out
}

/// One key's value, or `None` when the file's text does not name it.
pub fn value(text: &str, key: &str) -> (r: Option<String>)
    ensures
        match r {
            Some(s) => ini_map(text@).contains_key(key@) && ini_map(text@)[key@] == s@,
            None => !ini_map(text@).contains_key(key@),
        },
{
    let pairs = read_pairs(text);
    let k = chars_of(key);
    match position(&pairs, &k) {
        Some(j) => {
            assert(vec_pairs_view(pairs@)[j as int] == (pairs@[j as int].0@, pairs@[j as int].1@));
            Some(string_of(&pairs[j].1))
        },
        None => {
            proof {
                if ini_map(text@).contains_key(key@) {
                    let i = choose|i: int|
                        0 <= i < vec_pairs_view(pairs@).len() && (#[trigger] vec_pairs_view(
                            pairs@,
                        )[i]).0 == key@;
                    assert(pairs@[i].0@ != k@);
                }
            }
            None
        },
    }
}

// ---------------------------------------------------------------------------------------------
// Writing
// ---------------------------------------------------------------------------------------------

/// Whether the line `v[lo..hi]` is written under `key`.
fn key_line_at(v: &Vec<char>, lo: usize, hi: usize, key: &Vec<char>) -> (r: bool)
    requires
        lo <= hi <= v.len(),
    ensures
        r == is_key_line(v@.subrange(lo as int, hi as int), key@),
{
    let ghost line = v@.subrange(lo as int, hi as int);
    match find_char(v, lo, hi, '=') {
        None => false,
        Some(e) => {
            assert(line.take(e - lo) == v@.subrange(lo as int, e as int));
            let (ka, kb) = trim_range(v, lo, e);
            let r = chars_eq(v, ka, kb, key, 0, key.len());
            assert(key@.subrange(0, key@.len() as int) == key@);
            r
        },
    }
}

proof fn lemma_has_key_line_push(ls: Seq<Seq<char>>, l: Seq<char>, key: Seq<char>)
    ensures
        has_key_line(ls.push(l), key) == (has_key_line(ls, key) || is_key_line(l, key)),
{
    let ls2 = ls.push(l);
    if has_key_line(ls, key) {
        let i = choose|i: int| 0 <= i < ls.len() && is_key_line(#[trigger] ls[i], key);
        assert(ls2[i] == ls[i]);
    }
    if is_key_line(l, key) {
        assert(ls2[ls.len() as int] == l);
    }
    if has_key_line(ls2, key) {
        let i = choose|i: int| 0 <= i < ls2.len() && is_key_line(#[trigger] ls2[i], key);
        if i < ls.len() {
            assert(ls2[i] == ls[i]);
        }
    }
}

/// Appends `l` and a newline.
fn push_line(out: &mut Vec<char>, l: &Vec<char>, lo: usize, hi: usize)
    requires
        lo <= hi <= l.len(),
    ensures
        final(out)@ == old(out)@ + l@.subrange(lo as int, hi as int) + seq!['\n'],
{
    append_range(out, l, lo, hi);
    out.push('\n');
}

/// The file's text with `key` set to `value`: its line replaced in place, or appended when
/// the file has none, and a later duplicate of it dropped. Every other line is kept as it
/// was, comments and blank lines included.
pub fn write(existing: &str, key: &str, value: &str) -> (r: String)
    ensures
        r@ == ini_written(existing@, key@, value@),
{
    let v = chars_of(existing);
    let k = chars_of(key);
    let mut entry = k.clone();
    append_str(&mut entry, " = ");
    append_str(&mut entry, value);
    proof {
        reveal_strlit(" = ");
        assert(" = "@ == seq![' ', '=', ' ']);
        assert(entry@ == entry_line(key@, value@));
    }
    let ranges = line_ranges(&v);
    let ghost ls = lines(v@);
    let mut out: Vec<char> = Vec::new();
    let mut replaced = false;
    let mut i: usize = 0;
    assert(ls.take(0) =~= Seq::<Seq<char>>::empty());
    while i < ranges.len()
        invariant
            i <= ranges.len(),
            ls == lines(v@),
            k@ == key@,
            entry@ == entry_line(key@, value@),
            ranges_are(v@, ranges@, ls),
            out@ == join_lines(replace_key_lines(ls.take(i as int), key@, entry@)),
            replaced == has_key_line(ls.take(i as int), key@),
        decreases ranges.len() - i,
    {
        let (lo, hi) = ranges[i];
        assert(ranges@[i as int].0 <= ranges@[i as int].1 <= v@.len());
        let ghost l = ls[i as int];
        assert(ls.take(i + 1).drop_last() == ls.take(i as int));
        assert(ls.take(i + 1).last() == l);
        proof {
            lemma_has_key_line_push(ls.take(i as int), l, key@);
            assert(ls.take(i as int).push(l) == ls.take(i + 1));
        }
        let is_key = key_line_at(&v, lo, hi, &k);
        let ghost prev = replace_key_lines(ls.take(i as int), key@, entry@);
        if !is_key {
            push_line(&mut out, &v, lo, hi);
            assert(join_lines(prev.push(l)) == join_lines(prev) + l + seq!['\n']) by {
                assert(prev.push(l).drop_last() == prev);
            }
        } else if !replaced {
            push_line(&mut out, &entry, 0, entry.len());
            assert(entry@.subrange(0, entry@.len() as int) == entry@);
            assert(join_lines(prev.push(entry@)) == join_lines(prev) + entry@ + seq!['\n']) by {
                assert(prev.push(entry@).drop_last() == prev);
            }
            replaced = true;
        }
        i += 1;
    }
    assert(ls.take(ranges.len() as int) == ls);
    if !replaced {
        let ghost prev = replace_key_lines(ls, key@, entry@);
        push_line(&mut out, &entry, 0, entry.len());
        assert(entry@.subrange(0, entry@.len() as int) == entry@);
        assert(join_lines(prev.push(entry@)) == join_lines(prev) + entry@ + seq!['\n']) by {
            assert(prev.push(entry@).drop_last() == prev);
        }
    }
    string_of(&out)
}

/// The file's text with every line for `key` dropped and every other line kept as it was.
pub fn remove(existing: &str, key: &str) -> (r: String)
    ensures
        r@ == ini_removed(existing@, key@),
{
    let v = chars_of(existing);
    let k = chars_of(key);
    let ranges = line_ranges(&v);
    let ghost ls = lines(v@);
    let mut out: Vec<char> = Vec::new();
    let mut i: usize = 0;
    assert(ls.take(0) =~= Seq::<Seq<char>>::empty());
    while i < ranges.len()
        invariant
            i <= ranges.len(),
            ls == lines(v@),
            k@ == key@,
            ranges_are(v@, ranges@, ls),
            out@ == join_lines(drop_key_lines(ls.take(i as int), key@)),
        decreases ranges.len() - i,
    {
        let (lo, hi) = ranges[i];
        assert(ranges@[i as int].0 <= ranges@[i as int].1 <= v@.len());
        let ghost l = ls[i as int];
        assert(ls.take(i + 1).drop_last() == ls.take(i as int));
        assert(ls.take(i + 1).last() == l);
        let ghost prev = drop_key_lines(ls.take(i as int), key@);
        if !key_line_at(&v, lo, hi, &k) {
            push_line(&mut out, &v, lo, hi);
            assert(join_lines(prev.push(l)) == join_lines(prev) + l + seq!['\n']) by {
                assert(prev.push(l).drop_last() == prev);
            }
        }
        i += 1;
    }
    assert(ls.take(ranges.len() as int) == ls);
    string_of(&out)
}

} // verus!

verus! {

// ---------------------------------------------------------------------------------------------
// Laws
// ---------------------------------------------------------------------------------------------

/// A key a person could have typed on the left of a line: not blank, no surrounding space,
/// no `=` or line break in it, and not starting like a comment or a section header.
pub open spec fn plain_key(k: Seq<char>) -> bool {
    &&& k.len() > 0
    &&& trim(k) == k
    &&& k[0] != '#' && k[0] != ';' && k[0] != '['
    &&& forall|i: int| 0 <= i < k.len() ==> #[trigger] k[i] != '=' && k[i] != '\n'
}

pub open spec fn no_newline(s: Seq<char>) -> bool {
    forall|i: int| 0 <= i < s.len() ==> #[trigger] s[i] != '\n'
}

pub open spec fn no_newlines(ls: Seq<Seq<char>>) -> bool {
    forall|i: int| 0 <= i < ls.len() ==> no_newline(#[trigger] ls[i])
}

proof fn lemma_trim_end_idem(s: Seq<char>)
    ensures
        trim_end(trim_end(s)) == trim_end(s),
{
    lemma_trim_end_shape(s);
}

proof fn lemma_trim_idem_parts(a: Seq<char>, b: Seq<char>)
    ensures
        trim(trim_start(a)) == trim(a),
        trim(trim_end(b)) == trim(b),
{
    lemma_trim_start_idem(a);
    lemma_trim_commutes(b);
    lemma_trim_end_idem(trim_start(b));
}

/// How a line with an `=` in it reads.
proof fn lemma_entry_split(l: Seq<char>)
    requires
        index_of(l, '=') >= 0,
    ensures
        ({
            let i = index_of(l, '=');
            let a = trim(l.take(i));
            ini_entry(l) == if a.len() == 0 || a[0] == '#' || a[0] == ';' || a[0] == '[' {
                None
            } else {
                Some((a, trim(l.skip(i + 1))))
            }
        }),
{
    lemma_index_of(l, '=');
    let i = index_of(l, '=');
    let a = l.take(i);
    let b = l.skip(i + 1);
    let eb = seq!['='] + b;
    assert(l == a + eb);
    lemma_trim_start_stops(a, eb);
    let a1 = trim_start(a);
    let y = a1 + seq!['='];
    assert(a1 + eb == y + b);
    lemma_trim_end_stops(y, b);
    let t = trim(l);
    assert(t == a1 + seq!['='] + trim_end(b));
    lemma_trim_start_shape(a);
    let p = choose|p: Seq<char>| all_ws(p) && a == p + trim_start(a);
    assert forall|j: int| 0 <= j < t.len() && j < a1.len() implies t[j] != '=' by {
        assert(t[j] == a1[j]);
        assert(a1[j] == a[p.len() + j]);
        assert(l[p.len() + j] == a[p.len() + j]);
    }
    lemma_index_of_is(t, '=', a1.len() as int);
    assert(t.take(a1.len() as int) == a1);
    assert(t.skip(a1.len() as int + 1) == trim_end(b));
    lemma_trim_idem_parts(a, b);
    if trim(a).len() > 0 {
        lemma_trim_end_shape(a1);
        let q = choose|q: Seq<char>| all_ws(q) && a1 == trim_end(a1) + q;
        assert(trim(a)[0] == a1[0]);
        assert(t[0] == a1[0]);
    } else if a1.len() > 0 {
        lemma_trim_end_shape(a1);
        assert(!is_ws(a1[0]));
        assert(all_ws(a1));
    }
}

/// A line with no `=` in it names nothing.
proof fn lemma_entry_no_eq(l: Seq<char>)
    requires
        index_of(l, '=') < 0,
    ensures
        ini_entry(l) is None,
        line_key(l) is None,
{
    lemma_index_of(l, '=');
    lemma_trim_start_shape(l);
    let p = choose|p: Seq<char>| all_ws(p) && l == p + trim_start(l);
    let s1 = trim_start(l);
    lemma_trim_end_shape(s1);
    let q = choose|q: Seq<char>| all_ws(q) && s1 == trim_end(s1) + q;
    let t = trim(l);
    assert forall|j: int| 0 <= j < t.len() implies t[j] != '=' by {
        assert(t[j] == s1[j]);
        assert(s1[j] == l[p.len() + j]);
    }
    lemma_index_of_is(t, '=', -1);
}

/// For a plain key, the lines `write` matches are exactly the lines that name the key.
proof fn lemma_key_line_entry(l: Seq<char>, k: Seq<char>)
    requires
        plain_key(k),
    ensures
        is_key_line(l, k) ==> ini_entry(l) == Some((k, trim(l.skip(index_of(l, '=') + 1)))),
        (ini_entry(l) matches Some((k2, _)) && k2 == k) ==> is_key_line(l, k),
{
    if index_of(l, '=') >= 0 {
        lemma_entry_split(l);
    } else {
        lemma_entry_no_eq(l);
    }
}

/// The line `write` puts in reads back as the key and the trimmed value.
proof fn lemma_entry_line(k: Seq<char>, v: Seq<char>)
    requires
        plain_key(k),
    ensures
        ini_entry(entry_line(k, v)) == Some((k, trim(v))),
        is_key_line(entry_line(k, v), k),
{
    let e = entry_line(k, v);
    assert forall|j: int| 0 <= j < e.len() && j < k.len() + 1 implies e[j] != '=' by {
        if j < k.len() {
            assert(e[j] == k[j]);
        } else {
            assert(e[j] == ' ');
        }
    }
    assert(e[k.len() as int + 1] == '=');
    lemma_index_of_is(e, '=', k.len() as int + 1);
    lemma_entry_split(e);
    let sp = seq![' '];
    assert(all_ws(sp)) by {
        assert(is_ws(sp[0]));
    }
    assert(all_ws(Seq::<char>::empty()));
    assert(e.take(k.len() as int + 1) == Seq::<char>::empty() + k + sp);
    lemma_trim_ws_around(Seq::empty(), k, sp);
    assert(e.skip(k.len() as int + 2) == sp + v + Seq::<char>::empty());
    lemma_trim_ws_around(sp, v, Seq::empty());
    lemma_key_line_entry(e, k);
}

/// A carriage return at the end of a line changes nothing it says.
proof fn lemma_strip_cr_entry(l: Seq<char>)
    ensures
        ini_entry(strip_cr(l)) == ini_entry(l),
{
    if l.len() > 0 && l.last() == '\r' {
        let l0 = l.drop_last();
        assert(l == l0 + seq!['\r']);
        lemma_index_of(l0, '=');
        if index_of(l0, '=') >= 0 {
            let i = index_of(l0, '=');
            assert forall|j: int| 0 <= j < l.len() && j < i implies l[j] != '=' by {
                assert(l[j] == l0[j]);
            }
            lemma_index_of_is(l, '=', i);
            lemma_entry_split(l);
            lemma_entry_split(l0);
            assert(l.take(i) == l0.take(i));
            assert(l.skip(i + 1) == l0.skip(i + 1) + seq!['\r']);
            let cr = seq!['\r'];
            assert(all_ws(cr)) by {
                assert(is_ws(cr[0]));
            }
            assert(all_ws(Seq::<char>::empty()));
            assert(l0.skip(i + 1) + cr == Seq::<char>::empty() + l0.skip(i + 1) + cr);
            lemma_trim_ws_around(Seq::empty(), l0.skip(i + 1), cr);
        } else {
            assert forall|j: int| 0 <= j < l.len() implies l[j] != '=' by {
                if j < l0.len() {
                    assert(l[j] == l0[j]);
                }
            }
            lemma_index_of_is(l, '=', -1);
            lemma_entry_no_eq(l);
            lemma_entry_no_eq(l0);
        }
    }
}

pub open spec fn strip_crs(ls: Seq<Seq<char>>) -> Seq<Seq<char>> {
    Seq::new(ls.len(), |i: int| strip_cr(ls[i]))
}

proof fn lemma_map_strip_cr(ls: Seq<Seq<char>>)
    ensures
        ini_lines_map(strip_crs(ls)) == ini_lines_map(ls),
    decreases ls.len(),
{
    if ls.len() > 0 {
        assert(strip_crs(ls).drop_last() == strip_crs(ls.drop_last()));
        lemma_map_strip_cr(ls.drop_last());
        lemma_strip_cr_entry(ls.last());
    }
}

proof fn lemma_lines_of_line(l: Seq<char>, y: Seq<char>)
    requires
        no_newline(l),
    ensures
        lines(l + seq!['\n'] + y) == seq![strip_cr(l)] + lines(y),
{
    let s = l + seq!['\n'] + y;
    assert forall|j: int| 0 <= j < s.len() && j < l.len() implies s[j] != '\n' by {
        assert(s[j] == l[j]);
    }
    assert(s[l.len() as int] == '\n');
    lemma_index_of_is(s, '\n', l.len() as int);
    assert(s.take(l.len() as int) == l);
    assert(s.skip(l.len() as int + 1) == y);
}

pub proof fn lemma_lines_join(ls: Seq<Seq<char>>, y: Seq<char>)
    requires
        no_newlines(ls),
    ensures
        lines(join_lines(ls) + y) == strip_crs(ls) + lines(y),
    decreases ls.len(),
{
    if ls.len() == 0 {
        assert(join_lines(ls) + y == y);
        assert(strip_crs(ls) + lines(y) == lines(y));
    } else {
        let l = ls.last();
        let ls0 = ls.drop_last();
        assert(no_newlines(ls0)) by {
            assert forall|i: int| 0 <= i < ls0.len() implies no_newline(#[trigger] ls0[i]) by {
                assert(ls0[i] == ls[i]);
            }
        }
        assert(no_newline(l)) by {
            assert(l == ls[ls.len() - 1]);
        }
        assert(join_lines(ls) + y == join_lines(ls0) + (l + seq!['\n'] + y));
        lemma_lines_join(ls0, l + seq!['\n'] + y);
        lemma_lines_of_line(l, y);
        assert(strip_crs(ls) == strip_crs(ls0).push(strip_cr(l)));
        assert(strip_crs(ls0) + (seq![strip_cr(l)] + lines(y)) == strip_crs(ls) + lines(y));
    }
}

proof fn lemma_replace_key_lines(ls: Seq<Seq<char>>, k: Seq<char>, e: Seq<char>, ev: Seq<char>)
    requires
        plain_key(k),
        ini_entry(e) == Some((k, ev)),
    ensures
        has_key_line(ls, k) ==> ini_lines_map(replace_key_lines(ls, k, e)) == ini_lines_map(
            ls,
        ).insert(k, ev),
        !has_key_line(ls, k) ==> replace_key_lines(ls, k, e) == ls && !ini_lines_map(
            ls,
        ).contains_key(k),
    decreases ls.len(),
{
    if ls.len() > 0 {
        let l = ls.last();
        let ls0 = ls.drop_last();
        lemma_replace_key_lines(ls0, k, e, ev);
        lemma_has_key_line_push(ls0, l, k);
        assert(ls0.push(l) == ls);
        lemma_key_line_entry(l, k);
        let r0 = replace_key_lines(ls0, k, e);
        if !is_key_line(l, k) {
            assert(replace_key_lines(ls, k, e) == r0.push(l));
            assert(r0.push(l).drop_last() == r0);
            if has_key_line(ls0, k) {
                assert(ini_lines_map(ls0.push(l)) == ini_lines_map(ls));
                match ini_entry(l) {
                    Some((k2, v2)) => {
                        assert(k2 != k);
                        assert(ini_lines_map(r0).insert(k2, v2) == ini_lines_map(ls0).insert(
                            k,
                            ev,
                        ).insert(k2, v2));
                        assert(ini_lines_map(ls0).insert(k, ev).insert(k2, v2)
                            =~= ini_lines_map(ls0).insert(k2, v2).insert(k, ev));
                    },
                    None => {},
                }
            }
        } else if has_key_line(ls0, k) {
            assert(ini_lines_map(ls0).insert(k, ev) =~= ini_lines_map(ls0).insert(
                k,
                trim(l.skip(index_of(l, '=') + 1)),
            ).insert(k, ev));
        } else {
            assert(replace_key_lines(ls, k, e) == r0.push(e));
            assert(r0.push(e).drop_last() == r0);
            assert(ini_lines_map(ls0).insert(k, ev) =~= ini_lines_map(ls0).insert(
                k,
                trim(l.skip(index_of(l, '=') + 1)),
            ).insert(k, ev));
        }
    }
}

proof fn lemma_drop_key_lines(ls: Seq<Seq<char>>, k: Seq<char>)
    requires
        plain_key(k),
    ensures
        ini_lines_map(drop_key_lines(ls, k)) == ini_lines_map(ls).remove(k),
    decreases ls.len(),
{
    if ls.len() == 0 {
        assert(Map::<Seq<char>, Seq<char>>::empty().remove(k) =~= Map::empty());
    } else {
        let l = ls.last();
        let ls0 = ls.drop_last();
        lemma_drop_key_lines(ls0, k);
        lemma_key_line_entry(l, k);
        let d0 = drop_key_lines(ls0, k);
        if is_key_line(l, k) {
            assert(ini_lines_map(ls0).remove(k) =~= ini_lines_map(ls0).insert(
                k,
                trim(l.skip(index_of(l, '=') + 1)),
            ).remove(k));
        } else {
            assert(d0.push(l).drop_last() == d0);
            match ini_entry(l) {
                Some((k2, v2)) => {
                    assert(ini_lines_map(ls0).remove(k).insert(k2, v2) =~= ini_lines_map(
                        ls0,
                    ).insert(k2, v2).remove(k));
                },
                None => {},
            }
        }
    }
}

proof fn lemma_replace_no_newlines(ls: Seq<Seq<char>>, k: Seq<char>, e: Seq<char>)
    requires
        no_newlines(ls),
        no_newline(e),
    ensures
        no_newlines(replace_key_lines(ls, k, e)),
    decreases ls.len(),
{
    if ls.len() > 0 {
        let ls0 = ls.drop_last();
        assert(no_newlines(ls0)) by {
            assert forall|i: int| 0 <= i < ls0.len() implies no_newline(#[trigger] ls0[i]) by {
                assert(ls0[i] == ls[i]);
            }
        }
        lemma_replace_no_newlines(ls0, k, e);
        let r0 = replace_key_lines(ls0, k, e);
        assert(no_newline(ls.last())) by {
            assert(ls.last() == ls[ls.len() - 1]);
        }
        assert forall|x: Seq<char>| no_newline(x) implies no_newlines(r0.push(x)) by {
            assert forall|i: int| 0 <= i < r0.push(x).len() implies no_newline(
                #[trigger] r0.push(x)[i],
            ) by {
                if i < r0.len() {
                    assert(r0.push(x)[i] == r0[i]);
                }
            }
        }
    }
}

proof fn lemma_drop_no_newlines(ls: Seq<Seq<char>>, k: Seq<char>)
    requires
        no_newlines(ls),
    ensures
        no_newlines(drop_key_lines(ls, k)),
    decreases ls.len(),
{
    if ls.len() > 0 {
        let ls0 = ls.drop_last();
        assert(no_newlines(ls0)) by {
            assert forall|i: int| 0 <= i < ls0.len() implies no_newline(#[trigger] ls0[i]) by {
                assert(ls0[i] == ls[i]);
            }
        }
        lemma_drop_no_newlines(ls0, k);
        let d0 = drop_key_lines(ls0, k);
        let l = ls.last();
        assert(no_newline(l)) by {
            assert(l == ls[ls.len() - 1]);
        }
        assert forall|i: int| 0 <= i < d0.push(l).len() implies no_newline(
            #[trigger] d0.push(l)[i],
        ) by {
            if i < d0.len() {
                assert(d0.push(l)[i] == d0[i]);
            }
        }
    }
}

proof fn lemma_text_lines_no_newlines(text: Seq<char>)
    ensures
        no_newlines(lines(text)),
{
    lemma_lines_no_newline(text);
    assert forall|i: int| 0 <= i < lines(text).len() implies no_newline(#[trigger] lines(text)[i]) by {
        assert forall|j: int| 0 <= j < lines(text)[i].len() implies #[trigger] lines(text)[i][j]
            != '\n' by {}
    }
}

/// What a write puts in is what a read takes out: after setting `key` to `value`, the file
/// reads exactly as it did before with that one key set to the trimmed value, every other
/// key untouched. Holds for any key a person could type on the left of a line and any value
/// without a line break in it.
pub proof fn law_read_after_write(text: Seq<char>, key: Seq<char>, value: Seq<char>)
    requires
        plain_key(key),
        no_newline(value),
    ensures
        ini_map(ini_written(text, key, value)) == ini_map(text).insert(key, trim(value)),
{
    let ls = lines(text);
    let e = entry_line(key, value);
    lemma_entry_line(key, value);
    lemma_replace_key_lines(ls, key, e, trim(value));
    lemma_text_lines_no_newlines(text);
    assert(no_newline(e)) by {
        assert forall|i: int| 0 <= i < e.len() implies #[trigger] e[i] != '\n' by {
            if i < key.len() {
                assert(e[i] == key[i]);
            } else if i >= key.len() + 3 {
                assert(e[i] == value[i - key.len() - 3]);
            }
        }
    }
    lemma_replace_no_newlines(ls, key, e);
    let body = replace_key_lines(ls, key, e);
    let out = if has_key_line(ls, key) {
        body
    } else {
        body.push(e)
    };
    assert(no_newlines(out)) by {
        assert forall|i: int| 0 <= i < out.len() implies no_newline(#[trigger] out[i]) by {
            if i < body.len() {
                assert(out[i] == body[i]);
            }
        }
    }
    lemma_lines_join(out, Seq::empty());
    assert(join_lines(out) + Seq::<char>::empty() == join_lines(out));
    assert(strip_crs(out) + lines(Seq::<char>::empty()) == strip_crs(out));
    lemma_map_strip_cr(out);
    if !has_key_line(ls, key) {
        assert(out.drop_last() == ls);
    }
}

/// After removing `key`, the file reads exactly as it did before without that key.
pub proof fn law_read_after_remove(text: Seq<char>, key: Seq<char>)
    requires
        plain_key(key),
    ensures
        ini_map(ini_removed(text, key)) == ini_map(text).remove(key),
{
    let ls = lines(text);
    lemma_text_lines_no_newlines(text);
    lemma_drop_no_newlines(ls, key);
    let out = drop_key_lines(ls, key);
    lemma_lines_join(out, Seq::empty());
    assert(join_lines(out) + Seq::<char>::empty() == join_lines(out));
    assert(strip_crs(out) + lines(Seq::<char>::empty()) == strip_crs(out));
    lemma_map_strip_cr(out);
    lemma_drop_key_lines(ls, key);
}

} // verus!
