//! `System/last_shelf.txt`: the cart highlighted the last time the shelf was used. This is
//! deliberately separate from `slot.state`'s `cart`: that field describes the cart physically
//! seated in the slot, while this one describes where the shelf should open after an eject
//! or a reboot.
use crate::store::ini::{join_lines, lemma_join_push, lemma_lines_join, no_newline, no_newlines, strip_crs};
use crate::store::platform::{dir_of, platform_named, Platform};
use crate::store::slot_state::kv;
use crate::text::{
    append_range, append_str, chars_eq, chars_of, dec, find_char, is_ws, line_ranges, lines,
    parse_bounded, parse_uint_range, push_dec, ranges_are, split_once, string_of_range, trim,
    trim_range,
};
use vstd::prelude::*;

verus! {

pub const LAST_SHELF_FILE: &'static str = "last_shelf.txt";

#[derive(Clone, PartialEq, Eq, Debug)]
pub struct LastShelf {
    pub stem: Option<String>,
    /// Shelf category tab index (ALL / REC / GBA / GB / GBC). `None` means the file did not
    /// say, which is every card written before categories were persisted.
    pub category: Option<usize>,
    /// Platform of the highlighted cart. `None` on files written before the highlight stored
    /// one, in which case the first matching stem is used.
    pub platform: Option<Platform>,
}

/// A `LastShelf` with its stem as characters.
pub struct LastShelfModel {
    pub stem: Option<Seq<char>>,
    pub category: Option<usize>,
    pub platform: Option<Platform>,
}

impl View for LastShelf {
    type V = LastShelfModel;

    open spec fn view(&self) -> LastShelfModel {
        LastShelfModel {
            stem: match self.stem {
                Some(s) => Some(s@),
                None => None,
            },
            category: self.category,
            platform: self.platform,
        }
    }
}

impl Default for LastShelf {
    fn default() -> (r: Self)
        ensures
            r@ == (LastShelfModel { stem: None, category: None, platform: None }),
    {
        LastShelf { stem: None, category: None, platform: None }
    }
}

/// What the lines read so far have said.
pub struct ShelfLines {
    pub version: Option<u32>,
    pub stem: Option<Seq<char>>,
    pub category: Option<usize>,
    pub platform: Option<Platform>,
}

pub open spec fn u32_of(v: Seq<char>) -> Option<u32> {
    match parse_bounded(v, u32::MAX as nat) {
        Some(n) => Some(n as u32),
        None => None,
    }
}

pub open spec fn usize_of(v: Seq<char>) -> Option<usize> {
    match parse_bounded(v, usize::MAX as nat) {
        Some(n) => Some(n as usize),
        None => None,
    }
}

/// What one line, trimmed, does to what has been read. A `key=value` line sets what its key
/// names; a line without `=` is the stem of a file from before versions, when nothing has
/// named a stem or a version yet.
#[verifier::opaque]
pub open spec fn shelf_line(a: ShelfLines, raw: Seq<char>) -> ShelfLines {
    let line = trim(raw);
    if line.len() == 0 {
        a
    } else {
        match split_once(line, '=') {
            Some((k, v)) => if k == "version"@ {
                ShelfLines { version: u32_of(v), ..a }
            } else if k == "stem"@ {
                if v.len() > 0 {
                    ShelfLines { stem: Some(v), ..a }
                } else {
                    a
                }
            } else if k == "category"@ {
                ShelfLines { category: usize_of(v), ..a }
            } else if k == "platform"@ {
                ShelfLines { platform: platform_named(v), ..a }
            } else {
                a
            },
            None => if a.stem is None && a.version is None {
                ShelfLines { stem: Some(line), ..a }
            } else {
                a
            },
        }
    }
}

pub open spec fn shelf_lines(ls: Seq<Seq<char>>) -> ShelfLines
    decreases ls.len(),
{
    if ls.len() == 0 {
        ShelfLines { version: None, stem: None, category: None, platform: None }
    } else {
        shelf_line(shelf_lines(ls.drop_last()), ls.last())
    }
}

/// The highlight a file's text holds. A one-line file is the historical stem-only form; a
/// file with a `version` also carries the category tab, and may carry a platform.
pub open spec fn last_shelf_of(text: Seq<char>) -> LastShelfModel {
    let a = shelf_lines(lines(text));
    LastShelfModel {
        stem: a.stem,
        category: if a.version is Some {
            a.category
        } else {
            None
        },
        platform: if a.version is Some {
            a.platform
        } else {
            None
        },
    }
}

/// The lines of the file that holds a highlight on `stem`.
pub open spec fn last_shelf_lines(
    stem: Seq<char>,
    category: Option<usize>,
    platform: Option<Platform>,
) -> Seq<Seq<char>> {
    let head = seq![
        kv("version"@, seq!['1']),
        kv("stem"@, stem),
        kv(
            "category"@,
            dec(
                match category {
                    Some(c) => c as nat,
                    None => 0,
                },
            ),
        ),
    ];
    match platform {
        Some(p) => head.push(kv("platform"@, dir_of(p))),
        None => head,
    }
}

struct ShelfLinesExec {
    version: Option<u32>,
    stem: Option<Vec<char>>,
    category: Option<usize>,
    platform: Option<Platform>,
}

impl ShelfLinesExec {
    spec fn model(&self) -> ShelfLines {
        ShelfLines {
            version: self.version,
            stem: match self.stem {
                Some(s) => Some(s@),
                None => None,
            },
            category: self.category,
            platform: self.platform,
        }
    }
}

fn key_is(v: &Vec<char>, lo: usize, hi: usize, lit: &str) -> (r: bool)
    requires
        lo <= hi <= v.len(),
    ensures
        r == (v@.subrange(lo as int, hi as int) == lit@),
{
    let k = chars_of(lit);
    let r = chars_eq(v, lo, hi, &k, 0, k.len());
    assert(k@.subrange(0, k@.len() as int) == k@);
    r
}

fn platform_in(v: &Vec<char>, lo: usize, hi: usize) -> (r: Option<Platform>)
    requires
        lo <= hi <= v.len(),
    ensures
        r == platform_named(v@.subrange(lo as int, hi as int)),
{
    let s = string_of_range(v, lo, hi);
    Platform::from_dir_name(s.as_str())
}

/// One line, `v[lo..hi]`.
fn shelf_line_exec(a: &mut ShelfLinesExec, v: &Vec<char>, lo: usize, hi: usize)
    requires
        lo <= hi <= v.len(),
    ensures
        final(a).model() == shelf_line(old(a).model(), v@.subrange(lo as int, hi as int)),
{
    reveal(shelf_line);
    let (s, e) = trim_range(v, lo, hi);
    if s == e {
        return;
    }
    let ghost line = v@.subrange(s as int, e as int);
    match find_char(v, s, e, '=') {
        Some(q) => {
            assert(line.take(q - s) == v@.subrange(s as int, q as int));
            assert(line.skip(q - s + 1) == v@.subrange(q + 1, e as int));
            let b = q + 1;
            if key_is(v, s, q, "version") {
                a.version = match parse_uint_range(v, b, e, u32::MAX as u64) {
                    Some(n) => Some(n as u32),
                    None => None,
                };
            } else if key_is(v, s, q, "stem") {
                if b < e {
                    let mut t: Vec<char> = Vec::new();
                    append_range(&mut t, v, b, e);
                    a.stem = Some(t);
                }
            } else if key_is(v, s, q, "category") {
                a.category = match parse_uint_range(v, b, e, usize::MAX as u64) {
                    Some(n) => Some(n as usize),
                    None => None,
                };
            } else if key_is(v, s, q, "platform") {
                a.platform = platform_in(v, b, e);
            }
        },
        None => {
            if a.stem.is_none() && a.version.is_none() {
                let mut t: Vec<char> = Vec::new();
                append_range(&mut t, v, s, e);
                a.stem = Some(t);
            }
        },
    }
}

/// Read the last shelf highlight from the file's text (empty text when there is no file).
pub fn read_last_shelf(text: &str) -> (r: LastShelf)
    ensures
        r@ == last_shelf_of(text@),
{
    let v = chars_of(text);
    let ranges = line_ranges(&v);
    let ghost ls = lines(v@);
    let mut a = ShelfLinesExec { version: None, stem: None, category: None, platform: None };
    let mut i: usize = 0;
    while i < ranges.len()
        invariant
            i <= ranges.len(),
            ls == lines(v@),
            v@ == text@,
            ranges_are(v@, ranges@, ls),
            shelf_lines(ls.take(i as int)) == a.model(),
        decreases ranges.len() - i,
    {
        let (lo, hi) = ranges[i];
        assert(ranges@[i as int].0 <= ranges@[i as int].1 <= v@.len());
        assert(ls.take(i + 1).drop_last() == ls.take(i as int));
        assert(ls.take(i + 1).last() == v@.subrange(lo as int, hi as int));
        shelf_line_exec(&mut a, &v, lo, hi);
        i += 1;
    }
    assert(ls.take(ranges.len() as int) == ls);
    let versioned = a.version.is_some();
    LastShelf {
        stem: match a.stem {
            Some(t) => Some(crate::text::string_of(&t)),
            None => None,
        },
        category: if versioned {
            a.category
        } else {
            None
        },
        platform: if versioned {
            a.platform
        } else {
            None
        },
    }
}

fn push_line(out: &mut Vec<char>, key: &str, value: &Vec<char>)
    ensures
        final(out)@ == old(out)@ + kv(key@, value@) + seq!['\n'],
{
    append_str(out, key);
    out.push('=');
    append_range(out, value, 0, value.len());
    out.push('\n');
    assert(value@.subrange(0, value@.len() as int) == value@);
    assert(final(out)@ == old(out)@ + kv(key@, value@) + seq!['\n']);
}

/// The text of the file that holds `shelf`, or `None` when there is no stem to remember
/// and the file is left as it is.
pub fn write_last_shelf(shelf: &LastShelf) -> (r: Option<String>)
    ensures
        match shelf@.stem {
            None => r is None,
            Some(stem) => r is Some && r->0@ == join_lines(
                last_shelf_lines(stem, shelf.category, shelf.platform),
            ),
        },
{
    let stem = match &shelf.stem {
        Some(s) => s,
        None => return None,
    };
    let ghost ls = last_shelf_lines(stem@, shelf.category, shelf.platform);
    let mut out: Vec<char> = Vec::new();
    let mut one: Vec<char> = Vec::new();
    one.push('1');
    push_line(&mut out, "version", &one);
    let s = chars_of(stem.as_str());
    push_line(&mut out, "stem", &s);
    let c = match shelf.category {
        Some(c) => c,
        None => 0,
    };
    let mut n: Vec<char> = Vec::new();
    push_dec(&mut n, c as u64);
    assert(n@ =~= dec(c as nat));
    push_line(&mut out, "category", &n);
    proof {
        let e = Seq::<Seq<char>>::empty();
        lemma_join_push(e, ls[0]);
        lemma_join_push(e.push(ls[0]), ls[1]);
        lemma_join_push(e.push(ls[0]).push(ls[1]), ls[2]);
        assert(seq![ls[0], ls[1], ls[2]] == e.push(ls[0]).push(ls[1]).push(ls[2]));
        assert(out@ == join_lines(seq![ls[0], ls[1], ls[2]]));
    }
    if let Some(p) = shelf.platform {
        let d = chars_of(p.dir_name());
        push_line(&mut out, "platform", &d);
        proof {
            lemma_join_push(seq![ls[0], ls[1], ls[2]], ls[3]);
            assert(seq![ls[0], ls[1], ls[2]].push(ls[3]) == ls);
        }
    } else {
        assert(seq![ls[0], ls[1], ls[2]] == ls);
    }
    Some(crate::text::string_of(&out))
}

/// The text of the file that holds a highlight on `stem` alone.
pub fn write_last_shelf_stem(stem: &str) -> (r: String)
    ensures
        r@ == join_lines(last_shelf_lines(stem@, None, None)),
{
    let shelf = LastShelf {
        stem: Some(crate::text::string_of(&chars_of(stem))),
        category: None,
        platform: None,
    };
    match write_last_shelf(&shelf) {
        Some(t) => t,
        None => String::new(),
    }
}

// ---------------------------------------------------------------------------------------------
// Laws
// ---------------------------------------------------------------------------------------------

proof fn lemma_kv_line(k: Seq<char>, v: Seq<char>, a: ShelfLines)
    requires
        k.len() > 0,
        !is_ws(k[0]),
        forall|i: int| 0 <= i < k.len() ==> k[i] != '=',
        v.len() > 0,
        !is_ws(v.last()),
    ensures
        trim(kv(k, v)) == kv(k, v),
        split_once(kv(k, v), '=') == Some((k, v)),
{
    let s = kv(k, v);
    assert(s[0] == k[0]);
    assert(s.last() == v.last());
    crate::text::lemma_trim_plain(s);
    assert forall|j: int| 0 <= j < s.len() && j < k.len() implies s[j] != '=' by {
        assert(s[j] == k[j]);
    }
    assert(s[k.len() as int] == '=');
    crate::text::lemma_index_of_is(s, '=', k.len() as int);
    assert(s.take(k.len() as int) == k);
    assert(s.skip(k.len() as int + 1) == v);
}

proof fn lemma_shelf_keys()
    ensures
        "version"@ == seq!['v', 'e', 'r', 's', 'i', 'o', 'n'],
        "stem"@ == seq!['s', 't', 'e', 'm'],
        "category"@ == seq!['c', 'a', 't', 'e', 'g', 'o', 'r', 'y'],
        "platform"@ == seq!['p', 'l', 'a', 't', 'f', 'o', 'r', 'm'],
{
    reveal_strlit("version");
    reveal_strlit("stem");
    reveal_strlit("category");
    reveal_strlit("platform");
}

/// The stems a highlight can hold and get back: non-empty, one line, and not ending in a
/// space that trimming the line would take off.
pub open spec fn keepable_stem(stem: Seq<char>) -> bool {
    &&& stem.len() > 0
    &&& no_newline(stem)
    &&& !is_ws(stem.last())
}

/// A highlight written out is read back as it was: its stem, its category (`0` when it had
/// none), and its platform.
pub proof fn law_last_shelf_round_trip(
    stem: Seq<char>,
    category: Option<usize>,
    platform: Option<Platform>,
)
    requires
        keepable_stem(stem),
    ensures
        last_shelf_of(join_lines(last_shelf_lines(stem, category, platform))) == (LastShelfModel {
            stem: Some(stem),
            category: Some(
                match category {
                    Some(c) => c,
                    None => 0usize,
                },
            ),
            platform,
        }),
{
    lemma_shelf_keys();
    reveal(shelf_line);
    let c = match category {
        Some(c) => c,
        None => 0usize,
    };
    let ls = last_shelf_lines(stem, category, platform);
    crate::text::lemma_dec_digits(c as nat);
    crate::text::lemma_parse_dec(c as nat);
    crate::text::lemma_parse_dec(1);
    let d = dec(c as nat);
    assert(crate::text::is_digit(d.last()));
    assert(dec(1) == seq!['1']) by {
        crate::text::lemma_digit_char(1);
    }
    let e = ShelfLines { version: None, stem: None, category: None, platform: None };
    lemma_kv_line("version"@, seq!['1'], e);
    lemma_kv_line("stem"@, stem, e);
    lemma_kv_line("category"@, d, e);
    let a0 = ShelfLines { version: Some(1u32), ..e };
    let a1 = ShelfLines { stem: Some(stem), ..a0 };
    let a2 = ShelfLines { category: Some(c), ..a1 };
    assert(ls[0] == kv("version"@, seq!['1']));
    assert(ls[1] == kv("stem"@, stem));
    assert(ls[2] == kv("category"@, d));
    assert(crate::text::parse_bounded(seq!['1'], u32::MAX as nat) == Some(1nat));
    let l3 = seq![ls[0], ls[1], ls[2]];
    assert(l3.drop_last().drop_last().drop_last() =~= Seq::<Seq<char>>::empty());
    assert(shelf_lines(seq![ls[0]]) == a0) by {
        assert(seq![ls[0]].drop_last() =~= Seq::<Seq<char>>::empty());
        assert(shelf_lines(Seq::<Seq<char>>::empty()) == e);
        assert(seq![ls[0]].last() == ls[0]);
    }
    assert(shelf_lines(seq![ls[0], ls[1]]) == a1) by {
        assert(seq![ls[0], ls[1]].drop_last() =~= seq![ls[0]]);
        assert("stem"@[0] != "version"@[0]);
    }
    assert(shelf_lines(l3) == a2) by {
        assert(l3.drop_last() =~= seq![ls[0], ls[1]]);
        assert("category"@[0] != "version"@[0]);
        assert("category"@[0] != "stem"@[0]);
    }
    // every line is one line, none ends in a carriage return
    let all_lines = ls;
    assert forall|i: int| 0 <= i < all_lines.len() implies no_newline(#[trigger] all_lines[i])
        && all_lines[i].last() != '\r' by {
        let l = all_lines[i];
        if i == 0 {
            assert(l == kv("version"@, seq!['1']));
        } else if i == 1 {
            assert(l == kv("stem"@, stem));
            assert forall|j: int| 0 <= j < l.len() implies l[j] != '\n' by {
                if j > 4 {
                    assert(l[j] == stem[j - 5]);
                }
            }
            assert(l.last() == stem.last());
        } else if i == 2 {
            assert(l == kv("category"@, d));
            assert forall|j: int| 0 <= j < l.len() implies l[j] != '\n' by {
                if j > 8 {
                    assert(l[j] == d[j - 9]);
                    assert(crate::text::is_digit(d[j - 9]));
                }
            }
            assert(l.last() == d.last());
        } else {
            let p = platform->0;
            assert(l == kv("platform"@, dir_of(p)));
        }
    }
    assert(no_newlines(ls));
    lemma_lines_join(ls, Seq::empty());
    assert(join_lines(ls) + Seq::<char>::empty() == join_lines(ls));
    assert(lines(Seq::<char>::empty()) == Seq::<Seq<char>>::empty());
    assert forall|i: int| 0 <= i < ls.len() implies #[trigger] strip_crs(ls)[i] == ls[i] by {}
    assert(strip_crs(ls) =~= ls);
    match platform {
        Some(p) => {
            lemma_kv_line("platform"@, dir_of(p), e);
            assert(ls == l3.push(ls[3]));
            assert(ls.drop_last() == l3);
            assert("platform"@[0] != "version"@[0]);
            assert("platform"@[0] != "stem"@[0]);
            assert("platform"@[0] != "category"@[0]);
            crate::store::platform::law_dir_name_round_trip(p);
        },
        None => {
            assert(ls == l3);
        },
    }
}

} // verus!
