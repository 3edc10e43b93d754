//! `System/favorites.txt`: the favourite games' stems, one per line, in the order strings
//! sort (by character code, which for UTF-8 is byte order).
use crate::store::ini::{join_lines, lemma_join_push, lemma_lines_join, no_newline, no_newlines, strip_crs};
use crate::text::{
    append_range, append_str, chars_of, chars_views, line_ranges, lines, ranges_are, string_views,
    strings_of, strip_cr,
};
use vstd::prelude::*;

verus! {

pub const FAVORITES_FILE: &'static str = "favorites.txt";

/// `a` and `b` agree before `k`, and at `k` either `a` has ended and `b` goes on, or both go
/// on and `a`'s character is the lower.
pub open spec fn first_difference(a: Seq<char>, b: Seq<char>, k: int) -> bool {
    &&& 0 <= k <= a.len()
    &&& k < b.len()
    &&& forall|j: int| 0 <= j < k ==> #[trigger] a[j] == b[j]
    &&& (k == a.len() || (a[k] as u32) < (b[k] as u32))
}

/// `a` sorts before `b`, as `str` orders strings.
pub open spec fn lex_lt(a: Seq<char>, b: Seq<char>) -> bool {
    exists|k: int| #[trigger] first_difference(a, b, k)
}

/// Each stem sorts before every later one: the list is a set, in order.
pub open spec fn ascending(s: Seq<Seq<char>>) -> bool {
    forall|i: int, j: int| 0 <= i < j < s.len() ==> lex_lt(#[trigger] s[i], #[trigger] s[j])
}

/// The favourites the lines of a file name: every non-empty line.
pub open spec fn favorite_set(ls: Seq<Seq<char>>) -> Set<Seq<char>> {
    Set::new(|x: Seq<char>| x.len() > 0 && ls.contains(x))
}

pub proof fn lemma_lex_irreflexive(a: Seq<char>)
    ensures
        !lex_lt(a, a),
{
}

pub proof fn lemma_lex_transitive(a: Seq<char>, b: Seq<char>, c: Seq<char>)
    requires
        lex_lt(a, b),
        lex_lt(b, c),
    ensures
        lex_lt(a, c),
{
    let k1 = choose|k: int| first_difference(a, b, k);
    let k2 = choose|k: int| first_difference(b, c, k);
    if k1 <= k2 {
        if k1 < k2 && k1 < a.len() {
            assert(b[k1] == c[k1]);
        }
        assert(first_difference(a, c, k1));
    } else {
        assert(a[k2] == b[k2]);
        assert(first_difference(a, c, k2));
    }
}

/// Orders `a` against `b`: negative when `a` sorts first, zero when they are equal,
/// positive when `b` sorts first.
pub(crate) fn compare_chars(a: &Vec<char>, b: &Vec<char>) -> (r: i8)
    ensures
        r < 0 ==> lex_lt(a@, b@),
        r == 0 ==> a@ == b@,
        r > 0 ==> lex_lt(b@, a@),
{
    let mut i: usize = 0;
    while i < a.len() && i < b.len()
        invariant
            i <= a.len(),
            i <= b.len(),
            forall|j: int| 0 <= j < i ==> #[trigger] a@[j] == b@[j],
        decreases a.len() - i,
    {
        let x = a[i] as u32;
        let y = b[i] as u32;
        if x != y {
            if x < y {
                assert(first_difference(a@, b@, i as int));
                return -1;
            } else {
                assert forall|j: int| 0 <= j < i implies #[trigger] b@[j] == a@[j] by {}
                assert(first_difference(b@, a@, i as int));
                return 1;
            }
        }
        proof {
            vstd::utf8::char_u32_cast(a@[i as int], x);
            vstd::utf8::char_u32_cast(b@[i as int], y);
        }
        i += 1;
    }
    if a.len() == b.len() {
        assert(a@ =~= b@);
        0
    } else if a.len() < b.len() {
        assert(first_difference(a@, b@, i as int));
        -1
    } else {
        assert forall|j: int| 0 <= j < i implies #[trigger] b@[j] == a@[j] by {}
        assert(first_difference(b@, a@, i as int));
        1
    }
}

/// Adds `x` to an ascending list, keeping it ascending.
fn insert_sorted(list: &mut Vec<Vec<char>>, x: Vec<char>)
    requires
        ascending(chars_views(old(list)@)),
    ensures
        ascending(chars_views(final(list)@)),
        chars_views(final(list)@).to_set() == chars_views(old(list)@).to_set().insert(x@),
{
    let ghost s = chars_views(list@);
    let mut i: usize = 0;
    let mut c: i8 = -1;
    let mut done = false;
    while !done && i < list.len()
        invariant
            i <= list.len(),
            s == chars_views(list@),
            forall|j: int| 0 <= j < i ==> lex_lt(#[trigger] s[j], x@),
            done ==> i < list.len() && c >= 0,
            done && c == 0 ==> s[i as int] == x@,
            done && c > 0 ==> lex_lt(x@, s[i as int]),
        decreases list.len() - i + (if done { 0int } else { 1int }),
    {
        c = compare_chars(&list[i], &x);
        if c >= 0 {
            done = true;
        } else {
            i += 1;
        }
    }
    if done && c == 0 {
        assert(s.to_set().insert(x@) =~= s.to_set());
        return;
    }
    list.insert(i, x);
    let ghost n = chars_views(list@);
    assert(n =~= s.insert(i as int, x@));
    assert forall|p: int, q: int| 0 <= p < q < n.len() implies lex_lt(#[trigger] n[p], #[trigger] n[q]) by {
        if q < i {
            assert(n[p] == s[p] && n[q] == s[q]);
        } else if q == i {
            assert(n[p] == s[p]);
        } else if p == i {
            assert(n[q] == s[q - 1]);
            if q - 1 > i {
                lemma_lex_transitive(x@, s[i as int], s[q - 1]);
            }
        } else if p < i {
            assert(n[p] == s[p] && n[q] == s[q - 1]);
        } else {
            assert(n[p] == s[p - 1] && n[q] == s[q - 1]);
        }
    }
    assert forall|y: Seq<char>| n.to_set().contains(y) <==> s.to_set().insert(x@).contains(y) by {
        if n.contains(y) {
            let k = choose|k: int| 0 <= k < n.len() && n[k] == y;
            if k < i {
                assert(s[k] == y);
            } else if k > i {
                assert(s[k - 1] == y);
            }
        }
        if s.contains(y) {
            let k = choose|k: int| 0 <= k < s.len() && s[k] == y;
            if k < i {
                assert(n[k] == y);
            } else {
                assert(n[k + 1] == y);
            }
        }
        if y == x@ {
            assert(n[i as int] == y);
        }
    }
    assert(n.to_set() =~= s.to_set().insert(x@));
}

/// Filename stems, in sorted order, each once. Unknown games stay recorded so temporarily
/// removing a ROM from the card does not silently forget that it was a favourite.
pub fn read_favorites(text: &str) -> (r: Vec<String>)
    ensures
        ascending(string_views(r@)),
        string_views(r@).to_set() == favorite_set(lines(text@)),
{
    let v = chars_of(text);
    let ranges = line_ranges(&v);
    let ghost ls = lines(v@);
    let mut list: Vec<Vec<char>> = Vec::new();
    let mut i: usize = 0;
    assert(chars_views(list@).to_set() =~= favorite_set(ls.take(0)));
    while i < ranges.len()
        invariant
            i <= ranges.len(),
            ls == lines(v@),
            v@ == text@,
            ranges_are(v@, ranges@, ls),
            ascending(chars_views(list@)),
            chars_views(list@).to_set() == favorite_set(ls.take(i as int)),
        decreases ranges.len() - i,
    {
        let (lo, hi) = ranges[i];
        assert(ranges@[i as int].0 <= ranges@[i as int].1 <= v@.len());
        let ghost l = ls[i as int];
        let ghost t = ls.take(i + 1);
        assert(t == ls.take(i as int).push(l));
        assert(l == v@.subrange(lo as int, hi as int));
        assert forall|y: Seq<char>| #[trigger] t.contains(y) <==> ls.take(i as int).contains(y) || y == l by {
            if t.contains(y) {
                let k = choose|k: int| 0 <= k < t.len() && t[k] == y;
                if k < i {
                    assert(ls.take(i as int)[k] == y);
                }
            }
            if ls.take(i as int).contains(y) {
                let k = choose|k: int| 0 <= k < i && ls.take(i as int)[k] == y;
                assert(t[k] == y);
            }
            if y == l {
                assert(t[i as int] == y);
            }
        }
        if lo < hi {
            let mut line: Vec<char> = Vec::new();
            append_range(&mut line, &v, lo, hi);
            insert_sorted(&mut list, line);
            assert(favorite_set(t) =~= favorite_set(ls.take(i as int)).insert(l));
        } else {
            assert(favorite_set(t) =~= favorite_set(ls.take(i as int)));
        }
        i += 1;
    }
    assert(ls.take(ranges.len() as int) == ls);
    strings_of(&list)
}

/// The text of the file that holds `favorites`, a line each. The favourites are a set, so
/// they come ascending and once each, and the file lists them in that order.
pub fn write_favorites(favorites: &Vec<String>) -> (r: String)
    requires
        ascending(string_views(favorites@)),
    ensures
        r@ == join_lines(string_views(favorites@)),
{
    let ghost all = string_views(favorites@);
    let mut out: Vec<char> = Vec::new();
    let mut i: usize = 0;
    assert(all.take(0) =~= Seq::<Seq<char>>::empty());
    while i < favorites.len()
        invariant
            i <= favorites.len(),
            all == string_views(favorites@),
            out@ == join_lines(all.take(i as int)),
        decreases favorites.len() - i,
    {
        append_str(&mut out, favorites[i].as_str());
        out.push('\n');
        proof {
            lemma_join_push(all.take(i as int), all[i as int]);
            assert(all.take(i + 1) == all.take(i as int).push(all[i as int]));
        }
        i += 1;
    }
    assert(all.take(favorites.len() as int) == all);
    crate::text::string_of(&out)
}

// ---------------------------------------------------------------------------------------------
// Laws
// ---------------------------------------------------------------------------------------------

/// Two ascending lists of the same stems are the same list.
pub proof fn law_ascending_is_unique(s: Seq<Seq<char>>, t: Seq<Seq<char>>)
    requires
        ascending(s),
        ascending(t),
        s.to_set() == t.to_set(),
    ensures
        s == t,
    decreases s.len(),
{
    if s.len() == 0 {
        if t.len() > 0 {
            assert(t.to_set().contains(t[0]));
        }
    } else if t.len() == 0 {
        assert(s.to_set().contains(s[0]));
    } else {
        assert(t.to_set().contains(s[0]));
        assert(s.to_set().contains(t[0]));
        let j = choose|j: int| 0 <= j < t.len() && t[j] == s[0];
        let k = choose|k: int| 0 <= k < s.len() && s[k] == t[0];
        if j > 0 {
            assert(lex_lt(t[0], t[j]));
            if k > 0 {
                assert(lex_lt(s[0], s[k]));
                lemma_lex_transitive(t[0], s[0], t[0]);
            }
            lemma_lex_irreflexive(t[0]);
        }
        assert(s[0] == t[0]);
        let s2 = s.drop_first();
        let t2 = t.drop_first();
        assert forall|y: Seq<char>| s2.contains(y) <==> s.contains(y) && y != s[0] by {
            if s2.contains(y) {
                let m = choose|m: int| 0 <= m < s2.len() && s2[m] == y;
                assert(s[m + 1] == y);
                assert(lex_lt(s[0], s[m + 1]));
                lemma_lex_irreflexive(y);
            }
            if s.contains(y) && y != s[0] {
                let m = choose|m: int| 0 <= m < s.len() && s[m] == y;
                assert(s2[m - 1] == y);
            }
        }
        assert forall|y: Seq<char>| t2.contains(y) <==> t.contains(y) && y != t[0] by {
            if t2.contains(y) {
                let m = choose|m: int| 0 <= m < t2.len() && t2[m] == y;
                assert(t[m + 1] == y);
                assert(lex_lt(t[0], t[m + 1]));
                lemma_lex_irreflexive(y);
            }
            if t.contains(y) && y != t[0] {
                let m = choose|m: int| 0 <= m < t.len() && t[m] == y;
                assert(t2[m - 1] == y);
            }
        }
        assert forall|y: Seq<char>| s2.contains(y) <==> t2.contains(y) by {
            assert(s.to_set().contains(y) == t.to_set().contains(y));
            assert(s.to_set().contains(y) == s.contains(y));
            assert(t.to_set().contains(y) == t.contains(y));
            assert(s2.contains(y) <==> s.contains(y) && y != s[0]);
            assert(t2.contains(y) <==> t.contains(y) && y != t[0]);
        }
        assert(s2.to_set() =~= t2.to_set());
        assert forall|p: int, q: int| 0 <= p < q < s2.len() implies lex_lt(#[trigger] s2[p], #[trigger] s2[q]) by {
            assert(s2[p] == s[p + 1] && s2[q] == s[q + 1]);
        }
        assert forall|p: int, q: int| 0 <= p < q < t2.len() implies lex_lt(#[trigger] t2[p], #[trigger] t2[q]) by {
            assert(t2[p] == t[p + 1] && t2[q] == t[q + 1]);
        }
        law_ascending_is_unique(s2, t2);
        assert(s =~= t) by {
            assert forall|i: int| 0 <= i < s.len() implies s[i] == t[i] by {
                if i > 0 {
                    assert(s[i] == s2[i - 1] && t[i] == t2[i - 1]);
                }
            }
        }
    }
}

/// Favourites written out and read back are the favourites that were written: the same
/// stems in the same order, for any ascending list of one-line stems.
pub proof fn law_favorites_round_trip(s: Seq<Seq<char>>, r: Seq<Seq<char>>)
    requires
        ascending(s),
        forall|i: int|
            0 <= i < s.len() ==> (#[trigger] s[i]).len() > 0 && no_newline(s[i]) && s[i].last()
                != '\r',
        ascending(r),
        r.to_set() == favorite_set(lines(join_lines(s))),
    ensures
        r == s,
{
    assert(no_newlines(s));
    lemma_lines_join(s, Seq::empty());
    assert(join_lines(s) + Seq::<char>::empty() == join_lines(s));
    assert(lines(Seq::<char>::empty()) == Seq::<Seq<char>>::empty());
    assert forall|i: int| 0 <= i < s.len() implies #[trigger] strip_crs(s)[i] == s[i] by {
        assert(strip_cr(s[i]) == s[i]);
    }
    assert(strip_crs(s) =~= s);
    assert forall|y: Seq<char>| favorite_set(s).contains(y) <==> s.to_set().contains(y) by {
        if s.contains(y) {
            let k = choose|k: int| 0 <= k < s.len() && s[k] == y;
            assert(s[k].len() > 0);
        }
    }
    assert(favorite_set(s) =~= s.to_set());
    law_ascending_is_unique(r, s);
}

} // verus!
