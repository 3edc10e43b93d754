//! `System/recents.txt`: the games played lately, newest first, one stem per line.
use crate::store::ini::{join_lines, lemma_join_push, lemma_lines_join, no_newline, no_newlines, strip_crs};
use crate::text::{
    append_str, chars_of, chars_views, contains_range, line_ranges, lines, ranges_are,
    string_of_range, string_views, strings_of, strip_cr,
};
use vstd::prelude::*;

verus! {

pub const RECENTS_FILE: &'static str = "recents.txt";

pub const RECENTS_MAX: usize = 10;

/// The history the lines of a file hold: each non-empty line once, where it first stands,
/// until the history is full.
pub open spec fn recents_of(ls: Seq<Seq<char>>) -> Seq<Seq<char>>
    decreases ls.len(),
{
    if ls.len() == 0 {
        Seq::empty()
    } else {
        let r = recents_of(ls.drop_last());
        let l = ls.last();
        if r.len() >= RECENTS_MAX || l.len() == 0 || r.contains(l) {
            r
        } else {
            r.push(l)
        }
    }
}

/// The text of the file that holds `r`: its first `RECENTS_MAX` stems, a line each.
pub open spec fn recents_text(r: Seq<Seq<char>>) -> Seq<char> {
    join_lines(
        if r.len() <= RECENTS_MAX {
            r
        } else {
            r.take(RECENTS_MAX as int)
        },
    )
}

/// Whether an entry is some other stem than `stem`.
pub open spec fn other_than(stem: Seq<char>) -> spec_fn(Seq<char>) -> bool {
    |x: Seq<char>| x != stem
}

/// The history once `stem` has been played: `stem` first, then every other entry in its
/// old order, cut to `RECENTS_MAX`.
pub open spec fn touched(r: Seq<Seq<char>>, stem: Seq<char>) -> Seq<Seq<char>> {
    let t = seq![stem] + r.filter(other_than(stem));
    if t.len() <= RECENTS_MAX {
        t
    } else {
        t.take(RECENTS_MAX as int)
    }
}

/// Filename stems, newest first. Unknown games stay recorded so temporarily removing a ROM
/// from the card does not silently erase its place in the history; a file a hand has edited
/// loses its duplicates and its overflow as it is read.
pub fn read_recents(text: &str) -> (r: Vec<String>)
    ensures
        string_views(r@) == recents_of(lines(text@)),
{
    let v = chars_of(text);
    let ranges = line_ranges(&v);
    let ghost ls = lines(v@);
    let mut seen: Vec<Vec<char>> = Vec::new();
    let mut i: usize = 0;
    assert(ls.take(0) =~= Seq::<Seq<char>>::empty());
    while i < ranges.len()
        invariant
            i <= ranges.len(),
            ls == lines(v@),
            v@ == text@,
            ranges_are(v@, ranges@, ls),
            chars_views(seen@) == recents_of(ls.take(i as int)),
        decreases ranges.len() - i,
    {
        let (lo, hi) = ranges[i];
        assert(ranges@[i as int].0 <= ranges@[i as int].1 <= v@.len());
        let ghost l = ls[i as int];
        assert(ls.take(i + 1).drop_last() == ls.take(i as int));
        assert(ls.take(i + 1).last() == l);
        assert(l == v@.subrange(lo as int, hi as int));
        if seen.len() < RECENTS_MAX && lo < hi && !contains_range(&seen, &v, lo, hi) {
            let mut line: Vec<char> = Vec::new();
            crate::text::append_range(&mut line, &v, lo, hi);
            seen.push(line);
            assert(chars_views(seen@) =~= recents_of(ls.take(i as int)).push(l));
        }
        i += 1;
    }
    assert(ls.take(ranges.len() as int) == ls);
    strings_of(&seen)
}

/// The text of the file that holds `recents`.
pub fn write_recents(recents: &Vec<String>) -> (r: String)
    ensures
        r@ == recents_text(string_views(recents@)),
{
    let ghost all = string_views(recents@);
    let n = if recents.len() <= RECENTS_MAX {
        recents.len()
    } else {
        RECENTS_MAX
    };
    let ghost kept = if all.len() <= RECENTS_MAX {
        all
    } else {
        all.take(RECENTS_MAX as int)
    };
    let mut out: Vec<char> = Vec::new();
    let mut i: usize = 0;
    assert(kept.take(0) =~= Seq::<Seq<char>>::empty());
    while i < n
        invariant
            i <= n,
            n == kept.len(),
            n <= recents.len(),
            all == string_views(recents@),
            kept == (if all.len() <= RECENTS_MAX {
                all
            } else {
                all.take(RECENTS_MAX as int)
            }),
            out@ == join_lines(kept.take(i as int)),
        decreases n - i,
    {
        append_str(&mut out, recents[i].as_str());
        out.push('\n');
        proof {
            lemma_join_push(kept.take(i as int), kept[i as int]);
            assert(kept.take(i + 1) == kept.take(i as int).push(kept[i as int]));
        }
        i += 1;
    }
    assert(kept.take(n as int) == kept);
    crate::text::string_of(&out)
}

/// Promotes `stem` to the front without duplicates and caps the durable history.
pub fn touch_recent(recents: &mut Vec<String>, stem: &str)
    ensures
        string_views(final(recents)@) == touched(string_views(old(recents)@), stem@),
{
    let ghost old_r = string_views(recents@);
    let ghost keep = other_than(stem@);
    let s = chars_of(stem);
    let mut out: Vec<String> = Vec::new();
    out.push(crate::text::string_of(&s));
    let mut i: usize = 0;
    assert(old_r.take(0) =~= Seq::<Seq<char>>::empty());
    assert(old_r.take(0).filter(keep) =~= Seq::<Seq<char>>::empty());
    while i < recents.len()
        invariant
            i <= recents.len(),
            old_r == string_views(recents@),
            s@ == stem@,
            keep == other_than(stem@),
            string_views(out@) == seq![stem@] + old_r.take(i as int).filter(keep),
        decreases recents.len() - i,
    {
        let e = chars_of(recents[i].as_str());
        let same = crate::text::chars_eq(&e, 0, e.len(), &s, 0, s.len());
        assert(e@.subrange(0, e@.len() as int) == e@);
        assert(s@.subrange(0, s@.len() as int) == s@);
        let ghost t = old_r.take(i + 1);
        assert(t.drop_last() == old_r.take(i as int));
        assert(t.last() == old_r[i as int]);
        proof {
            old_r.take(i as int).lemma_filter_push(old_r[i as int], keep);
            assert(t == old_r.take(i as int).push(old_r[i as int]));
        }
        assert(old_r[i as int] == e@);
        if !same {
            assert(keep(old_r[i as int]));
            let ghost before = string_views(out@);
            let c = recents[i].clone();
            assert(c@ == old_r[i as int]);
            out.push(c);
            assert(string_views(out@) =~= before.push(old_r[i as int]));
            assert(t.filter(keep) == old_r.take(i as int).filter(keep).push(old_r[i as int]));
            assert(string_views(out@) =~= seq![stem@] + t.filter(keep));
        } else {
            assert(!keep(old_r[i as int]));
            assert(string_views(out@) =~= seq![stem@] + t.filter(keep));
        }
        i += 1;
    }
    assert(old_r.take(recents.len() as int) == old_r);
    if out.len() > RECENTS_MAX {
        out.truncate(RECENTS_MAX);
    }
    assert(string_views(out@) =~= touched(old_r, stem@));
    *recents = out;
}

// ---------------------------------------------------------------------------------------------
// Laws
// ---------------------------------------------------------------------------------------------

/// A history that reading gives back: no stem twice, none empty, none longer than a line.
pub open spec fn clean_history(r: Seq<Seq<char>>) -> bool {
    &&& r.len() <= RECENTS_MAX
    &&& r.no_duplicates()
    &&& forall|i: int| 0 <= i < r.len() ==> (#[trigger] r[i]).len() > 0
}

/// What reading a history gives is clean, whatever the file held: capped, each stem once,
/// and no empty stem.
pub proof fn law_read_history_is_clean(ls: Seq<Seq<char>>)
    ensures
        clean_history(recents_of(ls)),
    decreases ls.len(),
{
    if ls.len() > 0 {
        law_read_history_is_clean(ls.drop_last());
        let r = recents_of(ls.drop_last());
        let l = ls.last();
        if !(r.len() >= RECENTS_MAX || l.len() == 0 || r.contains(l)) {
            let r2 = r.push(l);
            assert forall|i: int, j: int| 0 <= i < r2.len() && 0 <= j < r2.len() && i != j
                implies r2[i] != r2[j] by {
                if i == r.len() {
                    assert(r2[j] == r[j]);
                } else if j == r.len() {
                    assert(r2[i] == r[i]);
                }
            }
        }
    }
}

/// A played game leads the history, once, and the history stays capped; a history that held
/// no stem twice still holds none twice.
pub proof fn law_touch_promotes(r: Seq<Seq<char>>, stem: Seq<char>)
    ensures
        touched(r, stem).len() >= 1,
        touched(r, stem)[0] == stem,
        touched(r, stem).len() <= RECENTS_MAX,
        forall|i: int| 1 <= i < touched(r, stem).len() ==> #[trigger] touched(r, stem)[i] != stem,
        r.no_duplicates() ==> touched(r, stem).no_duplicates(),
{
    let keep = other_than(stem);
    let f = r.filter(keep);
    let t = seq![stem] + f;
    assert forall|i: int| 0 <= i < f.len() implies #[trigger] f[i] != stem by {
        r.lemma_filter_pred(keep, i);
    }
    assert forall|i: int| 1 <= i < t.len() implies #[trigger] t[i] != stem by {
        assert(t[i] == f[i - 1]);
    }
    if r.no_duplicates() {
        lemma_filter_no_duplicates(r, keep);
        assert forall|i: int, j: int| 0 <= i < t.len() && 0 <= j < t.len() && i != j implies t[i]
            != t[j] by {
            if i > 0 && j > 0 {
                assert(t[i] == f[i - 1]);
                assert(t[j] == f[j - 1]);
            }
        }
        let u = touched(r, stem);
        assert forall|i: int, j: int| 0 <= i < u.len() && 0 <= j < u.len() && i != j implies u[i]
            != u[j] by {
            if t.len() > RECENTS_MAX {
                assert(u[i] == t[i]);
                assert(u[j] == t[j]);
            }
        }
    }
}

proof fn lemma_filter_no_duplicates(r: Seq<Seq<char>>, p: spec_fn(Seq<char>) -> bool)
    requires
        r.no_duplicates(),
    ensures
        r.filter(p).no_duplicates(),
    decreases r.len(),
{
    reveal(Seq::filter);
    if r.len() > 0 {
        let d = r.drop_last();
        assert forall|i: int, j: int| 0 <= i < d.len() && 0 <= j < d.len() && i != j implies d[i]
            != d[j] by {
            assert(d[i] == r[i]);
            assert(d[j] == r[j]);
        }
        lemma_filter_no_duplicates(d, p);
        let f = d.filter(p);
        if p(r.last()) {
            assert(!f.contains(r.last())) by {
                if f.contains(r.last()) {
                    d.lemma_filter_contains_rev(p, r.last());
                    let m = choose|m: int| 0 <= m < d.len() && d[m] == r.last();
                    assert(r[m] == r[r.len() - 1]);
                }
            }
            let g = f.push(r.last());
            assert forall|i: int, j: int| 0 <= i < g.len() && 0 <= j < g.len() && i != j implies g[i]
                != g[j] by {
                if i == f.len() {
                    assert(g[j] == f[j]);
                } else if j == f.len() {
                    assert(g[i] == f[i]);
                }
            }
        }
    }
}

/// A clean history of one-line stems comes back from its file exactly as it was written.
pub proof fn law_recents_round_trip(r: Seq<Seq<char>>)
    requires
        clean_history(r),
        forall|i: int| 0 <= i < r.len() ==> no_newline(#[trigger] r[i]) && r[i].last() != '\r',
    ensures
        recents_of(lines(recents_text(r))) == r,
{
    assert(no_newlines(r));
    lemma_lines_join(r, Seq::empty());
    assert(join_lines(r) + Seq::<char>::empty() == join_lines(r));
    assert(lines(Seq::<char>::empty()) == Seq::<Seq<char>>::empty());
    assert forall|i: int| 0 <= i < r.len() implies #[trigger] strip_crs(r)[i] == r[i] by {
        assert(strip_cr(r[i]) == r[i]);
    }
    assert(strip_crs(r) =~= r);
    lemma_recents_of_clean(r);
}

proof fn lemma_recents_of_clean(r: Seq<Seq<char>>)
    requires
        clean_history(r),
    ensures
        recents_of(r) == r,
    decreases r.len(),
{
    if r.len() > 0 {
        let d = r.drop_last();
        assert forall|i: int, j: int| 0 <= i < d.len() && 0 <= j < d.len() && i != j implies d[i]
            != d[j] by {
            assert(d[i] == r[i]);
            assert(d[j] == r[j]);
        }
        assert forall|i: int| 0 <= i < d.len() implies (#[trigger] d[i]).len() > 0 by {
            assert(d[i] == r[i]);
        }
        lemma_recents_of_clean(d);
        assert(!d.contains(r.last())) by {
            if d.contains(r.last()) {
                let k = choose|k: int| 0 <= k < d.len() && d[k] == r.last();
                assert(r[k] == r[r.len() - 1]);
            }
        }
        assert(r.last().len() > 0);
        assert(d.push(r.last()) == r);
    }
}

} // verus!
