//! Save states: the ten deliberate saves for one cart, plus the invisible `resume.state`
//! alongside them. Only `SELECT+R1` pushes; eject, lid, power and autosave all write resume,
//! which is why resume is not an entry. Every name here is worked out from text; the
//! directory itself is read and written by the caller.
use crate::store::cores::{core_name, Core};
use crate::store::favorites::{compare_chars, first_difference, lex_lt, lemma_lex_irreflexive, lemma_lex_transitive};
use crate::store::path::{extension, file_stem, file_stem_of};
use crate::store::platform::{dir_of, Platform};
use crate::text::{append_str, chars_of, chars_views, dec, push_dec, string_of, string_views};
use vstd::prelude::*;

verus! {

pub const RING_MAX: usize = 10;

pub const STATE_EXT: &'static str = "state";

pub const THUMB_EXT: &'static str = "png";

pub const RESUME: &'static str = "resume";

/// What a resume the core would not read is renamed to, before the stamp.
pub const REFUSED: &'static str = "resume-refused";

/// `Path::join` on `/`-separated text: an absolute second part replaces the first, and a
/// separator goes between them unless the first already ends in one or is empty.
pub open spec fn join(a: Seq<char>, b: Seq<char>) -> Seq<char> {
    if b.len() > 0 && b[0] == '/' {
        b
    } else if a.len() == 0 {
        b
    } else if a.last() == '/' {
        a + b
    } else {
        a + seq!['/'] + b
    }
}

pub(crate) fn join_into(a: &Vec<char>, b: &str) -> (r: Vec<char>)
    ensures
        r@ == join(a@, b@),
{
    let bv = chars_of(b);
    if bv.len() > 0 && bv[0] == '/' {
        return bv;
    }
    let mut out: Vec<char> = Vec::new();
    crate::text::append_range(&mut out, a, 0, a.len());
    assert(a@.subrange(0, a@.len() as int) == a@);
    if a.len() > 0 && a[a.len() - 1] != '/' {
        out.push('/');
    }
    append_str(&mut out, b);
    out
}

/// The shape of a stamp, `%Y-%m-%d_%H-%M-%S`: digits where the template has `0`, and the
/// template's own separators elsewhere.
pub open spec fn stamp_char_ok(i: int, c: char) -> bool {
    if i == 4 || i == 7 || i == 13 || i == 16 {
        c == '-'
    } else if i == 10 {
        c == '_'
    } else {
        crate::text::is_digit(c)
    }
}

/// `resume.state` fails this, and so does anything the user dropped in the directory by
/// hand. Eviction deletes what listing returns, so being strict here is what stops the ring
/// removing a file it did not write.
pub open spec fn is_stamp_of(s: Seq<char>) -> bool {
    &&& s.len() == 19
    &&& forall|i: int| 0 <= i < 19 ==> stamp_char_ok(i, #[trigger] s[i])
}

pub fn is_stamp(s: &str) -> (r: bool)
    ensures
        r == is_stamp_of(s@),
{
    let v = chars_of(s);
    if v.len() != 19 {
        return false;
    }
    let mut i: usize = 0;
    while i < 19
        invariant
            i <= 19,
            v@ == s@,
            v@.len() == 19,
            forall|j: int| 0 <= j < i ==> stamp_char_ok(j, #[trigger] v@[j]),
        decreases 19 - i,
    {
        let c = v[i];
        let ok = if i == 4 || i == 7 || i == 13 || i == 16 {
            c == '-'
        } else if i == 10 {
            c == '_'
        } else {
            '0' <= c && c <= '9'
        };
        if !ok {
            assert(!stamp_char_ok(i as int, v@[i as int]));
            return false;
        }
        i += 1;
    }
    true
}

#[derive(Clone, PartialEq, Eq, Debug)]
pub struct StateEntry {
    /// `%Y-%m-%d_%H-%M-%S`, and also the filename. There is no separate index to corrupt.
    pub stamp: String,
    pub state: String,
    pub thumb: String,
}

/// The directory of one cart's states.
pub struct StateRing {
    dir: String,
}

/// `States/<platform>/<core>/<stem>` under `root`.
pub open spec fn ring_dir(root: Seq<char>, p: Platform, c: Core, stem: Seq<char>) -> Seq<char> {
    join(join(join(join(root, "States"@), dir_of(p)), core_name(c)), stem)
}

/// `<dir>/<stem>.<ext>`.
pub open spec fn file_in(dir: Seq<char>, stem: Seq<char>, ext: Seq<char>) -> Seq<char> {
    join(dir, stem + seq!['.'] + ext)
}

/// The stems of the names that are stamped states, in the order the names came.
pub open spec fn stamps_in(names: Seq<Seq<char>>) -> Seq<Seq<char>>
    decreases names.len(),
{
    if names.len() == 0 {
        Seq::empty()
    } else {
        let rest = stamps_in(names.drop_last());
        let n = names.last();
        if extension(n) == Some("state"@) && file_stem(n) is Some && is_stamp_of(file_stem(n)->0) {
            rest.push(file_stem(n)->0)
        } else {
            rest
        }
    }
}

/// `x` placed in a newest-first list: before the first stamp older than it, so after every
/// stamp it does not sort after.
pub open spec fn insert_newest_first(s: Seq<Seq<char>>, x: Seq<char>) -> Seq<Seq<char>>
    decreases s.len(),
{
    if s.len() == 0 {
        seq![x]
    } else if lex_lt(s[0], x) {
        seq![x] + s
    } else {
        seq![s[0]] + insert_newest_first(s.drop_first(), x)
    }
}

/// The stamps newest first. The stamp is fixed width and most significant first, so
/// lexicographic order is chronological order.
pub open spec fn newest_first(s: Seq<Seq<char>>) -> Seq<Seq<char>>
    decreases s.len(),
{
    if s.len() == 0 {
        Seq::empty()
    } else {
        insert_newest_first(newest_first(s.drop_last()), s.last())
    }
}

proof fn lemma_insert_at(s: Seq<Seq<char>>, x: Seq<char>, p: int)
    requires
        0 <= p <= s.len(),
        forall|k: int| 0 <= k < p ==> !lex_lt(#[trigger] s[k], x),
        p < s.len() ==> lex_lt(s[p], x),
    ensures
        insert_newest_first(s, x) == s.insert(p, x),
    decreases p,
{
    if s.len() == 0 {
        assert(s.insert(p, x) =~= seq![x]);
    } else if p == 0 {
        assert(s.insert(0, x) =~= seq![x] + s);
    } else {
        let t = s.drop_first();
        assert forall|k: int| 0 <= k < p - 1 implies !lex_lt(#[trigger] t[k], x) by {
            assert(t[k] == s[k + 1]);
        }
        if p - 1 < t.len() {
            assert(t[p - 1] == s[p]);
        }
        lemma_insert_at(t, x, p - 1);
        assert(seq![s[0]] + t.insert(p - 1, x) =~= s.insert(p, x));
    }
}

impl StateRing {
    /// States are core private: a serialized machine from one emulator cannot be loaded by
    /// another. Platform first, then core: `States/<platform>/<core>/<stem>/`. A `.gb` and a
    /// `.gba` cart can share a stem, so the platform has to separate them before the core
    /// does.
    pub fn new(root: &str, platform: Platform, core: Core, stem: &str) -> (r: Self)
        ensures
            r.spec_dir() == ring_dir(root@, platform, core, stem@),
    {
        let r = chars_of(root);
        let a = join_into(&r, "States");
        let b = join_into(&a, platform.dir_name());
        let c = join_into(&b, core.as_str());
        let d = join_into(&c, stem);
        proof {
            reveal_strlit("States");
        }
        StateRing { dir: string_of(&d) }
    }

    pub closed spec fn spec_dir(&self) -> Seq<char> {
        self.dir@
    }

    /// The cart's state directory.
    pub fn dir(&self) -> (r: &str)
        ensures
            r@ == self.spec_dir(),
    {
        self.dir.as_str()
    }

    /// `<dir>/<stem>.<ext>`.
    pub fn path(&self, stem: &str, ext: &str) -> (r: String)
        ensures
            r@ == file_in(self.spec_dir(), stem@, ext@),
    {
        let mut name: Vec<char> = Vec::new();
        append_str(&mut name, stem);
        name.push('.');
        append_str(&mut name, ext);
        let n = string_of(&name);
        let d = chars_of(self.dir.as_str());
        string_of(&join_into(&d, n.as_str()))
    }

    /// The caller names the file, so `resume` and anything else outside the ring is refused
    /// here rather than being deleted or handed back.
    pub fn stamped(&self, stamp: &str, ext: &str) -> (r: Option<String>)
        ensures
            match r {
                Some(p) => is_stamp_of(stamp@) && p@ == file_in(self.spec_dir(), stamp@, ext@),
                None => !is_stamp_of(stamp@),
            },
    {
        if !is_stamp(stamp) {
            return None;
        }
        Some(self.path(stamp, ext))
    }

    /// The entries a directory holding the files `names` lists: every `<stamp>.state`, newest
    /// first, each with the picture that goes with it.
    pub fn entries(&self, names: &Vec<String>) -> (r: Vec<StateEntry>)
        ensures
            r@.len() == newest_first(stamps_in(string_views(names@))).len(),
            forall|i: int|
                0 <= i < r@.len() ==> {
                    let s = newest_first(stamps_in(string_views(names@)))[i];
                    &&& (#[trigger] r@[i]).stamp@ == s
                    &&& r@[i].state@ == file_in(self.spec_dir(), s, "state"@)
                    &&& r@[i].thumb@ == file_in(self.spec_dir(), s, "png"@)
                },
    {
        let ghost all = string_views(names@);
        let mut sorted: Vec<Vec<char>> = Vec::new();
        let mut i: usize = 0;
        proof {
            reveal_strlit("state");
        }
        assert(all.take(0) =~= Seq::<Seq<char>>::empty());
        while i < names.len()
            invariant
                i <= names.len(),
                all == string_views(names@),
                chars_views(sorted@) == newest_first(stamps_in(all.take(i as int))),
            decreases names.len() - i,
        {
            let n = names[i].as_str();
            let ghost t = all.take(i + 1);
            assert(t.drop_last() == all.take(i as int));
            assert(t.last() == n@);
            let v = chars_of(n);
            let ghost prev = stamps_in(all.take(i as int));
            let ext_ok = match crate::store::path::extension_range(&v) {
                Some((a, b)) => {
                    let e = chars_of("state");
                    let same = crate::text::chars_eq(&v, a, b, &e, 0, e.len());
                    assert(e@.subrange(0, e@.len() as int) == e@);
                    same
                },
                None => false,
            };
            assert(ext_ok == (extension(n@) == Some("state"@)));
            let mut added = false;
            if ext_ok {
                match file_stem_of(n) {
                    Some(stem) => {
                        if is_stamp(stem.as_str()) {
                            added = true;
                            let x = chars_of(stem.as_str());
                            let ghost before = chars_views(sorted@);
                            let mut p: usize = 0;
                            let mut found = false;
                            while !found && p < sorted.len()
                                invariant
                                    p <= sorted.len(),
                                    before == chars_views(sorted@),
                                    forall|k: int| 0 <= k < p ==> !lex_lt(#[trigger] before[k], x@),
                                    found ==> p < sorted.len() && lex_lt(before[p as int], x@),
                                decreases sorted.len() - p + (if found { 0int } else { 1int }),
                            {
                                let c = compare_chars(&sorted[p], &x);
                                assert(before[p as int] == sorted@[p as int]@);
                                if c < 0 {
                                    found = true;
                                } else {
                                    proof {
                                        if c == 0 {
                                            lemma_lex_irreflexive(x@);
                                        } else if lex_lt(before[p as int], x@) {
                                            lemma_lex_transitive(before[p as int], x@, before[p as int]);
                                            lemma_lex_irreflexive(before[p as int]);
                                        }
                                    }
                                    p += 1;
                                }
                            }
                            proof {
                                lemma_insert_at(before, x@, p as int);
                            }
                            sorted.insert(p, x);
                            assert(chars_views(sorted@) =~= before.insert(p as int, stem@));
                            assert(stamps_in(t) == prev.push(stem@));
                            assert(prev.push(stem@).drop_last() == prev);
                        }
                    },
                    None => {},
                }
            }
            if !added {
                assert(stamps_in(t) == prev);
            }
            i += 1;
        }
        assert(all.take(names.len() as int) == all);
        let ghost order = newest_first(stamps_in(all));
        let mut out: Vec<StateEntry> = Vec::new();
        let mut k: usize = 0;
        while k < sorted.len()
            invariant
                k <= sorted.len(),
                chars_views(sorted@) == order,
                out@.len() == k,
                forall|j: int|
                    0 <= j < k ==> {
                        let s = order[j];
                        &&& (#[trigger] out@[j]).stamp@ == s
                        &&& out@[j].state@ == file_in(self.spec_dir(), s, "state"@)
                        &&& out@[j].thumb@ == file_in(self.spec_dir(), s, "png"@)
                    },
            decreases sorted.len() - k,
        {
            let stamp = string_of(&sorted[k]);
            let state = self.path(stamp.as_str(), STATE_EXT);
            let thumb = self.path(stamp.as_str(), THUMB_EXT);
            proof {
                reveal_strlit("state");
                reveal_strlit("png");
            }
            out.push(StateEntry { stamp, state, thumb });
            k += 1;
        }
        out
    }

    /// What a save deletes from a directory holding the files `names`: every entry past
    /// the `RING_MAX` newest, in the order `entries` lists them.
    pub fn evicted(&self, names: &Vec<String>) -> (r: Vec<StateEntry>)
        ensures
            r@.len() == (if newest_first(stamps_in(string_views(names@))).len() > RING_MAX {
                newest_first(stamps_in(string_views(names@))).len() - RING_MAX
            } else {
                0
            }),
            forall|i: int|
                0 <= i < r@.len() ==> {
                    let s = newest_first(stamps_in(string_views(names@)))[i + RING_MAX];
                    &&& (#[trigger] r@[i]).stamp@ == s
                    &&& r@[i].state@ == file_in(self.spec_dir(), s, "state"@)
                    &&& r@[i].thumb@ == file_in(self.spec_dir(), s, "png"@)
                },
    {
        let mut all = self.entries(names);
        if all.len() <= RING_MAX {
            return Vec::new();
        }
        let r = all.split_off(RING_MAX);
        r
    }

    /// `<dir>/resume.state`.
    pub fn resume_path(&self) -> (r: String)
        ensures
            r@ == file_in(self.spec_dir(), "resume"@, "state"@),
    {
        self.path(RESUME, STATE_EXT)
    }

    /// The `n`th name tried for a resume a successfully loaded core rejected:
    /// `resume.rejected-<n>.state`.
    pub fn rejected_path(&self, n: u32) -> (r: String)
        ensures
            r@ == file_in(self.spec_dir(), "resume.rejected-"@ + dec(n as nat), "state"@),
    {
        let mut name: Vec<char> = Vec::new();
        append_str(&mut name, "resume.rejected-");
        push_dec(&mut name, n as u64);
        self.path(string_of(&name).as_str(), STATE_EXT)
    }

    /// The names tried for a resume the core refused: `resume-refused-<stamp>.state` first,
    /// then `resume-refused-<stamp>-<n>.state` from `n` = 2 on. `None` asks for the first.
    pub fn refused_path(&self, stamp: &str, n: Option<u32>) -> (r: String)
        ensures
            r@ == file_in(self.spec_dir(), refused_stem(stamp@, n), "state"@),
    {
        let mut name: Vec<char> = Vec::new();
        append_str(&mut name, REFUSED);
        name.push('-');
        append_str(&mut name, stamp);
        if let Some(n) = n {
            name.push('-');
            push_dec(&mut name, n as u64);
        }
        proof {
            reveal_strlit("resume-refused");
        }
        self.path(string_of(&name).as_str(), STATE_EXT)
    }
}

pub open spec fn refused_stem(stamp: Seq<char>, n: Option<u32>) -> Seq<char> {
    let base = "resume-refused"@ + seq!['-'] + stamp;
    match n {
        Some(n) => base + seq!['-'] + dec(n as nat),
        None => base,
    }
}

// ---------------------------------------------------------------------------------------------
// Laws
// ---------------------------------------------------------------------------------------------

/// Neither the resume, nor a resume moved aside because a core refused or rejected it, ever
/// has a stamp for a stem: so none of them is ever listed as an entry, and eviction, which
/// only removes what is listed, never removes one.
pub proof fn law_resumes_are_never_entries(stamp: Seq<char>, n: Option<u32>, m: u32)
    ensures
        !is_stamp_of("resume"@),
        !is_stamp_of(refused_stem(stamp, n)),
        !is_stamp_of("resume.rejected-"@ + dec(m as nat)),
{
    reveal_strlit("resume");
    reveal_strlit("resume-refused");
    reveal_strlit("resume.rejected-");
    let a = refused_stem(stamp, n);
    let b = "resume.rejected-"@ + dec(m as nat);
    assert(a[0] == 'r');
    assert(b[0] == 'r');
    assert(!stamp_char_ok(0, 'r'));
}

/// Listing is newest first: no entry sorts after one listed before it.
pub proof fn law_listing_is_newest_first(s: Seq<Seq<char>>)
    ensures
        forall|i: int, j: int|
            0 <= i < j < newest_first(s).len() ==> !lex_lt(
                #[trigger] newest_first(s)[i],
                #[trigger] newest_first(s)[j],
            ),
        newest_first(s).len() == s.len(),
    decreases s.len(),
{
    if s.len() > 0 {
        law_listing_is_newest_first(s.drop_last());
        lemma_insert_keeps_order(newest_first(s.drop_last()), s.last());
    }
}

pub open spec fn not_ascending(s: Seq<Seq<char>>) -> bool {
    forall|i: int, j: int| 0 <= i < j < s.len() ==> !lex_lt(#[trigger] s[i], #[trigger] s[j])
}

proof fn lemma_lex_total(a: Seq<char>, b: Seq<char>)
    requires
        a != b,
    ensures
        lex_lt(a, b) || lex_lt(b, a),
    decreases a.len(),
{
    if a.len() == 0 {
        if b.len() == 0 {
            assert(a =~= b);
        }
        assert(first_difference(a, b, 0));
    } else if b.len() == 0 {
        assert(first_difference(b, a, 0));
    } else if a[0] != b[0] {
        if (a[0] as u32) < (b[0] as u32) {
            assert(first_difference(a, b, 0));
        } else if (a[0] as u32) == (b[0] as u32) {
            vstd::utf8::char_u32_cast(a[0], a[0] as u32);
            vstd::utf8::char_u32_cast(b[0], b[0] as u32);
        } else {
            assert(first_difference(b, a, 0));
        }
    } else {
        let a2 = a.drop_first();
        let b2 = b.drop_first();
        assert(a2 != b2) by {
            if a2 == b2 {
                assert(a =~= seq![a[0]] + a2);
                assert(b =~= seq![b[0]] + b2);
            }
        }
        lemma_lex_total(a2, b2);
        if lex_lt(a2, b2) {
            let k = choose|k: int| first_difference(a2, b2, k);
            assert forall|j: int| 0 <= j < k + 1 implies #[trigger] a[j] == b[j] by {
                if j > 0 {
                    assert(a[j] == a2[j - 1] && b[j] == b2[j - 1]);
                }
            }
            assert(first_difference(a, b, k + 1));
        } else {
            let k = choose|k: int| first_difference(b2, a2, k);
            assert forall|j: int| 0 <= j < k + 1 implies #[trigger] b[j] == a[j] by {
                if j > 0 {
                    assert(a[j] == a2[j - 1] && b[j] == b2[j - 1]);
                }
            }
            assert(first_difference(b, a, k + 1));
        }
    }
}

proof fn lemma_insert_keeps_order(s: Seq<Seq<char>>, x: Seq<char>)
    requires
        not_ascending(s),
    ensures
        not_ascending(insert_newest_first(s, x)),
        insert_newest_first(s, x).len() == s.len() + 1,
        forall|y: Seq<char>| #[trigger] insert_newest_first(s, x).contains(y) <==> s.contains(y) || y == x,
    decreases s.len(),
{
    let r = insert_newest_first(s, x);
    if s.len() == 0 {
        assert(r == seq![x]);
        assert forall|y: Seq<char>| #[trigger] r.contains(y) <==> s.contains(y) || y == x by {
            if r.contains(y) {
                let k = choose|k: int| 0 <= k < r.len() && r[k] == y;
            }
            if y == x {
                assert(r[0] == y);
            }
        }
    } else if lex_lt(s[0], x) {
        assert forall|i: int, j: int| 0 <= i < j < r.len() implies !lex_lt(#[trigger] r[i], #[trigger] r[j]) by {
            if i == 0 {
                assert(r[j] == s[j - 1]);
                // s[j - 1] is no later than s[0], which is earlier than x
                if lex_lt(x, s[j - 1]) {
                    if j - 1 == 0 {
                        lemma_lex_transitive(s[0], x, s[0]);
                        lemma_lex_irreflexive(s[0]);
                    } else {
                        assert(!lex_lt(s[0], s[j - 1]));
                        if s[0] != s[j - 1] {
                            lemma_lex_total(s[0], s[j - 1]);
                            lemma_lex_transitive(s[j - 1], s[0], x);
                            lemma_lex_transitive(x, s[j - 1], x);
                            lemma_lex_irreflexive(x);
                        } else {
                            lemma_lex_transitive(x, s[0], x);
                            lemma_lex_irreflexive(x);
                        }
                    }
                }
            } else {
                assert(r[i] == s[i - 1] && r[j] == s[j - 1]);
            }
        }
        assert forall|y: Seq<char>| #[trigger] r.contains(y) <==> s.contains(y) || y == x by {
            if r.contains(y) {
                let k = choose|k: int| 0 <= k < r.len() && r[k] == y;
                if k > 0 {
                    assert(s[k - 1] == y);
                }
            }
            if s.contains(y) {
                let k = choose|k: int| 0 <= k < s.len() && s[k] == y;
                assert(r[k + 1] == y);
            }
            if y == x {
                assert(r[0] == y);
            }
        }
    } else {
        let t = s.drop_first();
        assert forall|i: int, j: int| 0 <= i < j < t.len() implies !lex_lt(#[trigger] t[i], #[trigger] t[j]) by {
            assert(t[i] == s[i + 1] && t[j] == s[j + 1]);
        }
        lemma_insert_keeps_order(t, x);
        let u = insert_newest_first(t, x);
        assert(r == seq![s[0]] + u);
        assert forall|i: int, j: int| 0 <= i < j < r.len() implies !lex_lt(#[trigger] r[i], #[trigger] r[j]) by {
            if i == 0 {
                assert(r[j] == u[j - 1]);
                assert(u.contains(u[j - 1]));
                if u[j - 1] == x {
                } else {
                    assert(t.contains(u[j - 1]));
                    let k = choose|k: int| 0 <= k < t.len() && t[k] == u[j - 1];
                    assert(s[k + 1] == t[k]);
                }
            } else {
                assert(r[i] == u[i - 1] && r[j] == u[j - 1]);
            }
        }
        assert forall|y: Seq<char>| #[trigger] r.contains(y) <==> s.contains(y) || y == x by {
            if r.contains(y) {
                let k = choose|k: int| 0 <= k < r.len() && r[k] == y;
                if k > 0 {
                    assert(u[k - 1] == y);
                    assert(u.contains(y));
                    if t.contains(y) {
                        let m = choose|m: int| 0 <= m < t.len() && t[m] == y;
                        assert(s[m + 1] == y);
                    }
                }
            }
            if s.contains(y) {
                let k = choose|k: int| 0 <= k < s.len() && s[k] == y;
                if k > 0 {
                    assert(t[k - 1] == y);
                    assert(t.contains(y));
                    assert(u.contains(y));
                    let m = choose|m: int| 0 <= m < u.len() && u[m] == y;
                    assert(r[m + 1] == y);
                }
            }
            if y == x {
                assert(u.contains(x));
                let m = choose|m: int| 0 <= m < u.len() && u[m] == x;
                assert(r[m + 1] == x);
            }
        }
    }
}


// ---------------------------------------------------------------------------------------------
// Rings never overlap
// ---------------------------------------------------------------------------------------------

/// `s` begins with `t`.
pub open spec fn starts(s: Seq<char>, t: Seq<char>) -> bool {
    t.len() <= s.len() && forall|i: int| 0 <= i < t.len() ==> #[trigger] s[i] == t[i]
}

/// `inner` is a path below the directory `outer`.
pub open spec fn lies_within(inner: Seq<char>, outer: Seq<char>) -> bool {
    starts(inner, outer + seq!['/'])
}

pub open spec fn no_slash(s: Seq<char>) -> bool {
    forall|i: int| 0 <= i < s.len() ==> #[trigger] s[i] != '/'
}

proof fn lemma_split_at_slash(a: Seq<char>, x: Seq<char>, b: Seq<char>, y: Seq<char>)
    requires
        no_slash(a),
        no_slash(b),
        starts(b + seq!['/'] + y, a + seq!['/'] + x),
    ensures
        a == b,
        starts(y, x),
{
    let l = a + seq!['/'] + x;
    let r = b + seq!['/'] + y;
    if a.len() < b.len() {
        assert(l[a.len() as int] == '/');
        assert(r[a.len() as int] == b[a.len() as int]);
    } else if a.len() > b.len() {
        assert(r[b.len() as int] == '/');
        assert(l[b.len() as int] == a[b.len() as int]);
    }
    assert forall|i: int| 0 <= i < a.len() implies a[i] == b[i] by {
        assert(l[i] == a[i] && r[i] == b[i]);
    }
    assert(a =~= b);
    assert forall|i: int| 0 <= i < x.len() implies #[trigger] y[i] == x[i] by {
        assert(l[a.len() + 1 + i] == x[i]);
        assert(r[a.len() + 1 + i] == y[i]);
    }
}

/// Where every ring's directory starts: the card's `States` directory.
pub open spec fn states_dir(root: Seq<char>) -> Seq<char> {
    join(root, "States"@)
}

proof fn lemma_ring_dir_shape(root: Seq<char>, p: Platform, c: Core, stem: Seq<char>)
    requires
        stem.len() > 0,
        no_slash(stem),
    ensures
        states_dir(root).len() > 0,
        ring_dir(root, p, c, stem) == states_dir(root) + seq!['/'] + (dir_of(p) + seq!['/'] + (core_name(c)
            + seq!['/'] + stem)),
{
    reveal_strlit("States");
    let base = states_dir(root);
    assert(base.last() == 's');
    let pd = dir_of(p);
    let cn = core_name(c);
    assert(pd.len() > 0 && pd[0] != '/' && pd.last() != '/');
    assert(cn.len() > 0 && cn[0] != '/' && cn.last() != '/');
    assert(stem[0] != '/');
    let a = join(base, pd);
    assert(a == base + seq!['/'] + pd);
    assert(a.last() == pd.last());
    let b = join(a, cn);
    assert(b == a + seq!['/'] + cn);
    assert(b.last() == cn.last());
    assert(join(b, stem) == b + seq!['/'] + stem);
    assert(b + seq!['/'] + stem =~= base + seq!['/'] + (pd + seq!['/'] + (cn + seq!['/'] + stem)));
}

proof fn lemma_names_have_no_slash(p: Platform, c: Core)
    ensures
        no_slash(dir_of(p)),
        no_slash(core_name(c)),
{
}

/// Two carts' rings never share or nest a directory: a ring for another platform, another
/// core or another stem lives elsewhere and nowhere below this one, so what is pushed,
/// written or removed through one never touches the other.
pub proof fn law_rings_are_disjoint(
    root: Seq<char>,
    p1: Platform,
    c1: Core,
    s1: Seq<char>,
    p2: Platform,
    c2: Core,
    s2: Seq<char>,
)
    requires
        p1 != p2 || c1 != c2 || s1 != s2,
        s1.len() > 0,
        s2.len() > 0,
        no_slash(s1),
        no_slash(s2),
    ensures
        ring_dir(root, p1, c1, s1) != ring_dir(root, p2, c2, s2),
        !lies_within(ring_dir(root, p1, c1, s1), ring_dir(root, p2, c2, s2)),
        !lies_within(ring_dir(root, p2, c2, s2), ring_dir(root, p1, c1, s1)),
{
    lemma_ring_dir_shape(root, p1, c1, s1);
    lemma_ring_dir_shape(root, p2, c2, s2);
    lemma_names_have_no_slash(p1, c1);
    lemma_names_have_no_slash(p2, c2);
    let base = states_dir(root) + seq!['/'];
    let t1 = dir_of(p1) + seq!['/'] + (core_name(c1) + seq!['/'] + s1);
    let t2 = dir_of(p2) + seq!['/'] + (core_name(c2) + seq!['/'] + s2);
    let d1 = base + t1;
    let d2 = base + t2;
    assert(ring_dir(root, p1, c1, s1) =~= d1);
    assert(ring_dir(root, p2, c2, s2) =~= d2);
    lemma_tail_apart(p1, c1, s1, p2, c2, s2);
    lemma_tail_apart(p2, c2, s2, p1, c1, s1);
    if d1 == d2 {
        assert forall|i: int| 0 <= i < t1.len() implies #[trigger] t2[i] == t1[i] by {
            assert(d1[base.len() + i] == t1[i] && d2[base.len() + i] == t2[i]);
        }
        assert(starts(t2, t1));
        assert(t1 =~= t2);
    }
    if lies_within(d1, d2) {
        assert forall|i: int| 0 <= i < (t2 + seq!['/']).len() implies #[trigger] t1[i] == (t2 + seq!['/'])[i] by {
            assert((d2 + seq!['/'])[base.len() + i] == (t2 + seq!['/'])[i]);
            assert(d1[base.len() + i] == t1[i]);
        }
    }
    if lies_within(d2, d1) {
        assert forall|i: int| 0 <= i < (t1 + seq!['/']).len() implies #[trigger] t2[i] == (t1 + seq!['/'])[i] by {
            assert((d1 + seq!['/'])[base.len() + i] == (t1 + seq!['/'])[i]);
            assert(d2[base.len() + i] == t2[i]);
        }
    }
}

/// Below the `States` directory, one cart's `<platform>/<core>/<stem>` is never another's,
/// nor a directory above it.
proof fn lemma_tail_apart(p1: Platform, c1: Core, s1: Seq<char>, p2: Platform, c2: Core, s2: Seq<char>)
    requires
        p1 != p2 || c1 != c2 || s1 != s2,
        no_slash(s1),
        no_slash(s2),
    ensures
        ({
            let t1 = dir_of(p1) + seq!['/'] + (core_name(c1) + seq!['/'] + s1);
            let t2 = dir_of(p2) + seq!['/'] + (core_name(c2) + seq!['/'] + s2);
            &&& !(t1 == t2)
            &&& !starts(t2, t1 + seq!['/'])
        }),
{
    lemma_names_have_no_slash(p1, c1);
    lemma_names_have_no_slash(p2, c2);
    let x1 = core_name(c1) + seq!['/'] + s1;
    let x2 = core_name(c2) + seq!['/'] + s2;
    let t1 = dir_of(p1) + seq!['/'] + x1;
    let t2 = dir_of(p2) + seq!['/'] + x2;
    if t1 == t2 {
        assert(starts(t2, t1));
        lemma_split_at_slash(dir_of(p1), x1, dir_of(p2), x2);
        lemma_split_at_slash(core_name(c1), s1, core_name(c2), s2);
        crate::store::platform::law_dir_name_round_trip(p1);
        crate::store::platform::law_dir_name_round_trip(p2);
        crate::store::cores::law_core_names_round_trip(c1);
        crate::store::cores::law_core_names_round_trip(c2);
        assert(x1.len() == x2.len());
        assert(s1.len() == s2.len());
        assert(s1 =~= s2);
    }
    if starts(t2, t1 + seq!['/']) {
        assert(t1 + seq!['/'] =~= dir_of(p1) + seq!['/'] + (x1 + seq!['/']));
        lemma_split_at_slash(dir_of(p1), x1 + seq!['/'], dir_of(p2), x2);
        assert(x1 + seq!['/'] =~= core_name(c1) + seq!['/'] + (s1 + seq!['/']));
        lemma_split_at_slash(core_name(c1), s1 + seq!['/'], core_name(c2), s2);
        assert((s1 + seq!['/'])[s1.len() as int] == '/');
        assert(s2[s1.len() as int] == '/');
    }
}
} // verus!
