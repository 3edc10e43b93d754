//! The parts of a path the card's layout is keyed on: its file name, the name's extension
//! and its stem, as `std::path::Path` reads them from a `/`-separated path.
use crate::text::{chars_of, string_of_range};
use vstd::prelude::*;

verus! {

/// Where `c` last occurs in `s`, or -1.
pub open spec fn last_index_of(s: Seq<char>, c: char) -> int
    decreases s.len(),
{
    if s.len() == 0 {
        -1
    } else if s.last() == c {
        s.len() - 1
    } else {
        last_index_of(s.drop_last(), c)
    }
}

pub proof fn lemma_last_index_of(s: Seq<char>, c: char)
    ensures
        -1 <= last_index_of(s, c) < s.len(),
        last_index_of(s, c) >= 0 ==> s[last_index_of(s, c)] == c,
        forall|j: int| last_index_of(s, c) < j < s.len() ==> s[j] != c,
    decreases s.len(),
{
    if s.len() > 0 && s.last() != c {
        lemma_last_index_of(s.drop_last(), c);
        assert forall|j: int| last_index_of(s, c) < j < s.len() implies s[j] != c by {
            if j < s.len() - 1 {
                assert(s[j] == s.drop_last()[j]);
            }
        }
    }
}

/// `Path::file_name`: the last component, with empty and `.` components passed over, and
/// nothing for a path that ends in `..` or has no named component at all.
pub open spec fn file_name(s: Seq<char>) -> Option<Seq<char>>
    decreases s.len(),
{
    let i = last_index_of(s, '/');
    let seg = s.skip(i + 1);
    if seg.len() == 0 || seg == seq!['.'] {
        if i < 0 {
            None
        } else {
            proof {
                lemma_last_index_of(s, '/');
            }
            file_name(s.take(i))
        }
    } else if seg == seq!['.', '.'] {
        None
    } else {
        Some(seg)
    }
}

/// `Path::extension`: what follows the name's last `.`, unless that dot starts the name.
pub open spec fn extension(s: Seq<char>) -> Option<Seq<char>> {
    match file_name(s) {
        None => None,
        Some(n) => {
            let i = last_index_of(n, '.');
            if i <= 0 {
                None
            } else {
                Some(n.skip(i + 1))
            }
        },
    }
}

/// `Path::file_stem`: the name up to its last `.`, or all of it when it has none or only a
/// leading one.
pub open spec fn file_stem(s: Seq<char>) -> Option<Seq<char>> {
    match file_name(s) {
        None => None,
        Some(n) => {
            let i = last_index_of(n, '.');
            if i <= 0 {
                Some(n)
            } else {
                Some(n.take(i))
            }
        },
    }
}

/// The last `c` before `hi`.
fn rfind(v: &Vec<char>, hi: usize, c: char) -> (r: Option<usize>)
    requires
        hi <= v.len(),
    ensures
        last_index_of(v@.take(hi as int), c) == match r {
            Some(i) => i as int,
            None => -1,
        },
        match r {
            Some(i) => i < hi,
            None => true,
        },
{
    let mut j = hi;
    while j > 0
        invariant
            j <= hi <= v.len(),
            last_index_of(v@.take(hi as int), c) == last_index_of(v@.take(j as int), c),
        decreases j,
    {
        assert(v@.take(j as int).last() == v@[j - 1]);
        assert(v@.take(j as int).drop_last() == v@.take(j - 1));
        if v[j - 1] == c {
            return Some(j - 1);
        }
        j -= 1;
    }
    None
}

/// The bounds of the file name within `v`.
fn file_name_range(v: &Vec<char>) -> (r: Option<(usize, usize)>)
    ensures
        match r {
            Some((a, b)) => a <= b <= v.len() && file_name(v@) == Some(v@.subrange(a as int, b as int)),
            None => file_name(v@) is None,
        },
{
    let mut hi = v.len();
    assert(v@.take(hi as int) == v@);
    while hi > 0
        invariant
            hi <= v.len(),
            file_name(v@) == file_name(v@.take(hi as int)),
        decreases hi,
    {
        let ghost s = v@.take(hi as int);
        let i = rfind(v, hi, '/');
        let start = match i {
            Some(i) => i + 1,
            None => 0,
        };
        proof {
            lemma_last_index_of(s, '/');
        }
        assert(s.skip(last_index_of(s, '/') + 1) == v@.subrange(start as int, hi as int));
        let len = hi - start;
        if len == 0 || (len == 1 && v[start] == '.') {
            proof {
                if len == 1 {
                    assert(v@.subrange(start as int, hi as int) == seq!['.']);
                }
            }
            match i {
                None => return None,
                Some(i) => {
                    assert(s.take(i as int) == v@.take(i as int));
                    hi = i;
                },
            }
        } else if len == 2 && v[start] == '.' && v[start + 1] == '.' {
            assert(v@.subrange(start as int, hi as int) == seq!['.', '.']);
            return None;
        } else {
            proof {
                let seg = v@.subrange(start as int, hi as int);
                if len == 1 {
                    assert(seg[0] != '.');
                    assert(seg != seq!['.']);
                }
                if len == 2 {
                    assert(seg[0] != '.' || seg[1] != '.');
                    assert(seg != seq!['.', '.']);
                }
            }
            return Some((start, hi));
        }
    }
    assert(v@.take(0) == Seq::<char>::empty());
    None
}

/// The file name of a path, if it has one.
pub fn file_name_of(path: &str) -> (r: Option<String>)
    ensures
        match r {
            Some(n) => file_name(path@) == Some(n@),
            None => file_name(path@) is None,
        },
{
    let v = chars_of(path);
    match file_name_range(&v) {
        Some((a, b)) => Some(string_of_range(&v, a, b)),
        None => None,
    }
}

/// The bounds of the extension within `v`.
pub fn extension_range(v: &Vec<char>) -> (r: Option<(usize, usize)>)
    ensures
        match r {
            Some((a, b)) => a <= b <= v.len() && extension(v@) == Some(v@.subrange(a as int, b as int)),
            None => extension(v@) is None,
        },
{
    match file_name_range(v) {
        None => None,
        Some((a, b)) => {
            let ghost n = v@.subrange(a as int, b as int);
            let mut j = b;
            assert(n.take(b - a) == n);
            while j > a && v[j - 1] != '.'
                invariant
                    a <= j <= b <= v.len(),
                    n == v@.subrange(a as int, b as int),
                    last_index_of(n, '.') == last_index_of(n.take(j - a), '.'),
                decreases j,
            {
                assert(n.take(j - a).drop_last() == n.take(j - a - 1));
                j -= 1;
            }
            if j - a <= 1 {
                proof {
                    if j == a + 1 {
                        assert(n.take(1).last() == '.');
                    }
                    assert(last_index_of(n, '.') <= 0) by {
                        if j == a {
                            assert(n.take(0) == Seq::<char>::empty());
                        }
                    }
                }
                None
            } else {
                assert(n.take(j - a).last() == '.');
                assert(last_index_of(n, '.') == j - a - 1);
                assert(n.skip(j - a) == v@.subrange(j as int, b as int));
                Some((j, b))
            }
        },
    }
}

/// The bounds of the stem within `v`.
pub fn stem_range(v: &Vec<char>) -> (r: Option<(usize, usize)>)
    ensures
        match r {
            Some((a, b)) => a <= b <= v.len() && file_stem(v@) == Some(v@.subrange(a as int, b as int)),
            None => file_stem(v@) is None,
        },
{
    match file_name_range(v) {
        None => None,
        Some((a, b)) => {
            let ghost n = v@.subrange(a as int, b as int);
            let mut j = b;
            assert(n.take(b - a) == n);
            while j > a && v[j - 1] != '.'
                invariant
                    a <= j <= b <= v.len(),
                    n == v@.subrange(a as int, b as int),
                    last_index_of(n, '.') == last_index_of(n.take(j - a), '.'),
                decreases j,
            {
                assert(n.take(j - a).drop_last() == n.take(j - a - 1));
                j -= 1;
            }
            if j - a <= 1 {
                proof {
                    if j == a + 1 {
                        assert(n.take(1).last() == '.');
                    }
                    assert(last_index_of(n, '.') <= 0) by {
                        if j == a {
                            assert(n.take(0) == Seq::<char>::empty());
                        }
                    }
                }
                Some((a, b))
            } else {
                assert(n.take(j - a).last() == '.');
                assert(last_index_of(n, '.') == j - a - 1);
                assert(n.take(j - a - 1) == v@.subrange(a as int, j - 1));
                Some((a, j - 1))
            }
        },
    }
}

/// The stem of a path, if it has a file name.
pub fn file_stem_of(path: &str) -> (r: Option<String>)
    ensures
        match r {
            Some(n) => file_stem(path@) == Some(n@),
            None => file_stem(path@) is None,
        },
{
    let v = chars_of(path);
    match stem_range(&v) {
        Some((a, b)) => Some(string_of_range(&v, a, b)),
        None => None,
    }
}

} // verus!
