//! Character-level text handling shared by every file format the card keeps: the model of
//! `str::trim`, `str::lines`, `split_once`, decimal numbers and ASCII case, each with an
//! executable counterpart proved against it.
use vstd::prelude::*;

verus! {

// ---------------------------------------------------------------------------------------------
// Owned strings
// ---------------------------------------------------------------------------------------------

/// `String::push`: the string afterwards is the string before with `c` on the end.
#[verifier::external_body]
pub(crate) fn push_char(s: &mut String, c: char)
    ensures
        final(s)@ == old(s)@.push(c),
{
    s.push(c);
}

/// `std::str::from_utf8`, as an owned string. Claimed of it: the answer is `Some` exactly
/// when the bytes are valid UTF-8, and then the string's UTF-8 encoding is those bytes.
#[verifier::external_body]
pub(crate) fn utf8_text(bytes: &[u8]) -> (r: Option<String>)
    ensures
        match r {
            Some(s) => vstd::utf8::valid_utf8(bytes@) && vstd::utf8::encode_utf8(s@) == bytes@,
            None => !vstd::utf8::valid_utf8(bytes@),
        },
{
    match std::str::from_utf8(bytes) {
        Ok(s) => Some(s.to_string()),
        Err(_) => None,
    }
}

/// The characters of `s`, in order.
pub fn chars_of(s: &str) -> (v: Vec<char>)
    ensures
        v@ == s@,
{
    let mut v: Vec<char> = Vec::new();
    for c in it: s.chars()
        invariant
            v@ == it.seq().take(it.index() as int),
    {
        v.push(c);
    }
    v
}

/// The characters `v[lo..hi]` as an owned string.
pub fn string_of_range(v: &Vec<char>, lo: usize, hi: usize) -> (s: String)
    requires
        lo <= hi <= v.len(),
    ensures
        s@ == v@.subrange(lo as int, hi as int),
{
    let mut s = String::new();
    let mut i: usize = lo;
    while i < hi
        invariant
            lo <= i <= hi <= v.len(),
            s@ == v@.subrange(lo as int, i as int),
        decreases hi - i,
    {
        push_char(&mut s, v[i]);
        i += 1;
        assert(v@.subrange(lo as int, i as int) == v@.subrange(lo as int, i - 1).push(v@[i - 1]));
    }
    s
}

/// All of `v` as an owned string.
pub fn string_of(v: &Vec<char>) -> (s: String)
    ensures
        s@ == v@,
{
    let s = string_of_range(v, 0, v.len());
    assert(v@.subrange(0, v.len() as int) == v@);
    s
}

/// Appends the characters of `t` to `v`.
pub fn append_str(v: &mut Vec<char>, t: &str)
    ensures
        final(v)@ == old(v)@ + t@,
{
    let ghost start = v@;
    for c in it: t.chars()
        invariant
            v@ == start + it.seq().take(it.index() as int),
    {
        v.push(c);
        assert(start + it.seq().take(it.index() + 1) == (start + it.seq().take(
            it.index() as int,
        )).push(c));
    }
}

/// Appends `w[lo..hi]` to `v`.
pub fn append_range(v: &mut Vec<char>, w: &Vec<char>, lo: usize, hi: usize)
    requires
        lo <= hi <= w.len(),
    ensures
        final(v)@ == old(v)@ + w@.subrange(lo as int, hi as int),
{
    let ghost start = v@;
    let mut i = lo;
    while i < hi
        invariant
            lo <= i <= hi <= w.len(),
            v@ == start + w@.subrange(lo as int, i as int),
        decreases hi - i,
    {
        v.push(w[i]);
        i += 1;
        assert(start + w@.subrange(lo as int, i as int) == (start + w@.subrange(
            lo as int,
            i - 1,
        )).push(w@[i - 1]));
    }
}

/// Whether two character sequences are equal.
pub fn chars_eq(a: &Vec<char>, alo: usize, ahi: usize, b: &Vec<char>, blo: usize, bhi: usize) -> (r:
    bool)
    requires
        alo <= ahi <= a.len(),
        blo <= bhi <= b.len(),
    ensures
        r == (a@.subrange(alo as int, ahi as int) == b@.subrange(blo as int, bhi as int)),
{
    if ahi - alo != bhi - blo {
        assert(a@.subrange(alo as int, ahi as int).len() != b@.subrange(blo as int, bhi as int).len());
        return false;
    }
    let mut i: usize = 0;
    while i < ahi - alo
        invariant
            alo <= ahi <= a.len(),
            blo <= bhi <= b.len(),
            ahi - alo == bhi - blo,
            i <= ahi - alo,
            forall|j: int| 0 <= j < i ==> #[trigger] a@.subrange(alo as int, ahi as int)[j] == b@.subrange(blo as int, bhi as int)[j],
        decreases ahi - alo - i,
    {
        if a[alo + i] != b[blo + i] {
            assert(a@.subrange(alo as int, ahi as int)[i as int] != b@.subrange(
                blo as int,
                bhi as int,
            )[i as int]);
            return false;
        }
        i += 1;
    }
    assert(a@.subrange(alo as int, ahi as int) =~= b@.subrange(blo as int, bhi as int));
    true
}

/// Whether `s` and `t` hold the same characters.
pub fn str_eq(s: &str, t: &str) -> (r: bool)
    ensures
        r == (s@ == t@),
{
    let a = chars_of(s);
    let b = chars_of(t);
    let r = chars_eq(&a, 0, a.len(), &b, 0, b.len());
    assert(a@.subrange(0, a.len() as int) == a@);
    assert(b@.subrange(0, b.len() as int) == b@);
    r
}

// ---------------------------------------------------------------------------------------------
// Whitespace and trimming
// ---------------------------------------------------------------------------------------------

/// Unicode `White_Space`, which is what `char::is_whitespace` and `str::trim` go by.
pub open spec fn is_ws(c: char) -> bool {
    let u = c as u32;
    ||| 0x09 <= u <= 0x0d
    ||| u == 0x20
    ||| u == 0x85
    ||| u == 0xa0
    ||| u == 0x1680
    ||| 0x2000 <= u <= 0x200a
    ||| u == 0x2028
    ||| u == 0x2029
    ||| u == 0x202f
    ||| u == 0x205f
    ||| u == 0x3000
}

pub fn is_whitespace(c: char) -> (r: bool)
    ensures
        r == is_ws(c),
{
    let u = c as u32;
    (0x09 <= u && u <= 0x0d) || u == 0x20 || u == 0x85 || u == 0xa0 || u == 0x1680 || (0x2000
        <= u && u <= 0x200a) || u == 0x2028 || u == 0x2029 || u == 0x202f || u == 0x205f || u
        == 0x3000
}

/// `s` without its leading whitespace.
pub open spec fn trim_start(s: Seq<char>) -> Seq<char>
    decreases s.len(),
{
    if s.len() > 0 && is_ws(s[0]) {
        trim_start(s.drop_first())
    } else {
        s
    }
}

/// `s` without its trailing whitespace.
pub open spec fn trim_end(s: Seq<char>) -> Seq<char>
    decreases s.len(),
{
    if s.len() > 0 && is_ws(s.last()) {
        trim_end(s.drop_last())
    } else {
        s
    }
}

/// `str::trim`: whitespace removed from both ends.
pub open spec fn trim(s: Seq<char>) -> Seq<char> {
    trim_end(trim_start(s))
}

/// The bounds of `trim(v[lo..hi])` within `v`.
pub fn trim_range(v: &Vec<char>, lo: usize, hi: usize) -> (r: (usize, usize))
    requires
        lo <= hi <= v.len(),
    ensures
        lo <= r.0 <= r.1 <= hi,
        v@.subrange(r.0 as int, r.1 as int) == trim(v@.subrange(lo as int, hi as int)),
{
    let mut a = lo;
    while a < hi && is_whitespace(v[a])
        invariant
            lo <= a <= hi <= v.len(),
            trim_start(v@.subrange(lo as int, hi as int)) == trim_start(
                v@.subrange(a as int, hi as int),
            ),
        decreases hi - a,
    {
        assert(v@.subrange(a as int, hi as int).drop_first() == v@.subrange(a + 1, hi as int));
        a += 1;
    }
    let mut b = hi;
    while b > a && is_whitespace(v[b - 1])
        invariant
            lo <= a <= b <= hi <= v.len(),
            trim_end(v@.subrange(a as int, hi as int)) == trim_end(v@.subrange(a as int, b as int)),
        decreases b - a,
    {
        assert(v@.subrange(a as int, b as int).drop_last() == v@.subrange(a as int, b - 1));
        b -= 1;
    }
    (a, b)
}

/// `str::trim` as an owned string.
pub fn trim_str(s: &str) -> (r: String)
    ensures
        r@ == trim(s@),
{
    let v = chars_of(s);
    let (a, b) = trim_range(&v, 0, v.len());
    assert(v@.subrange(0, v.len() as int) == v@);
    string_of_range(&v, a, b)
}

// ---------------------------------------------------------------------------------------------
// Searching and splitting
// ---------------------------------------------------------------------------------------------

/// Where `c` first occurs in `s`, or -1.
pub open spec fn index_of(s: Seq<char>, c: char) -> int
    decreases s.len(),
{
    if s.len() == 0 {
        -1
    } else if s[0] == c {
        0
    } else {
        let r = index_of(s.drop_first(), c);
        if r < 0 {
            -1
        } else {
            r + 1
        }
    }
}

pub proof fn lemma_index_of(s: Seq<char>, c: char)
    ensures
        -1 <= index_of(s, c) < s.len(),
        index_of(s, c) >= 0 ==> s[index_of(s, c)] == c,
        forall|j: int| 0 <= j < s.len() && (index_of(s, c) < 0 || j < index_of(s, c)) ==> s[j] != c,
    decreases s.len(),
{
    if s.len() > 0 && s[0] != c {
        lemma_index_of(s.drop_first(), c);
        assert forall|j: int|
            0 <= j < s.len() && (index_of(s, c) < 0 || j < index_of(s, c)) implies s[j] != c by {
            if j > 0 {
                assert(s[j] == s.drop_first()[j - 1]);
            }
        }
    }
}

/// The first occurrence is the one with no occurrence before it.
pub proof fn lemma_index_of_is(s: Seq<char>, c: char, k: int)
    requires
        -1 <= k < s.len(),
        k >= 0 ==> s[k] == c,
        forall|j: int| 0 <= j < s.len() && (k < 0 || j < k) ==> s[j] != c,
    ensures
        index_of(s, c) == k,
{
    lemma_index_of(s, c);
    let i = index_of(s, c);
    if i >= 0 && k >= 0 {
        assert(!(i < k));
        assert(!(k < i));
    }
}

/// The first `c` at or after `lo` and before `hi`.
pub fn find_char(v: &Vec<char>, lo: usize, hi: usize, c: char) -> (r: Option<usize>)
    requires
        lo <= hi <= v.len(),
    ensures
        match r {
            Some(k) => lo <= k < hi && v@[k as int] == c && forall|j: int| lo <= j < k ==> v@[j]
                != c,
            None => forall|j: int| lo <= j < hi ==> v@[j] != c,
        },
        index_of(v@.subrange(lo as int, hi as int), c) == match r {
            Some(k) => k - lo,
            None => -1,
        },
{
    let mut i = lo;
    while i < hi
        invariant
            lo <= i <= hi <= v.len(),
            forall|j: int| lo <= j < i ==> v@[j] != c,
        decreases hi - i,
    {
        if v[i] == c {
            proof {
                lemma_index_of_is(v@.subrange(lo as int, hi as int), c, i - lo);
            }
            return Some(i);
        }
        i += 1;
    }
    proof {
        lemma_index_of_is(v@.subrange(lo as int, hi as int), c, -1);
    }
    None
}

/// `str::split_once(c)`: the parts before and after the first `c`.
pub open spec fn split_once(s: Seq<char>, c: char) -> Option<(Seq<char>, Seq<char>)> {
    let i = index_of(s, c);
    if i < 0 {
        None
    } else {
        Some((s.take(i), s.skip(i + 1)))
    }
}

/// `s` without one trailing carriage return.
pub open spec fn strip_cr(l: Seq<char>) -> Seq<char> {
    if l.len() > 0 && l.last() == '\r' {
        l.drop_last()
    } else {
        l
    }
}

/// `str::lines`: split at each `\n`, a `\r` directly before it dropped with it, and no line
/// after a final `\n`.
pub open spec fn lines(s: Seq<char>) -> Seq<Seq<char>>
    decreases s.len(),
{
    if s.len() == 0 {
        Seq::empty()
    } else {
        let i = index_of(s, '\n');
        if i < 0 {
            seq![s]
        } else {
            proof {
                lemma_index_of(s, '\n');
            }
            seq![strip_cr(s.take(i))] + lines(s.skip(i + 1))
        }
    }
}

/// Whether the ranges `r` pick out exactly the sequence of strings `ls` from `s`.
pub open spec fn ranges_are(s: Seq<char>, r: Seq<(usize, usize)>, ls: Seq<Seq<char>>) -> bool {
    &&& r.len() == ls.len()
    &&& forall|i: int|
        #![trigger r[i]]
        0 <= i < r.len() ==> r[i].0 <= r[i].1 && r[i].1 <= s.len() && s.subrange(
            r[i].0 as int,
            r[i].1 as int,
        ) == ls[i]
}

proof fn lemma_ranges_push(
    s: Seq<char>,
    r: Seq<(usize, usize)>,
    ls: Seq<Seq<char>>,
    x: (usize, usize),
    y: Seq<char>,
)
    requires
        ranges_are(s, r, ls),
        x.0 <= x.1 <= s.len(),
        s.subrange(x.0 as int, x.1 as int) == y,
    ensures
        ranges_are(s, r.push(x), ls.push(y)),
{
    let r2 = r.push(x);
    let l2 = ls.push(y);
    assert forall|i: int| 0 <= i < r2.len() implies #[trigger] r2[i].0 <= r2[i].1 && r2[i].1 <= s.len()
        && s.subrange(r2[i].0 as int, r2[i].1 as int) == l2[i] by {
        if i < r.len() {
            assert(r2[i] == r[i]);
            assert(l2[i] == ls[i]);
        }
    }
}

/// The lines of `v`, as ranges into it.
pub fn line_ranges(v: &Vec<char>) -> (r: Vec<(usize, usize)>)
    ensures
        ranges_are(v@, r@, lines(v@)),
{
    let mut out: Vec<(usize, usize)> = Vec::new();
    let mut pos: usize = 0;
    let ghost done: Seq<Seq<char>> = Seq::empty();
    assert(v@.subrange(0, v.len() as int) == v@);
    while pos < v.len()
        invariant
            pos <= v.len(),
            ranges_are(v@, out@, done),
            lines(v@) == done + lines(v@.subrange(pos as int, v.len() as int)),
        decreases v.len() - pos,
    {
        let ghost rest = v@.subrange(pos as int, v.len() as int);
        let ghost old_done = done;
        match find_char(v, pos, v.len(), '\n') {
            Some(k) => {
                let mut e = k;
                if e > pos && v[e - 1] == '\r' {
                    e -= 1;
                }
                proof {
                    assert(rest.take(k - pos) == v@.subrange(pos as int, k as int));
                    assert(strip_cr(rest.take(k - pos)) == v@.subrange(pos as int, e as int));
                    assert(rest.skip(k - pos + 1) == v@.subrange(k + 1, v.len() as int));
                    assert(lines(rest) == seq![v@.subrange(pos as int, e as int)] + lines(
                        v@.subrange(k + 1, v.len() as int),
                    ));
                    done = done.push(v@.subrange(pos as int, e as int));
                }
                let ghost before = out@;
                out.push((pos, e));
                proof {
                    lemma_ranges_push(v@, before, old_done, (pos, e), v@.subrange(pos as int, e as int));
                }
                pos = k + 1;
            },
            None => {
                proof {
                    assert(lines(rest) == seq![rest]);
                    done = done.push(rest);
                }
                let ghost before = out@;
                out.push((pos, v.len()));
                proof {
                    lemma_ranges_push(v@, before, old_done, (pos, v.len()), rest);
                }
                pos = v.len();
            },
        }
        proof {
            assert(v@.subrange(pos as int, v.len() as int).len() == 0 ==> lines(
                v@.subrange(pos as int, v.len() as int),
            ) == Seq::<Seq<char>>::empty());
        }
    }
    assert(lines(v@.subrange(pos as int, v.len() as int)) == Seq::<Seq<char>>::empty());
    assert(done + Seq::<Seq<char>>::empty() == done);
    out
}

// ---------------------------------------------------------------------------------------------
// ASCII case
// ---------------------------------------------------------------------------------------------

/// `char::to_ascii_lowercase`.
pub open spec fn lower(c: char) -> char {
    if 'A' <= c <= 'Z' {
        ((c as u32) + 32) as char
    } else {
        c
    }
}

/// `str::to_ascii_lowercase`.
pub open spec fn lower_seq(s: Seq<char>) -> Seq<char> {
    Seq::new(s.len(), |i: int| lower(s[i]))
}

pub fn to_lower(c: char) -> (r: char)
    ensures
        r == lower(c),
{
    if 'A' <= c && c <= 'Z' {
        let u = c as u32 + 32;
        proof {
            assert(0x61 <= u <= 0x7a);
        }
        char_from_ascii(u as u8)
    } else {
        c
    }
}

/// The character with ASCII code `b`.
pub fn char_from_ascii(b: u8) -> (c: char)
    requires
        b < 128,
    ensures
        c as u32 == b as u32,
        c == (b as u32) as char,
{
    b as char
}

/// `v[lo..hi]`, lowercased.
pub fn lower_range(v: &Vec<char>, lo: usize, hi: usize) -> (r: Vec<char>)
    requires
        lo <= hi <= v.len(),
    ensures
        r@ == lower_seq(v@.subrange(lo as int, hi as int)),
{
    let mut r: Vec<char> = Vec::new();
    let mut i = lo;
    while i < hi
        invariant
            lo <= i <= hi <= v.len(),
            r@ == lower_seq(v@.subrange(lo as int, i as int)),
        decreases hi - i,
    {
        r.push(to_lower(v[i]));
        i += 1;
        assert(r@ =~= lower_seq(v@.subrange(lo as int, i as int)));
    }
    r
}

/// `str::eq_ignore_ascii_case`.
pub open spec fn eq_ignore_case(a: Seq<char>, b: Seq<char>) -> bool {
    lower_seq(a) == lower_seq(b)
}

// ---------------------------------------------------------------------------------------------
// Decimal numbers
// ---------------------------------------------------------------------------------------------

pub open spec fn is_digit(c: char) -> bool {
    '0' <= c <= '9'
}

pub open spec fn digit_value(c: char) -> nat {
    ((c as u32) - 48) as nat
}

/// The character for the decimal digit `d`.
pub open spec fn digit_char(d: nat) -> char {
    ((d + 48) as u32) as char
}

pub proof fn lemma_digit_char(d: nat)
    requires
        d < 10,
    ensures
        is_digit(digit_char(d)),
        digit_value(digit_char(d)) == d,
        digit_char(d) != '+' && digit_char(d) != '-',
{
    let k = (d + 48) as u32;
    assert((k as char) as u32 == k);
}

pub open spec fn all_digits(s: Seq<char>) -> bool {
    forall|i: int| 0 <= i < s.len() ==> is_digit(#[trigger] s[i])
}

/// The number a run of decimal digits spells.
pub open spec fn digits_value(s: Seq<char>) -> nat
    decreases s.len(),
{
    if s.len() == 0 {
        0
    } else {
        digits_value(s.drop_last()) * 10 + digit_value(s.last())
    }
}

/// `str::parse` for an unsigned integer, before the range check: an optional `+`, then one
/// or more decimal digits and nothing else.
pub open spec fn parse_uint(s: Seq<char>) -> Option<nat> {
    let d = if s.len() > 0 && s[0] == '+' {
        s.drop_first()
    } else {
        s
    };
    if d.len() > 0 && all_digits(d) {
        Some(digits_value(d))
    } else {
        None
    }
}

/// `str::parse::<T>` for an unsigned `T` whose largest value is `max`.
pub open spec fn parse_bounded(s: Seq<char>, max: nat) -> Option<nat> {
    match parse_uint(s) {
        Some(n) => if n <= max {
            Some(n)
        } else {
            None
        },
        None => None,
    }
}

/// `str::parse` for a signed integer, before the range check.
pub open spec fn parse_int(s: Seq<char>) -> Option<int> {
    if s.len() > 0 && s[0] == '-' {
        let d = s.drop_first();
        if d.len() > 0 && all_digits(d) {
            Some(-(digits_value(d) as int))
        } else {
            None
        }
    } else {
        match parse_uint(s) {
            Some(n) => Some(n as int),
            None => None,
        }
    }
}

proof fn lemma_digits_value_step(s: Seq<char>, i: int)
    requires
        0 <= i < s.len(),
    ensures
        digits_value(s.take(i + 1)) == digits_value(s.take(i)) * 10 + digit_value(s[i]),
{
    assert(s.take(i + 1).drop_last() == s.take(i));
}

/// The value of the decimal digits `v[lo..hi]`, or `None` when it passes `max`.
fn digits_in_range(v: &Vec<char>, lo: usize, hi: usize, max: u64) -> (r: Option<u64>)
    requires
        lo <= hi <= v.len(),
        all_digits(v@.subrange(lo as int, hi as int)),
    ensures
        match r {
            Some(n) => n == digits_value(v@.subrange(lo as int, hi as int)) && n <= max,
            None => digits_value(v@.subrange(lo as int, hi as int)) > max,
        },
{
    let ghost s = v@.subrange(lo as int, hi as int);
    let mut acc: u64 = 0;
    let mut i = lo;
    assert(s.take(0) =~= Seq::<char>::empty());
    while i < hi
        invariant
            lo <= i <= hi <= v.len(),
            s == v@.subrange(lo as int, hi as int),
            all_digits(s),
            acc == digits_value(s.take(i - lo)),
            acc <= max,
        decreases hi - i,
    {
        assert(is_digit(s[i - lo]));
        let d = (v[i] as u32 - '0' as u32) as u64;
        proof {
            lemma_digits_value_step(s, i - lo);
        }
        if (acc as u128) * 10 + (d as u128) > max as u128 {
            proof {
                lemma_digits_value_grows(s, i - lo + 1);
            }
            return None;
        }
        acc = acc * 10 + d;
        i += 1;
    }
    assert(s.take(hi - lo) == s);
    Some(acc)
}

/// A longer prefix of digits is never worth less.
proof fn lemma_digits_value_grows(s: Seq<char>, k: int)
    requires
        0 <= k <= s.len(),
        all_digits(s),
    ensures
        digits_value(s.take(k)) <= digits_value(s),
    decreases s.len() - k,
{
    if k < s.len() {
        lemma_digits_value_grows(s, k + 1);
        lemma_digits_value_step(s, k);
        assert(digits_value(s.take(k)) <= digits_value(s.take(k + 1))) by (nonlinear_arith)
            requires
                digits_value(s.take(k + 1)) == digits_value(s.take(k)) * 10 + digit_value(s[k]),
        ;
    } else {
        assert(s.take(k) == s);
    }
}

/// `str::parse` of `v[lo..hi]` as an unsigned integer no larger than `max`.
pub fn parse_uint_range(v: &Vec<char>, lo: usize, hi: usize, max: u64) -> (r: Option<u64>)
    requires
        lo <= hi <= v.len(),
    ensures
        match r {
            Some(n) => parse_bounded(v@.subrange(lo as int, hi as int), max as nat) == Some(n as nat),
            None => parse_bounded(v@.subrange(lo as int, hi as int), max as nat) is None,
        },
{
    let ghost s = v@.subrange(lo as int, hi as int);
    let mut a = lo;
    if a < hi && v[a] == '+' {
        a += 1;
    }
    let ghost d = if s.len() > 0 && s[0] == '+' {
        s.drop_first()
    } else {
        s
    };
    assert(d == v@.subrange(a as int, hi as int));
    if a == hi {
        assert(v@.subrange(a as int, hi as int).len() == 0);
        return None;
    }
    let mut i = a;
    while i < hi
        invariant
            a <= i <= hi <= v.len(),
            lo <= a,
            s == v@.subrange(lo as int, hi as int),
            d == v@.subrange(a as int, hi as int),
            d == (if s.len() > 0 && s[0] == '+' {
                s.drop_first()
            } else {
                s
            }),
            forall|j: int| a <= j < i ==> is_digit(v@[j]),
        decreases hi - i,
    {
        if !('0' <= v[i] && v[i] <= '9') {
            assert(!is_digit(d[i - a]));
            assert(parse_uint(s) is None);
            return None;
        }
        i += 1;
    }
    assert(all_digits(v@.subrange(a as int, hi as int)));
    digits_in_range(v, a, hi, max)
}

/// `str::parse::<u128>` of `v[lo..hi]`.
pub fn parse_u128_range(v: &Vec<char>, lo: usize, hi: usize) -> (r: Option<u128>)
    requires
        lo <= hi <= v.len(),
    ensures
        match r {
            Some(n) => parse_bounded(v@.subrange(lo as int, hi as int), u128::MAX as nat) == Some(n as nat),
            None => parse_bounded(v@.subrange(lo as int, hi as int), u128::MAX as nat) is None,
        },
{
    let ghost s = v@.subrange(lo as int, hi as int);
    let mut a = lo;
    if a < hi && v[a] == '+' {
        a += 1;
    }
    let ghost d = v@.subrange(a as int, hi as int);
    assert(d == (if s.len() > 0 && s[0] == '+' {
        s.drop_first()
    } else {
        s
    }));
    if a == hi {
        return None;
    }
    let mut acc: u128 = 0;
    let mut i = a;
    assert(d.take(0) =~= Seq::<char>::empty());
    while i < hi
        invariant
            a <= i <= hi <= v.len(),
            lo <= a < hi,
            s == v@.subrange(lo as int, hi as int),
            d == v@.subrange(a as int, hi as int),
            d == (if s.len() > 0 && s[0] == '+' {
                s.drop_first()
            } else {
                s
            }),
            all_digits(d.take(i - a)),
            acc == digits_value(d.take(i - a)),
        decreases hi - i,
    {
        let c = v[i];
        if !('0' <= c && c <= '9') {
            assert(!is_digit(d[i - a]));
            assert(!all_digits(d));
            return None;
        }
        let dg = (c as u32 - '0' as u32) as u128;
        proof {
            lemma_digits_value_step(d, i - a);
            assert(d.take(i - a + 1) == d.take(i - a).push(d[i - a]));
        }
        if acc > (u128::MAX - dg) / 10 {
            assert(acc * 10 + dg > u128::MAX) by (nonlinear_arith)
                requires
                    acc > (u128::MAX - dg) / 10,
                    dg < 10,
            ;
            proof {
                assert(all_digits(d.take(i - a + 1)));
                lemma_digits_prefix_all(d, i - a + 1);
            }
            return None;
        }
        assert(acc * 10 + dg <= u128::MAX) by (nonlinear_arith)
            requires
                acc <= (u128::MAX - dg) / 10,
                dg < 10,
        ;
        acc = acc * 10 + dg;
        i += 1;
    }
    assert(d.take(hi - a) == d);
    Some(acc)
}

/// A run whose digits so far already pass `u128::MAX` stays past it, or holds a non-digit.
proof fn lemma_digits_prefix_all(d: Seq<char>, k: int)
    requires
        0 <= k <= d.len(),
        all_digits(d.take(k)),
        digits_value(d.take(k)) > u128::MAX,
    ensures
        parse_bounded(d, u128::MAX as nat) is None || !all_digits(d),
        !all_digits(d) || digits_value(d) > u128::MAX,
{
    if all_digits(d) {
        lemma_digits_value_grows(d, k);
    }
}

/// Appends the decimal digits of a 128 bit `n`.
pub fn push_dec_u128(v: &mut Vec<char>, n: u128)
    ensures
        final(v)@ == old(v)@ + dec(n as nat),
    decreases n,
{
    if n >= 10 {
        push_dec_u128(v, n / 10);
        let c = char_from_ascii((48 + (n % 10)) as u8);
        v.push(c);
        proof {
            assert(c == digit_char((n % 10) as nat));
            assert(dec(n as nat) == dec((n / 10) as nat).push(digit_char((n % 10) as nat)));
        }
    } else {
        let c = char_from_ascii((48 + n) as u8);
        v.push(c);
        assert(c == digit_char(n as nat));
    }
}

/// `str::parse` of `v[lo..hi]` as a signed integer within `min..=max`.
pub fn parse_int_range(v: &Vec<char>, lo: usize, hi: usize, min: i64, max: i64) -> (r: Option<i64>)
    requires
        lo <= hi <= v.len(),
        min <= 0 <= max,
    ensures
        match r {
            Some(n) => parse_int(v@.subrange(lo as int, hi as int)) == Some(n as int) && min <= n
                <= max,
            None => match parse_int(v@.subrange(lo as int, hi as int)) {
                Some(n) => n < min || n > max,
                None => true,
            },
        },
{
    let ghost s = v@.subrange(lo as int, hi as int);
    if lo < hi && v[lo] == '-' {
        assert(s.drop_first() == v@.subrange(lo + 1, hi as int));
        if lo + 1 == hi {
            assert(s[0] == '-' && s.drop_first().len() == 0);
            return None;
        }
        let mut i = lo + 1;
        while i < hi
            invariant
                lo + 1 <= i <= hi <= v.len(),
                s == v@.subrange(lo as int, hi as int),
                s.len() > 0 && s[0] == '-',
                s.drop_first() == v@.subrange(lo + 1, hi as int),
                forall|j: int| lo + 1 <= j < i ==> is_digit(v@[j]),
            decreases hi - i,
        {
            if !('0' <= v[i] && v[i] <= '9') {
                assert(!is_digit(s.drop_first()[i - lo - 1]));
                return None;
            }
            i += 1;
        }
        assert(all_digits(v@.subrange(lo + 1, hi as int)));
        let bound = (-(min as i128)) as u64;
        match digits_in_range(v, lo + 1, hi, bound) {
            Some(n) => Some((-(n as i128)) as i64),
            None => None,
        }
    } else {
        match parse_uint_range(v, lo, hi, max as u64) {
            Some(n) => Some(n as i64),
            None => None,
        }
    }
}

/// The decimal digits of `n`, most significant first, with no leading zero.
pub open spec fn dec(n: nat) -> Seq<char>
    decreases n,
{
    if n < 10 {
        seq![digit_char(n)]
    } else {
        dec(n / 10).push(digit_char(n % 10))
    }
}

/// `i16`'s `Display`: a `-` before a negative number.
pub open spec fn dec_int(n: int) -> Seq<char> {
    if n < 0 {
        seq!['-'] + dec((-n) as nat)
    } else {
        dec(n as nat)
    }
}

/// What a decimal number parses back to is the number.
pub proof fn lemma_dec_digits(n: nat)
    ensures
        dec(n).len() > 0,
        all_digits(dec(n)),
        digits_value(dec(n)) == n,
        dec(n)[0] != '+' && dec(n)[0] != '-',
    decreases n,
{
    if n >= 10 {
        lemma_dec_digits(n / 10);
        lemma_digit_char(n % 10);
        let d = dec(n / 10).push(digit_char(n % 10));
        assert(dec(n) == d);
        assert(d.drop_last() == dec(n / 10));
        assert(d.last() == digit_char(n % 10));
        assert(n == (n / 10) * 10 + n % 10);
        assert(digits_value(d) == digits_value(dec(n / 10)) * 10 + digit_value(d.last()));
        assert(digits_value(d) == n);
        assert forall|i: int| 0 <= i < d.len() implies is_digit(#[trigger] d[i]) by {
            if i < d.len() - 1 {
                assert(d[i] == dec(n / 10)[i]);
            }
        }
    } else {
        lemma_digit_char(n);
        assert(dec(n).drop_last() =~= Seq::<char>::empty());
        assert(digits_value(Seq::<char>::empty()) == 0);
        assert(digits_value(dec(n)) == digits_value(dec(n).drop_last()) * 10 + digit_value(dec(n).last()));
        assert(digits_value(dec(n)) == n);
    }
}

pub proof fn lemma_parse_dec(n: nat)
    ensures
        parse_uint(dec(n)) == Some(n),
        parse_int(dec(n)) == Some(n as int),
{
    lemma_dec_digits(n);
}

pub proof fn lemma_parse_dec_int(n: int)
    ensures
        parse_int(dec_int(n)) == Some(n),
{
    if n < 0 {
        lemma_dec_digits((-n) as nat);
        assert((seq!['-'] + dec((-n) as nat)).drop_first() == dec((-n) as nat));
    } else {
        lemma_dec_digits(n as nat);
    }
}

/// Appends the decimal digits of `n`.
pub fn push_dec(v: &mut Vec<char>, n: u64)
    ensures
        final(v)@ == old(v)@ + dec(n as nat),
    decreases n,
{
    if n >= 10 {
        push_dec(v, n / 10);
        let c = char_from_ascii((48 + (n % 10)) as u8);
        v.push(c);
        proof {
            assert(c == digit_char((n % 10) as nat));
            assert(dec(n as nat) == dec((n / 10) as nat).push(digit_char((n % 10) as nat)));
        }
    } else {
        let c = char_from_ascii((48 + n) as u8);
        v.push(c);
        assert(c == digit_char(n as nat));
    }
}

/// Appends `n` as `Display` prints it.
pub fn push_dec_int(v: &mut Vec<char>, n: i64)
    requires
        n > i64::MIN,
    ensures
        final(v)@ == old(v)@ + dec_int(n as int),
{
    if n < 0 {
        v.push('-');
        let ghost mid = v@;
        push_dec(v, (0 - n) as u64);
        assert(old(v)@ + dec_int(n as int) == old(v)@.push('-') + dec((-n) as nat));
    } else {
        push_dec(v, n as u64);
    }
}

} // verus!

verus! {

// ---------------------------------------------------------------------------------------------
// Facts about trimming and lines
// ---------------------------------------------------------------------------------------------

pub open spec fn all_ws(s: Seq<char>) -> bool {
    forall|i: int| 0 <= i < s.len() ==> is_ws(#[trigger] s[i])
}

pub open spec fn has_non_ws(s: Seq<char>) -> bool {
    exists|i: int| 0 <= i < s.len() && !is_ws(#[trigger] s[i])
}

/// Trimming the start drops a whitespace prefix, and leaves nothing or a non-space first.
pub proof fn lemma_trim_start_shape(s: Seq<char>)
    ensures
        exists|p: Seq<char>| all_ws(p) && s == p + trim_start(s),
        trim_start(s).len() > 0 ==> !is_ws(trim_start(s)[0]),
        trim_start(s).len() == 0 ==> all_ws(s),
        trim_start(s).len() <= s.len(),
    decreases s.len(),
{
    if s.len() > 0 && is_ws(s[0]) {
        lemma_trim_start_shape(s.drop_first());
        let p = choose|p: Seq<char>| all_ws(p) && s.drop_first() == p + trim_start(s.drop_first());
        let p2 = seq![s[0]] + p;
        assert(s =~= seq![s[0]] + s.drop_first());
        assert(seq![s[0]] + (p + trim_start(s.drop_first())) =~= p2 + trim_start(s.drop_first()));
        assert(s == p2 + trim_start(s));
        assert(all_ws(p2)) by {
            assert forall|i: int| 0 <= i < p2.len() implies is_ws(#[trigger] p2[i]) by {
                if i > 0 {
                    assert(p2[i] == p[i - 1]);
                }
            }
        }
        if trim_start(s).len() == 0 {
            assert forall|i: int| 0 <= i < s.len() implies is_ws(#[trigger] s[i]) by {
                if i > 0 {
                    assert(s[i] == s.drop_first()[i - 1]);
                }
            }
        }
        assert(all_ws(p2) && s == p2 + trim_start(s));
    } else {
        let e = Seq::<char>::empty();
        assert(s == e + s);
        assert(all_ws(e) && s == e + trim_start(s));
    }
}

/// Trimming the end drops a whitespace suffix, and leaves nothing or a non-space last.
pub proof fn lemma_trim_end_shape(s: Seq<char>)
    ensures
        exists|q: Seq<char>| all_ws(q) && s == trim_end(s) + q,
        trim_end(s).len() > 0 ==> !is_ws(trim_end(s).last()),
        trim_end(s).len() == 0 ==> all_ws(s),
        trim_end(s).len() <= s.len(),
    decreases s.len(),
{
    if s.len() > 0 && is_ws(s.last()) {
        lemma_trim_end_shape(s.drop_last());
        let q = choose|q: Seq<char>| all_ws(q) && s.drop_last() == trim_end(s.drop_last()) + q;
        let q2 = q.push(s.last());
        assert(s =~= s.drop_last().push(s.last()));
        assert((trim_end(s.drop_last()) + q).push(s.last()) =~= trim_end(s.drop_last()) + q2);
        assert(s == trim_end(s) + q2);
        assert(all_ws(q2)) by {
            assert forall|i: int| 0 <= i < q2.len() implies is_ws(#[trigger] q2[i]) by {
                if i < q.len() {
                    assert(q2[i] == q[i]);
                }
            }
        }
        if trim_end(s).len() == 0 {
            assert forall|i: int| 0 <= i < s.len() implies is_ws(#[trigger] s[i]) by {
                if i < s.len() - 1 {
                    assert(s[i] == s.drop_last()[i]);
                }
            }
        }
        assert(all_ws(q2) && s == trim_end(s) + q2);
    } else {
        let e = Seq::<char>::empty();
        assert(s == s + e);
        assert(all_ws(e) && s == trim_end(s) + e);
    }
}

/// Whitespace in front of a string does not survive trimming its start.
pub proof fn lemma_trim_start_ws_prefix(p: Seq<char>, s: Seq<char>)
    requires
        all_ws(p),
    ensures
        trim_start(p + s) == trim_start(s),
    decreases p.len(),
{
    if p.len() > 0 {
        assert((p + s)[0] == p[0]);
        assert((p + s).drop_first() == p.drop_first() + s);
        assert(all_ws(p.drop_first())) by {
            assert forall|i: int| 0 <= i < p.drop_first().len() implies is_ws(
                #[trigger] p.drop_first()[i],
            ) by {
                assert(p.drop_first()[i] == p[i + 1]);
            }
        }
        lemma_trim_start_ws_prefix(p.drop_first(), s);
    } else {
        assert(p + s == s);
    }
}

/// Whitespace behind a string does not survive trimming its end.
pub proof fn lemma_trim_end_ws_suffix(s: Seq<char>, q: Seq<char>)
    requires
        all_ws(q),
    ensures
        trim_end(s + q) == trim_end(s),
    decreases q.len(),
{
    if q.len() > 0 {
        assert((s + q).last() == q.last());
        assert((s + q).drop_last() == s + q.drop_last());
        assert(all_ws(q.drop_last())) by {
            assert forall|i: int| 0 <= i < q.drop_last().len() implies is_ws(
                #[trigger] q.drop_last()[i],
            ) by {
                assert(q.drop_last()[i] == q[i]);
            }
        }
        lemma_trim_end_ws_suffix(s, q.drop_last());
    } else {
        assert(s + q == s);
    }
}

/// Trimming the start of `a + x` only reaches into `a` when `x` starts with a non-space.
pub proof fn lemma_trim_start_stops(a: Seq<char>, x: Seq<char>)
    requires
        x.len() > 0,
        !is_ws(x[0]),
    ensures
        trim_start(a + x) == trim_start(a) + x,
    decreases a.len(),
{
    if a.len() == 0 {
        assert(a + x == x);
        assert(trim_start(a) + x == x);
    } else {
        assert((a + x)[0] == a[0]);
        if is_ws(a[0]) {
            assert((a + x).drop_first() == a.drop_first() + x);
            lemma_trim_start_stops(a.drop_first(), x);
        }
    }
}

/// Trimming the end of `y + b` only reaches into `b` when `y` ends with a non-space.
pub proof fn lemma_trim_end_stops(y: Seq<char>, b: Seq<char>)
    requires
        y.len() > 0,
        !is_ws(y.last()),
    ensures
        trim_end(y + b) == y + trim_end(b),
    decreases b.len(),
{
    if b.len() == 0 {
        assert(y + b == y);
        assert(y + trim_end(b) == y);
    } else {
        assert((y + b).last() == b.last());
        if is_ws(b.last()) {
            assert((y + b).drop_last() == y + b.drop_last());
            lemma_trim_end_stops(y, b.drop_last());
        }
    }
}

/// Trimming the end of `p + y` stays inside `y` when `y` holds a non-space.
pub proof fn lemma_trim_end_inside(p: Seq<char>, y: Seq<char>)
    requires
        has_non_ws(y),
    ensures
        trim_end(p + y) == p + trim_end(y),
    decreases y.len(),
{
    assert(y.len() > 0);
    assert((p + y).last() == y.last());
    if is_ws(y.last()) {
        assert((p + y).drop_last() == p + y.drop_last());
        let i = choose|i: int| 0 <= i < y.len() && !is_ws(#[trigger] y[i]);
        assert(i < y.len() - 1);
        assert(y.drop_last()[i] == y[i]);
        lemma_trim_end_inside(p, y.drop_last());
    }
}

/// A text that starts and ends with a non-space trims to itself.
pub proof fn lemma_trim_plain(s: Seq<char>)
    requires
        s.len() > 0,
        !is_ws(s[0]),
        !is_ws(s.last()),
    ensures
        trim(s) == s,
{
    assert(trim_start(s) == s);
    assert(trim_end(s) == s);
}

/// Trimming the start twice is trimming it once.
pub proof fn lemma_trim_start_idem(s: Seq<char>)
    ensures
        trim_start(trim_start(s)) == trim_start(s),
{
    lemma_trim_start_shape(s);
}

/// The two ends may be trimmed in either order.
pub proof fn lemma_trim_commutes(s: Seq<char>)
    ensures
        trim_start(trim_end(s)) == trim(s),
{
    lemma_trim_start_shape(s);
    let p = choose|p: Seq<char>| all_ws(p) && s == p + trim_start(s);
    let y = trim_start(s);
    if y.len() == 0 {
        lemma_trim_end_ws_suffix(Seq::empty(), s);
        assert(Seq::<char>::empty() + s == s);
        assert(trim_end(Seq::<char>::empty()) == Seq::<char>::empty());
        assert(trim_start(Seq::<char>::empty()) == Seq::<char>::empty());
    } else {
        assert(has_non_ws(y)) by {
            assert(!is_ws(y[0]));
        }
        lemma_trim_end_inside(p, y);
        lemma_trim_start_ws_prefix(p, trim_end(y));
        lemma_trim_end_shape(y);
        let q = choose|q: Seq<char>| all_ws(q) && y == trim_end(y) + q;
        if trim_end(y).len() == 0 {
            assert(all_ws(y));
            assert(false);
        }
        assert(trim_end(y)[0] == y[0]);
    }
}

/// Whitespace on either side does not survive trimming.
pub proof fn lemma_trim_ws_around(p: Seq<char>, s: Seq<char>, q: Seq<char>)
    requires
        all_ws(p),
        all_ws(q),
    ensures
        trim(p + s + q) == trim(s),
{
    lemma_trim_commutes(p + s + q);
    lemma_trim_end_ws_suffix(p + s, q);
    lemma_trim_commutes(s);
    lemma_trim_start_shape(s);
    let y = trim_start(s);
    if y.len() == 0 {
        lemma_trim_start_ws_prefix(p, s);
        lemma_trim_end_ws_suffix(p + s, Seq::empty());
        lemma_trim_start_ws_prefix(p + s, Seq::empty());
        assert(all_ws(p + s)) by {
            assert forall|i: int| 0 <= i < (p + s).len() implies is_ws(#[trigger] (p + s)[i]) by {
                if i >= p.len() {
                    assert((p + s)[i] == s[i - p.len()]);
                }
            }
        }
        lemma_trim_end_ws_suffix(Seq::empty(), p + s);
        assert(Seq::<char>::empty() + (p + s) == p + s);
        assert(trim_end(Seq::<char>::empty()) == Seq::<char>::empty());
        assert(trim_end(s) == trim_end(s)) ;
        lemma_trim_end_ws_suffix(Seq::empty(), s);
        assert(Seq::<char>::empty() + s == s);
    } else {
        lemma_trim_end_shape(s);
        let pre = choose|pp: Seq<char>| all_ws(pp) && s == pp + trim_start(s);
        assert(has_non_ws(y)) by {
            assert(!is_ws(y[0]));
        }
        lemma_trim_end_inside(pre, y);
        lemma_trim_end_inside(p + pre, y);
        assert(p + s == (p + pre) + y);
        assert(trim_end(p + s) == (p + pre) + trim_end(y));
        assert(trim_end(s) == pre + trim_end(y));
        assert(all_ws(p + pre)) by {
            assert forall|i: int| 0 <= i < (p + pre).len() implies is_ws(#[trigger] (p + pre)[i]) by {
                if i >= p.len() {
                    assert((p + pre)[i] == pre[i - p.len()]);
                }
            }
        }
        lemma_trim_start_ws_prefix(p + pre, trim_end(y));
        lemma_trim_start_ws_prefix(pre, trim_end(y));
    }
}

/// No line holds a newline.
pub proof fn lemma_lines_no_newline(s: Seq<char>)
    ensures
        forall|i: int, j: int|
            0 <= i < lines(s).len() && 0 <= j < lines(s)[i].len() ==> #[trigger] lines(s)[i][j]
                != '\n',
    decreases s.len(),
{
    if s.len() > 0 {
        lemma_index_of(s, '\n');
        let i = index_of(s, '\n');
        if i >= 0 {
            lemma_lines_no_newline(s.skip(i + 1));
            let first = strip_cr(s.take(i));
            assert forall|a: int, j: int|
                0 <= a < lines(s).len() && 0 <= j < lines(s)[a].len() implies #[trigger] lines(
                s,
            )[a][j] != '\n' by {
                if a == 0 {
                    assert(lines(s)[0] == first);
                    assert(first[j] == s[j]);
                } else {
                    assert(lines(s)[a] == lines(s.skip(i + 1))[a - 1]);
                }
            }
        }
    }
}


// ---------------------------------------------------------------------------------------------
// Lists of texts
// ---------------------------------------------------------------------------------------------

/// The characters of each string of a list.
pub open spec fn string_views(v: Seq<String>) -> Seq<Seq<char>> {
    Seq::new(v.len(), |i: int| v[i]@)
}

/// The characters of each character vector of a list.
pub open spec fn chars_views(v: Seq<Vec<char>>) -> Seq<Seq<char>> {
    Seq::new(v.len(), |i: int| v[i]@)
}

/// Whether `list` holds the text `v[lo..hi]`.
pub fn contains_range(list: &Vec<Vec<char>>, v: &Vec<char>, lo: usize, hi: usize) -> (r: bool)
    requires
        lo <= hi <= v.len(),
    ensures
        r == chars_views(list@).contains(v@.subrange(lo as int, hi as int)),
{
    let ghost x = v@.subrange(lo as int, hi as int);
    let mut j: usize = 0;
    while j < list.len()
        invariant
            j <= list.len(),
            x == v@.subrange(lo as int, hi as int),
            lo <= hi <= v.len(),
            forall|k: int| 0 <= k < j ==> chars_views(list@)[k] != x,
        decreases list.len() - j,
    {
        let e = &list[j];
        if chars_eq(e, 0, e.len(), v, lo, hi) {
            assert(e@.subrange(0, e@.len() as int) == e@);
            assert(chars_views(list@)[j as int] == x);
            return true;
        }
        assert(e@.subrange(0, e@.len() as int) == e@);
        j += 1;
    }
    assert forall|k: int| 0 <= k < chars_views(list@).len() implies chars_views(list@)[k] != x by {}
    false
}

/// The strings of a list of character vectors, in order.
pub fn strings_of(list: &Vec<Vec<char>>) -> (r: Vec<String>)
    ensures
        string_views(r@) == chars_views(list@),
{
    let mut out: Vec<String> = Vec::new();
    let mut j: usize = 0;
    while j < list.len()
        invariant
            j <= list.len(),
            out@.len() == j,
            forall|k: int| 0 <= k < j ==> (#[trigger] out@[k])@ == list@[k]@,
        decreases list.len() - j,
    {
        out.push(string_of(&list[j]));
        j += 1;
    }
    assert(string_views(out@) =~= chars_views(list@));
    out
}

} // verus!
