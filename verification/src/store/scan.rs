//! The library: which carts are on the card, in what order the shelf shows them, and the
//! index that spares re-reading every header on every boot.
use crate::store::favorites::{compare_chars, lex_lt, lemma_lex_irreflexive, lemma_lex_transitive};
use crate::store::path::{file_name, file_name_of};
use crate::store::platform::{dir_of, Platform};
use crate::store::ring::join;
use crate::text::{append_str, chars_of, str_eq, string_of, string_views};
use vstd::prelude::*;

verus! {

/// One ROM on the card.
#[derive(Clone, PartialEq, Eq, Debug)]
pub struct Cart {
    /// The platform folder is part of the cart's identity: stems may be shared by
    /// different systems.
    pub platform: Platform,
    /// Filename stem, which is the key for labels, saves and states.
    pub stem: String,
    pub rom: String,
    /// Optional complete cartridge artwork.
    pub artwork: Option<String>,
    pub label: Option<String>,
    pub title: String,
    /// The four character header game code, empty when the rom has none.
    pub code: String,
}

/// A leading dot is card metadata rather than content.
pub open spec fn hidden(path: Seq<char>) -> bool {
    match file_name(path) {
        Some(n) => n.len() > 0 && n[0] == '.',
        None => false,
    }
}

pub fn is_hidden(path: &str) -> (r: bool)
    ensures
        r == hidden(path@),
{
    match file_name_of(path) {
        Some(n) => {
            let v = chars_of(n.as_str());
            v.len() > 0 && v[0] == '.'
        },
        None => false,
    }
}

// ---------------------------------------------------------------------------------------------
// Shelf order
// ---------------------------------------------------------------------------------------------

/// The order platforms are listed in when two carts share a stem.
pub open spec fn platform_rank(p: Platform) -> nat {
    match p {
        Platform::Gba => 0,
        Platform::Gb => 1,
        Platform::Gbc => 2,
    }
}

/// `a` goes before `b` on the shelf: favourites first, then by stem, then by platform.
pub open spec fn shelved_before(a: Cart, b: Cart, favs: Seq<Seq<char>>) -> bool {
    let fa = favs.contains(a.stem@);
    let fb = favs.contains(b.stem@);
    if fa != fb {
        fa
    } else if a.stem@ != b.stem@ {
        lex_lt(a.stem@, b.stem@)
    } else {
        platform_rank(a.platform) < platform_rank(b.platform)
    }
}

/// `c` placed on a shelf: before the first cart it goes before, so after every cart it does
/// not, which keeps carts that tie in the order they were found.
pub open spec fn shelve(s: Seq<Cart>, c: Cart, favs: Seq<Seq<char>>) -> Seq<Cart>
    decreases s.len(),
{
    if s.len() == 0 {
        seq![c]
    } else if shelved_before(c, s[0], favs) {
        seq![c] + s
    } else {
        seq![s[0]] + shelve(s.drop_first(), c, favs)
    }
}

/// The carts in shelf order, ties kept in the order they were found.
pub open spec fn shelf_order(carts: Seq<Cart>, favs: Seq<Seq<char>>) -> Seq<Cart>
    decreases carts.len(),
{
    if carts.len() == 0 {
        Seq::empty()
    } else {
        shelve(shelf_order(carts.drop_last(), favs), carts.last(), favs)
    }
}

fn is_favorite(favorites: &Vec<String>, stem: &str) -> (r: bool)
    ensures
        r == string_views(favorites@).contains(stem@),
{
    let mut i: usize = 0;
    while i < favorites.len()
        invariant
            i <= favorites.len(),
            forall|k: int| 0 <= k < i ==> string_views(favorites@)[k] != stem@,
        decreases favorites.len() - i,
    {
        if str_eq(favorites[i].as_str(), stem) {
            assert(string_views(favorites@)[i as int] == stem@);
            return true;
        }
        i += 1;
    }
    false
}

fn goes_before(a: &Cart, b: &Cart, favorites: &Vec<String>) -> (r: bool)
    ensures
        r == shelved_before(*a, *b, string_views(favorites@)),
{
    let fa = is_favorite(favorites, a.stem.as_str());
    let fb = is_favorite(favorites, b.stem.as_str());
    if fa != fb {
        return fa;
    }
    let x = chars_of(a.stem.as_str());
    let y = chars_of(b.stem.as_str());
    let c = compare_chars(&x, &y);
    if c < 0 {
        true
    } else if c > 0 {
        proof {
            if lex_lt(x@, y@) {
                lemma_lex_transitive(x@, y@, x@);
                lemma_lex_irreflexive(x@);
            }
        }
        false
    } else {
        let ra: u8 = match a.platform {
            Platform::Gba => 0,
            Platform::Gb => 1,
            Platform::Gbc => 2,
        };
        let rb: u8 = match b.platform {
            Platform::Gba => 0,
            Platform::Gb => 1,
            Platform::Gbc => 2,
        };
        ra < rb
    }
}

proof fn lemma_shelve_at(s: Seq<Cart>, c: Cart, favs: Seq<Seq<char>>, p: int)
    requires
        0 <= p <= s.len(),
        forall|k: int| 0 <= k < p ==> !shelved_before(c, #[trigger] s[k], favs),
        p < s.len() ==> shelved_before(c, s[p], favs),
    ensures
        shelve(s, c, favs) == s.insert(p, c),
    decreases p,
{
    if s.len() == 0 {
        assert(s.insert(p, c) =~= seq![c]);
    } else if p == 0 {
        assert(s.insert(0, c) =~= seq![c] + s);
    } else {
        let t = s.drop_first();
        assert forall|k: int| 0 <= k < p - 1 implies !shelved_before(c, #[trigger] t[k], favs) by {
            assert(t[k] == s[k + 1]);
        }
        if p - 1 < t.len() {
            assert(t[p - 1] == s[p]);
        }
        lemma_shelve_at(t, c, favs, p - 1);
        assert(seq![s[0]] + t.insert(p - 1, c) =~= s.insert(p, c));
    }
}

/// Puts the carts in shelf order: favourites first and each group alphabetical by stem, a
/// stem shared by two platforms listed platform by platform.
pub fn sort_carts(carts: &mut Vec<Cart>, favorites: &Vec<String>)
    ensures
        final(carts)@ == shelf_order(old(carts)@, string_views(favorites@)),
{
    let ghost favs = string_views(favorites@);
    let ghost input = carts@;
    assert(input.len() == carts.len());
    let mut rest: Vec<Cart> = Vec::new();
    std::mem::swap(&mut rest, carts);
    let mut out: Vec<Cart> = Vec::new();
    let mut i: usize = 0;
    assert(input.take(0) =~= Seq::<Cart>::empty());
    while rest.len() > 0
        invariant
            rest@ == input.skip(i as int),
            i <= input.len(),
            input.len() <= usize::MAX,
            out@ == shelf_order(input.take(i as int), favs),
            favs == string_views(favorites@),
        decreases rest.len(),
    {
        let c = rest.remove(0);
        assert(c == input[i as int]);
        let mut p: usize = 0;
        let mut found = false;
        while !found && p < out.len()
            invariant
                p <= out.len(),
                forall|k: int| 0 <= k < p ==> !shelved_before(c, #[trigger] out@[k], favs),
                found ==> p < out.len() && shelved_before(c, out@[p as int], favs),
                favs == string_views(favorites@),
            decreases out.len() - p + (if found { 0int } else { 1int }),
        {
            if goes_before(&c, &out[p], favorites) {
                found = true;
            } else {
                p += 1;
            }
        }
        proof {
            lemma_shelve_at(out@, c, favs, p as int);
            assert(input.take(i + 1).drop_last() == input.take(i as int));
            assert(input.take(i + 1).last() == c);
        }
        out.insert(p, c);
        i += 1;
        assert(rest@ =~= input.skip(i as int));
    }
    assert(input.take(i as int) == input);
    *carts = out;
}

// ---------------------------------------------------------------------------------------------
// Artwork
// ---------------------------------------------------------------------------------------------

/// Where a cart's picture of a kind (`Labels` or `Cartridges`) is looked for: the platform's
/// own folder first, then, for GBA and for carts found loose, the folder itself.
pub open spec fn art_nested(root: Seq<char>, kind: Seq<char>, p: Platform, stem: Seq<char>) -> Seq<char> {
    join(join(join(root, kind), dir_of(p)), stem + ".png"@)
}

pub open spec fn art_loose(root: Seq<char>, kind: Seq<char>, stem: Seq<char>) -> Seq<char> {
    join(join(root, kind), stem + ".png"@)
}

/// The two places, in the order they are tried, `None` for the second where the cart's
/// platform has no loose folder to fall back on.
pub fn art_paths(root: &str, kind: &str, platform: Platform, legacy: bool, stem: &str) -> (r: (
    String,
    Option<String>,
))
    ensures
        r.0@ == art_nested(root@, kind@, platform, stem@),
        match r.1 {
            Some(l) => (legacy || platform == Platform::Gba) && l@ == art_loose(root@, kind@, stem@),
            None => !(legacy || platform == Platform::Gba),
        },
{
    let mut name: Vec<char> = Vec::new();
    append_str(&mut name, stem);
    append_str(&mut name, ".png");
    proof {
        reveal_strlit(".png");
    }
    let name = string_of(&name);
    let r = chars_of(root);
    let base = crate::store::ring::join_into(&r, kind);
    let nested_dir = crate::store::ring::join_into(&base, platform.dir_name());
    let nested = string_of(&crate::store::ring::join_into(&nested_dir, name.as_str()));
    let loose = if legacy || platform == Platform::Gba {
        Some(string_of(&crate::store::ring::join_into(&base, name.as_str())))
    } else {
        None
    };
    (nested, loose)
}

} // verus!
