//! Which console a cart is for, and therefore which folder every one of its files lives in.
use crate::store::path::{extension, extension_range};
use crate::text::{chars_of, eq_ignore_case, lower_range, lower_seq, str_eq};
use vstd::prelude::*;

verus! {

/// Which console a cart is for. A file's platform is a property of where it is on the card:
/// one folder per platform under `Games/`, `Saves/`, `States/`, `Labels/` and `Cartridges/`.
#[derive(Clone, Copy, PartialEq, Eq, Debug, Structural)]
pub enum Platform {
    Gba,
    Gb,
    Gbc,
}

impl Default for Platform {
    fn default() -> (p: Self)
        ensures
            p == Platform::Gba,
    {
        Platform::Gba
    }
}

/// The directory name each platform's files live under.
pub open spec fn dir_of(p: Platform) -> Seq<char> {
    match p {
        Platform::Gba => seq!['G', 'B', 'A'],
        Platform::Gb => seq!['G', 'B'],
        Platform::Gbc => seq!['G', 'B', 'C'],
    }
}

/// The platform whose directory is called `name`, exactly.
pub open spec fn platform_named(name: Seq<char>) -> Option<Platform> {
    if name == dir_of(Platform::Gba) {
        Some(Platform::Gba)
    } else if name == dir_of(Platform::Gb) {
        Some(Platform::Gb)
    } else if name == dir_of(Platform::Gbc) {
        Some(Platform::Gbc)
    } else {
        None
    }
}

/// The ROM extensions a platform's folder holds.
pub open spec fn extensions_of(p: Platform) -> Seq<Seq<char>> {
    match p {
        Platform::Gba => seq![seq!['g', 'b', 'a']],
        Platform::Gb | Platform::Gbc => seq![seq!['g', 'b'], seq!['g', 'b', 'c']],
    }
}

/// Whether the file at `path` is one of this platform's ROMs, going by its extension in
/// any letter case.
pub open spec fn platform_accepts(p: Platform, path: Seq<char>) -> bool {
    match extension(path) {
        None => false,
        Some(e) => exists|i: int|
            0 <= i < extensions_of(p).len() && eq_ignore_case(e, #[trigger] extensions_of(p)[i]),
    }
}

impl Platform {
    /// Every variant, once, in the order the shelves are switched through.
    pub const ALL: [Platform; 3] = [Platform::Gba, Platform::Gb, Platform::Gbc];

    /// The card directory this platform's files live under.
    pub fn dir_name(self) -> (r: &'static str)
        ensures
            r@ == dir_of(self),
    {
        match self {
            Platform::Gba => {
                proof {
                    reveal_strlit("GBA");
                }
                "GBA"
            },
            Platform::Gb => {
                proof {
                    reveal_strlit("GB");
                }
                "GB"
            },
            Platform::Gbc => {
                proof {
                    reveal_strlit("GBC");
                }
                "GBC"
            },
        }
    }

    pub fn from_dir_name(name: &str) -> (r: Option<Self>)
        ensures
            r == platform_named(name@),
    {
        if str_eq(name, Platform::Gba.dir_name()) {
            Some(Platform::Gba)
        } else if str_eq(name, Platform::Gb.dir_name()) {
            Some(Platform::Gb)
        } else if str_eq(name, Platform::Gbc.dir_name()) {
            Some(Platform::Gbc)
        } else {
            None
        }
    }

    /// The ROM extensions this folder holds. A `.gba` sitting in `GB/` is not a Game Boy cart.
    pub fn extensions(self) -> (r: Vec<&'static str>)
        ensures
            r@.len() == extensions_of(self).len(),
            forall|i: int| 0 <= i < r@.len() ==> (#[trigger] r@[i])@ == extensions_of(self)[i],
    {
        proof {
            reveal_strlit("gba");
            reveal_strlit("gb");
            reveal_strlit("gbc");
        }
        match self {
            Platform::Gba => vec!["gba"],
            Platform::Gb | Platform::Gbc => vec!["gb", "gbc"],
        }
    }

    /// The picture this console draws, in pixels. A Game Boy Color draws the same 160x144 as
    /// a Game Boy: the colour is in the pixels, not in how many of them there are.
    pub fn picture(self) -> (r: (u32, u32))
        ensures
            r == (match self {
                Platform::Gba => (240u32, 160u32),
                _ => (160u32, 144u32),
            }),
    {
        match self {
            Platform::Gba => (240, 160),
            Platform::Gb | Platform::Gbc => (160, 144),
        }
    }

    /// Whether the file at `path` is one of this platform's ROMs.
    pub fn accepts(self, path: &str) -> (r: bool)
        ensures
            r == platform_accepts(self, path@),
    {
        let v = chars_of(path);
        let (a, b) = match extension_range(&v) {
            Some(r) => r,
            None => return false,
        };
        let ext = lower_range(&v, a, b);
        let ghost e = v@.subrange(a as int, b as int);
        let exts = self.extensions();
        let mut i: usize = 0;
        while i < exts.len()
            invariant
                i <= exts.len(),
                ext@ == lower_seq(e),
                extension(path@) == Some(e),
                exts@.len() == extensions_of(self).len(),
                forall|j: int| 0 <= j < exts@.len() ==> (#[trigger] exts@[j])@ == extensions_of(self)[j],
                forall|j: int| 0 <= j < i ==> !eq_ignore_case(e, #[trigger] extensions_of(self)[j]),
            decreases exts.len() - i,
        {
            let k = chars_of(exts[i]);
            let kl = lower_range(&k, 0, k.len());
            assert(k@.subrange(0, k@.len() as int) == k@);
            let same = crate::text::chars_eq(&ext, 0, ext.len(), &kl, 0, kl.len());
            assert(ext@.subrange(0, ext@.len() as int) == ext@);
            assert(kl@.subrange(0, kl@.len() as int) == kl@);
            if same {
                assert(eq_ignore_case(e, extensions_of(self)[i as int]));
                assert(extension(path@) == Some(e));
                assert(platform_accepts(self, path@));
                return true;
            }
            i += 1;
        }
        false
    }
}

/// Every platform has its own directory, and its name leads back to it.
pub proof fn law_dir_name_round_trip(p: Platform)
    ensures
        platform_named(dir_of(p)) == Some(p),
{
    assert(seq!['G', 'B'].len() != seq!['G', 'B', 'A'].len());
    assert(seq!['G', 'B', 'C'][2] != seq!['G', 'B', 'A'][2]);
    assert(seq!['G', 'B', 'C'].len() != seq!['G', 'B'].len());
}

} // verus!
