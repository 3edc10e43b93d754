//! Which emulator runs a cart, and `System/selected_core.ini`, the file that picks it per
//! cart as `<rom stem> = <core>`, one per line.
use crate::store::ini::{self, ini_map, ini_written, lists_map, pairs_view, plain_key};
use crate::store::platform::Platform;
use crate::store::scan::Cart;
use crate::text::{chars_eq, chars_of, lower_range, lower_seq, trim, trim_range};
use vstd::prelude::*;

verus! {

pub const SELECTED_CORE_FILE: &'static str = "System/selected_core.ini";

/// Which emulator runs a cart. mGBA is the whole product's default; gpSP exists for the
/// serial hardware mGBA's libretro build does not carry; Gambatte runs the Game Boys.
#[derive(Clone, Copy, PartialEq, Eq, Debug, Structural)]
pub enum Core {
    Mgba,
    Gpsp,
    Gambatte,
}

impl Default for Core {
    fn default() -> (c: Self)
        ensures
            c == Core::Mgba,
    {
        Core::Mgba
    }
}

/// The ini's spelling of a core.
pub open spec fn core_name(c: Core) -> Seq<char> {
    match c {
        Core::Mgba => seq!['m', 'g', 'b', 'a'],
        Core::Gpsp => seq!['g', 'p', 's', 'p'],
        Core::Gambatte => seq!['g', 'a', 'm', 'b', 'a', 't', 't', 'e'],
    }
}

/// What the picker calls a core.
pub open spec fn core_text(c: Core) -> Seq<char> {
    match c {
        Core::Mgba => seq!['m', 'G', 'B', 'A'],
        Core::Gpsp => seq!['g', 'p', 'S', 'P'],
        Core::Gambatte => seq!['G', 'a', 'm', 'b', 'a', 't', 't', 'e'],
    }
}

/// The core a value names: its ini spelling, in any letter case, with space around it.
pub open spec fn core_named(s: Seq<char>) -> Option<Core> {
    let t = lower_seq(trim(s));
    if t == core_name(Core::Mgba) {
        Some(Core::Mgba)
    } else if t == core_name(Core::Gpsp) {
        Some(Core::Gpsp)
    } else if t == core_name(Core::Gambatte) {
        Some(Core::Gambatte)
    } else {
        None
    }
}

/// The core the file picks for `stem`: what its line says, or mGBA when it has no line or
/// the line names no core.
pub open spec fn core_chosen(text: Seq<char>, stem: Seq<char>) -> Core {
    let m = ini_map(text);
    if m.contains_key(stem) {
        match core_named(m[stem]) {
            Some(c) => c,
            None => Core::Mgba,
        }
    } else {
        Core::Mgba
    }
}

impl Core {
    /// Every variant, once.
    pub const ALL: [Core; 3] = [Core::Mgba, Core::Gpsp, Core::Gambatte];

    /// The cores the picker offers for a GBA cart.
    pub const PICKABLE: [Core; 2] = [Core::Mgba, Core::Gpsp];

    /// The ini's spelling, meant to be typed by hand.
    pub fn as_str(&self) -> (r: &'static str)
        ensures
            r@ == core_name(*self),
    {
        match self {
            Core::Mgba => {
                proof {
                    reveal_strlit("mgba");
                }
                "mgba"
            },
            Core::Gpsp => {
                proof {
                    reveal_strlit("gpsp");
                }
                "gpsp"
            },
            Core::Gambatte => {
                proof {
                    reveal_strlit("gambatte");
                }
                "gambatte"
            },
        }
    }

    /// Position in `ALL`, which is the order the picker's rows are in.
    pub fn index(self) -> (r: usize)
        ensures
            r == match self {
                Core::Mgba => 0usize,
                Core::Gpsp => 1usize,
                Core::Gambatte => 2usize,
            },
    {
        match self {
            Core::Mgba => 0,
            Core::Gpsp => 1,
            Core::Gambatte => 2,
        }
    }

    /// What the picker calls it, meant to be read off a panel.
    pub fn text(self) -> (r: &'static str)
        ensures
            r@ == core_text(self),
    {
        match self {
            Core::Mgba => {
                proof {
                    reveal_strlit("mGBA");
                }
                "mGBA"
            },
            Core::Gpsp => {
                proof {
                    reveal_strlit("gpSP");
                }
                "gpSP"
            },
            Core::Gambatte => {
                proof {
                    reveal_strlit("Gambatte");
                }
                "Gambatte"
            },
        }
    }

    /// The core `s` names, whatever its case and whatever space is around it.
    pub fn parse(s: &str) -> (r: Option<Core>)
        ensures
            r == core_named(s@),
    {
        let v = chars_of(s);
        let (a, b) = trim_range(&v, 0, v.len());
        assert(v@.subrange(0, v@.len() as int) == v@);
        let t = lower_range(&v, a, b);
        assert(t@.subrange(0, t@.len() as int) == t@);
        let m = chars_of(Core::Mgba.as_str());
        assert(m@.subrange(0, m@.len() as int) == m@);
        if chars_eq(&t, 0, t.len(), &m, 0, m.len()) {
            return Some(Core::Mgba);
        }
        let g = chars_of(Core::Gpsp.as_str());
        assert(g@.subrange(0, g@.len() as int) == g@);
        if chars_eq(&t, 0, t.len(), &g, 0, g.len()) {
            return Some(Core::Gpsp);
        }
        let gb = chars_of(Core::Gambatte.as_str());
        assert(gb@.subrange(0, gb@.len() as int) == gb@);
        if chars_eq(&t, 0, t.len(), &gb, 0, gb.len()) {
            return Some(Core::Gambatte);
        }
        None
    }
}

/// Every cart the file's text names a core for, with that core. A line whose value names
/// no core is left out, so that cart opens with the default; of two lines for one cart the
/// later decides, even when it is the one with the typo.
pub fn read_selected_cores(text: &str) -> (r: Vec<(String, Core)>)
    ensures
        forall|i: int, j: int| 0 <= i < j < r@.len() ==> (#[trigger] r@[i]).0@ != (#[trigger] r@[j]).0@,
        forall|i: int|
            0 <= i < r@.len() ==> ini_map(text@).contains_key((#[trigger] r@[i]).0@) && core_named(
                ini_map(text@)[r@[i].0@],
            ) == Some(r@[i].1),
        forall|k: Seq<char>|
            ini_map(text@).contains_key(k) && core_named(ini_map(text@)[k]) is Some ==> exists|
                i: int,
            |
                0 <= i < r@.len() && (#[trigger] r@[i]).0@ == k,
{
    let pairs = ini::read(text);
    let ghost pv = pairs_view(pairs@);
    let ghost mut idx: Seq<int> = Seq::empty();
    let mut out: Vec<(String, Core)> = Vec::new();
    let mut i: usize = 0;
    while i < pairs.len()
        invariant
            i <= pairs.len(),
            pv == pairs_view(pairs@),
            lists_map(pv, ini_map(text@)),
            idx.len() == out@.len(),
            forall|a: int|
                0 <= a < out@.len() ==> 0 <= #[trigger] idx[a] < i && out@[a].0@ == pv[idx[a]].0
                    && core_named(pv[idx[a]].1) == Some(out@[a].1),
            forall|a: int, b: int| 0 <= a < b < out@.len() ==> #[trigger] idx[a] < #[trigger] idx[b],
            forall|x: int|
                0 <= x < i && core_named(#[trigger] pv[x].1) is Some ==> exists|a: int|
                    0 <= a < out@.len() && idx[a] == x,
        decreases pairs.len() - i,
    {
        assert(pv[i as int] == (pairs@[i as int].0@, pairs@[i as int].1@));
        match Core::parse(&pairs[i].1) {
            Some(c) => {
                let ghost before = out@;
                let ghost idx0 = idx;
                let k = pairs[i].0.clone();
                out.push((k, c));
                proof {
                    idx = idx.push(i as int);
                    assert forall|a: int| 0 <= a < out@.len() implies 0 <= #[trigger] idx[a] < i + 1
                        && out@[a].0@ == pv[idx[a]].0 && core_named(pv[idx[a]].1) == Some(out@[a].1) by {
                        if a < before.len() {
                            assert(out@[a] == before[a] && idx[a] == idx0[a]);
                        }
                    }
                    assert forall|a: int, b: int| 0 <= a < b < out@.len() implies #[trigger] idx[a]
                        < #[trigger] idx[b] by {
                        if b < before.len() {
                            assert(idx[a] == idx0[a] && idx[b] == idx0[b]);
                        } else {
                            assert(idx[a] == idx0[a]);
                        }
                    }
                    assert forall|x: int| 0 <= x < i + 1 && core_named(#[trigger] pv[x].1) is Some
                        implies exists|a: int| 0 <= a < out@.len() && idx[a] == x by {
                        if x < i {
                            let a = choose|a: int| 0 <= a < before.len() && idx0[a] == x;
                            assert(idx[a] == idx0[a]);
                        } else {
                            assert(idx[before.len() as int] == x);
                        }
                    }
                }
            },
            None => {},
        }
        i += 1;
    }
    proof {
        assert forall|a: int, b: int| 0 <= a < b < out@.len() implies (#[trigger] out@[a]).0@ != (
        #[trigger] out@[b]).0@ by {
            assert(idx[a] < idx[b]);
            assert(pv[idx[a]].0 != pv[idx[b]].0);
        }
        assert forall|a: int| 0 <= a < out@.len() implies ini_map(text@).contains_key(
            (#[trigger] out@[a]).0@,
        ) && core_named(ini_map(text@)[out@[a].0@]) == Some(out@[a].1) by {
            let x = idx[a];
            assert(ini_map(text@).contains_key(pv[x].0) && ini_map(text@)[pv[x].0] == pv[x].1);
        }
        assert forall|k: Seq<char>|
            ini_map(text@).contains_key(k) && core_named(ini_map(text@)[k]) is Some implies exists|
                a: int,
            |
                0 <= a < out@.len() && (#[trigger] out@[a]).0@ == k by {
            let x = choose|x: int| 0 <= x < pv.len() && (#[trigger] pv[x]).0 == k;
            assert(ini_map(text@)[pv[x].0] == pv[x].1);
            assert(core_named(pv[x].1) is Some);
            let a = choose|a: int| 0 <= a < out@.len() && idx[a] == x;
            assert(out@[a].0@ == k);
        }
    }
    out
}

/// The core one cart wants: what the file's line for its stem names, or mGBA.
pub fn core_for(text: &str, stem: &str) -> (r: Core)
    ensures
        r == core_chosen(text@, stem@),
{
    match ini::value(text, stem) {
        Some(v) => match Core::parse(&v) {
            Some(c) => c,
            None => Core::Mgba,
        },
        None => Core::Mgba,
    }
}

/// The core a cart runs on: its pick from the file for a GBA cart, Gambatte for the Game
/// Boys, whatever the file says.
pub fn core_for_cart(text: &str, cart: &Cart) -> (r: Core)
    ensures
        r == match cart.platform {
            Platform::Gba => core_chosen(text@, cart.stem@),
            _ => Core::Gambatte,
        },
{
    match cart.platform {
        Platform::Gba => core_for(text, &cart.stem),
        Platform::Gb | Platform::Gbc => Core::Gambatte,
    }
}

/// The file's text with one cart's core set, its line replaced in place or appended, and
/// the rest of the file exactly as it was.
pub fn write_selected_core(existing: &str, stem: &str, core: Core) -> (r: String)
    ensures
        r@ == ini_written(existing@, stem@, core_name(core)),
{
    ini::write(existing, stem, core.as_str())
}

/// Every core's own spelling names it back.
pub proof fn law_core_names_round_trip(c: Core)
    ensures
        core_named(core_name(c)) == Some(c),
{
    let n = core_name(c);
    assert(trim(n) == n) by {
        assert(!crate::text::is_ws(n[0]));
        assert(!crate::text::is_ws(n.last()));
    }
    assert(lower_seq(n) =~= n);
    assert(core_name(Core::Gpsp)[0] != core_name(Core::Mgba)[0]);
    assert(core_name(Core::Gambatte).len() != core_name(Core::Mgba).len());
    assert(core_name(Core::Gambatte).len() != core_name(Core::Gpsp).len());
}

/// A cart's core, once written, is the core the file picks for it, for any stem a person
/// could type on the left of a line.
pub proof fn law_core_for_after_write(text: Seq<char>, stem: Seq<char>, c: Core)
    requires
        plain_key(stem),
    ensures
        core_chosen(ini_written(text, stem, core_name(c)), stem) == c,
{
    let n = core_name(c);
    assert(ini::no_newline(n)) by {
        assert forall|i: int| 0 <= i < n.len() implies #[trigger] n[i] != '\n' by {}
    }
    ini::law_read_after_write(text, stem, n);
    law_core_names_round_trip(c);
    assert(trim(n) == n) by {
        assert(!crate::text::is_ws(n[0]));
        assert(!crate::text::is_ws(n.last()));
    }
    assert(lower_seq(trim(trim(n))) =~= n);
}

} // verus!
