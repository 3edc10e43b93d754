//! The decisions behind moving an old card's files to where this build keeps them: which
//! directories are already in place, which platform a loose ROM belongs to, which platform
//! a companion file follows, and which copy of a duplicated state survives. The walking and
//! renaming is the caller's.
use crate::store::cores::{core_name, Core};
use crate::store::gb::Class;
use crate::store::path::{extension, extension_range};
use crate::store::platform::{dir_of, Platform};
use crate::text::{chars_of, chars_eq, lower_range, lower_seq, str_eq, string_views};
use vstd::prelude::*;

verus! {

/// What one migration did to a card. `failed` is what lets a caller decide whether there is
/// anything worth logging: an ordinary boot sees `moved == 0, failed == 0`.
#[derive(Debug, Clone, Copy, PartialEq, Eq, Structural)]
pub struct MigrationReport {
    pub moved: usize,
    pub failed: usize,
}

impl Default for MigrationReport {
    fn default() -> (r: Self)
        ensures
            r == (MigrationReport { moved: 0, failed: 0 }),
    {
        MigrationReport { moved: 0, failed: 0 }
    }
}

impl MigrationReport {
    /// Counts one entry of a `migrate_states` pass: a failure, or a move that went through
    /// (`done`) or did not.
    pub fn record(&mut self, step: StateDirStep, done: bool)
        requires
            old(self).moved < usize::MAX,
            old(self).failed < usize::MAX,
        ensures
            final(self).moved == old(self).moved + (if step is MoveToMgba && done { 1int } else { 0int }),
            final(self).failed == old(self).failed + (if step is Fail || (step is MoveToMgba && !done) {
                1int
            } else {
                0int
            }),
    {
        match step {
            StateDirStep::Skip => {},
            StateDirStep::Fail => self.failed = self.failed + 1,
            StateDirStep::MoveToMgba => if done {
                self.moved = self.moved + 1;
            } else {
                self.failed = self.failed + 1;
            },
        }
    }

    /// Counts one entry of a `sweep_state_cores` pass; a split is counted stem by stem by
    /// the split itself.
    pub fn record_core(&mut self, step: CoreDirStep, done: bool)
        requires
            old(self).moved < usize::MAX,
            old(self).failed < usize::MAX,
        ensures
            final(self).moved == old(self).moved + (if step is MoveToGba && done { 1int } else { 0int }),
            final(self).failed == old(self).failed + (if step is Fail || (step is MoveToGba && !done) {
                1int
            } else {
                0int
            }),
    {
        match step {
            CoreDirStep::Skip | CoreDirStep::SplitPerStem => {},
            CoreDirStep::Fail => self.failed = self.failed + 1,
            CoreDirStep::MoveToGba => if done {
                self.moved = self.moved + 1;
            } else {
                self.failed = self.failed + 1;
            },
        }
    }

    /// Counts one move into place. A destination left alone is counted as neither moved nor
    /// failed, and so is a source that was already gone.
    pub fn record_move(&mut self, step: MoveStep, outcome: MoveOutcome)
        requires
            old(self).moved < usize::MAX,
            old(self).failed < usize::MAX,
        ensures
            final(self).moved == old(self).moved + (if !(step is Leave) && outcome is Done {
                1int
            } else {
                0int
            }),
            final(self).failed == old(self).failed + (if !(step is Leave) && outcome is Failed {
                1int
            } else {
                0int
            }),
    {
        match step {
            MoveStep::Leave => {},
            MoveStep::RemoveSource | MoveStep::Rename => match outcome {
                MoveOutcome::Done => self.moved = self.moved + 1,
                MoveOutcome::Nothing => {},
                MoveOutcome::Failed => self.failed = self.failed + 1,
            },
        }
    }

    pub fn add(&mut self, other: MigrationReport)
        requires
            old(self).moved + other.moved <= usize::MAX,
            old(self).failed + other.failed <= usize::MAX,
        ensures
            final(self).moved == old(self).moved + other.moved,
            final(self).failed == old(self).failed + other.failed,
    {
        self.moved = self.moved + other.moved;
        self.failed = self.failed + other.failed;
    }
}

/// What becomes of a source whose destination already exists.
#[derive(Copy, Clone, PartialEq, Eq, Debug, Structural)]
pub enum Clash {
    /// The source stays where it is: a file swept towards a platform directory that already
    /// has one of that name.
    KeepSource,
    /// The destination already holds these states, so the source is a misfiled copy and
    /// goes, rather than being merged blindly.
    DropSource,
}

/// One move into place, decided before anything is touched.
#[derive(Copy, Clone, PartialEq, Eq, Debug, Structural)]
pub enum MoveStep {
    Leave,
    RemoveSource,
    Rename,
}

/// How the filesystem call of a move ended: it went through, there was nothing to do
/// (the source was already gone), or it failed.
#[derive(Copy, Clone, PartialEq, Eq, Debug, Structural)]
pub enum MoveOutcome {
    Done,
    Nothing,
    Failed,
}

/// Nothing is ever renamed onto a destination that exists.
pub open spec fn spec_move_step(dest_exists: bool, clash: Clash) -> MoveStep {
    if !dest_exists {
        MoveStep::Rename
    } else {
        match clash {
            Clash::KeepSource => MoveStep::Leave,
            Clash::DropSource => MoveStep::RemoveSource,
        }
    }
}

pub fn move_step(dest_exists: bool, clash: Clash) -> (r: MoveStep)
    ensures
        r == spec_move_step(dest_exists, clash),
        dest_exists ==> r != MoveStep::Rename,
{
    if !dest_exists {
        MoveStep::Rename
    } else {
        match clash {
            Clash::KeepSource => MoveStep::Leave,
            Clash::DropSource => MoveStep::RemoveSource,
        }
    }
}

/// The names directly under `States/` that are already where they belong: every core's
/// directory and every platform's.
pub open spec fn known_state_dir(name: Seq<char>) -> bool {
    ||| name == core_name(Core::Mgba)
    ||| name == core_name(Core::Gpsp)
    ||| name == core_name(Core::Gambatte)
    ||| name == dir_of(Platform::Gba)
    ||| name == dir_of(Platform::Gb)
    ||| name == dir_of(Platform::Gbc)
}

/// Anything directly under `States/` that is neither a core directory nor a platform
/// directory is a pre-namespacing cart, and belongs to mGBA because mGBA is what wrote it.
/// The platform half of the test is what keeps `States/GB/` from being swept into
/// `States/mgba/GB/`.
pub fn is_known_state_dir(name: &str) -> (r: bool)
    ensures
        r == known_state_dir(name@),
{
    str_eq(name, Core::Mgba.as_str()) || str_eq(name, Core::Gpsp.as_str()) || str_eq(
        name,
        Core::Gambatte.as_str(),
    ) || str_eq(name, Platform::Gba.dir_name()) || str_eq(name, Platform::Gb.dir_name())
        || str_eq(name, Platform::Gbc.dir_name())
}

/// Migrating states settles: what it leaves directly under `States/` (each core's directory
/// and each platform's) is never moved again, so running it on every boot moves nothing
/// after the first; and a core's directory names that core and no other.
pub proof fn law_state_migration_settles(c: Core, p: Platform)
    ensures
        known_state_dir(core_name(c)),
        known_state_dir(dir_of(p)),
        core_dir_named(core_name(c)) == Some(c),
        core_dir_named(dir_of(p)) is None,
{
}

/// The core whose state directory `name` is, spelled exactly as the core spells itself.
pub open spec fn core_dir_named(name: Seq<char>) -> Option<Core> {
    if name == core_name(Core::Mgba) {
        Some(Core::Mgba)
    } else if name == core_name(Core::Gpsp) {
        Some(Core::Gpsp)
    } else if name == core_name(Core::Gambatte) {
        Some(Core::Gambatte)
    } else {
        None
    }
}

pub fn core_dir(name: &str) -> (r: Option<Core>)
    ensures
        r == core_dir_named(name@),
{
    if str_eq(name, Core::Mgba.as_str()) {
        Some(Core::Mgba)
    } else if str_eq(name, Core::Gpsp.as_str()) {
        Some(Core::Gpsp)
    } else if str_eq(name, Core::Gambatte.as_str()) {
        Some(Core::Gambatte)
    } else {
        None
    }
}

// ---------------------------------------------------------------------------------------------
// Walking `States/`
// ---------------------------------------------------------------------------------------------

/// What a walk saw of one entry directly under a directory it sweeps.
#[derive(Clone, PartialEq, Eq, Debug)]
pub enum StateDirEntry {
    /// Its file type would not read.
    Unreadable,
    NotADirectory,
    /// A directory whose name is not UTF-8.
    BadName,
    /// A directory, and whether the place this sweep would move it to already exists.
    Dir { name: String, dest_exists: bool },
}

/// What `migrate_states` does with one entry.
#[derive(Copy, Clone, PartialEq, Eq, Debug, Structural)]
pub enum StateDirStep {
    /// Leave it: not a directory, a directory already in place, or one whose new home is
    /// taken. Newer states under the new layout outrank old ones, so nothing is clobbered.
    Skip,
    /// Count it as failed and go on with the rest; it is still there for the next boot.
    Fail,
    /// Rename it to `States/mgba/<name>`.
    MoveToMgba,
}

pub open spec fn state_dir_step_of(e: StateDirEntry) -> StateDirStep {
    match e {
        StateDirEntry::Unreadable => StateDirStep::Fail,
        StateDirEntry::NotADirectory => StateDirStep::Skip,
        StateDirEntry::BadName => StateDirStep::Fail,
        StateDirEntry::Dir { name, dest_exists } => if known_state_dir(name@) || dest_exists {
            StateDirStep::Skip
        } else {
            StateDirStep::MoveToMgba
        },
    }
}

pub fn state_dir_step(entry: &StateDirEntry) -> (r: StateDirStep)
    ensures
        r == state_dir_step_of(*entry),
{
    match entry {
        StateDirEntry::Unreadable => StateDirStep::Fail,
        StateDirEntry::NotADirectory => StateDirStep::Skip,
        StateDirEntry::BadName => StateDirStep::Fail,
        StateDirEntry::Dir { name, dest_exists } => if is_known_state_dir(name.as_str()) || *dest_exists {
            StateDirStep::Skip
        } else {
            StateDirStep::MoveToMgba
        },
    }
}

/// How many entries a pass over `es` moves.
pub open spec fn moves_in(es: Seq<StateDirEntry>) -> nat
    decreases es.len(),
{
    if es.len() == 0 {
        0
    } else {
        moves_in(es.drop_last()) + if state_dir_step_of(es.last()) is MoveToMgba {
            1nat
        } else {
            0nat
        }
    }
}

/// The entries under `States/` after a pass over `es` in which `done[i]` says whether the
/// move of entry `i` went through: every moved entry is gone, `mgba` (the entry `m`) is
/// there, and the rest are where they were.
pub open spec fn after_pass(es: Seq<StateDirEntry>, done: Seq<bool>, m: StateDirEntry) -> Seq<StateDirEntry>
    decreases es.len(),
{
    if es.len() == 0 {
        seq![m]
    } else {
        let rest = after_pass(es.drop_last(), done.drop_last(), m);
        if state_dir_step_of(es.last()) is MoveToMgba && done.last() {
            rest
        } else {
            rest.push(es.last())
        }
    }
}

/// Migrating states settles: once a pass has moved every entry it meant to, the next pass
/// over what it left moves nothing, so running it on every boot is safe.
pub proof fn law_states_pass_settles(es: Seq<StateDirEntry>, done: Seq<bool>, m: StateDirEntry)
    requires
        done.len() == es.len(),
        forall|i: int| 0 <= i < es.len() && state_dir_step_of(#[trigger] es[i]) is MoveToMgba ==> done[i],
        m matches StateDirEntry::Dir { name, .. } && name@ == core_name(Core::Mgba),
    ensures
        moves_in(after_pass(es, done, m)) == 0,
    decreases es.len(),
{
    if es.len() == 0 {
        assert(seq![m].drop_last() =~= Seq::<StateDirEntry>::empty());
        assert(seq![m].last() == m);
        assert(known_state_dir(core_name(Core::Mgba)));
        assert(state_dir_step_of(m) is Skip);
        assert(moves_in(Seq::<StateDirEntry>::empty()) == 0);
        assert(after_pass(es, done, m) == seq![m]);
        assert(moves_in(seq![m]) == moves_in(seq![m].drop_last()) + 0);
    } else {
        let d = es.drop_last();
        assert forall|i: int| 0 <= i < d.len() && state_dir_step_of(#[trigger] d[i]) is MoveToMgba implies done.drop_last()[i] by {
            assert(d[i] == es[i]);
        }
        law_states_pass_settles(d, done.drop_last(), m);
        let rest = after_pass(d, done.drop_last(), m);
        assert(es.last() == es[es.len() - 1]);
        if !(state_dir_step_of(es.last()) is MoveToMgba && done.last()) {
            assert(rest.push(es.last()).drop_last() =~= rest);
            assert(rest.push(es.last()).last() == es.last());
            assert(!(state_dir_step_of(es.last()) is MoveToMgba)) by {
                assert(state_dir_step_of(es[es.len() - 1]) is MoveToMgba ==> done[es.len() - 1]);
            }
            assert(after_pass(es, done, m) == rest.push(es.last()));
            assert(moves_in(rest.push(es.last())) == moves_in(rest) + 0);
        } else {
            assert(after_pass(es, done, m) == rest);
        }
    }
}

/// What `sweep_state_cores` does with one entry directly under `States/`.
#[derive(Copy, Clone, PartialEq, Eq, Debug, Structural)]
pub enum CoreDirStep {
    /// Leave it: not a directory, not a core's directory, or one whose place under `GBA/` is
    /// taken.
    Skip,
    /// Count it as failed and go on with the rest.
    Fail,
    /// Gambatte's directory: each stem follows its ROM, to `States/<platform>/gambatte/`.
    SplitPerStem,
    /// A GBA core's directory: rename it to `States/GBA/<name>`.
    MoveToGba,
}

/// `dest_exists` is whether `States/GBA/<name>` exists.
pub open spec fn core_dir_step_of(e: StateDirEntry) -> CoreDirStep {
    match e {
        StateDirEntry::Unreadable => CoreDirStep::Fail,
        StateDirEntry::NotADirectory => CoreDirStep::Skip,
        StateDirEntry::BadName => CoreDirStep::Fail,
        StateDirEntry::Dir { name, dest_exists } => match core_dir_named(name@) {
            None => CoreDirStep::Skip,
            Some(Core::Gambatte) => CoreDirStep::SplitPerStem,
            Some(_) => if dest_exists {
                CoreDirStep::Skip
            } else {
                CoreDirStep::MoveToGba
            },
        },
    }
}

pub fn core_dir_step(entry: &StateDirEntry) -> (r: CoreDirStep)
    ensures
        r == core_dir_step_of(*entry),
{
    match entry {
        StateDirEntry::Unreadable => CoreDirStep::Fail,
        StateDirEntry::NotADirectory => CoreDirStep::Skip,
        StateDirEntry::BadName => CoreDirStep::Fail,
        StateDirEntry::Dir { name, dest_exists } => match core_dir(name.as_str()) {
            None => CoreDirStep::Skip,
            Some(Core::Gambatte) => CoreDirStep::SplitPerStem,
            Some(_) => if *dest_exists {
                CoreDirStep::Skip
            } else {
                CoreDirStep::MoveToGba
            },
        },
    }
}

/// A ROM's extension, lowercased, when it has one.
pub open spec fn lower_ext(path: Seq<char>) -> Option<Seq<char>> {
    match extension(path) {
        Some(e) => Some(lower_seq(e)),
        None => None,
    }
}

/// Whether a loose file under `Games/` is a ROM the sweep places: `.gba`, `.gb` or `.gbc`
/// in any case.
pub open spec fn sweeps_as_rom(path: Seq<char>) -> bool {
    match lower_ext(path) {
        Some(e) => e == "gba"@ || e == "gb"@ || e == "gbc"@,
        None => false,
    }
}

/// The platform a ROM is filed under: `.gba` is GBA; `.gb` and `.gbc` go by the header's
/// CGB flag, Colour-only to GBC and everything else to GB; anything else is GBA.
pub open spec fn platform_for(path: Seq<char>, class: Class) -> Platform {
    match lower_ext(path) {
        Some(e) => if e == "gba"@ {
            Platform::Gba
        } else if e == "gb"@ || e == "gbc"@ {
            if class == Class::ColourOnly {
                Platform::Gbc
            } else {
                Platform::Gb
            }
        } else {
            Platform::Gba
        },
        None => Platform::Gba,
    }
}

fn lower_ext_of(path: &str) -> (r: Option<Vec<char>>)
    ensures
        match r {
            Some(e) => lower_ext(path@) == Some(e@),
            None => lower_ext(path@) is None,
        },
{
    let v = chars_of(path);
    match extension_range(&v) {
        Some((a, b)) => Some(lower_range(&v, a, b)),
        None => None,
    }
}

fn is_lit(e: &Vec<char>, lit: &str) -> (r: bool)
    ensures
        r == (e@ == lit@),
{
    let k = chars_of(lit);
    let r = chars_eq(e, 0, e.len(), &k, 0, k.len());
    assert(e@.subrange(0, e@.len() as int) == e@);
    assert(k@.subrange(0, k@.len() as int) == k@);
    r
}

pub fn is_rom_to_sweep(path: &str) -> (r: bool)
    ensures
        r == sweeps_as_rom(path@),
{
    match lower_ext_of(path) {
        Some(e) => is_lit(&e, "gba") || is_lit(&e, "gb") || is_lit(&e, "gbc"),
        None => false,
    }
}

/// Whether a file filed under `Games/GBA/` may be a Game Boy ROM an earlier pass put there:
/// `.gb` or `.gbc` in any case.
pub open spec fn gb_family(path: Seq<char>) -> bool {
    match lower_ext(path) {
        Some(e) => e == "gb"@ || e == "gbc"@,
        None => false,
    }
}

pub fn is_gb_family(path: &str) -> (r: bool)
    ensures
        r == gb_family(path@),
{
    match lower_ext_of(path) {
        Some(e) => is_lit(&e, "gb") || is_lit(&e, "gbc"),
        None => false,
    }
}

/// `class` is what the ROM's header says, which only matters for `.gb` and `.gbc`.
pub fn platform_for_rom(path: &str, class: Class) -> (r: Platform)
    ensures
        r == platform_for(path@, class),
{
    match lower_ext_of(path) {
        Some(e) => if is_lit(&e, "gba") {
            Platform::Gba
        } else if is_lit(&e, "gb") || is_lit(&e, "gbc") {
            match class {
                Class::ColourOnly => Platform::Gbc,
                _ => Platform::Gb,
            }
        } else {
            Platform::Gba
        },
        None => Platform::Gba,
    }
}

// ---------------------------------------------------------------------------------------------
// The ROM index
// ---------------------------------------------------------------------------------------------

/// The ROMs found, as platform and stem, in the order they were found.
pub open spec fn found_view(found: Seq<(Platform, String)>) -> Seq<(Platform, Seq<char>)> {
    Seq::new(found.len(), |i: int| (found[i].0, found[i].1@))
}

/// The platform every ROM with this stem is on, or `None` when no ROM has it or ROMs on two
/// platforms do: companions for such a name cannot be placed without guessing.
pub open spec fn indexed(found: Seq<(Platform, Seq<char>)>, stem: Seq<char>) -> Option<Platform> {
    if exists|i: int| 0 <= i < found.len() && found[i].1 == stem {
        let i = choose|i: int| 0 <= i < found.len() && found[i].1 == stem;
        if forall|j: int| 0 <= j < found.len() && found[j].1 == stem ==> found[j].0 == found[i].0 {
            Some(found[i].0)
        } else {
            None
        }
    } else {
        None
    }
}

/// No stem is listed twice.
pub open spec fn stems_distinct(pairs: Seq<(Seq<char>, Platform)>) -> bool {
    forall|a: int, b: int| 0 <= a < b < pairs.len() ==> (#[trigger] pairs[a]).0 != (#[trigger] pairs[b]).0
}

/// `pairs` lists every stem the index places, once each, with its platform.
pub open spec fn lists_index(pairs: Seq<(Seq<char>, Platform)>, found: Seq<(Platform, Seq<char>)>) -> bool {
    &&& stems_distinct(pairs)
    &&& forall|a: int| 0 <= a < pairs.len() ==> indexed(found, (#[trigger] pairs[a]).0) == Some(pairs[a].1)
    &&& forall|s: Seq<char>| #[trigger] indexed(found, s) is Some ==> exists|a: int| 0 <= a < pairs.len() && (#[trigger] pairs[a]).0 == s
}

pub open spec fn index_view(pairs: Seq<(String, Platform)>) -> Seq<(Seq<char>, Platform)> {
    Seq::new(pairs.len(), |i: int| (pairs[i].0@, pairs[i].1))
}

/// Stem to platform for every ROM found under `Games/{GBA,GB,GBC}/`. A stem that appears on
/// more than one platform is left out.
pub fn index_roms(found: &Vec<(Platform, String)>) -> (r: Vec<(String, Platform)>)
    ensures
        lists_index(index_view(r@), found_view(found@)),
{
    let ghost fv = found_view(found@);
    let mut out: Vec<(String, Platform)> = Vec::new();
    let mut i: usize = 0;
    while i < found.len()
        invariant
            i <= found.len(),
            fv == found_view(found@),
            forall|a: int, b: int| 0 <= a < b < out@.len() ==> (#[trigger] index_view(out@)[a]).0 != (#[trigger] index_view(out@)[b]).0,
            forall|a: int| 0 <= a < out@.len() ==> indexed(fv, (#[trigger] index_view(out@)[a]).0) == Some(index_view(out@)[a].1),
            forall|k: int| 0 <= k < i && indexed(fv, #[trigger] fv[k].1) is Some ==> exists|a: int| 0 <= a < out@.len() && (#[trigger] index_view(out@)[a]).0 == fv[k].1,
        decreases found.len() - i,
    {
        let stem = found[i].1.as_str();
        let platform = found[i].0;
        let ghost out0 = index_view(out@);
        // already placed?
        let mut placed = false;
        let mut a: usize = 0;
        while a < out.len()
            invariant
                a <= out.len(),
                placed ==> exists|b: int| 0 <= b < out@.len() && (#[trigger] index_view(out@)[b]).0 == stem@,
                !placed ==> forall|b: int| 0 <= b < a ==> (#[trigger] index_view(out@)[b]).0 != stem@,
            decreases out.len() - a,
        {
            if str_eq(out[a].0.as_str(), stem) {
                assert(index_view(out@)[a as int].0 == stem@);
                placed = true;
            }
            a += 1;
        }
        if !placed {
            // one platform for every ROM with this stem?
            let mut same = true;
            let mut j: usize = 0;
            while j < found.len()
                invariant
                    j <= found.len(),
                    fv == found_view(found@),
                    i < found.len(),
                    stem@ == fv[i as int].1,
                    platform == fv[i as int].0,
                    same <==> forall|k: int| 0 <= k < j && fv[k].1 == stem@ ==> fv[k].0 == platform,
                decreases found.len() - j,
            {
                if str_eq(found[j].1.as_str(), stem) && found[j].0 != platform {
                    assert(fv[j as int].1 == stem@ && fv[j as int].0 != platform);
                    same = false;
                }
                j += 1;
            }
            proof {
                assert(fv[i as int].1 == stem@);
                let w = choose|w: int| 0 <= w < fv.len() && fv[w].1 == stem@;
                if same {
                    assert(fv[w].0 == platform);
                    assert(indexed(fv, stem@) == Some(platform));
                } else {
                    let k = choose|k: int| 0 <= k < fv.len() && fv[k].1 == stem@ && fv[k].0 != platform;
                    assert(fv[w].0 == platform || fv[w].0 != platform);
                    assert(indexed(fv, stem@) is None);
                }
            }
            if same {
                let ghost before = index_view(out@);
                out.push((crate::text::string_of(&chars_of(stem)), platform));
                assert(index_view(out@) =~= before.push((stem@, platform)));
            }
        }
        proof {
            assert forall|k: int| 0 <= k < i + 1 && indexed(fv, #[trigger] fv[k].1) is Some implies exists|b: int| 0 <= b < out@.len() && (#[trigger] index_view(out@)[b]).0 == fv[k].1 by {
                if k == i {
                    if !placed {
                        assert(index_view(out@)[out@.len() - 1].0 == fv[k].1);
                    }
                } else {
                    let b = choose|b: int| 0 <= b < out0.len() && (#[trigger] out0[b]).0 == fv[k].1;
                    assert(index_view(out@)[b] == out0[b]);
                }
            }
        }
        i += 1;
    }
    proof {
        let pv = index_view(out@);
        assert forall|s: Seq<char>| #[trigger] indexed(fv, s) is Some implies exists|b: int| 0 <= b < pv.len() && (#[trigger] pv[b]).0 == s by {
            let w = choose|w: int| 0 <= w < fv.len() && fv[w].1 == s;
            assert(indexed(fv, fv[w].1) is Some);
        }
    }
    out
}

/// The platform the index places `stem` on, when it places it.
pub fn indexed_platform(index: &Vec<(String, Platform)>, stem: &str) -> (r: Option<Platform>)
    ensures
        match r {
            Some(p) => exists|a: int|
                0 <= a < index@.len() && (#[trigger] index_view(index@)[a]).0 == stem@ && p == index_view(index@)[a].1,
            None => forall|a: int| 0 <= a < index@.len() ==> (#[trigger] index_view(index@)[a]).0 != stem@,
        },
{
    let mut a: usize = 0;
    while a < index.len()
        invariant
            a <= index.len(),
            forall|b: int| 0 <= b < a ==> (#[trigger] index_view(index@)[b]).0 != stem@,
        decreases index.len() - a,
    {
        if str_eq(index[a].0.as_str(), stem) {
            assert(index_view(index@)[a as int].0 == stem@);
            return Some(index[a].1);
        }
        a += 1;
    }
    None
}

/// Where something filed under `GBA/` by an earlier "everything is GBA" pass belongs: the
/// Game Boy platform its stem's ROM is on, or `None` when it stays.
pub fn misfiled_under_gba(index: &Vec<(String, Platform)>, stem: &str) -> (r: Option<Platform>)
    requires
        stems_distinct(index_view(index@)),
    ensures
        match r {
            Some(p) => p != Platform::Gba && exists|a: int|
                0 <= a < index@.len() && (#[trigger] index_view(index@)[a]).0 == stem@ && p == index_view(index@)[a].1,
            None => forall|a: int|
                0 <= a < index@.len() && (#[trigger] index_view(index@)[a]).0 == stem@ ==> index_view(index@)[a].1 == Platform::Gba,
        },
{
    match indexed_platform(index, stem) {
        Some(Platform::Gba) => {
            proof {
                assert forall|a: int| 0 <= a < index@.len() && (#[trigger] index_view(index@)[a]).0 == stem@
                    implies index_view(index@)[a].1 == Platform::Gba by {
                    let w = choose|w: int| 0 <= w < index@.len() && (#[trigger] index_view(index@)[w]).0 == stem@
                        && Platform::Gba == index_view(index@)[w].1;
                    if a != w {
                        if a < w {
                            assert(index_view(index@)[a].0 != index_view(index@)[w].0);
                        } else {
                            assert(index_view(index@)[w].0 != index_view(index@)[a].0);
                        }
                    }
                }
            }
            None
        },
        other => other,
    }
}

/// The platform a companion file — a save, a label, a cartridge picture — follows: its ROM's,
/// or GBA when the index does not place its stem, so a pre-Game-Boy card keeps working.
pub fn companion_platform(index: &Vec<(String, Platform)>, stem: &str) -> (r: Platform)
    ensures
        (exists|a: int| 0 <= a < index@.len() && (#[trigger] index_view(index@)[a]).0 == stem@ && r == index_view(index@)[a].1)
            || (r == Platform::Gba && forall|a: int| 0 <= a < index@.len() ==> (#[trigger] index_view(index@)[a]).0 != stem@),
{
    let mut a: usize = 0;
    while a < index.len()
        invariant
            a <= index.len(),
            forall|b: int| 0 <= b < a ==> (#[trigger] index_view(index@)[b]).0 != stem@,
        decreases index.len() - a,
    {
        if str_eq(index[a].0.as_str(), stem) {
            assert(index_view(index@)[a as int].0 == stem@);
            return index[a].1;
        }
        a += 1;
    }
    Platform::Gba
}

// ---------------------------------------------------------------------------------------------
// Duplicated Gambatte states
// ---------------------------------------------------------------------------------------------

/// What happens to one stem's Gambatte states found under `GB/` and `GBC/`.
#[derive(Copy, Clone, PartialEq, Eq, Debug, Structural)]
pub enum Dedupe {
    Nothing,
    /// Drop the copy under `GB/`.
    RemoveGb,
    /// Drop the copy under `GBC/`.
    RemoveGbc,
    /// Move the `GB/` copy to `GBC/`.
    MoveToGbc,
    /// Move the `GBC/` copy to `GB/`.
    MoveToGb,
}

/// Each stem lives only beside its ROM: a copy on the other platform moves there, or is
/// dropped when one is already there. With no ROM on the card, a duplicated stem keeps its
/// `GB/` copy.
pub fn dedupe_action(in_gb: bool, in_gbc: bool, rom: Option<Platform>) -> (r: Dedupe)
    ensures
        r == match rom {
            None => if in_gb && in_gbc {
                Dedupe::RemoveGbc
            } else {
                Dedupe::Nothing
            },
            Some(Platform::Gb) => if in_gbc {
                if in_gb {
                    Dedupe::RemoveGbc
                } else {
                    Dedupe::MoveToGb
                }
            } else {
                Dedupe::Nothing
            },
            Some(Platform::Gbc) => if in_gb {
                if in_gbc {
                    Dedupe::RemoveGb
                } else {
                    Dedupe::MoveToGbc
                }
            } else {
                Dedupe::Nothing
            },
            Some(Platform::Gba) => Dedupe::Nothing,
        },
{
    match rom {
        None => if in_gb && in_gbc {
            Dedupe::RemoveGbc
        } else {
            Dedupe::Nothing
        },
        Some(Platform::Gb) => if in_gbc {
            if in_gb {
                Dedupe::RemoveGbc
            } else {
                Dedupe::MoveToGb
            }
        } else {
            Dedupe::Nothing
        },
        Some(Platform::Gbc) => if in_gb {
            if in_gbc {
                Dedupe::RemoveGb
            } else {
                Dedupe::MoveToGbc
            }
        } else {
            Dedupe::Nothing
        },
        Some(Platform::Gba) => Dedupe::Nothing,
    }
}

/// After a stem's action is carried out, its states are in at most one of the two folders,
/// and that folder is its ROM's whenever it has a Game Boy ROM; nothing is lost that had no
/// copy elsewhere.
pub proof fn law_dedupe_leaves_one_copy(in_gb: bool, in_gbc: bool, rom: Option<Platform>, r: Dedupe)
    requires
        r == match rom {
            None => if in_gb && in_gbc {
                Dedupe::RemoveGbc
            } else {
                Dedupe::Nothing
            },
            Some(Platform::Gb) => if in_gbc {
                if in_gb {
                    Dedupe::RemoveGbc
                } else {
                    Dedupe::MoveToGb
                }
            } else {
                Dedupe::Nothing
            },
            Some(Platform::Gbc) => if in_gb {
                if in_gbc {
                    Dedupe::RemoveGb
                } else {
                    Dedupe::MoveToGbc
                }
            } else {
                Dedupe::Nothing
            },
            Some(Platform::Gba) => Dedupe::Nothing,
        },
        rom != Some(Platform::Gba),
    ensures
        ({
            let gb_after = match r {
                Dedupe::RemoveGb | Dedupe::MoveToGbc => false,
                Dedupe::MoveToGb => true,
                _ => in_gb,
            };
            let gbc_after = match r {
                Dedupe::RemoveGbc | Dedupe::MoveToGb => false,
                Dedupe::MoveToGbc => true,
                _ => in_gbc,
            };
            &&& !(gb_after && gbc_after)
            &&& (gb_after || gbc_after) == (in_gb || in_gbc)
            &&& rom == Some(Platform::Gb) ==> !gbc_after
            &&& rom == Some(Platform::Gbc) ==> !gb_after
        }),
{
}

} // verus!
