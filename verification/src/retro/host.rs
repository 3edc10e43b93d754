//! What a libretro frontend answers a core: the environment queries it takes, the options it
//! hands over, and the order of calls that begins, feeds and ends a link session. The
//! frontend reads the core's pointers and makes the calls; these functions decide.
use crate::retro::frame::{format_named, pixel_format, PixelFormat};
use crate::text::str_eq;
use vstd::prelude::*;

verus! {

pub const API_VERSION: u32 = 1;

/// Gambatte refuses `retro_load_game` unless the frontend answers this with true.
pub const GET_CAN_DUPE: u32 = 3;

pub const GET_SYSTEM_DIRECTORY: u32 = 9;

pub const SET_PIXEL_FORMAT: u32 = 10;

pub const GET_VARIABLE: u32 = 15;

pub const SET_VARIABLES: u32 = 16;

pub const GET_VARIABLE_UPDATE: u32 = 17;

pub const GET_RUMBLE_INTERFACE: u32 = 23;

pub const GET_LOG_INTERFACE: u32 = 27;

pub const GET_SAVE_DIRECTORY: u32 = 31;

pub const SET_NETPACKET_INTERFACE: u32 = 78;

pub const MEMORY_SAVE_RAM: u32 = 0;

/// Which of the netpacket interface's callbacks a core filled in. libretro guarantees only
/// `start` and `receive`; the rest may arrive empty.
#[derive(Copy, Clone, PartialEq, Eq, Debug, Structural)]
pub struct NetpacketOffer {
    pub start: bool,
    pub receive: bool,
    pub stop: bool,
    pub poll: bool,
    pub connected: bool,
    pub disconnected: bool,
}

/// What the core's callbacks decide on. `V` is however the frontend keeps an option's value
/// for the core to read after the callback returns.
pub struct HostModel<V> {
    pub format: PixelFormat,
    /// Core options by libretro's key.
    pub options: Vec<(String, V)>,
    /// Set when an option changed since the core last asked, cleared when it does.
    pub options_dirty: bool,
    /// Whether the core took the rumble interface, which it asks for once at init.
    pub asked_for_rumble: bool,
    pub netpacket: Option<NetpacketOffer>,
    /// The peer's own client id while a session is live.
    pub net_peer: Option<u16>,
}

pub open spec fn keys_of<V>(options: Seq<(String, V)>) -> Seq<Seq<char>> {
    Seq::new(options.len(), |i: int| options[i].0@)
}

/// The first place `key` sits among the keys.
pub open spec fn first_position(keys: Seq<Seq<char>>, key: Seq<char>) -> Option<int>
    decreases keys.len(),
{
    if keys.len() == 0 {
        None
    } else {
        match first_position(keys.drop_last(), key) {
            Some(i) => Some(i),
            None => if keys.last() == key {
                Some(keys.len() - 1)
            } else {
                None
            },
        }
    }
}

/// The value the options hold for `key`: the first one listed under it.
pub open spec fn option_value<V>(options: Seq<(String, V)>, key: Seq<char>) -> Option<V> {
    match first_position(keys_of(options), key) {
        Some(i) => Some(options[i].1),
        None => None,
    }
}

/// `first_position` is the first place the key is at, and `None` when it is nowhere.
pub proof fn lemma_first_position(keys: Seq<Seq<char>>, key: Seq<char>)
    ensures
        first_position(keys, key) matches Some(i) ==> 0 <= i < keys.len() && keys[i] == key && forall|j: int|
            0 <= j < i ==> keys[j] != key,
        first_position(keys, key) is None ==> forall|j: int| 0 <= j < keys.len() ==> keys[j] != key,
    decreases keys.len(),
{
    if keys.len() > 0 {
        let d = keys.drop_last();
        lemma_first_position(d, key);
        assert forall|j: int| 0 <= j < d.len() implies d[j] == keys[j] by {}
    }
}

proof fn lemma_first_position_at(keys: Seq<Seq<char>>, key: Seq<char>, i: int)
    requires
        0 <= i < keys.len(),
        keys[i] == key,
        forall|j: int| 0 <= j < i ==> keys[j] != key,
    ensures
        first_position(keys, key) == Some(i),
{
    lemma_first_position(keys, key);
}

impl<V> HostModel<V> {
    /// A host that has heard nothing from the core yet, holding `options`; of two values for
    /// one key the later stands.
    pub fn new(options: Vec<(String, V)>) -> (h: Self)
        ensures
            h.format == PixelFormat::Xrgb8888,
            !h.options_dirty,
            !h.asked_for_rumble,
            h.netpacket is None,
            h.net_peer is None,
            forall|i: int|
                0 <= i < options@.len() && (forall|j: int| i < j < options@.len() ==> options@[j].0@
                    != options@[i].0@) ==> #[trigger] option_value(h.options@, options@[i].0@) == Some(
                    options@[i].1,
                ),
            forall|k: Seq<char>| #[trigger] option_value(h.options@, k) is Some ==> keys_of(options@).contains(k),
    {
        let ghost all = options@;
        let ghost n = all.len();
        let mut h = HostModel {
            format: PixelFormat::Xrgb8888,
            options: Vec::new(),
            options_dirty: false,
            asked_for_rumble: false,
            netpacket: None,
            net_peer: None,
        };
        let mut rest = options;
        assert(keys_of(h.options@) =~= Seq::<Seq<char>>::empty());
        assert(rest@ == all.take(n as int));
        // From the last option back, so the later of two values for a key is the one kept.
        while rest.len() > 0
            invariant
                rest@ == all.take(rest@.len() as int),
                rest@.len() <= n,
                n == all.len(),
                h.format == PixelFormat::Xrgb8888,
                !h.options_dirty,
                !h.asked_for_rumble,
                h.netpacket is None,
                h.net_peer is None,
                forall|i: int|
                    rest@.len() <= i < n && (forall|j: int| i < j < n ==> all[j].0@ != all[i].0@)
                        ==> #[trigger] option_value(h.options@, all[i].0@) == Some(all[i].1),
                forall|k: Seq<char>| #[trigger] option_value(h.options@, k) is Some ==> exists|i: int|
                    rest@.len() <= i < n && #[trigger] all[i].0@ == k,
            decreases rest.len(),
        {
            let ghost r = rest@.len() as int;
            let ghost before = h.options@;
            let ghost hk = keys_of(h.options@);
            let (key, value) = rest.pop().unwrap();
            let ghost m = r - 1;
            assert(all[m] == (key, value));
            assert(rest@ == all.take(m));
            let placed = h.position(key.as_str());
            if placed.is_none() {
                h.options.push((key, value));
                proof {
                    assert(keys_of(h.options@) =~= hk.push(all[m].0@));
                    assert(keys_of(h.options@).drop_last() =~= hk);
                    assert forall|k: Seq<char>| #[trigger] option_value(h.options@, k) == (if k == all[m].0@ {
                        Some(all[m].1)
                    } else {
                        option_value(before, k)
                    }) by {
                        lemma_first_position(hk, k);
                        if first_position(hk, k) is Some {
                            let p = first_position(hk, k)->0;
                            assert(h.options@[p] == before[p]);
                        }
                    }
                }
            }
            proof {
                assert forall|i: int|
                    m <= i < n && (forall|j: int| i < j < n ==> all[j].0@ != all[i].0@) implies #[trigger] option_value(
                    h.options@,
                    all[i].0@,
                ) == Some(all[i].1) by {
                    if i == m && placed is Some {
                        // A later option with this key was already kept.
                        assert(option_value(before, all[m].0@) is Some);
                        let w = choose|w: int| r <= w < n && #[trigger] all[w].0@ == all[m].0@;
                        assert(all[w].0@ == all[i].0@);
                    }
                }
                assert forall|k: Seq<char>| #[trigger] option_value(h.options@, k) is Some implies exists|i: int|
                    m <= i < n && #[trigger] all[i].0@ == k by {
                    if k != all[m].0@ {
                        assert(option_value(before, k) is Some);
                        let w = choose|w: int| r <= w < n && #[trigger] all[w].0@ == k;
                        assert(all[w].0@ == k);
                    } else {
                        assert(all[m].0@ == k);
                    }
                }
            }
        }
        proof {
            assert forall|k: Seq<char>| #[trigger] option_value(h.options@, k) is Some implies keys_of(all).contains(k) by {
                let i = choose|i: int| 0 <= i < n && #[trigger] all[i].0@ == k;
                assert(keys_of(all)[i] == k);
            }
        }
        h
    }

    /// Sets a core option; the core sees it the next time it asks.
    pub fn set_option(&mut self, key: String, value: V)
        ensures
            final(self).options_dirty,
            final(self).format == old(self).format,
            final(self).asked_for_rumble == old(self).asked_for_rumble,
            final(self).netpacket == old(self).netpacket,
            final(self).net_peer == old(self).net_peer,
            forall|k: Seq<char>| #[trigger] option_value(final(self).options@, k) == (if k == key@ {
                Some(value)
            } else {
                option_value(old(self).options@, k)
            }),
    {
        let ghost ks = keys_of(self.options@);
        let ghost before = self.options@;
        let ghost kv = key@;
        let ghost vv = value;
        let found = self.position(key.as_str());
        match found {
            Some(i) => {
                proof {
                    lemma_first_position(ks, kv);
                }
                self.options.set(i, (key, value));
                proof {
                    lemma_first_position(ks, kv);
                    assert(keys_of(self.options@) =~= ks);
                    assert forall|k: Seq<char>| #[trigger] option_value(self.options@, k) == (if k == kv {
                        Some(vv)
                    } else {
                        option_value(before, k)
                    }) by {
                        lemma_first_position(ks, k);
                        if first_position(ks, k) is Some {
                            let p = first_position(ks, k)->0;
                            if p != i {
                                assert(self.options@[p] == before[p]);
                            }
                        }
                    }
                }
            },
            None => {
                self.options.push((key, value));
                proof {
                    assert(keys_of(self.options@) =~= ks.push(kv));
                    assert(keys_of(self.options@).drop_last() =~= ks);
                    assert forall|k: Seq<char>| #[trigger] option_value(self.options@, k) == (if k == kv {
                        Some(vv)
                    } else {
                        option_value(before, k)
                    }) by {
                        lemma_first_position(ks, k);
                        if first_position(ks, k) is Some {
                            let p = first_position(ks, k)->0;
                            assert(self.options@[p] == before[p]);
                        }
                    }
                }
            },
        }
        self.options_dirty = true;
    }

    /// Where `key` first sits among the options, when it is there.
    pub fn position(&self, key: &str) -> (r: Option<usize>)
        ensures
            r matches Some(i) ==> first_position(keys_of(self.options@), key@) == Some(i as int),
            r is None ==> first_position(keys_of(self.options@), key@) is None,
    {
        let ghost ks = keys_of(self.options@);
        let mut i: usize = 0;
        while i < self.options.len()
            invariant
                i <= self.options.len(),
                ks == keys_of(self.options@),
                forall|j: int| 0 <= j < i ==> ks[j] != key@,
            decreases self.options.len() - i,
        {
            if str_eq(self.options[i].0.as_str(), key) {
                proof {
                    lemma_first_position_at(ks, key@, i as int);
                }
                return Some(i);
            }
            i += 1;
        }
        proof {
            lemma_first_position(ks, key@);
        }
        None
    }
}

/// What a frontend read behind an environment call's data pointer: a pixel format's number,
/// an option's key (`None` for a key that is null or not UTF-8), or the netpacket callbacks
/// a core filled in.
#[derive(Clone, PartialEq, Eq, Debug)]
pub enum EnvArg {
    Nothing,
    Format(u32),
    Key(Option<String>),
    Offer(NetpacketOffer),
}

/// What a frontend reads behind an environment command's data pointer.
#[derive(Copy, Clone, PartialEq, Eq, Debug, Structural)]
pub enum ArgKind {
    Nothing,
    Format,
    Key,
    Offer,
}

pub open spec fn arg_kind_of(cmd: u32) -> ArgKind {
    if cmd == SET_PIXEL_FORMAT {
        ArgKind::Format
    } else if cmd == GET_VARIABLE {
        ArgKind::Key
    } else if cmd == SET_NETPACKET_INTERFACE {
        ArgKind::Offer
    } else {
        ArgKind::Nothing
    }
}

pub fn arg_kind(cmd: u32) -> (r: ArgKind)
    ensures
        r == arg_kind_of(cmd),
{
    if cmd == SET_PIXEL_FORMAT {
        ArgKind::Format
    } else if cmd == GET_VARIABLE {
        ArgKind::Key
    } else if cmd == SET_NETPACKET_INTERFACE {
        ArgKind::Offer
    } else {
        ArgKind::Nothing
    }
}

/// What the frontend does with an environment call: the answer it writes behind the data
/// pointer, and the `bool` it returns.
#[derive(Copy, Clone, PartialEq, Eq, Debug, Structural)]
pub enum EnvReply {
    /// Writes nothing, returns false.
    Refuse,
    /// Writes nothing, returns true.
    Accept,
    /// Writes the flag, returns true.
    WriteBool(bool),
    /// Writes the system directory's address, returns true.
    SystemDirectory,
    /// Writes the save directory's address, returns true.
    SaveDirectory,
    /// Writes the address of the option at this place, returns true.
    WriteOption(usize),
    /// Writes a null value, returns false.
    NoOption,
    /// Hands over the rumble callback, returns true.
    RumbleInterface,
    /// Hands over a logger that drops every line, returns true.
    LogInterface,
    /// Keeps the core's netpacket callbacks, returns true.
    StoreNetpacket,
    /// Forgets the core's netpacket callbacks, returns true.
    WithdrawNetpacket,
}

/// How the host answers environment command `cmd`, with `has_data` whether the core passed a
/// data pointer and `arg` what was read behind it.
pub open spec fn env_reply_of<V>(h: HostModel<V>, cmd: u32, has_data: bool, arg: EnvArg) -> EnvReply {
    if cmd == SET_VARIABLES {
        EnvReply::Accept
    } else if cmd == SET_NETPACKET_INTERFACE {
        if !has_data {
            EnvReply::WithdrawNetpacket
        } else {
            match arg {
                EnvArg::Offer(_) => EnvReply::StoreNetpacket,
                _ => EnvReply::Refuse,
            }
        }
    } else if !has_data {
        EnvReply::Refuse
    } else if cmd == GET_CAN_DUPE {
        EnvReply::WriteBool(true)
    } else if cmd == SET_PIXEL_FORMAT {
        match arg {
            EnvArg::Format(code) => if format_named(code) is Some {
                EnvReply::Accept
            } else {
                EnvReply::Refuse
            },
            _ => EnvReply::Refuse,
        }
    } else if cmd == GET_SYSTEM_DIRECTORY {
        EnvReply::SystemDirectory
    } else if cmd == GET_SAVE_DIRECTORY {
        EnvReply::SaveDirectory
    } else if cmd == GET_VARIABLE {
        match arg {
            EnvArg::Key(Some(k)) => match first_position(keys_of(h.options@), k@) {
                Some(i) => EnvReply::WriteOption(i as usize),
                None => EnvReply::NoOption,
            },
            _ => EnvReply::Refuse,
        }
    } else if cmd == GET_VARIABLE_UPDATE {
        EnvReply::WriteBool(h.options_dirty)
    } else if cmd == GET_RUMBLE_INTERFACE {
        EnvReply::RumbleInterface
    } else if cmd == GET_LOG_INTERFACE {
        EnvReply::LogInterface
    } else {
        EnvReply::Refuse
    }
}

/// What each query a core makes of its environment is answered. With a data pointer, the
/// system-directory query (9) gets the system directory, where a core looks for its BIOS,
/// and the save-directory query (31) gets the save directory; no other call gets either.
/// Duplicate frames are allowed (3), the rumble (23) and log (27) interfaces are handed
/// over, the changed-options query (17) reports whether options changed, and of the pixel
/// formats only XRGB8888 (1) and RGB565 (2) are taken. Option definitions (16) are always
/// accepted; without a data pointer a netpacket call (78) withdraws the callbacks and every
/// other call is refused.
pub proof fn law_environment_answers<V>(h: HostModel<V>, a: EnvArg, cmd: u32, has_data: bool, code: u32)
    ensures
        env_reply_of(h, 9, true, a) == EnvReply::SystemDirectory,
        env_reply_of(h, 31, true, a) == EnvReply::SaveDirectory,
        env_reply_of(h, cmd, has_data, a) == EnvReply::SystemDirectory ==> cmd == 9 && has_data,
        env_reply_of(h, cmd, has_data, a) == EnvReply::SaveDirectory ==> cmd == 31 && has_data,
        env_reply_of(h, 3, true, a) == EnvReply::WriteBool(true),
        env_reply_of(h, 23, true, a) == EnvReply::RumbleInterface,
        env_reply_of(h, 27, true, a) == EnvReply::LogInterface,
        env_reply_of(h, 17, true, a) == EnvReply::WriteBool(h.options_dirty),
        env_reply_of(h, 10, true, EnvArg::Format(code)) == (if code == 1 || code == 2 {
            EnvReply::Accept
        } else {
            EnvReply::Refuse
        }),
        env_reply_of(h, 16, has_data, a) == EnvReply::Accept,
        env_reply_of(h, 78, false, a) == EnvReply::WithdrawNetpacket,
        !has_data && cmd != 16 && cmd != 78 ==> env_reply_of(h, cmd, has_data, a) == EnvReply::Refuse,
{
}

/// A core asking for an option reads the value the host holds for it, and a key the host
/// holds nothing for is answered with nothing; so after `set_option` the core reads what
/// was set.
pub proof fn law_variable_reads_the_option<V>(h: HostModel<V>, key: String)
    ensures
        match env_reply_of(h, GET_VARIABLE, true, EnvArg::Key(Some(key))) {
            EnvReply::WriteOption(i) => option_value(h.options@, key@) == Some(h.options@[i as int].1),
            EnvReply::NoOption => option_value(h.options@, key@) is None,
            _ => false,
        },
{
    lemma_first_position(keys_of(h.options@), key@);
    assert(h.options@.len() <= usize::MAX) by {
        assert(h.options.len() == h.options@.len());
    }
}

/// Answers an environment call: the reply says what to write and return; the host takes
/// the pixel format, the cleared change flag, the rumble request and the netpacket
/// callbacks the call carries.
pub fn environment<V>(h: &mut HostModel<V>, cmd: u32, has_data: bool, arg: EnvArg) -> (r: EnvReply)
    ensures
        r == env_reply_of(*old(h), cmd, has_data, arg),
        final(h).options@ == old(h).options@,
        final(h).net_peer == old(h).net_peer,
        final(h).format == (match (r, arg) {
            (EnvReply::Accept, EnvArg::Format(code)) if cmd == SET_PIXEL_FORMAT => format_named(code)->0,
            _ => old(h).format,
        }),
        final(h).options_dirty == (old(h).options_dirty && !(cmd == GET_VARIABLE_UPDATE && has_data)),
        final(h).asked_for_rumble == (old(h).asked_for_rumble || r is RumbleInterface),
        final(h).netpacket == (match (r, arg) {
            (EnvReply::StoreNetpacket, EnvArg::Offer(o)) => Some(o),
            (EnvReply::WithdrawNetpacket, _) => None,
            _ => old(h).netpacket,
        }),
{
    if cmd == SET_VARIABLES {
        return EnvReply::Accept;
    }
    if cmd == SET_NETPACKET_INTERFACE {
        if !has_data {
            h.netpacket = None;
            return EnvReply::WithdrawNetpacket;
        }
        return match arg {
            EnvArg::Offer(o) => {
                h.netpacket = Some(o);
                EnvReply::StoreNetpacket
            },
            _ => EnvReply::Refuse,
        };
    }
    if !has_data {
        return EnvReply::Refuse;
    }
    if cmd == GET_CAN_DUPE {
        EnvReply::WriteBool(true)
    } else if cmd == SET_PIXEL_FORMAT {
        match arg {
            EnvArg::Format(code) => match pixel_format(code) {
                Some(f) => {
                    h.format = f;
                    EnvReply::Accept
                },
                None => EnvReply::Refuse,
            },
            _ => EnvReply::Refuse,
        }
    } else if cmd == GET_SYSTEM_DIRECTORY {
        EnvReply::SystemDirectory
    } else if cmd == GET_SAVE_DIRECTORY {
        EnvReply::SaveDirectory
    } else if cmd == GET_VARIABLE {
        match arg {
            EnvArg::Key(Some(k)) => match h.position(k.as_str()) {
                Some(i) => EnvReply::WriteOption(i),
                None => EnvReply::NoOption,
            },
            _ => EnvReply::Refuse,
        }
    } else if cmd == GET_VARIABLE_UPDATE {
        let dirty = h.options_dirty;
        h.options_dirty = false;
        EnvReply::WriteBool(dirty)
    } else if cmd == GET_RUMBLE_INTERFACE {
        h.asked_for_rumble = true;
        EnvReply::RumbleInterface
    } else if cmd == GET_LOG_INTERFACE {
        EnvReply::LogInterface
    } else {
        EnvReply::Refuse
    }
}

/// How an environment call is answered when no host is bound, outside any call into the
/// core: only what needs no host state goes through.
pub open spec fn detached_reply_of(cmd: u32, has_data: bool) -> EnvReply {
    if cmd == SET_VARIABLES {
        EnvReply::Accept
    } else if has_data && cmd == GET_CAN_DUPE {
        EnvReply::WriteBool(true)
    } else if has_data && cmd == GET_LOG_INTERFACE {
        EnvReply::LogInterface
    } else {
        EnvReply::Refuse
    }
}

pub fn environment_detached(cmd: u32, has_data: bool) -> (r: EnvReply)
    ensures
        r == detached_reply_of(cmd, has_data),
{
    if cmd == SET_VARIABLES {
        EnvReply::Accept
    } else if has_data && cmd == GET_CAN_DUPE {
        EnvReply::WriteBool(true)
    } else if has_data && cmd == GET_LOG_INTERFACE {
        EnvReply::LogInterface
    } else {
        EnvReply::Refuse
    }
}

// ---------------------------------------------------------------------------------------------
// Link sessions
// ---------------------------------------------------------------------------------------------

/// The other party's client id: 0 is the host, 1 the joiner, the only two there are.
pub open spec fn peer_of(client_id: u16) -> u16 {
    (1 - client_id as int) as u16
}

/// Whether beginning a session calls the core's `start`: only a core that registered
/// netpacket with a `start` has a session to begin.
pub fn link_can_start<V>(h: &HostModel<V>) -> (r: bool)
    ensures
        r == (h.netpacket matches Some(o) && o.start),
{
    match h.netpacket {
        Some(o) => o.start,
        None => false,
    }
}

/// After the core's `start(client_id)` has returned: records the peer, whose id the core
/// is to be told through `connected` when it offered one. The frontend marks the link
/// active beside this.
pub fn link_started<V>(h: &mut HostModel<V>, client_id: u16) -> (r: Option<u16>)
    ensures
        final(h).net_peer == Some(peer_of(client_id)),
        r == (if old(h).netpacket matches Some(o) && o.connected {
            Some(peer_of(client_id))
        } else {
            None
        }),
        final(h).options == old(h).options,
        final(h).options_dirty == old(h).options_dirty,
        final(h).format == old(h).format,
        final(h).asked_for_rumble == old(h).asked_for_rumble,
        final(h).netpacket == old(h).netpacket,
{
    let peer = 1u16.wrapping_sub(client_id);
    assert(peer == peer_of(client_id)) by (bit_vector)
        requires
            peer == (1u16 as int - client_id as int) % 0x10000;
    h.net_peer = Some(peer);
    match h.netpacket {
        Some(o) => if o.connected {
            Some(peer)
        } else {
            None
        },
        None => None,
    }
}

/// A session's peer is never the host itself, so no packet is tagged with the host's own
/// id; and each party's peer has the other as its peer.
pub proof fn law_peer_is_never_self(client_id: u16)
    ensures
        peer_of(client_id) != client_id,
        client_id <= 1 ==> peer_of(peer_of(client_id)) == client_id,
{
    let p = peer_of(client_id);
    assert(p == (1 - client_id as int) as u16);
    assert(((1 - client_id as int) as u16) != client_id) by (bit_vector);
    if client_id <= 1 {
        assert(client_id <= 1 ==> ((1 - ((1 - client_id as int) as u16) as int) as u16) == client_id) by (bit_vector);
    }
}

/// What ending a session calls on the core: `disconnected` with the peer that was
/// recorded, when there was one and the core offered it, then `stop` when it offered one.
#[derive(Copy, Clone, PartialEq, Eq, Debug, Structural)]
pub struct Halt {
    pub disconnected: Option<u16>,
    pub stop: bool,
}

/// Ends a session: the peer is forgotten whether or not a session ever began.
pub fn link_halt<V>(h: &mut HostModel<V>) -> (r: Halt)
    ensures
        final(h).net_peer is None,
        r.stop == (old(h).netpacket matches Some(o) && o.stop),
        r.disconnected == (if old(h).netpacket matches Some(o) && o.disconnected {
            old(h).net_peer
        } else {
            None
        }),
        final(h).options == old(h).options,
        final(h).options_dirty == old(h).options_dirty,
        final(h).format == old(h).format,
        final(h).asked_for_rumble == old(h).asked_for_rumble,
        final(h).netpacket == old(h).netpacket,
{
    let peer = h.net_peer;
    h.net_peer = None;
    match h.netpacket {
        Some(o) => Halt { disconnected: if o.disconnected { peer } else { None }, stop: o.stop },
        None => Halt { disconnected: None, stop: false },
    }
}

/// What a frame's pump hands the core: everything inbound, tagged with the peer's client
/// id, when it offered `receive`; then its own `poll`, when it offered one.
#[derive(Copy, Clone, PartialEq, Eq, Debug, Structural)]
pub struct Drain {
    pub deliver_to: Option<u16>,
    pub poll: bool,
}

/// Once a frame: nothing for a core that never registered netpacket, for a session with no
/// recorded peer (a packet is never tagged with the host's own id) or one that is over.
pub fn drain_plan<V>(h: &HostModel<V>, active: bool) -> (r: Drain)
    ensures
        r == (match (h.netpacket, h.net_peer) {
            (Some(o), Some(peer)) if active => Drain {
                deliver_to: if o.receive {
                    Some(peer)
                } else {
                    None
                },
                poll: o.poll,
            },
            _ => Drain { deliver_to: None, poll: false },
        }),
{
    match (h.netpacket, h.net_peer) {
        (Some(o), Some(peer)) => if active {
            Drain { deliver_to: if o.receive { Some(peer) } else { None }, poll: o.poll }
        } else {
            Drain { deliver_to: None, poll: false }
        },
        _ => Drain { deliver_to: None, poll: false },
    }
}

/// The core asking, mid frame, for anything that has arrived: the peer every waiting packet
/// is tagged with, or `None` when nothing is handed over.
pub fn poll_receive_plan<V>(h: &HostModel<V>, active: bool) -> (r: Option<u16>)
    ensures
        r == (match (h.netpacket, h.net_peer) {
            (Some(o), Some(peer)) if o.receive && active => Some(peer),
            _ => None,
        }),
{
    match (h.netpacket, h.net_peer) {
        (Some(o), Some(peer)) => if o.receive && active {
            Some(peer)
        } else {
            None
        },
        _ => None,
    }
}

} // verus!
