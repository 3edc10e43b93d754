//! What the frontend answers a libretro core, and how it drives a link session.

use slot::retro::host::{
    drain_plan, environment, environment_detached, link_can_start, link_halt, link_started,
    poll_receive_plan, Drain, EnvArg, EnvReply, Halt, HostModel, NetpacketOffer, GET_CAN_DUPE,
    GET_LOG_INTERFACE, GET_RUMBLE_INTERFACE, GET_SAVE_DIRECTORY, GET_SYSTEM_DIRECTORY,
    GET_VARIABLE, GET_VARIABLE_UPDATE, SET_NETPACKET_INTERFACE, SET_PIXEL_FORMAT, SET_VARIABLES,
};
use slot::retro::frame::PixelFormat;
use slot::retro::link::Link;

fn host_with(options: Vec<(&str, &str)>, options_dirty: bool) -> HostModel<String> {
    let mut h = HostModel::new(
        options.into_iter().map(|(k, v)| (k.to_string(), v.to_string())).collect(),
    );
    h.options_dirty = options_dirty;
    h
}

/// `start` and `receive` are the two a core must fill in; a minimal core leaves the rest.
fn minimal_offer() -> NetpacketOffer {
    NetpacketOffer {
        start: true,
        receive: true,
        stop: false,
        poll: true,
        connected: false,
        disconnected: false,
    }
}

/// Everything the frontend hands the core in one pump: the packets, tagged, and whether it
/// polled.
fn pump(host: &HostModel<String>, link: &mut Link) -> (Vec<(Vec<u8>, u16)>, bool) {
    let plan = drain_plan(host, link.is_active());
    let mut delivered = Vec::new();
    if let Some(peer) = plan.deliver_to {
        while let Some(packet) = link.take_inbound() {
            delivered.push((packet, peer));
        }
    }
    (delivered, plan.poll)
}

/// What the core's own mid-frame poll receives.
fn poll_receive(host: &HostModel<String>, link: &mut Link) -> Vec<(Vec<u8>, u16)> {
    let mut delivered = Vec::new();
    if let Some(peer) = poll_receive_plan(host, link.is_active()) {
        while let Some(packet) = link.take_inbound() {
            delivered.push((packet, peer));
        }
    }
    delivered
}

/// The frontend's half of starting a session: the client id `start` was called with, and
/// who `connected` was told about.
fn begin(host: &mut HostModel<String>, link: &mut Link, client_id: u16) -> (Option<u16>, Option<u16>) {
    if !link_can_start(host) {
        return (None, None);
    }
    let connected = link_started(host, client_id);
    link.set_active(true);
    (Some(client_id), connected)
}

#[test]
fn get_variable_writes_the_options_pointer_for_the_core_to_read() {
    let mut host = host_with(vec![("gpsp_serial", "rfu")], false);
    let reply = environment(
        &mut host,
        GET_VARIABLE,
        true,
        EnvArg::Key(Some("gpsp_serial".to_string())),
    );
    match reply {
        EnvReply::WriteOption(i) => assert_eq!(host.options[i].1, "rfu"),
        other => panic!("expected the option, got {other:?}"),
    }
}

#[test]
fn get_variable_reports_false_for_an_unknown_key() {
    let mut host = host_with(vec![], false);
    let reply = environment(&mut host, GET_VARIABLE, true, EnvArg::Key(Some("nope".to_string())));
    assert_eq!(reply, EnvReply::NoOption);
}

#[test]
fn get_can_dupe_tells_the_core_the_frontend_can_repeat_frames() {
    let mut host = host_with(vec![], false);
    assert_eq!(
        environment(&mut host, GET_CAN_DUPE, true, EnvArg::Nothing),
        EnvReply::WriteBool(true)
    );
}

#[test]
fn get_variable_update_reports_and_clears_the_dirty_flag() {
    let mut host = host_with(vec![], true);
    assert_eq!(
        environment(&mut host, GET_VARIABLE_UPDATE, true, EnvArg::Nothing),
        EnvReply::WriteBool(true),
        "first call must report the pending change"
    );
    assert_eq!(
        environment(&mut host, GET_VARIABLE_UPDATE, true, EnvArg::Nothing),
        EnvReply::WriteBool(false),
        "flag must be cleared after being read once"
    );
}

#[test]
fn get_variable_refuses_a_null_key() {
    let mut host = host_with(vec![], false);
    assert_eq!(
        environment(&mut host, GET_VARIABLE, true, EnvArg::Key(None)),
        EnvReply::Refuse
    );
}

#[test]
fn set_netpacket_interface_stores_the_callback_the_core_hands_over() {
    let mut host = host_with(vec![], false);
    let reply = environment(&mut host, SET_NETPACKET_INTERFACE, true, EnvArg::Offer(minimal_offer()));
    assert_eq!(reply, EnvReply::StoreNetpacket);
    assert_eq!(host.netpacket, Some(minimal_offer()), "the callback was never stored");
}

#[test]
fn set_netpacket_interface_null_data_withdraws_the_interface() {
    let mut host = host_with(vec![], false);
    host.netpacket = Some(minimal_offer());
    let reply = environment(&mut host, SET_NETPACKET_INTERFACE, false, EnvArg::Nothing);
    assert_eq!(reply, EnvReply::WithdrawNetpacket, "withdrawing is answered true");
    assert!(host.netpacket.is_none());
}

#[test]
fn every_other_query_needs_a_data_pointer() {
    let mut host = host_with(vec![], true);
    for cmd in [GET_CAN_DUPE, SET_PIXEL_FORMAT, GET_SYSTEM_DIRECTORY, GET_SAVE_DIRECTORY, GET_VARIABLE, GET_VARIABLE_UPDATE, GET_RUMBLE_INTERFACE, GET_LOG_INTERFACE] {
        assert_eq!(environment(&mut host, cmd, false, EnvArg::Nothing), EnvReply::Refuse);
    }
    assert!(host.options_dirty, "a refused update query clears nothing");
    assert_eq!(environment(&mut host, SET_VARIABLES, false, EnvArg::Nothing), EnvReply::Accept);
    assert_eq!(environment(&mut host, 12345, true, EnvArg::Nothing), EnvReply::Refuse);
}

#[test]
fn the_pixel_format_is_taken_only_when_known() {
    let mut host = host_with(vec![], false);
    assert_eq!(environment(&mut host, SET_PIXEL_FORMAT, true, EnvArg::Format(2)), EnvReply::Accept);
    assert_eq!(host.format, PixelFormat::Rgb565);
    assert_eq!(environment(&mut host, SET_PIXEL_FORMAT, true, EnvArg::Format(0)), EnvReply::Refuse);
    assert_eq!(host.format, PixelFormat::Rgb565);
    assert_eq!(environment(&mut host, SET_PIXEL_FORMAT, true, EnvArg::Format(1)), EnvReply::Accept);
    assert_eq!(host.format, PixelFormat::Xrgb8888);
}

#[test]
fn the_rumble_offer_is_remembered() {
    let mut host = host_with(vec![], false);
    assert!(!host.asked_for_rumble);
    assert_eq!(
        environment(&mut host, GET_RUMBLE_INTERFACE, true, EnvArg::Nothing),
        EnvReply::RumbleInterface
    );
    assert!(host.asked_for_rumble);
}

#[test]
fn with_no_host_bound_only_stateless_queries_go_through() {
    assert_eq!(environment_detached(GET_CAN_DUPE, true), EnvReply::WriteBool(true));
    assert_eq!(environment_detached(SET_VARIABLES, false), EnvReply::Accept);
    assert_eq!(environment_detached(GET_LOG_INTERFACE, true), EnvReply::LogInterface);
    assert_eq!(environment_detached(GET_VARIABLE_UPDATE, true), EnvReply::Refuse);
    assert_eq!(environment_detached(GET_SYSTEM_DIRECTORY, true), EnvReply::Refuse);
}

#[test]
fn a_later_seeded_option_stands_and_setting_one_marks_it_changed() {
    let mut host = host_with(vec![("a", "1"), ("b", "2"), ("a", "3")], false);
    assert_eq!(host.options.len(), 2);
    assert!(!host.options_dirty);
    let i = host.position("a").expect("seeded");
    assert_eq!(host.options[i].1, "3");
    host.set_option("b".to_string(), "4".to_string());
    assert!(host.options_dirty);
    let j = host.position("b").expect("set");
    assert_eq!(host.options[j].1, "4");
    assert_eq!(host.options.len(), 2);
}

#[test]
fn netpacket_poll_receive_drains_inbound_into_the_cores_receive_in_order() {
    let mut host = host_with(vec![], false);
    host.netpacket = Some(minimal_offer());
    host.net_peer = Some(1);
    let mut link = Link::new();
    link.set_active(true);
    link.push_inbound(b"first".to_vec());
    link.push_inbound(b"second".to_vec());
    assert_eq!(
        poll_receive(&host, &mut link),
        vec![(b"first".to_vec(), 1), (b"second".to_vec(), 1)]
    );
    assert_eq!(link.take_inbound(), None);
}

#[test]
fn netpacket_poll_receive_does_nothing_without_a_receive_callback() {
    let mut host = host_with(vec![], false);
    host.netpacket = Some(NetpacketOffer { receive: false, ..minimal_offer() });
    host.net_peer = Some(1);
    let mut link = Link::new();
    link.set_active(true);
    link.push_inbound(b"unread".to_vec());
    assert!(poll_receive(&host, &mut link).is_empty());
    assert_eq!(link.take_inbound().as_deref(), Some(&b"unread"[..]));
}

#[test]
fn netpacket_poll_receive_does_nothing_once_the_session_is_no_longer_active() {
    let mut host = host_with(vec![], false);
    host.netpacket = Some(minimal_offer());
    host.net_peer = Some(1);
    let mut link = Link::new();
    link.push_inbound(b"stale".to_vec());
    assert!(poll_receive(&host, &mut link).is_empty());
    assert_eq!(link.take_inbound().as_deref(), Some(&b"stale"[..]));
}

#[test]
fn netpacket_poll_receive_does_nothing_without_a_recorded_peer() {
    let mut host = host_with(vec![], false);
    host.netpacket = Some(minimal_offer());
    let mut link = Link::new();
    link.set_active(true);
    link.push_inbound(b"orphaned".to_vec());
    assert!(poll_receive(&host, &mut link).is_empty());
    assert_eq!(link.take_inbound().as_deref(), Some(&b"orphaned"[..]));
}

#[test]
fn netpacket_poll_receive_tags_packets_with_the_peers_client_id() {
    let mut host = host_with(vec![], false);
    host.netpacket = Some(minimal_offer());
    let mut link = Link::new();
    begin(&mut host, &mut link, 0);
    link.push_inbound(b"from the peer".to_vec());
    assert_eq!(poll_receive(&host, &mut link), vec![(b"from the peer".to_vec(), 1)]);
}

#[test]
fn drain_link_hands_the_core_everything_waiting_then_polls() {
    let mut host = host_with(vec![], false);
    host.netpacket = Some(minimal_offer());
    host.net_peer = Some(1);
    let mut link = Link::new();
    link.set_active(true);
    link.push_inbound(b"queued".to_vec());
    assert_eq!(pump(&host, &mut link), (vec![(b"queued".to_vec(), 1)], true));
}

#[test]
fn drain_link_polls_even_with_nothing_inbound() {
    let mut host = host_with(vec![], false);
    host.netpacket = Some(minimal_offer());
    host.net_peer = Some(1);
    let mut link = Link::new();
    link.set_active(true);
    assert_eq!(pump(&host, &mut link), (vec![], true));
}

#[test]
fn drain_link_skips_poll_when_the_core_offered_none() {
    let mut host = host_with(vec![], false);
    host.netpacket = Some(NetpacketOffer { poll: false, ..minimal_offer() });
    host.net_peer = Some(1);
    let mut link = Link::new();
    link.set_active(true);
    link.push_inbound(b"still delivered".to_vec());
    assert_eq!(pump(&host, &mut link), (vec![(b"still delivered".to_vec(), 1)], false));
}

#[test]
fn drain_link_is_a_noop_when_the_core_never_registered_netpacket() {
    let host = host_with(vec![], false);
    let mut link = Link::new();
    link.set_active(true);
    link.push_inbound(b"nobody asked".to_vec());
    assert_eq!(pump(&host, &mut link), (vec![], false));
    assert_eq!(link.take_inbound().as_deref(), Some(&b"nobody asked"[..]));
}

#[test]
fn drain_link_does_nothing_once_the_session_is_no_longer_active() {
    let mut host = host_with(vec![], false);
    host.netpacket = Some(minimal_offer());
    let mut link = Link::new();
    link.push_inbound(b"stale".to_vec());
    assert_eq!(pump(&host, &mut link), (vec![], false));
    assert_eq!(link.take_inbound().as_deref(), Some(&b"stale"[..]));
}

#[test]
fn drain_link_does_nothing_without_a_recorded_peer() {
    let mut host = host_with(vec![], false);
    host.netpacket = Some(minimal_offer());
    let mut link = Link::new();
    link.set_active(true);
    link.push_inbound(b"orphaned".to_vec());
    assert_eq!(drain_plan(&host, link.is_active()), Drain { deliver_to: None, poll: false });
    assert_eq!(pump(&host, &mut link), (vec![], false));
    assert_eq!(link.take_inbound().as_deref(), Some(&b"orphaned"[..]));
}

#[test]
fn drain_link_tags_packets_with_the_peers_client_id() {
    let mut host = host_with(vec![], false);
    host.netpacket = Some(minimal_offer());
    let mut link = Link::new();
    begin(&mut host, &mut link, 0);
    link.push_inbound(b"from the peer".to_vec());
    let (delivered, _) = pump(&host, &mut link);
    let ids: Vec<u16> = delivered.iter().map(|(_, id)| *id).collect();
    assert_eq!(ids, vec![1], "packets must be tagged with the peer's id, not our own");
}

#[test]
fn begin_link_hands_the_core_its_client_id_and_marks_the_session_active() {
    let mut host = host_with(vec![], false);
    host.netpacket = Some(minimal_offer());
    let mut link = Link::new();
    assert!(!link.is_active(), "a fresh link is not backing a session");
    let (started, _) = begin(&mut host, &mut link, 1);
    assert_eq!(started, Some(1), "client id was not forwarded");
    assert!(link.is_active(), "starting a session must mark the link active");
    assert_eq!(host.net_peer, Some(0));
}

#[test]
fn begin_link_is_a_noop_when_the_core_never_registered_netpacket() {
    let mut host = host_with(vec![], false);
    let mut link = Link::new();
    let (started, _) = begin(&mut host, &mut link, 0);
    assert_eq!(started, None, "nothing to start, nothing called");
    assert!(!link.is_active());
    assert_eq!(host.net_peer, None);
}

#[test]
fn begin_link_calls_connected_with_the_peers_client_id() {
    let mut host = host_with(vec![], false);
    host.netpacket = Some(NetpacketOffer { connected: true, ..minimal_offer() });
    let mut link = Link::new();
    let (_, connected) = begin(&mut host, &mut link, 0);
    assert_eq!(connected, Some(1), "connected was not called with the peer's id");
}

#[test]
fn begin_link_is_fine_with_no_connected_callback() {
    let mut host = host_with(vec![], false);
    host.netpacket = Some(minimal_offer());
    let mut link = Link::new();
    let (_, connected) = begin(&mut host, &mut link, 0);
    assert_eq!(connected, None);
    assert!(link.is_active(), "a missing connected callback must not stop the session");
}

#[test]
fn halt_link_calls_the_cores_stop_when_it_registered_one() {
    let mut host = host_with(vec![], false);
    host.netpacket = Some(NetpacketOffer { stop: true, ..minimal_offer() });
    assert!(link_halt(&mut host).stop, "stop was never called");
}

#[test]
fn halt_link_is_a_noop_when_the_core_never_offered_a_stop() {
    let mut host = host_with(vec![], false);
    host.netpacket = Some(minimal_offer());
    assert_eq!(link_halt(&mut host), Halt { disconnected: None, stop: false });
}

#[test]
fn halt_link_calls_disconnected_with_the_peers_client_id() {
    let mut host = host_with(vec![], false);
    host.netpacket = Some(NetpacketOffer { disconnected: true, ..minimal_offer() });
    let mut link = Link::new();
    begin(&mut host, &mut link, 1);
    assert_eq!(link_halt(&mut host).disconnected, Some(0), "disconnected with the peer's id");
    assert_eq!(host.net_peer, None);
}

#[test]
fn halt_link_does_not_call_disconnected_when_no_session_ever_started() {
    let mut host = host_with(vec![], false);
    host.netpacket = Some(NetpacketOffer { disconnected: true, ..minimal_offer() });
    assert_eq!(link_halt(&mut host).disconnected, None, "nothing was ever connected");
}

#[test]
fn an_option_set_is_what_the_core_reads_next() {
    let mut host = host_with(vec![("gambatte_gb_bootloader", "enabled")], false);
    host.set_option("gambatte_gb_bootloader".to_string(), "disabled".to_string());
    assert_eq!(
        environment(&mut host, GET_VARIABLE_UPDATE, true, EnvArg::Nothing),
        EnvReply::WriteBool(true)
    );
    match environment(
        &mut host,
        GET_VARIABLE,
        true,
        EnvArg::Key(Some("gambatte_gb_bootloader".to_string())),
    ) {
        EnvReply::WriteOption(i) => assert_eq!(host.options[i].1, "disabled"),
        other => panic!("expected the option, got {other:?}"),
    }
}
