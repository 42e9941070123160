//! The command line, the app and the headless peer.

use liquid_metal::address::{Address, Ip};
use liquid_metal::blob::{Blob, Walls};
use liquid_metal::desk::{Placement, World};
use liquid_metal::echo::{Echo, EchoNews};
use liquid_metal::net::{Net, NetConfig, NetEvent};
use liquid_metal::options::{
    idle_wait, parse_args, Command, Mode, NetOpts, MAX_RESIDENT_BLOBS, NET_IDLE_WAIT_MS,
};
use liquid_metal::peers::Pin;
use liquid_metal::physics::{Bounds, Particle, Sample, Turn, Vec2};
use liquid_metal::selftest::{
    cue, is_bounce, phase_of, report_line, worst_of, Cue, Observed, GRAB_AT, RELEASE_AT,
};
use liquid_metal::shell::{
    App, Input, NetAction, Probe, Reaction, Relocation, FLIGHT_TIMEOUT,
};
use liquid_metal::single::Single;
use liquid_metal::wire::{decode, Edge, Message, NackReason, SatState, Throw};

fn single(x: f32) -> Single {
    Single { bits: x.to_bits() }
}

fn v2(x: f32, y: f32) -> Vec2 {
    Vec2 { x: single(x), y: single(y) }
}

fn at(port: u16) -> Address {
    Address::new(Ip { v6: false, bits: 0x7f00_0001, text: "127.0.0.1".into() }, port)
}

fn run(args: &[&str]) -> Command {
    parse_args(&args.iter().map(|a| a.to_string()).collect())
}

fn fail(args: &[&str]) -> (String, bool) {
    match run(args) {
        Command::Fail { message, usage } => (message, usage),
        other => panic!("{other:?}"),
    }
}

#[test]
fn the_command_line_is_read() {
    assert_eq!(run(&[]), Command::Run(Mode::Overlay, NetOpts::default()));
    assert_eq!(run(&["--windowed"]), Command::Run(Mode::Windowed, NetOpts::default()));
    assert_eq!(run(&["--selftest"]), Command::Run(Mode::SelfTest, NetOpts::default()));
    assert_eq!(
        run(&["--capture", "x.pam"]),
        Command::Run(Mode::Capture("x.pam".into()), NetOpts::default())
    );
    assert_eq!(run(&["--net", "--help", "--nonsense"]), Command::Help);
    assert_eq!(run(&["-h"]), Command::Help);
    assert_eq!(
        run(&[
            "--peer", "left=box:1", "--net-group", "g", "--net-name", "n", "--no-discovery",
            "--net-capacity", "1", "--net-hold", "250", "--net-serve", "--peer", "b"
        ]),
        Command::Run(
            Mode::NetEcho,
            NetOpts {
                enabled: true,
                discovery: false,
                group: "g".into(),
                name: Some("n".into()),
                capacity: 1,
                peers: vec!["left=box:1".into(), "b".into()],
                hold_ms: 250,
                serve: true,
            }
        )
    );
    let d = NetOpts::default();
    assert_eq!((d.enabled, d.discovery, d.group.as_str(), d.hold_ms), (false, true, "default", 800));
    assert_eq!((d.capacity, d.name, d.peers.len(), d.serve), (MAX_RESIDENT_BLOBS, None, 0, false));
}

#[test]
fn a_command_line_that_makes_no_sense_is_refused() {
    assert_eq!(fail(&["--capture"]), ("liquidMetal: --capture needs a file path".into(), false));
    for flag in ["--peer", "--net-group", "--net-name", "--net-capacity", "--net-hold"] {
        assert_eq!(fail(&[flag]), (format!("liquidMetal: {flag} needs a value"), false));
    }
    assert_eq!(
        fail(&["--net-capacity", "2"]).0,
        "liquidMetal: --net-capacity 2 is out of range; this build holds 1 to 1 blobs \
         (raise render::MAX_BLOBS for more)"
    );
    assert_eq!(
        fail(&["--net-capacity", "many"]).0,
        "liquidMetal: --net-capacity wants a number, got \"many\""
    );
    assert_eq!(
        fail(&["--net-hold", "-1"]).0,
        "liquidMetal: --net-hold wants milliseconds, got \"-1\""
    );
    assert_eq!(fail(&["--wat"]), ("liquidMetal: unknown argument \"--wat\"".into(), true));
}

#[test]
fn the_options_set_the_network_up() {
    let mut o = NetOpts::default();
    let c = o.config("host".into(), vec![Pin { edge: Some(Edge::Top), addr: at(9), bare: false }]);
    assert_eq!((c.group.as_str(), c.name.as_str()), ("default", "host"));
    assert_eq!((c.capacity as usize, c.discovery), (MAX_RESIDENT_BLOBS, true));
    assert_eq!(c.pinned, vec![Pin { edge: Some(Edge::Top), addr: at(9), bare: false }]);
    o.name = Some("mine".into());
    assert_eq!(o.config("host".into(), vec![]).name, "mine");
    assert!(!o.joins(&Mode::Overlay));
    o.enabled = true;
    assert!(o.joins(&Mode::Overlay) && !o.joins(&Mode::Capture("x".into())));
    assert_eq!((idle_wait(true, 66), idle_wait(false, 66)), (NET_IDLE_WAIT_MS, 66));
}

// ---------------------------------------------------------------------------

fn blob() -> Blob {
    let middle = v2(960.0, 540.0);
    Blob::new(Bounds::screen(single(1920.0), single(1080.0)), middle, &[middle; 8])
}

fn window() -> Placement {
    Placement { x: 0, y: 0, w: 1920, h: 1080 }
}

fn app() -> App {
    App::new(blob(), window(), (1920, 1080), true)
}

fn walls() -> Walls {
    Walls {
        lo_x: single(75.0),
        hi_x: single(1845.0),
        lo_y: single(75.0),
        hi_y: single(1005.0),
    }
}

fn probe(hit: bool, depth: f32) -> Probe {
    Probe { rects: if hit { vec![(0, 0, 100, 100)] } else { vec![] }, depth: single(depth) }
}

fn press(clicks: u8, t: u64) -> Input {
    Input::LeftDown { x: 50, y: 50, at: v2(50.0, 50.0), clicks, t }
}

#[test]
fn the_app_starts_with_one_blob_at_rest() {
    let a = app();
    assert_eq!(a.blobs.len(), 1);
    assert_eq!((a.resident(), a.grabbed(), a.running), (1, None, true));
    assert_eq!(a.cursor, v2(960.0, 540.0));
    assert!(!a.at_rest());
    assert_eq!(a.bounds(), World { x0: 0, y0: 0, x1: 1920, y1: 1080 });
}

#[test]
fn a_drag_begins_moves_and_ends() {
    let mut a = app();
    assert_eq!(a.handle(press(1, 1_000_000), &vec![probe(false, 9.0)]), Reaction::Nothing);
    assert!(!a.touched);
    assert_eq!(a.handle(press(1, 1_000_000), &vec![probe(true, 0.0)]), Reaction::Grab(0));
    assert!(a.touched);
    a.blobs[0].blob.grab(v2(50.0, 50.0), v2(0.0, 0.0));
    assert_eq!(a.grabbed(), Some(0));
    let to = v2(80.0, 50.0);
    assert_eq!(a.handle(Input::Motion { at: to, t: 11_000_000 }, &vec![]), Reaction::Nothing);
    assert_eq!(a.blobs[0].blob.grab_target, to);
    let up = Input::LeftUp { at: v2(90.0, 50.0), t: 21_000_000 };
    let span = (
        Sample { t: 1_000_000, p: v2(50.0, 50.0) },
        Sample { t: 21_000_000, p: v2(90.0, 50.0) },
    );
    assert_eq!(a.handle(up, &vec![]), Reaction::LetGo(Some((0, Some(span)))));
    a.blobs[0].blob.release(v2(2000.0, 0.0));
    assert_eq!(a.handle(up, &vec![]), Reaction::LetGo(None));
}

#[test]
fn holding_still_before_letting_go_drops_the_blob() {
    let mut a = app();
    a.handle(press(1, 0), &vec![probe(true, 0.0)]);
    a.blobs[0].blob.grab(v2(50.0, 50.0), v2(0.0, 0.0));
    a.handle(Input::Motion { at: v2(500.0, 50.0), t: 10_000_000 }, &vec![]);
    for i in 2..30 {
        a.feed_track(i * 10_000_000);
    }
    let up = Input::LeftUp { at: v2(500.0, 50.0), t: 300_000_000 };
    match a.handle(up, &vec![]) {
        Reaction::LetGo(Some((0, Some((from, to))))) => assert_eq!(from.p, to.p),
        other => panic!("{other:?}"),
    }
}

#[test]
fn clicks_do_what_they_should() {
    let mut a = app();
    assert_eq!(a.handle(press(2, 0), &vec![probe(true, 0.0)]), Reaction::Reset(0));
    let middle = Input::MiddleDown { x: 50, y: 50, at: v2(50.0, 50.0) };
    a.handle(middle, &vec![probe(false, 0.0)]);
    assert!(a.running);
    a.handle(middle, &vec![probe(true, 0.0)]);
    assert_eq!((a.running, a.quit_reason), (false, "middle-click on the blob"));
    let mut a = app();
    a.handle(Input::Escape, &vec![]);
    assert_eq!((a.running, a.quit_reason), (false, "Esc pressed"));
    let mut a = app();
    a.handle(Input::Quit, &vec![]);
    assert_eq!(a.quit_reason, "SDL_QUIT (SIGINT/SIGTERM or window closed)");
}

#[test]
fn a_click_goes_to_the_topmost_blob_or_the_deepest() {
    let mut a = app();
    a.spawn(blob());
    a.spawn(blob());
    let on = |h: [bool; 3], d: [f32; 3]| -> Vec<Probe> {
        (0..3).map(|i| probe(h[i], d[i])).collect()
    };
    assert_eq!(a.blob_at(&on([true, true, false], [9.0, 1.0, 5.0]), 50, 50), Some(1));
    assert_eq!(a.blob_at(&on([false; 3], [9.0, 1.0, 5.0]), 50, 50), None);
    assert_eq!(a.blob_at(&on([true; 3], [9.0, 1.0, 5.0]), 100, 50), None);
    a.check_hit = false;
    assert_eq!(a.blob_at(&on([false; 3], [9.0, 1.0, 5.0]), 50, 50), Some(0));
    assert_eq!(a.blob_at(&on([false; 3], [5.0, 1.0, 5.0]), 50, 50), Some(2));
}

#[test]
fn the_window_may_be_resized_and_moved() {
    let mut a = app();
    assert_eq!(a.handle(Input::Resized { w: 0, h: 9 }, &vec![]), Reaction::Nothing);
    assert_eq!(a.handle(Input::Resized { w: 640, h: 480 }, &vec![]), Reaction::Rebound);
    assert!(a.geometry_dirty);
    assert_eq!((a.logical_w, a.logical_h, a.screen), (640, 480, (640, 480)));
    let b = Bounds::screen(single(640.0), single(480.0));
    a.rebound(b);
    assert_eq!(a.blobs[0].blob.bounds, b);
    assert_eq!(a.relocate(Placement { x: 0, y: 0, w: 640, h: 480 }), Relocation::Nothing);
    assert!(!a.geometry_dirty);
    a.handle(Input::Moved, &vec![]);
    assert!(a.geometry_dirty);
    assert_eq!(a.relocate(Placement { x: 9, y: 0, w: 640, h: 480 }), Relocation::Recentre);
    assert_eq!(a.origin, (9, 0));
    a.touched = true;
    assert_eq!(a.relocate(Placement { x: 9, y: 1, w: 640, h: 480 }), Relocation::Rebound);
    assert_eq!(a.handle(Input::Other, &vec![]), Reaction::Nothing);
}

/// What can be made of a velocity at the right edge.
fn turn() -> Turn {
    Turn {
        hurried: v2(-150.0, 0.0),
        turned: v2(-600.0, 0.0),
        turned_hurried: v2(-151.0, 0.0),
    }
}

/// The app with its blob on its way out through the right edge as throw 7.
fn flying() -> App {
    let mut a = app();
    a.set_portals(Edge::Right.bit());
    a.blobs[0].blob.core = Particle { p: v2(1900.0, 540.0), v: v2(900.0, 0.0) };
    assert_eq!(a.departing(0, &walls()), Some(Edge::Right));
    a.depart(0, Edge::Right, Some((7, "bench".into())), &turn(), 5);
    assert_eq!(a.departing(0, &walls()), None);
    a
}

#[test]
fn a_blob_in_flight_is_still_ours_until_it_lands() {
    let mut a = flying();
    assert_eq!((a.blobs.len(), a.resident()), (1, 0));
    assert!(!a.at_rest());
    // Its door stays open even if the peer has just gone.
    a.set_portals(0);
    assert_eq!(a.blobs[0].blob.portals(), Edge::Right.bit());
    let foreign = NetEvent::Landed { throw_id: 8, peer: "bench".into() };
    assert!(matches!(a.on_net_event(foreign), NetAction::Nothing));
    let landed = NetEvent::Landed { throw_id: 7, peer: "bench".into() };
    match a.on_net_event(landed) {
        NetAction::Say(line) => assert_eq!(line, "[net] bench has it."),
        other => panic!("{other:?}"),
    }
    assert!(a.blobs.is_empty());
}

#[test]
fn a_throw_that_does_not_connect_bounces() {
    let mut a = flying();
    let no = NetEvent::Refused { throw_id: 7, peer: "bench".into(), why: NackReason::Full };
    let (id, why) = match a.on_net_event(no) {
        NetAction::Bounce { throw_id, why } => (throw_id, why),
        other => panic!("{other:?}"),
    };
    let i = a.find_flight(id).unwrap();
    let line = a.bounce_flight(i, &turn(), &why);
    assert_eq!(
        line,
        "[net] the throw to bench did not connect (the other screen is full); it bounced"
    );
    let b = &a.blobs[0].blob;
    assert_eq!((b.core.p, b.core.v), (v2(1900.0, 540.0), v2(-600.0, 0.0)));
    assert!(b.is_entering());
    assert_eq!((a.resident(), a.find_flight(7)), (1, None));
}

#[test]
fn a_throw_to_nobody_is_a_bounce_at_once() {
    let mut a = app();
    a.depart(0, Edge::Right, None, &turn(), 5);
    assert_eq!(a.blobs[0].blob.core.v, v2(-150.0, 0.0));
    assert!(a.blobs[0].flight.is_none() && a.blobs[0].blob.is_entering());
}

#[test]
fn an_unanswered_throw_is_noticed() {
    let a = flying();
    assert!(a.stalled(5 + FLIGHT_TIMEOUT).is_empty());
    assert_eq!(a.stalled(6 + FLIGHT_TIMEOUT), [7]);
    let gone = Bounds { x0: single(2000.0), y0: single(0.0), x1: single(2100.0), y1: single(9.0) };
    assert!(a.blobs[0].is_hidden(&gone));
    assert!(!app().blobs[0].is_hidden(&gone));
}

fn a_throw() -> Throw {
    Throw {
        throw_id: 3,
        from_node: 2,
        from_port: 6000,
        edge: Edge::Left,
        along: single(0.5),
        vel_x: single(-1.0),
        vel_y: single(0.25),
        sats: vec![SatState::default()],
    }
}

#[test]
fn an_arrival_comes_in_at_the_opposite_edge() {
    let mut a = app();
    a.set_portals(5);
    match a.on_net_event(NetEvent::Arrived { throw: a_throw(), from: at(6000) }) {
        NetAction::Spawn { entry, throw, .. } => {
            assert_eq!((entry, throw.throw_id), (Edge::Right, 3));
        }
        other => panic!("{other:?}"),
    }
    a.spawn(blob());
    assert_eq!((a.blobs.len(), a.blobs[1].blob.portals(), a.touched), (2, 5, true));
    // It has been acknowledged, so it is taken in however many there are.
    let again = a.on_net_event(NetEvent::Arrived { throw: a_throw(), from: at(6000) });
    assert!(matches!(again, NetAction::Spawn { entry: Edge::Right, .. }));
}

#[test]
fn a_blob_is_taken_in_while_others_are_in_flight() {
    let mut a = flying();
    a.spawn(blob());
    a.depart(1, Edge::Right, Some((8, "bench".into())), &turn(), 6);
    assert_eq!((a.blobs.len(), a.resident()), (2, 0));
    let ev = NetEvent::Arrived { throw: a_throw(), from: at(6000) };
    assert!(matches!(a.on_net_event(ev), NetAction::Spawn { .. }));
    a.spawn(blob());
    assert_eq!((a.blobs.len(), a.resident()), (3, 1));
}

#[test]
fn the_cursor_follows_the_first_blob() {
    let mut a = app();
    a.blobs[0].blob.core.p = v2(5.0, 6.0);
    a.follow_first();
    assert_eq!(a.cursor, v2(5.0, 6.0));
    a.blobs.clear();
    a.cursor = v2(1.0, 2.0);
    a.follow_first();
    assert_eq!(a.cursor, v2(1.0, 2.0));
}

#[test]
fn the_network_is_reported() {
    let mut a = app();
    let say = |r: NetAction| match r {
        NetAction::Say(line) | NetAction::Warn(line) => line,
        other => panic!("{other:?}"),
    };
    assert_eq!(
        say(a.on_net_event(NetEvent::PeerUp {
            name: "bench".into(),
            addr: at(6000),
            screen: (800, 600)
        })),
        "[net] bench is here at 127.0.0.1:6000 (800x600). The edges that lead to it are doors now."
    );
    assert_eq!(
        say(a.on_net_event(NetEvent::PeerDown { name: "bench".into() })),
        "[net] bench has gone."
    );
    assert_eq!(say(a.on_net_event(NetEvent::Note("hm".into()))), "[net] hm");
    match a.on_net_event(NetEvent::Lost { throw_id: 1, peer: "b".into(), why: "gone".into() }) {
        NetAction::Bounce { throw_id, why } => assert_eq!((throw_id, why.as_str()), (1, "gone")),
        other => panic!("{other:?}"),
    }
}

// ---------------------------------------------------------------------------

fn echo_node(peers: Vec<Address>) -> Net {
    Net::start(
        NetConfig {
            group: "test".into(),
            name: "echo".into(),
            capacity: 4,
            discovery: false,
            pinned: peers.into_iter().map(|addr| Pin { edge: None, addr, bare: false }).collect(),
        },
        1,
        5001,
    )
}

#[test]
fn the_echo_throws_back_what_it_caught() {
    let mut net = echo_node(vec![at(6000)]);
    let mut e = Echo::new(false, 800);
    match e.on_event(&mut net, NetEvent::Arrived { throw: a_throw(), from: at(6000) }, 100) {
        EchoNews::Caught { number, from } => assert_eq!((number, from), (1, at(6000))),
        other => panic!("{other:?}"),
    }
    e.announce(&mut net);
    assert!(e.return_due(&mut net, 100 + 799_999_999).0.is_empty());
    let (out, stuck) = e.return_due(&mut net, 100 + 800_000_000);
    assert_eq!((out.len(), stuck, e.held.len()), (1, 0, 0));
    match decode(&out[0].bytes).unwrap().0 {
        Message::Throw(t) => {
            assert_eq!((t.edge, t.along), (Edge::Right, single(0.5)));
            assert_eq!((t.vel_x, t.vel_y), (single(1.0), single(-0.25)));
            assert_eq!(t.sats, a_throw().sats);
        }
        other => panic!("{other:?}"),
    }
    // Until the peer says that it has the blob, it is still ours.
    assert_eq!((e.away.len(), e.away[0].throw_id), (1, out[0].throw_id));
    let id = out[0].throw_id;
    match e.on_event(&mut net, NetEvent::Landed { throw_id: id, peer: "b".into() }, 0) {
        EchoNews::Say(line) => assert_eq!(line, "[echo] thrown back; b has it (1 returned)"),
        other => panic!("{other:?}"),
    }
    assert_eq!((e.held.len(), e.away.len()), (0, 0));
}

#[test]
fn the_echo_keeps_what_it_could_not_throw_back() {
    let mut net = echo_node(vec![at(6000)]);
    let mut e = Echo::new(true, 1);
    let served = e.serve(&mut net, vec![SatState::default(); 8], 0).expect("a blob is served");
    assert_eq!((e.held.len(), e.away.len()), (0, 1));
    let lost = |id: u64| NetEvent::Lost { throw_id: id, peer: "b".into(), why: "gone".into() };
    e.on_event(&mut net, lost(served.throw_id + 1), 7);
    assert_eq!((e.held.len(), e.away.len()), (0, 1));
    e.on_event(&mut net, lost(served.throw_id), 7);
    assert_eq!((e.held.len(), e.away.len(), e.held[0].since), (1, 0, 7));
    // It goes out again just as it was served.
    let (out, _) = e.return_due(&mut net, 1_000_007);
    match (decode(&out[0].bytes).unwrap().0, decode(&served.bytes).unwrap().0) {
        (Message::Throw(again), Message::Throw(first)) => {
            assert_eq!((again.edge, again.along), (first.edge, first.along));
            assert_eq!((again.vel_x, again.vel_y), (first.vel_x, first.vel_y));
            assert_eq!(again.sats, first.sats);
        }
        other => panic!("{other:?}"),
    }
    let full = NackReason::Full;
    let id = out[0].throw_id;
    e.on_event(&mut net, NetEvent::Refused { throw_id: id, peer: "b".into(), why: full }, 9);
    assert_eq!((e.held.len(), e.away.len()), (1, 0));
}

#[test]
fn the_echo_holds_on_when_nobody_is_there() {
    let mut net = echo_node(vec![]);
    let mut e = Echo::new(true, 1);
    assert!(e.serve(&mut net, vec![], 0).is_none() && !e.served);
    e.on_event(&mut net, NetEvent::Arrived { throw: a_throw(), from: at(6000) }, 0);
    let (out, stuck) = e.return_due(&mut net, 5_000_000);
    assert_eq!((out.len(), stuck, e.held.len(), e.held[0].since), (0, 1, 1, 5_000_000));
}

#[test]
fn the_echo_serves_once() {
    let mut net = echo_node(vec![at(6000)]);
    let mut e = Echo::new(true, 1);
    let out = e.serve(&mut net, vec![SatState::default(); 8], 0).expect("a blob is served");
    match decode(&out.bytes).unwrap().0 {
        Message::Throw(t) => {
            assert_eq!((t.edge, t.along), (Edge::Right, single(0.5)));
            assert_eq!((t.vel_x, t.vel_y), (single(1.2), single(-0.15)));
        }
        other => panic!("{other:?}"),
    }
    assert!(e.serve(&mut net, vec![], 0).is_none());
}

#[test]
fn the_echo_reports_the_network() {
    let mut net = echo_node(vec![]);
    let mut e = Echo::new(false, 1);
    let mut say = |ev: NetEvent| match e.on_event(&mut net, ev, 0) {
        EchoNews::Say(line) | EchoNews::Warn(line) => line,
        other => panic!("{other:?}"),
    };
    assert_eq!(
        say(NetEvent::Refused { throw_id: 1, peer: "b".into(), why: NackReason::Malformed }),
        "[echo] b refused it: the other end could not read the throw"
    );
    assert_eq!(
        say(NetEvent::Lost { throw_id: 1, peer: "b".into(), why: "gone".into() }),
        "[echo] the throw back to b was lost: gone"
    );
    assert_eq!(
        say(NetEvent::PeerUp { name: "b".into(), addr: at(1), screen: (8, 6) }),
        "[echo] b is here (8x6)"
    );
    assert_eq!(say(NetEvent::PeerDown { name: "b".into() }), "[echo] b has gone");
    assert_eq!(say(NetEvent::Note("hm".into())), "[echo] hm");
}

// ---------------------------------------------------------------------------

#[test]
fn the_script_has_three_phases() {
    assert_eq!(phase_of(GRAB_AT - 1), "idle");
    assert_eq!(phase_of(GRAB_AT), "drag");
    assert_eq!(phase_of(RELEASE_AT - 1), "drag");
    assert_eq!(phase_of(RELEASE_AT), "free flight");
    assert_eq!(cue(0), Cue { grab: false, pull: false, release: false });
    assert_eq!(cue(GRAB_AT), Cue { grab: true, pull: true, release: false });
    assert_eq!(cue(RELEASE_AT), Cue { grab: false, pull: false, release: true });
}

#[test]
fn a_bounce_is_a_change_of_sign() {
    let (right, left, slow) = (v2(5.0, 0.0), v2(-5.0, 0.0), v2(-0.5, 0.0));
    assert!(is_bounce(RELEASE_AT + 1, right, left) && is_bounce(RELEASE_AT + 1, left, right));
    assert!(!is_bounce(RELEASE_AT, right, left) && !is_bounce(RELEASE_AT + 1, right, slow));
    assert!(is_bounce(RELEASE_AT + 1, v2(0.0, -3.0), v2(0.0, 3.0)));
    assert_eq!(worst_of(single(0.1), single(0.2)), single(0.2));
    assert_eq!(worst_of(single(0.1), single(f32::INFINITY)), single(0.1));
    assert_eq!(worst_of(single(0.1), single(f32::NAN)), single(0.1));
}

#[test]
fn a_run_is_judged() {
    let good = Observed {
        any_non_finite: false,
        finite_at_the_end: true,
        worst_out_of_bounds: single(0.0),
        max_sat_dist: single(49.0),
        drag_distance: single(700.0),
        release_speed: single(1200.0),
        bounces: 2,
        rest_after_release: Some(single(5.0)),
        at_rest: true,
    };
    assert!(good.judge().all_ok());
    assert!(!Observed { any_non_finite: true, ..good }.judge().finite);
    assert!(!Observed { worst_out_of_bounds: single(0.5), ..good }.judge().inside);
    assert!(!Observed { max_sat_dist: single(66.5), ..good }.judge().together);
    assert!(Observed { max_sat_dist: single(66.49), ..good }.judge().together);
    assert!(!Observed { drag_distance: single(200.0), ..good }.judge().dragged);
    assert!(!Observed { release_speed: single(500.0), ..good }.judge().thrown);
    assert!(!Observed { release_speed: single(6000.5), ..good }.judge().thrown);
    assert!(!Observed { bounces: 0, ..good }.judge().bounced);
    assert!(!Observed { rest_after_release: None, ..good }.judge().settled);
    assert!(!Observed { rest_after_release: Some(single(8.1)), ..good }.judge().settled);
    assert!(!Observed { at_rest: false, ..good }.judge().all_ok());
    assert_eq!(report_line(true, "x", "y"), format!("  [{}] {:<52} {}", "PASS", "x", "y"));
    assert_eq!(report_line(false, "x", "y"), format!("  [{}] {:<52} {}", "FAIL", "x", "y"));
}
