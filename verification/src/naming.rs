//! What a node calls itself, and how a peer is named on the command line.

use crate::address::{Address, AddressView};
use crate::peers::{Pin, PinView};
use crate::text::{
    decimal, find, first, lemma_first, lemma_trimmed, lowered, push_decimal, quote, quoted, same_text, to_lower,
    trim, trimmed, white_space,
};
use crate::wire::{Edge, DISCOVERY_PORT};
use vstd::arithmetic::div_mod::{lemma_mul_mod_noop_left, lemma_small_mod};
use vstd::prelude::*;

verus! {

/// `x` with its bits moved up by `k` places, those that fall off coming in at the bottom.
pub open spec fn rotated(x: u64, k: u64) -> u64 {
    (x << k) | (x >> ((64 - k) as u64))
}

/// The odd number that spreads the clock over all bits of a node id.
pub const CLOCK_SPREAD: u64 = 0x9e37_79b9_7f4a_7c15;

/// The number that undoes a multiplication by [`CLOCK_SPREAD`].
pub const CLOCK_GATHER: u64 = 0xf1de_83e1_9937_733d;

/// The node id that a process id, a clock reading and an address of its memory make.
pub open spec fn mixed(pid: u64, clock: u64, place: u64) -> u64 {
    rotated(pid, 32) ^ vstd::wrapping::u64_specs::wrapping_mul(clock, CLOCK_SPREAD) ^ rotated(
        place,
        17,
    )
}

/// A per-process identifier that does not need a UUID crate to be unique enough: process
/// id, plus the wall clock, plus the address of a heap allocation.
pub fn mix_node_id(pid: u64, clock: u64, place: u64) -> (id: u64)
    ensures
        id == mixed(pid, clock, place),
{
    ((pid << 32) | (pid >> 32)) ^ clock.wrapping_mul(CLOCK_SPREAD) ^ ((place << 17) | (place >> 47))
}

proof fn lemma_spread_is_undone(x: u64)
    ensures
        (vstd::wrapping::u64_specs::wrapping_mul(x, CLOCK_SPREAD) * CLOCK_GATHER)
            % 0x1_0000_0000_0000_0000 == x,
{
    let m = 0x1_0000_0000_0000_0000int;
    let s = CLOCK_SPREAD as int;
    let g = CLOCK_GATHER as int;
    let n = x as int;
    lemma_mul_mod_noop_left(n * s, g, m);
    assert(s * g == 1 + m * 10771413168148108919) by (nonlinear_arith)
        requires
            s == 0x9e37_79b9_7f4a_7c15,
            g == 0xf1de_83e1_9937_733d,
            m == 0x1_0000_0000_0000_0000,
    ;
    assert(n * s * g == n + m * (n * 10771413168148108919)) by (nonlinear_arith)
        requires
            s * g == 1 + m * 10771413168148108919,
    ;
    vstd::arithmetic::div_mod::lemma_mod_multiples_vanish(n * 10771413168148108919, n, m);
    lemma_small_mod(x as nat, m as nat);
}

/// Two ids made by one process at different times differ, and so do two made at one time
/// by different processes or with different memory.
pub proof fn law_node_ids_do_not_collide(
    pid: u64,
    clock: u64,
    place: u64,
    pid2: u64,
    clock2: u64,
    place2: u64,
)
    requires
        ({
            ||| pid != pid2 && clock == clock2 && place == place2
            ||| pid == pid2 && clock != clock2 && place == place2
            ||| pid == pid2 && clock == clock2 && place != place2
        }),
    ensures
        mixed(pid, clock, place) != mixed(pid2, clock2, place2),
{
    lemma_spread_is_undone(clock);
    lemma_spread_is_undone(clock2);
    let a = vstd::wrapping::u64_specs::wrapping_mul(clock, CLOCK_SPREAD);
    let b = vstd::wrapping::u64_specs::wrapping_mul(clock2, CLOCK_SPREAD);
    assert(rotated(pid, 32) ^ a ^ rotated(place, 17) != rotated(pid2, 32) ^ b ^ rotated(place2, 17))
        by (bit_vector)
        requires
            (pid != pid2 && a == b && place == place2) || (pid == pid2 && a != b && place
                == place2) || (pid == pid2 && a == b && place != place2),
    ;
}

/// The name that a node shows for a machine that calls itself `raw`.
pub open spec fn shown_name(raw: Seq<char>) -> Seq<char> {
    if trimmed(raw).len() == 0 {
        "liquidmetal"@
    } else {
        trimmed(raw)
    }
}

/// The name that a node shows for a machine that calls itself `raw`: the same without
/// white space around it, or a stock name if nothing is left.
pub fn host_label(raw: &str) -> (out: String)
    ensures
        out@ == shown_name(raw@),
{
    let name = trim(raw);
    if name.is_empty() {
        String::from_str("liquidmetal")
    } else {
        String::from_str(name)
    }
}

/// `gethostname::gethostname`, with what is not Unicode replaced: the machine's name as
/// the operating system has it. Nothing is said of the result, which is up to the machine.
#[verifier::external_body]
fn machine_name() -> (out: String) {
    gethostname::gethostname().to_string_lossy().into_owned()
}

/// This machine's name, for the peer list. Best-effort: a missing hostname is not worth
/// failing to start over.
pub fn hostname() -> (out: String)
    ensures
        exists|raw: Seq<char>| out@ == #[trigger] shown_name(raw),
        out@.len() > 0,
        !white_space(out@[0]) && !white_space(out@.last()),
{
    let raw = machine_name();
    let out = host_label(raw.as_str());
    proof {
        lemma_trimmed(raw@);
        reveal_strlit("liquidmetal");
    }
    out
}

/// A `--peer` value: the edge it is pinned to, the host as it was given, what to look up to
/// reach it, and whether that was given without a port.
#[derive(Debug, PartialEq, Eq)]
pub struct PeerSpec {
    pub edge: Option<Edge>,
    pub host: String,
    pub dial: String,
    pub bare: bool,
}

/// What a [`PeerSpec`] says.
pub struct PeerSpecView {
    pub edge: Option<Edge>,
    pub host: Seq<char>,
    pub dial: Seq<char>,
    pub bare: bool,
}

impl View for PeerSpec {
    type V = PeerSpecView;

    open spec fn view(&self) -> PeerSpecView {
        PeerSpecView { edge: self.edge, host: self.host@, dial: self.dial@, bare: self.bare }
    }
}

/// The edge of a name, in small letters.
pub open spec fn edge_named(s: Seq<char>) -> Option<Edge> {
    if s == "left"@ {
        Some(Edge::Left)
    } else if s == "right"@ {
        Some(Edge::Right)
    } else if s == "top"@ || s == "up"@ {
        Some(Edge::Top)
    } else if s == "bottom"@ || s == "down"@ {
        Some(Edge::Bottom)
    } else {
        None
    }
}

/// The host part of a `--peer` value with the given edge.
pub open spec fn host_part(edge: Option<Edge>, rest: Seq<char>) -> Result<
    PeerSpecView,
    Seq<char>,
> {
    let host = trimmed(rest);
    if host.len() == 0 {
        Err("no host given"@)
    } else {
        Ok(
            PeerSpecView {
                edge,
                host,
                dial: if host.contains(':') {
                    host
                } else {
                    host + ":"@ + decimal(DISCOVERY_PORT as nat)
                },
                bare: !host.contains(':'),
            },
        )
    }
}

/// What a `--peer` value means, or what is wrong with it.
pub open spec fn peer_spec(spec: Seq<char>) -> Result<PeerSpecView, Seq<char>> {
    let i = first(spec, '=');
    if i == spec.len() {
        host_part(None, spec)
    } else {
        let name = lowered(trimmed(spec.take(i)));
        match edge_named(name) {
            None => Err(quoted(name) + " is not an edge; use left, right, top or bottom"@),
            Some(edge) => host_part(Some(edge), spec.skip(i + 1)),
        }
    }
}

fn find_edge(s: &str) -> (r: Option<Edge>)
    ensures
        r == edge_named(s@),
{
    if same_text(s, "left") {
        Some(Edge::Left)
    } else if same_text(s, "right") {
        Some(Edge::Right)
    } else if same_text(s, "top") || same_text(s, "up") {
        Some(Edge::Top)
    } else if same_text(s, "bottom") || same_text(s, "down") {
        Some(Edge::Bottom)
    } else {
        None
    }
}

fn parse_host(edge: Option<Edge>, rest: &str) -> (r: Result<PeerSpec, String>)
    ensures
        match r {
            Ok(p) => host_part(edge, rest@) == Ok::<PeerSpecView, Seq<char>>(p@),
            Err(why) => host_part(edge, rest@) == Err::<PeerSpecView, Seq<char>>(why@),
        },
{
    let host = trim(rest);
    if host.is_empty() {
        return Err(String::from_str("no host given"));
    }
    let mut dial = String::from_str(host);
    let bare = find(host, ':').is_none();
    if bare {
        dial.append(":");
        push_decimal(&mut dial, DISCOVERY_PORT as u64);
    }
    Ok(PeerSpec { edge, host: String::from_str(host), dial, bare })
}

/// Parse a `--peer` value: `host`, `host:port`, or `<edge>=host[:port]`.
///
/// A bare host gets the discovery port, which is wrong on purpose: there is no fixed TCP
/// port to guess, so a peer named without one is only usable once its beacon has been
/// heard. Naming the port explicitly is what makes `--peer` work with discovery switched
/// off entirely.
pub fn parse_peer(spec: &str) -> (r: Result<PeerSpec, String>)
    ensures
        match r {
            Ok(p) => peer_spec(spec@) == Ok::<PeerSpecView, Seq<char>>(p@),
            Err(why) => peer_spec(spec@) == Err::<PeerSpecView, Seq<char>>(why@),
        },
{
    match find(spec, '=') {
        None => parse_host(None, spec),
        Some(i) => {
            let n: usize = spec.unicode_len();
            let e = spec.substring_char(0, i);
            let rest = spec.substring_char(i + 1, n);
            assert(e@ =~= spec@.take(i as int));
            assert(rest@ =~= spec@.skip(i + 1));
            let name = to_lower(trim(e));
            match find_edge(name.as_str()) {
                Some(edge) => parse_host(Some(edge), rest),
                None => {
                    let mut why = quote(name.as_str());
                    why.append(" is not an edge; use left, right, top or bottom");
                    Err(why)
                },
            }
        },
    }
}

/// The first of the addresses that is a version 4 one, or else the first.
pub open spec fn preferred(list: Seq<AddressView>) -> Option<AddressView> {
    let old_style = list.filter(|a: AddressView| !a.ip.v6);
    if old_style.len() > 0 {
        Some(old_style[0])
    } else if list.len() > 0 {
        Some(list[0])
    } else {
        None
    }
}

/// What each address of a list says.
pub open spec fn address_views(list: Seq<Address>) -> Seq<AddressView> {
    list.map_values(|a: Address| a@)
}

/// The peer that a `--peer` value comes to, once the name has been looked up.
pub open spec fn resolved(spec: PeerSpecView, found: Result<Seq<AddressView>, Seq<char>>) -> Result<
    PinView,
    Seq<char>,
> {
    match found {
        Err(e) => Err("could not resolve "@ + quoted(spec.host) + ": "@ + e),
        Ok(list) => match preferred(list) {
            Some(addr) => Ok(PinView { edge: spec.edge, addr, bare: spec.bare }),
            None => Err(quoted(spec.host) + " resolved to no addresses"@),
        },
    }
}

impl PeerSpec {
    /// The peer, given what looking its name up found. Version 4 first: the discovery half
    /// is v4-only, so preferring v4 keeps a dual-stack host's two halves talking about the
    /// same address.
    pub fn resolve(&self, found: Result<Vec<Address>, String>) -> (r: Result<Pin, String>)
        ensures
            (match r {
                Ok(pin) => Ok::<PinView, Seq<char>>(pin@),
                Err(why) => Err(why@),
            }) == resolved(
                self@,
                match found {
                    Ok(list) => Ok(address_views(list@)),
                    Err(e) => Err(e@),
                },
            ),
    {
        let list = match found {
            Ok(list) => list,
            Err(e) => {
                let mut why = String::from_str("could not resolve ");
                why.append(quote(self.host.as_str()).as_str());
                why.append(": ");
                why.append(e.as_str());
                return Err(why);
            },
        };
        let ghost all = address_views(list@);
        let ghost pred = |a: AddressView| !a.ip.v6;
        let mut i: usize = 0;
        proof {
            reveal(Seq::filter);
            assert(all.take(0).filter(pred) =~= Seq::empty());
        }
        while i < list.len()
            invariant
                i <= list@.len(),
                all == address_views(list@),
                pred == (|a: AddressView| !a.ip.v6),
                all.take(i as int).filter(pred).len() == 0,
                found matches Ok(l) && l == list,
            decreases list@.len() - i,
        {
            proof {
                reveal(Seq::filter);
                assert(all.take(i + 1).drop_last() =~= all.take(i as int));
                assert(all.take(i + 1).last() == list@[i as int]@);
            }
            if !list[i].ip.v6 {
                proof {
                    let head = all.take(i + 1);
                    let tail = all.skip(i + 1);
                    assert(head.filter(pred).len() == 1);
                    assert(head.filter(pred)[0] == list@[i as int]@);
                    Seq::filter_distributes_over_add(head, tail, pred);
                    assert(head + tail =~= all);
                    assert(all.filter(pred)[0] == list@[i as int]@);
                }
                return Ok(Pin { edge: self.edge, addr: list[i].clone(), bare: self.bare });
            }
            i = i + 1;
        }
        assert(all.take(i as int) =~= all);
        if list.len() > 0 {
            Ok(Pin { edge: self.edge, addr: list[0].clone(), bare: self.bare })
        } else {
            let mut why = quote(self.host.as_str());
            why.append(" resolved to no addresses");
            Err(why)
        }
    }
}

/// A node id is made of three parts that do not depend on one another: the process id in its
/// upper half, the clock spread over all of it by an odd factor, and the place seventeen bits
/// up.
pub proof fn law_what_a_node_id_is_made_of(pid: u64, clock: u64, place: u64)
    ensures
        mixed(pid, clock, place) == mixed(pid, 0, 0) ^ mixed(0, clock, 0) ^ mixed(0, 0, place),
        pid < 0x1_0000_0000 ==> mixed(pid, 0, 0) == pid * 0x1_0000_0000,
        mixed(0, clock, 0) == (clock * 0x9e37_79b9_7f4a_7c15) % 0x1_0000_0000_0000_0000,
        place < 0x8000_0000_0000 ==> mixed(0, 0, place) == place * 0x2_0000,
{
    let a = vstd::wrapping::u64_specs::wrapping_mul(clock, CLOCK_SPREAD);
    let z = vstd::wrapping::u64_specs::wrapping_mul(0u64, CLOCK_SPREAD);
    assert(0 * (CLOCK_SPREAD as int) == 0);
    assert(z == 0);
    assert(rotated(pid, 32) ^ a ^ rotated(place, 17) == (rotated(pid, 32) ^ 0 ^ rotated(0, 17)) ^ (
    rotated(0, 32) ^ a ^ rotated(0, 17)) ^ (rotated(0, 32) ^ 0 ^ rotated(place, 17)))
        by (bit_vector);
    assert(rotated(0, 32) ^ a ^ rotated(0, 17) == a) by (bit_vector);
    assert(pid < 0x1_0000_0000 ==> (rotated(pid, 32) ^ 0 ^ rotated(0, 17)) == pid * 0x1_0000_0000)
        by (bit_vector);
    assert(place < 0x8000_0000_0000 ==> (rotated(0, 32) ^ 0 ^ rotated(place, 17)) == place
        * 0x2_0000) by (bit_vector);
}

/// Each edge answers to its name, the top to `up` as well and the bottom to `down`, and no
/// edge to anything else.
pub proof fn law_edges_answer_to_their_names(s: Seq<char>)
    ensures
        edge_named(s) == Some(Edge::Left) <==> s == "left"@,
        edge_named(s) == Some(Edge::Right) <==> s == "right"@,
        edge_named(s) == Some(Edge::Top) <==> s == "top"@ || s == "up"@,
        edge_named(s) == Some(Edge::Bottom) <==> s == "bottom"@ || s == "down"@,
{
    lemma_edge_names_differ();
}

proof fn lemma_edge_names_differ()
    ensures
        "left"@[0] == 'l' && "right"@[0] == 'r' && "top"@[0] == 't' && "up"@[0] == 'u' && "bottom"@[0]
            == 'b' && "down"@[0] == 'd',
        "left"@.len() == 4 && "right"@.len() == 5 && "top"@.len() == 3 && "up"@.len() == 2
            && "bottom"@.len() == 6 && "down"@.len() == 4,
{
    reveal_strlit("left");
    reveal_strlit("right");
    reveal_strlit("top");
    reveal_strlit("up");
    reveal_strlit("bottom");
    reveal_strlit("down");
}

/// A `--peer` value without an equals sign is a host behind no edge in particular. Looked up
/// is the host as it was given, or with the port 47811 if it was given without one.
pub proof fn law_a_plain_peer_has_no_edge(spec: Seq<char>)
    requires
        !spec.contains('='),
    ensures
        trimmed(spec).len() == 0 ==> peer_spec(spec) == Err::<PeerSpecView, Seq<char>>(
            "no host given"@,
        ),
        trimmed(spec).len() > 0 ==> (peer_spec(spec) matches Ok(p) && {
            &&& p.edge is None
            &&& p.host == trimmed(spec)
            &&& p.bare <==> !p.host.contains(':')
            &&& !p.bare ==> p.dial == p.host
            &&& p.bare ==> p.dial == p.host + ":47811"@
        }),
{
    lemma_first(spec, '=', spec.len() as int);
    lemma_discovery_port();
    let host = trimmed(spec);
    assert(host + ":"@ + decimal(DISCOVERY_PORT as nat) =~= host + (":"@ + decimal(
        DISCOVERY_PORT as nat,
    )));
}

proof fn lemma_discovery_port()
    ensures
        ":"@ + decimal(DISCOVERY_PORT as nat) == ":47811"@,
{
    reveal_strlit(":");
    reveal_strlit(":47811");
    reveal_with_fuel(decimal, 6);
    assert(":"@ + decimal(47811) =~= ":47811"@);
}

/// What stands before the first equals sign of a `--peer` value names the edge, in capitals
/// or small letters and with blanks around it or none, and what stands behind it is read as a
/// host is; if it names no edge that is what is wrong with it.
pub proof fn law_a_pinned_peer_has_its_edge(name: Seq<char>, host: Seq<char>)
    requires
        !name.contains('='),
    ensures
        ({
            let said = lowered(trimmed(name));
            let edge = if said == "left"@ {
                Some(Edge::Left)
            } else if said == "right"@ {
                Some(Edge::Right)
            } else if said == "top"@ || said == "up"@ {
                Some(Edge::Top)
            } else if said == "bottom"@ || said == "down"@ {
                Some(Edge::Bottom)
            } else {
                None
            };
            let got = peer_spec(name + seq!['='] + host);
            &&& edge is None ==> got == Err::<PeerSpecView, Seq<char>>(
                quoted(said) + " is not an edge; use left, right, top or bottom"@,
            )
            &&& edge is Some && trimmed(host).len() == 0 ==> got == Err::<PeerSpecView, Seq<char>>(
                "no host given"@,
            )
            &&& edge is Some && trimmed(host).len() > 0 ==> (got matches Ok(p) && {
                &&& p.edge == edge
                &&& p.host == trimmed(host)
                &&& p.bare <==> !p.host.contains(':')
                &&& !p.bare ==> p.dial == p.host
                &&& p.bare ==> p.dial == p.host + ":47811"@
            })
        }),
{
    let spec = name + seq!['='] + host;
    let n = name.len() as int;
    assert(spec[n] == '=');
    assert forall|k: int| 0 <= k < n implies spec[k] != '=' by {
        assert(spec[k] == name[k]);
        assert(name.contains(name[k]));
    }
    lemma_first(spec, '=', n);
    assert(spec.take(n) =~= name);
    assert(spec.skip(n + 1) =~= host);
    lemma_discovery_port();
    lemma_edge_names_differ();
    let h = trimmed(host);
    assert(h + ":"@ + decimal(DISCOVERY_PORT as nat) =~= h + (":"@ + decimal(
        DISCOVERY_PORT as nat,
    )));
}

/// Of the addresses that a name leads to, the first of version 4 is taken, the first of all
/// if there is none, and nothing if there are none at all.
pub proof fn law_version_four_is_preferred(list: Seq<AddressView>, k: int)
    ensures
        list.len() == 0 ==> preferred(list) is None,
        list.len() > 0 && (forall|i: int| 0 <= i < list.len() ==> (#[trigger] list[i]).ip.v6)
            ==> preferred(list) == Some(list[0]),
        0 <= k < list.len() && !list[k].ip.v6 && (forall|i: int|
            0 <= i < k ==> (#[trigger] list[i]).ip.v6) ==> preferred(list) == Some(list[k]),
{
    lemma_preferred(list, k);
}

proof fn lemma_preferred(list: Seq<AddressView>, k: int)
    ensures
        ({
            let four = list.filter(|a: AddressView| !a.ip.v6);
            &&& (forall|i: int| 0 <= i < list.len() ==> (#[trigger] list[i]).ip.v6) ==> four.len()
                == 0
            &&& 0 <= k < list.len() && !list[k].ip.v6 && (forall|i: int|
                0 <= i < k ==> (#[trigger] list[i]).ip.v6) ==> four.len() > 0 && four[0] == list[k]
        }),
    decreases list.len(),
{
    reveal(Seq::filter);
    if list.len() > 0 {
        let head = list.drop_last();
        let last = list[list.len() - 1];
        assert forall|i: int| 0 <= i < head.len() implies head[i] == #[trigger] list[i] by {}
        lemma_preferred(head, k);
        if forall|i: int| 0 <= i < head.len() ==> (#[trigger] list[i]).ip.v6 {
            assert forall|i: int| 0 <= i < head.len() implies (#[trigger] head[i]).ip.v6 by {
                assert(list[i].ip.v6);
            }
        }
        if 0 <= k < list.len() && !list[k].ip.v6 && (forall|i: int|
            0 <= i < k ==> (#[trigger] list[i]).ip.v6) {
            if k < head.len() {
                assert forall|i: int| 0 <= i < k implies (#[trigger] head[i]).ip.v6 by {
                    assert(list[i].ip.v6);
                }
                assert(head[k] == list[k]);
            }
        }
    }
}

/// A pinned peer is where its name led to, behind the edge that was given.
pub proof fn law_a_pin_is_where_its_name_led(
    spec: PeerSpecView,
    list: Seq<AddressView>,
    why: Seq<char>,
)
    ensures
        resolved(spec, Err(why)) is Err,
        list.len() == 0 ==> resolved(spec, Ok(list)) is Err,
        list.len() > 0 ==> (resolved(spec, Ok(list)) matches Ok(pin) && pin.edge == spec.edge
            && pin.bare == spec.bare && Some(pin.addr) == preferred(list) && list.contains(
            pin.addr,
        )),
{
    reveal(Seq::filter);
    if list.len() > 0 {
        let four = list.filter(|a: AddressView| !a.ip.v6);
        if four.len() > 0 {
            list.lemma_filter_contains_rev(|a: AddressView| !a.ip.v6, four[0]);
        } else {
            assert(list.contains(list[0]));
        }
    }
}

/// A machine without a name is shown under a stock name, and any other under its own.
pub proof fn law_a_name_is_always_shown(raw: Seq<char>)
    ensures
        shown_name(raw).len() > 0,
        trimmed(raw).len() > 0 ==> shown_name(raw) == trimmed(raw),
        trimmed(raw).len() == 0 ==> shown_name(raw) == "liquidmetal"@,
{
    reveal_strlit("liquidmetal");
}

} // verus!
