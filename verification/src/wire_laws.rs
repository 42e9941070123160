//! What holds of the wire format as a whole.

use crate::bytes::{
    byte_range, law_the_lowest_byte_comes_first, le_at, le_bytes, lemma_byte_ranges,
    lemma_le_round_trip,
};
use crate::single::{Single, ONE};
use crate::wire::{
    beacon_of, decoded, encoded, framed, header_of, sat_at, sat_bytes, sats_bytes, single_at,
    single_bytes, throw_of, wild_single, BeaconView, DecodeError, Edge, Kind, MessageView,
    NackReason, SatState, ThrowView, HEADER_LEN, MAGIC, MAX_FRAME_LEN, PROTOCOL_VERSION,
};
use vstd::arithmetic::power::pow;
use vstd::prelude::*;
use vstd::utf8::{
    decode_utf8, encode_utf8, encode_utf8_decode_utf8, encode_utf8_valid_utf8, valid_utf8,
};

verus! {

/// Edges come in facing pairs, and neither edge of a pair is the other.
pub proof fn law_edges_are_their_own_inverse(e: Edge)
    ensures
        e.facing().facing() == e,
        e.facing() != e,
        Edge::of(e.code()) == Some(e),
{
}

/// Each edge has a bit of its own in an edge mask.
pub proof fn law_edge_bits_are_distinct(a: Edge, b: Edge)
    ensures
        a.weight() & b.weight() == (if a == b {
            a.weight()
        } else {
            0u8
        }),
        a.weight() & 0b1111u8 == a.weight(),
{
    assert(1u8 & 1 == 1 && 1u8 & 2 == 0 && 1u8 & 4 == 0 && 1u8 & 8 == 0 && 2u8 & 1 == 0 && 2u8 & 2
        == 2 && 2u8 & 4 == 0 && 2u8 & 8 == 0 && 4u8 & 1 == 0 && 4u8 & 2 == 0 && 4u8 & 4 == 4 && 4u8
        & 8 == 0 && 8u8 & 1 == 0 && 8u8 & 2 == 0 && 8u8 & 4 == 0 && 8u8 & 8 == 8 && 1u8 & 15 == 1
        && 2u8 & 15 == 2 && 4u8 & 15 == 4 && 8u8 & 15 == 8) by (bit_vector);
}

/// Kinds and reasons survive the trip through their numbers.
pub proof fn law_codes_round_trip(k: Kind, r: NackReason)
    ensures
        Kind::of(k.code()) == Some(k),
        NackReason::of(r.code()) == Some(r),
{
}

/// Bytes that are those of `v` read back as `v`.
proof fn lemma_field(s: Seq<u8>, at: int, n: nat, v: nat)
    requires
        s.subrange(at, at + n) == le_bytes(v, n),
        v < byte_range(n),
    ensures
        le_at(s, at, n as int) == v,
{
    lemma_le_round_trip(v, n);
}

/// All lengths of `le_bytes` at once.
proof fn lemma_le_lens()
    ensures
        forall|v: nat, n: nat| (#[trigger] le_bytes(v, n)).len() == n,
{
    assert forall|v: nat, n: nat| (#[trigger] le_bytes(v, n)).len() == n by {
        lemma_le_round_trip(v, n);
    }
}

/// Every message that fits in a frame and says something finite.
pub open spec fn sendable(m: MessageView) -> bool {
    match m {
        MessageView::Beacon(b) => encode_utf8(b.group).len() < 0x1_0000 && encode_utf8(b.name).len()
            < 0x1_0000 && b.payload().len() <= MAX_FRAME_LEN,
        MessageView::Throw(t) => {
            &&& t.along.finite() && t.vel_x.finite() && t.vel_y.finite()
            &&& 0 <= t.along.units() <= (Single { bits: ONE }).units()
            &&& forall|k: int|
                0 <= k < t.sats.len() ==> (#[trigger] t.sats[k]).off_x.finite()
                    && t.sats[k].off_y.finite() && t.sats[k].vel_x.finite()
                    && t.sats[k].vel_y.finite()
            &&& 36 + 16 * t.sats.len() <= MAX_FRAME_LEN
        },
        MessageView::Ack(_) => true,
        MessageView::Nack(_, _) => true,
    }
}

/// A frame's header says what went into it, whatever follows the frame.
proof fn lemma_framed_header(kind: Kind, payload: Seq<u8>, rest: Seq<u8>)
    requires
        payload.len() <= MAX_FRAME_LEN,
    ensures
        header_of(framed(kind, payload) + rest) == Ok::<(u16, nat), DecodeError>(
            (kind.code(), payload.len()),
        ),
        (framed(kind, payload) + rest).subrange(HEADER_LEN as int, HEADER_LEN + payload.len())
            == payload,
        framed(kind, payload).len() == HEADER_LEN + payload.len(),
{
    lemma_le_lens();
    lemma_byte_ranges();
    let buf = framed(kind, payload) + rest;
    assert(buf.take(4) =~= MAGIC@);
    assert(buf.subrange(4, 6) =~= le_bytes(PROTOCOL_VERSION as nat, 2));
    assert(buf.subrange(6, 8) =~= le_bytes(kind.code() as nat, 2));
    assert(buf.subrange(8, 12) =~= le_bytes(payload.len(), 4));
    lemma_field(buf, 4, 2, PROTOCOL_VERSION as nat);
    lemma_field(buf, 6, 2, kind.code() as nat);
    lemma_field(buf, 8, 4, payload.len());
    assert(buf.subrange(HEADER_LEN as int, HEADER_LEN + payload.len()) =~= payload);
}

proof fn lemma_beacon_payload(b: BeaconView)
    requires
        sendable(MessageView::Beacon(b)),
    ensures
        beacon_of(b.payload()) == Ok::<BeaconView, DecodeError>(b),
{
    lemma_le_lens();
    lemma_byte_ranges();
    let p = b.payload();
    let g = encode_utf8(b.group);
    let n = encode_utf8(b.name);
    assert(p.subrange(0, 8) =~= le_bytes(b.node_id as nat, 8));
    assert(p.subrange(8, 10) =~= le_bytes(b.tcp_port as nat, 2));
    assert(p.subrange(10, 14) =~= le_bytes(b.screen_w as nat, 4));
    assert(p.subrange(14, 18) =~= le_bytes(b.screen_h as nat, 4));
    assert(p.subrange(18, 20) =~= le_bytes(b.blobs as nat, 2));
    assert(p.subrange(20, 22) =~= le_bytes(b.capacity as nat, 2));
    assert(p.subrange(22, 24) =~= le_bytes(g.len(), 2));
    assert(p.subrange(24, 26) =~= le_bytes(n.len(), 2));
    lemma_field(p, 0, 8, b.node_id as nat);
    lemma_field(p, 8, 2, b.tcp_port as nat);
    lemma_field(p, 10, 4, b.screen_w as nat);
    lemma_field(p, 14, 4, b.screen_h as nat);
    lemma_field(p, 18, 2, b.blobs as nat);
    lemma_field(p, 20, 2, b.capacity as nat);
    lemma_field(p, 22, 2, g.len());
    lemma_field(p, 24, 2, n.len());
    assert(p.subrange(26, 26int + g.len()) =~= g);
    assert(p.subrange(26int + g.len(), 26int + g.len() + n.len()) =~= n);
    encode_utf8_valid_utf8(b.group);
    encode_utf8_valid_utf8(b.name);
    encode_utf8_decode_utf8(b.group);
    encode_utf8_decode_utf8(b.name);
}

/// The bytes of the satellites, taken apart again.
proof fn lemma_sats_bytes(sats: Seq<SatState>)
    ensures
        sats_bytes(sats).len() == 16 * sats.len(),
        forall|k: int|
            0 <= k < sats.len() ==> #[trigger] sats_bytes(sats).subrange(16 * k, 16 * k + 16)
                == sat_bytes(sats[k]),
    decreases sats.len(),
{
    lemma_le_lens();
    if sats.len() > 0 {
        let head = sats.drop_last();
        lemma_sats_bytes(head);
        assert forall|k: int| 0 <= k < sats.len() implies #[trigger] sats_bytes(sats).subrange(
            16 * k,
            16 * k + 16,
        ) == sat_bytes(sats[k]) by {
            if k < head.len() {
                assert(sats_bytes(sats).subrange(16 * k, 16 * k + 16) =~= sats_bytes(
                    head,
                ).subrange(16 * k, 16 * k + 16));
            } else {
                assert(sats_bytes(sats).subrange(16 * k, 16 * k + 16) =~= sat_bytes(sats[k]));
            }
        }
    }
}

/// A float's bytes read back as the float.
proof fn lemma_single_field(p: Seq<u8>, at: int, x: Single)
    requires
        p.subrange(at, at + 4) == single_bytes(x),
    ensures
        single_at(p, at) == x,
{
    lemma_byte_ranges();
    lemma_field(p, at, 4, x.bits as nat);
}

proof fn lemma_sat_field(p: Seq<u8>, at: int, s: SatState)
    requires
        0 <= at,
        at + 16 <= p.len(),
        p.subrange(at, at + 16) == sat_bytes(s),
    ensures
        sat_at(p, at) == s,
{
    lemma_le_lens();
    let w = sat_bytes(s);
    assert(p.subrange(at, at + 4) =~= w.subrange(0, 4));
    assert(p.subrange(at + 4, at + 4 + 4) =~= w.subrange(4, 8));
    assert(p.subrange(at + 8, at + 8 + 4) =~= w.subrange(8, 12));
    assert(p.subrange(at + 12, at + 12 + 4) =~= w.subrange(12, 16));
    assert(w.subrange(0, 4) =~= single_bytes(s.off_x));
    assert(w.subrange(4, 8) =~= single_bytes(s.off_y));
    assert(w.subrange(8, 12) =~= single_bytes(s.vel_x));
    assert(w.subrange(12, 16) =~= single_bytes(s.vel_y));
    lemma_single_field(p, at, s.off_x);
    lemma_single_field(p, at + 4, s.off_y);
    lemma_single_field(p, at + 8, s.vel_x);
    lemma_single_field(p, at + 12, s.vel_y);
}

proof fn lemma_throw_payload(t: ThrowView)
    requires
        sendable(MessageView::Throw(t)),
    ensures
        t.payload().len() == 36 + 16 * t.sats.len(),
        throw_of(t.payload()) == Ok::<ThrowView, DecodeError>(t),
{
    lemma_any_throw_payload(t);
    assert((Single { bits: 0 }).units() == 0);
}

/// Every throw that fits in a frame and holds finite numbers, wherever it says it crossed.
pub open spec fn tame(t: ThrowView) -> bool {
    &&& t.along.finite() && t.vel_x.finite() && t.vel_y.finite()
    &&& forall|k: int|
        0 <= k < t.sats.len() ==> (#[trigger] t.sats[k]).off_x.finite() && t.sats[k].off_y.finite()
            && t.sats[k].vel_x.finite() && t.sats[k].vel_y.finite()
    &&& 36 + 16 * t.sats.len() <= MAX_FRAME_LEN
}

proof fn lemma_any_throw_payload(t: ThrowView)
    requires
        tame(t),
    ensures
        t.payload().len() == 36 + 16 * t.sats.len(),
        throw_of(t.payload()) == Ok::<ThrowView, DecodeError>(
            ThrowView { along: t.along.clamped(), ..t },
        ),
{
    lemma_le_lens();
    lemma_byte_ranges();
    lemma_sats_bytes(t.sats);
    let p = t.payload();
    let n = t.sats.len();
    assert(t.fixed().len() == 36);
    assert(p.subrange(0, 8) =~= le_bytes(t.throw_id as nat, 8));
    assert(p.subrange(8, 16) =~= le_bytes(t.from_node as nat, 8));
    assert(p.subrange(16, 18) =~= le_bytes(t.from_port as nat, 2));
    assert(p[18] == t.edge.code());
    assert(p.subrange(20, 24) =~= single_bytes(t.along));
    assert(p.subrange(24, 28) =~= single_bytes(t.vel_x));
    assert(p.subrange(28, 32) =~= single_bytes(t.vel_y));
    assert(p.subrange(32, 34) =~= le_bytes(n, 2));
    lemma_field(p, 0, 8, t.throw_id as nat);
    lemma_field(p, 8, 8, t.from_node as nat);
    lemma_field(p, 16, 2, t.from_port as nat);
    lemma_single_field(p, 20, t.along);
    lemma_single_field(p, 24, t.vel_x);
    lemma_single_field(p, 28, t.vel_y);
    lemma_field(p, 32, 2, n);
    assert forall|k: int| !wild_single(p, 20, 3, k) by {
        assert(k == 0 || k == 1 || k == 2 || k < 0 || k > 2);
    }
    assert forall|k: int| 0 <= k < n implies #[trigger] sat_at(p, 36 + 16 * k) == t.sats[k] by {
        assert(p.subrange(36 + 16 * k, 36 + 16 * k + 16) =~= sats_bytes(t.sats).subrange(
            16 * k,
            16 * k + 16,
        ));
        lemma_sat_field(p, 36 + 16 * k, t.sats[k]);
    }
    let floats = (4 * n) as int;
    assert forall|j: int| !wild_single(p, 36, floats, j) by {
        if 0 <= j < 4 * n {
            let k = j / 4;
            assert(sat_at(p, 36 + 16 * k) == t.sats[k]);
            assert(j == 4 * k || j == 4 * k + 1 || j == 4 * k + 2 || j == 4 * k + 3);
        }
    }
    assert(Seq::new(n, |k: int| sat_at(p, 36 + 16 * k)) =~= t.sats);
}

/// What is sent is what arrives: a frame decodes to the message that went into it, and
/// takes up exactly its own bytes, whatever follows it in the stream.
pub proof fn law_round_trip(m: MessageView, rest: Seq<u8>)
    requires
        sendable(m),
    ensures
        decoded(encoded(m) + rest) == Ok::<(MessageView, nat), DecodeError>((m, encoded(m).len())),
{
    lemma_le_lens();
    lemma_byte_ranges();
    match m {
        MessageView::Beacon(b) => {
            lemma_beacon_payload(b);
            lemma_framed_header(Kind::Beacon, b.payload(), rest);
        },
        MessageView::Throw(t) => {
            lemma_throw_payload(t);
            lemma_framed_header(Kind::Throw, t.payload(), rest);
        },
        MessageView::Ack(id) => {
            let p = le_bytes(id as nat, 8);
            lemma_framed_header(Kind::Ack, p, rest);
            assert(p.subrange(0, 8) =~= p);
            lemma_field(p, 0, 8, id as nat);
        },
        MessageView::Nack(id, reason) => {
            let p = le_bytes(id as nat, 8) + seq![reason.code()];
            lemma_framed_header(Kind::Nack, p, rest);
            assert(p.subrange(0, 8) =~= le_bytes(id as nat, 8));
            lemma_field(p, 0, 8, id as nat);
        },
    }
}

/// The header looks at the first bytes only.
proof fn lemma_header_prefix(a: Seq<u8>, b: Seq<u8>)
    requires
        a.len() >= HEADER_LEN,
        b.len() >= HEADER_LEN,
        a.take(HEADER_LEN as int) == b.take(HEADER_LEN as int),
    ensures
        a.take(4) == b.take(4),
        le_at(a, 4, 2) == le_at(b, 4, 2),
        le_at(a, 6, 2) == le_at(b, 6, 2),
        le_at(a, 8, 4) == le_at(b, 8, 4),
{
    let h = HEADER_LEN as int;
    assert forall|i: int| 0 <= i < h implies a[i] == b[i] by {
        assert(a.take(h)[i] == b.take(h)[i]);
    }
    assert(a.take(4) =~= b.take(4));
    assert(a.subrange(4, 6) =~= b.subrange(4, 6));
    assert(a.subrange(6, 8) =~= b.subrange(6, 8));
    assert(a.subrange(8, 12) =~= b.subrange(8, 12));
}

/// Until the last byte of a frame is there, decoding says to wait for more.
pub proof fn law_a_partial_frame_waits(buf: Seq<u8>, k: int)
    requires
        header_of(buf) is Ok,
        0 <= k < HEADER_LEN + (header_of(buf)->Ok_0).1,
    ensures
        decoded(buf.take(k)) == Err::<(MessageView, nat), DecodeError>(DecodeError::Truncated),
{
    if k >= HEADER_LEN {
        let part = buf.take(k);
        assert(part.take(HEADER_LEN as int) =~= buf.take(HEADER_LEN as int));
        lemma_header_prefix(part, buf);
    }
}

/// Bytes after a whole frame change nothing about it: what was decoded, or was wrong
/// with it, stays so.
pub proof fn law_following_bytes_do_not_matter(buf: Seq<u8>, rest: Seq<u8>)
    requires
        header_of(buf) is Ok,
    ensures
        header_of(buf + rest) == header_of(buf),
        decoded(buf + rest) == decoded(buf),
{
    let whole = buf + rest;
    assert(whole.take(HEADER_LEN as int) =~= buf.take(HEADER_LEN as int));
    lemma_header_prefix(whole, buf);
    let end = HEADER_LEN + (header_of(buf)->Ok_0).1;
    assert(whole.subrange(HEADER_LEN as int, end) =~= buf.subrange(HEADER_LEN as int, end));
}

/// A header that is wrong stays wrong, and in the same way, whatever follows.
pub proof fn law_a_bad_header_stays_bad(buf: Seq<u8>, rest: Seq<u8>)
    requires
        header_of(buf) is Err,
        header_of(buf) != Err::<(u16, nat), DecodeError>(DecodeError::Truncated),
    ensures
        header_of(buf + rest) == header_of(buf),
        decoded(buf + rest) == decoded(buf),
{
    let whole = buf + rest;
    assert(whole.take(HEADER_LEN as int) =~= buf.take(HEADER_LEN as int));
    lemma_header_prefix(whole, buf);
}

/// A whole frame is at least a header long and never longer than what holds it, so a
/// reader of a stream always moves on and never past the end.
pub proof fn law_a_decoded_frame_is_within_its_buffer(buf: Seq<u8>)
    requires
        decoded(buf) is Ok,
    ensures
        HEADER_LEN <= (decoded(buf)->Ok_0).1 <= buf.len(),
        (decoded(buf)->Ok_0).1 <= HEADER_LEN + MAX_FRAME_LEN,
        buf.take(4) == MAGIC@,
        le_at(buf, 4, 2) == PROTOCOL_VERSION,
{
}

/// No throw that decodes holds a NaN or an infinity, and its crossing lies on the edge.
pub proof fn law_a_decoded_throw_is_finite(buf: Seq<u8>)
    requires
        decoded(buf) is Ok,
        (decoded(buf)->Ok_0).0 is Throw,
    ensures
        ({
            let t = (decoded(buf)->Ok_0).0->Throw_0;
            &&& t.along.finite() && t.vel_x.finite() && t.vel_y.finite()
            &&& 0 <= t.along.units() <= (Single { bits: ONE }).units()
            &&& forall|k: int|
                0 <= k < t.sats.len() ==> (#[trigger] t.sats[k]).off_x.finite()
                    && t.sats[k].off_y.finite() && t.sats[k].vel_x.finite()
                    && t.sats[k].vel_y.finite()
        }),
{
    let length = (header_of(buf)->Ok_0).1;
    let p = buf.subrange(HEADER_LEN as int, HEADER_LEN + length);
    let t = (decoded(buf)->Ok_0).0->Throw_0;
    assert(throw_of(p) == Ok::<ThrowView, DecodeError>(t));
    assert(!wild_single(p, 20, 3, 0));
    assert(!wild_single(p, 20, 3, 1));
    assert(!wild_single(p, 20, 3, 2));
    (Single { bits: ONE }).lemma_rank(Single { bits: 0 });
    assert forall|k: int| 0 <= k < t.sats.len() implies (#[trigger] t.sats[k]).off_x.finite()
        && t.sats[k].off_y.finite() && t.sats[k].vel_x.finite() && t.sats[k].vel_y.finite() by {
        let n = (4 * le_at(p, 32, 2)) as int;
        assert(!wild_single(p, 36, n, 4 * k));
        assert(!wild_single(p, 36, n, 4 * k + 1));
        assert(!wild_single(p, 36, n, 4 * k + 2));
        assert(!wild_single(p, 36, n, 4 * k + 3));
    }
}

/// The facing edge is the one across the screen: left faces right, and top faces bottom.
pub proof fn law_an_edge_faces_the_one_across(edge: Edge)
    ensures
        edge == Edge::Left <==> edge.facing() == Edge::Right,
        edge == Edge::Right <==> edge.facing() == Edge::Left,
        edge == Edge::Top <==> edge.facing() == Edge::Bottom,
        edge == Edge::Bottom <==> edge.facing() == Edge::Top,
        crate::physics::inward(edge.facing()).x.units() == -crate::physics::inward(edge).x.units(),
        crate::physics::inward(edge.facing()).y.units() == -crate::physics::inward(edge).y.units(),
{
    let one = Single { bits: ONE };
    let minus = Single { bits: (ONE + 0x8000_0000) as u32 };
    assert(minus.magnitude() == one.magnitude() && minus.is_negative() && !one.is_negative());
    assert((Single { bits: 0 }).units() == 0);
}

/// A crossing beyond the end of its edge is moved onto that end, and nothing else about the
/// throw changes on the way.
pub proof fn law_a_crossing_off_the_edge_is_moved_onto_it(t: ThrowView, rest: Seq<u8>)
    requires
        tame(t),
    ensures
        decoded(encoded(MessageView::Throw(t)) + rest) matches Ok((MessageView::Throw(got), used))
            && {
            &&& used == 48 + 16 * t.sats.len()
            &&& t.along.units() < 0 ==> got.along.bits == 0
            &&& t.along.units() > (Single { bits: 0x3f80_0000 }).units() ==> got.along.bits
                == 0x3f80_0000
            &&& 0 <= t.along.units() <= (Single { bits: 0x3f80_0000 }).units() ==> got.along
                == t.along
            &&& got == (ThrowView { along: got.along, ..t })
        },
{
    lemma_any_throw_payload(t);
    lemma_framed_header(Kind::Throw, t.payload(), rest);
    assert((Single { bits: 0 }).units() == 0);
}

/// The `n` bytes at `at` are those of `v`, the lowest first.
pub open spec fn lies_at(s: Seq<u8>, at: int, n: int, v: nat) -> bool {
    at + n <= s.len() && forall|j: int|
        at <= j < at + n ==> (#[trigger] s[j]) as int == (v as int / pow(256, (j - at) as nat)) % 256
}

proof fn lemma_lies_at(s: Seq<u8>, at: int, n: nat, v: nat)
    requires
        0 <= at,
        at + n <= s.len(),
        s.subrange(at, at + n) == le_bytes(v, n),
    ensures
        lies_at(s, at, n as int, v),
{
    assert forall|j: int| at <= j < at + n implies (#[trigger] s[j]) as int == (v as int / pow(
        256,
        (j - at) as nat,
    )) % 256 by {
        law_the_lowest_byte_comes_first(v, n, j - at);
        assert(s.subrange(at, at + n)[j - at] == s[j]);
    }
}

proof fn lemma_frame_bytes(kind: Kind, payload: Seq<u8>)
    ensures
        ({
            let e = framed(kind, payload);
            &&& e.len() == 12 + payload.len()
            &&& e[0] == 0x4c && e[1] == 0x51 && e[2] == 0x4d && e[3] == 0x42
            &&& lies_at(e, 4, 2, 1)
            &&& lies_at(e, 6, 2, kind.code() as nat)
            &&& lies_at(e, 8, 4, payload.len())
            &&& e.skip(12) == payload
        }),
{
    lemma_le_lens();
    let e = framed(kind, payload);
    assert(e.subrange(4, 6) =~= le_bytes(1, 2));
    assert(e.subrange(6, 8) =~= le_bytes(kind.code() as nat, 2));
    assert(e.subrange(8, 12) =~= le_bytes(payload.len(), 4));
    lemma_lies_at(e, 4, 2, 1);
    lemma_lies_at(e, 6, 2, kind.code() as nat);
    lemma_lies_at(e, 8, 4, payload.len());
    assert(e.skip(12) =~= payload);
}

/// Every frame begins with the letters LQMB, the version 1, the number of its kind and the
/// length of what follows.
pub proof fn law_a_frame_begins_with_its_header(m: MessageView)
    ensures
        ({
            let e = encoded(m);
            let kind: nat = match m {
                MessageView::Beacon(_) => 1,
                MessageView::Throw(_) => 2,
                MessageView::Ack(_) => 3,
                MessageView::Nack(_, _) => 4,
            };
            &&& e.len() >= 12
            &&& e[0] == 0x4c && e[1] == 0x51 && e[2] == 0x4d && e[3] == 0x42
            &&& lies_at(e, 4, 2, 1)
            &&& lies_at(e, 6, 2, kind)
            &&& lies_at(e, 8, 4, (e.len() - 12) as nat)
        }),
{
    match m {
        MessageView::Beacon(b) => lemma_frame_bytes(Kind::Beacon, b.payload()),
        MessageView::Throw(t) => lemma_frame_bytes(Kind::Throw, t.payload()),
        MessageView::Ack(id) => lemma_frame_bytes(Kind::Ack, le_bytes(id as nat, 8)),
        MessageView::Nack(id, reason) => lemma_frame_bytes(
            Kind::Nack,
            le_bytes(id as nat, 8) + seq![reason.code()],
        ),
    }
}

/// Where everything about a throw stands in its frame: the id, the node, the port, the edge
/// as a number from 0 to 3 in the order left, right, top, bottom, the crossing, the velocity,
/// how many satellites there are, and then each satellite, the `k`th among them.
pub proof fn law_where_a_throw_stands_in_its_frame(t: ThrowView, k: int)
    ensures
        ({
            let e = encoded(MessageView::Throw(t));
            let edge: u8 = match t.edge {
                Edge::Left => 0,
                Edge::Right => 1,
                Edge::Top => 2,
                Edge::Bottom => 3,
            };
            let at = 48 + 16 * k;
            &&& e.len() == 48 + 16 * t.sats.len()
            &&& lies_at(e, 12, 8, t.throw_id as nat)
            &&& lies_at(e, 20, 8, t.from_node as nat)
            &&& lies_at(e, 28, 2, t.from_port as nat)
            &&& e[30] == edge && e[31] == 0
            &&& lies_at(e, 32, 4, t.along.bits as nat)
            &&& lies_at(e, 36, 4, t.vel_x.bits as nat)
            &&& lies_at(e, 40, 4, t.vel_y.bits as nat)
            &&& lies_at(e, 44, 2, t.sats.len())
            &&& lies_at(e, 46, 2, 0)
            &&& 0 <= k < t.sats.len() ==> {
                &&& lies_at(e, at, 4, t.sats[k].off_x.bits as nat)
                &&& lies_at(e, at + 4, 4, t.sats[k].off_y.bits as nat)
                &&& lies_at(e, at + 8, 4, t.sats[k].vel_x.bits as nat)
                &&& lies_at(e, at + 12, 4, t.sats[k].vel_y.bits as nat)
            }
        }),
{
    lemma_le_lens();
    lemma_sats_bytes(t.sats);
    let e = encoded(MessageView::Throw(t));
    let p = t.payload();
    assert(t.fixed().len() == 36);
    assert(e.subrange(12, 20) =~= le_bytes(t.throw_id as nat, 8));
    assert(e.subrange(20, 28) =~= le_bytes(t.from_node as nat, 8));
    assert(e.subrange(28, 30) =~= le_bytes(t.from_port as nat, 2));
    assert(e.subrange(32, 36) =~= single_bytes(t.along));
    assert(e.subrange(36, 40) =~= single_bytes(t.vel_x));
    assert(e.subrange(40, 44) =~= single_bytes(t.vel_y));
    assert(e.subrange(44, 46) =~= le_bytes(t.sats.len(), 2));
    assert(e.subrange(46, 48) =~= le_bytes(0, 2));
    lemma_lies_at(e, 12, 8, t.throw_id as nat);
    lemma_lies_at(e, 20, 8, t.from_node as nat);
    lemma_lies_at(e, 28, 2, t.from_port as nat);
    lemma_lies_at(e, 32, 4, t.along.bits as nat);
    lemma_lies_at(e, 36, 4, t.vel_x.bits as nat);
    lemma_lies_at(e, 40, 4, t.vel_y.bits as nat);
    lemma_lies_at(e, 44, 2, t.sats.len());
    lemma_lies_at(e, 46, 2, 0);
    assert(e[30] == t.edge.code() && e[31] == 0);
    if 0 <= k < t.sats.len() {
        let s = t.sats[k];
        let w = sat_bytes(s);
        let at = 48 + 16 * k;
        assert(e.subrange(at, at + 16) =~= sats_bytes(t.sats).subrange(16 * k, 16 * k + 16));
        assert(e.subrange(at, at + 4) =~= e.subrange(at, at + 16).subrange(0, 4));
        assert(e.subrange(at + 4, at + 8) =~= e.subrange(at, at + 16).subrange(4, 8));
        assert(e.subrange(at + 8, at + 12) =~= e.subrange(at, at + 16).subrange(8, 12));
        assert(e.subrange(at + 12, at + 16) =~= e.subrange(at, at + 16).subrange(12, 16));
        assert(w.subrange(0, 4) =~= single_bytes(s.off_x));
        assert(w.subrange(4, 8) =~= single_bytes(s.off_y));
        assert(w.subrange(8, 12) =~= single_bytes(s.vel_x));
        assert(w.subrange(12, 16) =~= single_bytes(s.vel_y));
        lemma_lies_at(e, at, 4, s.off_x.bits as nat);
        lemma_lies_at(e, at + 4, 4, s.off_y.bits as nat);
        lemma_lies_at(e, at + 8, 4, s.vel_x.bits as nat);
        lemma_lies_at(e, at + 12, 4, s.vel_y.bits as nat);
    }
}

/// Where everything about a node stands in its beacon.
pub proof fn law_where_a_node_stands_in_its_beacon(b: BeaconView)
    ensures
        ({
            let e = encoded(MessageView::Beacon(b));
            let group = encode_utf8(b.group);
            let name = encode_utf8(b.name);
            &&& e.len() == 38 + group.len() + name.len()
            &&& lies_at(e, 12, 8, b.node_id as nat)
            &&& lies_at(e, 20, 2, b.tcp_port as nat)
            &&& lies_at(e, 22, 4, b.screen_w as nat)
            &&& lies_at(e, 26, 4, b.screen_h as nat)
            &&& lies_at(e, 30, 2, b.blobs as nat)
            &&& lies_at(e, 32, 2, b.capacity as nat)
            &&& lies_at(e, 34, 2, group.len())
            &&& lies_at(e, 36, 2, name.len())
            &&& e.subrange(38, 38int + group.len()) == group
            &&& e.skip(38int + group.len()) == name
        }),
{
    lemma_le_lens();
    let e = encoded(MessageView::Beacon(b));
    let group = encode_utf8(b.group);
    let name = encode_utf8(b.name);
    assert(b.fixed().len() == 26);
    assert(e.subrange(12, 20) =~= le_bytes(b.node_id as nat, 8));
    assert(e.subrange(20, 22) =~= le_bytes(b.tcp_port as nat, 2));
    assert(e.subrange(22, 26) =~= le_bytes(b.screen_w as nat, 4));
    assert(e.subrange(26, 30) =~= le_bytes(b.screen_h as nat, 4));
    assert(e.subrange(30, 32) =~= le_bytes(b.blobs as nat, 2));
    assert(e.subrange(32, 34) =~= le_bytes(b.capacity as nat, 2));
    assert(e.subrange(34, 36) =~= le_bytes(group.len(), 2));
    assert(e.subrange(36, 38) =~= le_bytes(name.len(), 2));
    lemma_lies_at(e, 12, 8, b.node_id as nat);
    lemma_lies_at(e, 20, 2, b.tcp_port as nat);
    lemma_lies_at(e, 22, 4, b.screen_w as nat);
    lemma_lies_at(e, 26, 4, b.screen_h as nat);
    lemma_lies_at(e, 30, 2, b.blobs as nat);
    lemma_lies_at(e, 32, 2, b.capacity as nat);
    lemma_lies_at(e, 34, 2, group.len());
    lemma_lies_at(e, 36, 2, name.len());
    assert(e.subrange(38, 38int + group.len()) =~= group);
    assert(e.skip(38int + group.len()) =~= name);
}

/// A receipt is the id of the throw; a refusal has the reason behind it: 0 for a full
/// screen, 1 for a throw that could not be read, 2 for another group.
pub proof fn law_where_an_answer_stands_in_its_frame(id: u64, reason: NackReason)
    ensures
        ({
            let ack = encoded(MessageView::Ack(id));
            let nack = encoded(MessageView::Nack(id, reason));
            let why: u8 = match reason {
                NackReason::Full => 0,
                NackReason::Malformed => 1,
                NackReason::WrongGroup => 2,
            };
            &&& ack.len() == 20 && lies_at(ack, 12, 8, id as nat)
            &&& nack.len() == 21 && lies_at(nack, 12, 8, id as nat) && nack[20] == why
        }),
{
    lemma_le_lens();
    let ack = encoded(MessageView::Ack(id));
    let nack = encoded(MessageView::Nack(id, reason));
    assert(ack.subrange(12, 20) =~= le_bytes(id as nat, 8));
    assert(nack.subrange(12, 20) =~= le_bytes(id as nat, 8));
    lemma_lies_at(ack, 12, 8, id as nat);
    lemma_lies_at(nack, 12, 8, id as nat);
}

/// What begins with other letters than LQMB is no frame, and what is of another version, of
/// more than 65536 bytes or not all there is none that can be read.
pub proof fn law_what_is_no_frame(buf: Seq<u8>)
    ensures
        ({
            let ours = buf[0] == 0x4c && buf[1] == 0x51 && buf[2] == 0x4d && buf[3] == 0x42;
            let version = buf[4] + 256 * buf[5];
            let length = buf[8] + 256 * buf[9] + 0x1_0000 * buf[10] + 0x100_0000 * buf[11];
            let r = decoded(buf);
            &&& buf.len() < 12 ==> r == Err::<(MessageView, nat), DecodeError>(
                DecodeError::Truncated,
            )
            &&& buf.len() >= 12 && !ours ==> r == Err::<(MessageView, nat), DecodeError>(
                DecodeError::BadMagic,
            )
            &&& buf.len() >= 12 && ours && version != 1 ==> r == Err::<
                (MessageView, nat),
                DecodeError,
            >(DecodeError::BadVersion(version as u16))
            &&& buf.len() >= 12 && ours && version == 1 && length > 65536 ==> r == Err::<
                (MessageView, nat),
                DecodeError,
            >(DecodeError::TooLong(length as usize))
            &&& buf.len() >= 12 && ours && version == 1 && length <= 65536 && buf.len() < 12
                + length ==> r == Err::<(MessageView, nat), DecodeError>(DecodeError::Truncated)
            &&& r is Ok ==> (r->Ok_0).1 == 12 + length
        }),
{
    if buf.len() >= 12 {
        let version = buf.subrange(4, 6);
        let length = buf.subrange(8, 12);
        reveal_with_fuel(crate::bytes::le_value, 5);
        assert(version[0] == buf[4] && version.skip(1)[0] == buf[5]);
        assert(length[0] == buf[8] && length.skip(1)[0] == buf[9] && length.skip(1).skip(1)[0]
            == buf[10] && length.skip(1).skip(1).skip(1)[0] == buf[11]);
        let front = buf.take(4);
        assert(front[0] == buf[0] && front[1] == buf[1] && front[2] == buf[2] && front[3]
            == buf[3]);
        assert(MAGIC@ =~= seq![0x4cu8, 0x51u8, 0x4du8, 0x42u8]);
        if buf[0] == 0x4c && buf[1] == 0x51 && buf[2] == 0x4d && buf[3] == 0x42 {
            assert(front =~= MAGIC@);
        }
    }
}

/// There are four kinds of frame, four edges and three reasons; any other number stands for
/// nothing.
pub proof fn law_other_numbers_stand_for_nothing(kind: u16, edge: u8, reason: u8)
    ensures
        Kind::of(kind) is Some <==> 1 <= kind <= 4,
        Edge::of(edge) is Some <==> edge <= 3,
        NackReason::of(reason) is Some <==> reason <= 2,
{
}

} // verus!
