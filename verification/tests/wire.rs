//! The wire format: what goes out comes back, and what is broken is refused.

use liquid_metal::single::Single;
use liquid_metal::wire::{
    decode, encode_ack, encode_nack, frame, parse_header, Beacon, DecodeError, Edge, Kind, Message,
    NackReason, SatState, Throw, HEADER_LEN, MAX_FRAME_LEN,
};

fn single(x: f32) -> Single {
    Single { bits: x.to_bits() }
}

fn sat(off_x: f32, off_y: f32, vel_x: f32, vel_y: f32) -> SatState {
    SatState {
        off_x: single(off_x),
        off_y: single(off_y),
        vel_x: single(vel_x),
        vel_y: single(vel_y),
    }
}

fn sample_throw() -> Throw {
    Throw {
        throw_id: 0x0123_4567_89ab_cdef,
        from_node: 0xfedc_ba98_7654_3210,
        from_port: 51234,
        edge: Edge::Right,
        along: single(0.375),
        vel_x: single(1.75),
        vel_y: single(-0.25),
        sats: vec![sat(1.0, 0.0, -0.5, 0.25), sat(0.0, -1.0, 0.125, 0.0)],
    }
}

fn sample_beacon() -> Beacon {
    Beacon {
        node_id: 42,
        tcp_port: 51234,
        screen_w: 3840,
        screen_h: 1080,
        blobs: 1,
        capacity: 4,
        group: "default".into(),
        name: "workshop".into(),
    }
}

#[test]
fn throw_round_trips() {
    let t = sample_throw();
    let bytes = t.encode();
    let (msg, used) = decode(&bytes).expect("decodes");
    assert_eq!(used, bytes.len());
    assert_eq!(msg, Message::Throw(t));
}

#[test]
fn beacon_round_trips() {
    let b = sample_beacon();
    let bytes = b.encode();
    let (msg, used) = decode(&bytes).expect("decodes");
    assert_eq!(used, bytes.len());
    assert_eq!(msg, Message::Beacon(b));
}

#[test]
fn ack_and_nack_round_trip() {
    let (m, _) = decode(&encode_ack(9)).unwrap();
    assert_eq!(m, Message::Ack(9));
    let (m, _) = decode(&encode_nack(9, NackReason::Full)).unwrap();
    assert_eq!(m, Message::Nack(9, NackReason::Full));
}

/// The layout is a contract with programs that others write. If a field width or an offset
/// moves, the protocol version has to move too.
#[test]
fn wire_layout_is_pinned() {
    let bytes = sample_throw().encode();
    assert_eq!(&bytes[0..4], b"LQMB", "magic");
    assert_eq!(u16::from_le_bytes([bytes[4], bytes[5]]), 1, "version");
    assert_eq!(u16::from_le_bytes([bytes[6], bytes[7]]), Kind::Throw.to_u16());
    // 8 + 8 + 2 + 1 + 1 + 4 + 4 + 4 + 2 + 2 = 36 bytes fixed, then 16 per sat.
    assert_eq!(bytes.len(), HEADER_LEN + 36 + 2 * 16);
    assert_eq!(u32::from_le_bytes(bytes[8..12].try_into().unwrap()) as usize, 36 + 32);
    assert_eq!(bytes[HEADER_LEN + 18], Edge::Right.to_u8(), "edge byte offset");

    let b = sample_beacon().encode();
    assert_eq!(b.len(), HEADER_LEN + 26 + "default".len() + "workshop".len());
}

/// Every truncation of a valid frame must report `Truncated`: this is exactly what a TCP
/// read of a partial frame looks like.
#[test]
fn every_prefix_is_truncated_not_a_panic() {
    for msg in [sample_throw().encode(), sample_beacon().encode()] {
        for n in 0..msg.len() {
            match decode(&msg[..n]) {
                Err(DecodeError::Truncated) => {}
                other => panic!("prefix of {n} bytes gave {other:?}, wanted Truncated"),
            }
        }
        assert!(decode(&msg).is_ok(), "the whole frame still decodes");
    }
}

/// Trailing bytes are the next frame, not an error: `decode` reports how much it used so a
/// stream can be drained frame by frame.
#[test]
fn decode_reports_its_own_length_so_streams_can_be_drained() {
    let mut buf = sample_throw().encode();
    let first_len = buf.len();
    buf.extend_from_slice(&encode_ack(7));
    let (m1, used) = decode(&buf).unwrap();
    assert_eq!(used, first_len);
    assert!(matches!(m1, Message::Throw(_)));
    let (m2, used2) = decode(&buf[used..]).unwrap();
    assert_eq!(m2, Message::Ack(7));
    assert_eq!(used + used2, buf.len());
}

#[test]
fn a_foreign_frame_is_rejected_by_magic() {
    let mut b = sample_beacon().encode();
    b[0] = b'X';
    assert_eq!(decode(&b), Err(DecodeError::BadMagic));
}

#[test]
fn another_version_is_rejected_without_parsing_the_body() {
    let mut b = sample_beacon().encode();
    b[4] = 99;
    assert_eq!(decode(&b), Err(DecodeError::BadVersion(99)));
}

#[test]
fn an_absurd_length_is_refused_before_allocating() {
    let mut b = sample_beacon().encode();
    b[8..12].copy_from_slice(&(MAX_FRAME_LEN as u32 + 1).to_le_bytes());
    assert_eq!(decode(&b), Err(DecodeError::TooLong(MAX_FRAME_LEN + 1)));
}

/// A NaN velocity would spread through the receiving simulation and never leave. It has to
/// die at the parse boundary.
#[test]
fn nan_and_infinity_are_refused() {
    for poison in [f32::NAN, f32::INFINITY, f32::NEG_INFINITY] {
        let mut t = sample_throw();
        t.vel_x = single(poison);
        assert_eq!(decode(&t.encode()), Err(DecodeError::NotFinite), "{poison}");
    }
}

#[test]
fn an_out_of_range_edge_is_refused() {
    let mut b = sample_throw().encode();
    b[HEADER_LEN + 18] = 7;
    assert_eq!(decode(&b), Err(DecodeError::BadEnum));
}

#[test]
fn along_is_clamped_rather_than_rejected() {
    let mut t = sample_throw();
    t.along = single(1.0001);
    let (m, _) = decode(&t.encode()).unwrap();
    match m {
        Message::Throw(got) => assert_eq!(got.along, single(1.0)),
        other => panic!("{other:?}"),
    }
}

#[test]
fn a_lying_satellite_count_is_truncation_not_a_huge_allocation() {
    let mut b = sample_throw().encode();
    // sat_count sits at payload offset 32.
    b[HEADER_LEN + 32..HEADER_LEN + 34].copy_from_slice(&60000u16.to_le_bytes());
    assert_eq!(decode(&b), Err(DecodeError::Truncated));
}

#[test]
fn unknown_kinds_are_reported_not_fatal() {
    let f = frame(Kind::Beacon, &[]);
    let mut f2 = f.clone();
    f2[6..8].copy_from_slice(&999u16.to_le_bytes());
    assert_eq!(decode(&f2), Err(DecodeError::UnknownKind(999)));
}

#[test]
fn edges_are_their_own_inverse() {
    for e in Edge::ALL {
        assert_eq!(e.opposite().opposite(), e);
        assert_ne!(e.opposite(), e);
        assert_eq!(Edge::from_u8(e.to_u8()), Some(e));
    }
}

/// A zero-satellite throw is legal: it is what a peer that models the blob differently
/// would send, and it must still land.
#[test]
fn a_throw_with_no_satellites_is_valid() {
    let mut t = sample_throw();
    t.sats.clear();
    let (m, _) = decode(&t.encode()).unwrap();
    assert_eq!(m, Message::Throw(t));
}

#[test]
fn below_zero_is_clamped_to_zero() {
    let mut t = sample_throw();
    t.along = single(-0.5);
    match decode(&t.encode()).unwrap().0 {
        Message::Throw(got) => assert_eq!(got.along, single(0.0)),
        other => panic!("{other:?}"),
    }
}

#[test]
fn a_name_that_is_not_text_is_refused() {
    let mut b = sample_beacon().encode();
    let last = b.len() - 1;
    b[last] = 0xff;
    assert_eq!(decode(&b), Err(DecodeError::BadUtf8));
}

#[test]
fn a_name_need_not_be_plain() {
    let mut b = sample_beacon();
    b.name = "Wärkstätte 水".into();
    assert_eq!(decode(&b.encode()).unwrap().0, Message::Beacon(b));
}

#[test]
fn an_unknown_reason_is_refused() {
    let mut b = encode_nack(3, NackReason::Full);
    b[HEADER_LEN + 8] = 200;
    assert_eq!(decode(&b), Err(DecodeError::BadEnum));
}

#[test]
fn a_header_says_where_the_payload_is() {
    let f = frame(Kind::Ack, &[1, 2, 3]);
    let h = parse_header(&f).unwrap();
    assert_eq!(h.kind, Kind::Ack.to_u16());
    assert_eq!(h.payload, HEADER_LEN..HEADER_LEN + 3);
    assert_eq!(h.total_len(), HEADER_LEN + 3);
    assert_eq!(&f[h.payload.clone()], &[1, 2, 3]);
}

#[test]
fn codes_have_no_strangers() {
    for v in 0..=u16::MAX {
        if let Some(k) = Kind::from_u16(v) {
            assert_eq!(k.to_u16(), v);
        }
    }
    for v in 0..=u8::MAX {
        if let Some(e) = Edge::from_u8(v) {
            assert_eq!(e.to_u8(), v);
        }
        if let Some(r) = NackReason::from_u8(v) {
            assert_eq!(r.to_u8(), v);
        }
    }
    assert_eq!(Edge::from_u8(4), None);
}

#[test]
fn every_edge_has_a_bit_of_its_own() {
    let mut all = 0u8;
    for e in Edge::ALL {
        assert_eq!(all & e.bit(), 0);
        all |= e.bit();
    }
    assert_eq!(all, 0b1111);
}

#[test]
fn edges_have_names() {
    assert_eq!(Edge::Left.name(), "left");
    assert_eq!(Edge::Right.name(), "right");
    assert_eq!(Edge::Top.name(), "top");
    assert_eq!(Edge::Bottom.name(), "bottom");
}
