//! The over-the-wire contract for throwing a blob between machines.
//!
//! The peer on the other end of a throw may be a different program on a different
//! operating system, so everything here is defined in absolute terms: byte order, field
//! widths and units.
//!
//! # Framing
//!
//! Every message, on both transports, is one frame:
//!
//! ```text
//! magic    [4]  "LQMB"
//! version  u16  protocol version; PROTOCOL_VERSION below
//! kind     u16  message kind
//! length   u32  payload length in bytes
//! payload  [length]
//! ```
//!
//! All integers are little-endian. All floats are IEEE 754 binary32, little-endian, and
//! are kept here as [`Single`].
//!
//! # Units
//!
//! The two machines have different screens, so the wire carries proportions: the
//! position along an edge is a fraction, velocity is in screen heights per second, and
//! satellite geometry is in units of the sender's orbit radius.

use crate::bytes::{
    le_at, le_bytes, lemma_byte_ranges, lemma_le_bytes_mod, put_all, put_u16, put_u32, put_u64,
    read_u16, read_u32, read_u64,
};
use crate::single::Single;
use crate::text::{decimal, push_decimal};
use vstd::prelude::*;
use vstd::slice::slice_subrange;
use vstd::utf8::{decode_utf8, encode_utf8, valid_utf8};

verus! {

/// Bumped whenever any layout below changes. Peers ignore frames that disagree.
pub const PROTOCOL_VERSION: u16 = 1;

/// Frame magic, first four bytes of every message on both transports: `LQMB`.
pub const MAGIC: [u8; 4] = [0x4c, 0x51, 0x4d, 0x42];

/// Bytes before the payload: magic(4) + version(2) + kind(2) + length(4).
pub const HEADER_LEN: usize = 12;

/// Refuse to allocate for an absurd `length` field. The largest legitimate frame is a
/// THROW with a few hundred satellites; this is far past anything real.
pub const MAX_FRAME_LEN: usize = 65536;

/// UDP port the presence beacon is broadcast to. Fixed, because it has to be known
/// before any peer has been discovered. The TCP port is not fixed: each node binds an
/// ephemeral one and announces it in its beacon.
pub const DISCOVERY_PORT: u16 = 47811;

/// Message kinds. Unknown kinds are ignored rather than treated as an error, so a later
/// protocol version can add messages without breaking this one.
#[derive(Copy, Clone, Debug, PartialEq, Eq, Structural)]
pub enum Kind {
    Beacon,
    Throw,
    Ack,
    Nack,
}

impl Kind {
    /// The number that stands for the kind on the wire.
    pub open spec fn code(self) -> u16 {
        match self {
            Kind::Beacon => 1,
            Kind::Throw => 2,
            Kind::Ack => 3,
            Kind::Nack => 4,
        }
    }

    /// The kind that a number on the wire stands for.
    pub open spec fn of(v: u16) -> Option<Kind> {
        if v == 1 {
            Some(Kind::Beacon)
        } else if v == 2 {
            Some(Kind::Throw)
        } else if v == 3 {
            Some(Kind::Ack)
        } else if v == 4 {
            Some(Kind::Nack)
        } else {
            None
        }
    }

    pub fn to_u16(self) -> (r: u16)
        ensures
            r == self.code(),
    {
        match self {
            Kind::Beacon => 1,
            Kind::Throw => 2,
            Kind::Ack => 3,
            Kind::Nack => 4,
        }
    }

    pub fn from_u16(v: u16) -> (r: Option<Kind>)
        ensures
            r == Kind::of(v),
            r matches Some(k) ==> k.code() == v,
    {
        match v {
            1 => Some(Kind::Beacon),
            2 => Some(Kind::Throw),
            3 => Some(Kind::Ack),
            4 => Some(Kind::Nack),
            _ => None,
        }
    }
}

/// Which edge of a screen a blob crossed.
///
/// Always expressed from the point of view of the machine the blob is *leaving*. The
/// receiver flips it: something that left the sender's right edge enters the receiver's
/// left edge, still travelling in the same direction.
#[derive(Copy, Clone, Debug, PartialEq, Eq, Structural)]
pub enum Edge {
    Left,
    Right,
    Top,
    Bottom,
}

impl Edge {
    pub const ALL: [Edge; 4] = [Edge::Left, Edge::Right, Edge::Top, Edge::Bottom];

    /// The number that stands for the edge on the wire.
    pub open spec fn code(self) -> u8 {
        match self {
            Edge::Left => 0,
            Edge::Right => 1,
            Edge::Top => 2,
            Edge::Bottom => 3,
        }
    }

    /// The edge that a number on the wire stands for.
    pub open spec fn of(v: u8) -> Option<Edge> {
        if v == 0 {
            Some(Edge::Left)
        } else if v == 1 {
            Some(Edge::Right)
        } else if v == 2 {
            Some(Edge::Top)
        } else if v == 3 {
            Some(Edge::Bottom)
        } else {
            None
        }
    }

    /// The edge across the screen.
    pub open spec fn facing(self) -> Edge {
        match self {
            Edge::Left => Edge::Right,
            Edge::Right => Edge::Left,
            Edge::Top => Edge::Bottom,
            Edge::Bottom => Edge::Top,
        }
    }

    /// The weight of the edge in a four-bit edge mask.
    pub open spec fn weight(self) -> u8 {
        match self {
            Edge::Left => 1,
            Edge::Right => 2,
            Edge::Top => 4,
            Edge::Bottom => 8,
        }
    }

    pub fn to_u8(self) -> (r: u8)
        ensures
            r == self.code(),
    {
        match self {
            Edge::Left => 0,
            Edge::Right => 1,
            Edge::Top => 2,
            Edge::Bottom => 3,
        }
    }

    pub fn from_u8(v: u8) -> (r: Option<Edge>)
        ensures
            r == Edge::of(v),
            r matches Some(e) ==> e.code() == v,
    {
        match v {
            0 => Some(Edge::Left),
            1 => Some(Edge::Right),
            2 => Some(Edge::Top),
            3 => Some(Edge::Bottom),
            _ => None,
        }
    }

    /// The edge a blob leaving `self` arrives at on the other screen.
    pub fn opposite(self) -> (r: Edge)
        ensures
            r == self.facing(),
    {
        match self {
            Edge::Left => Edge::Right,
            Edge::Right => Edge::Left,
            Edge::Top => Edge::Bottom,
            Edge::Bottom => Edge::Top,
        }
    }

    /// Index into a 4-bit edge mask.
    pub fn bit(self) -> (r: u8)
        ensures
            r == self.weight(),
            r == 1u8 << self.code(),
    {
        proof {
            assert(1u8 << 0u8 == 1 && 1u8 << 1u8 == 2 && 1u8 << 2u8 == 4 && 1u8 << 3u8 == 8)
                by (bit_vector);
        }
        1 << self.to_u8()
    }

    /// The edge's name in messages and on the command line.
    pub open spec fn label(self) -> Seq<char> {
        match self {
            Edge::Left => "left"@,
            Edge::Right => "right"@,
            Edge::Top => "top"@,
            Edge::Bottom => "bottom"@,
        }
    }

    pub fn name(self) -> (r: &'static str)
        ensures
            r@ == self.label(),
    {
        match self {
            Edge::Left => "left",
            Edge::Right => "right",
            Edge::Top => "top",
            Edge::Bottom => "bottom",
        }
    }
}

/// Why a throw was refused. The sender turns any of these back into a bounce.
#[derive(Copy, Clone, Debug, PartialEq, Eq, Structural)]
pub enum NackReason {
    /// The receiver is already holding as many blobs as it will take.
    Full,
    /// The frame did not parse.
    Malformed,
    /// The sender is not in this node's group.
    WrongGroup,
}

impl NackReason {
    /// The number that stands for the reason on the wire.
    pub open spec fn code(self) -> u8 {
        match self {
            NackReason::Full => 0,
            NackReason::Malformed => 1,
            NackReason::WrongGroup => 2,
        }
    }

    /// The reason that a number on the wire stands for.
    pub open spec fn of(v: u8) -> Option<NackReason> {
        if v == 0 {
            Some(NackReason::Full)
        } else if v == 1 {
            Some(NackReason::Malformed)
        } else if v == 2 {
            Some(NackReason::WrongGroup)
        } else {
            None
        }
    }

    pub fn to_u8(self) -> (r: u8)
        ensures
            r == self.code(),
    {
        match self {
            NackReason::Full => 0,
            NackReason::Malformed => 1,
            NackReason::WrongGroup => 2,
        }
    }

    pub fn from_u8(v: u8) -> (r: Option<NackReason>)
        ensures
            r == NackReason::of(v),
            r matches Some(n) ==> n.code() == v,
    {
        match v {
            0 => Some(NackReason::Full),
            1 => Some(NackReason::Malformed),
            2 => Some(NackReason::WrongGroup),
            _ => None,
        }
    }

    /// What the reason means to the person who threw.
    pub open spec fn meaning(self) -> Seq<char> {
        match self {
            NackReason::Full => "the other screen is full"@,
            NackReason::Malformed => "the other end could not read the throw"@,
            NackReason::WrongGroup => "the other end is in a different group"@,
        }
    }

    pub fn explain(self) -> (r: &'static str)
        ensures
            r@ == self.meaning(),
    {
        match self {
            NackReason::Full => "the other screen is full",
            NackReason::Malformed => "the other end could not read the throw",
            NackReason::WrongGroup => "the other end is in a different group",
        }
    }
}

/// Broadcast once a second so peers can find each other without configuration.
///
/// ```text
/// node_id     u64   random per process, stable for its lifetime
/// tcp_port    u16   where to send a THROW
/// screen_w    u32   logical pixels
/// screen_h    u32   logical pixels; the unit velocity is denominated in
/// blobs       u16   how many blobs are resident right now
/// capacity    u16   how many it will hold in total
/// group_len   u16
/// name_len    u16
/// group       utf8[group_len]
/// name        utf8[name_len]   human-readable, for logs only
/// ```
#[derive(Debug, PartialEq)]
pub struct Beacon {
    pub node_id: u64,
    pub tcp_port: u16,
    pub screen_w: u32,
    pub screen_h: u32,
    pub blobs: u16,
    pub capacity: u16,
    pub group: String,
    pub name: String,
}

/// What a [`Beacon`] says, its texts as characters.
pub struct BeaconView {
    pub node_id: u64,
    pub tcp_port: u16,
    pub screen_w: u32,
    pub screen_h: u32,
    pub blobs: u16,
    pub capacity: u16,
    pub group: Seq<char>,
    pub name: Seq<char>,
}

impl View for Beacon {
    type V = BeaconView;

    open spec fn view(&self) -> BeaconView {
        BeaconView {
            node_id: self.node_id,
            tcp_port: self.tcp_port,
            screen_w: self.screen_w,
            screen_h: self.screen_h,
            blobs: self.blobs,
            capacity: self.capacity,
            group: self.group@,
            name: self.name@,
        }
    }
}

impl Clone for Beacon {
    fn clone(&self) -> (r: Beacon)
        ensures
            r@ == self@,
    {
        Beacon {
            node_id: self.node_id,
            tcp_port: self.tcp_port,
            screen_w: self.screen_w,
            screen_h: self.screen_h,
            blobs: self.blobs,
            capacity: self.capacity,
            group: self.group.clone(),
            name: self.name.clone(),
        }
    }
}

/// One satellite's state, relative to the core, in units of the sender's orbit radius.
/// This is what makes an arriving blob still look thrown: it turns up stretched and
/// wobbling exactly as it left, rather than as a fresh round ball.
#[derive(Copy, Clone, Debug, PartialEq, Eq, Structural)]
pub struct SatState {
    pub off_x: Single,
    pub off_y: Single,
    pub vel_x: Single,
    pub vel_y: Single,
}

impl Default for SatState {
    fn default() -> (r: SatState)
        ensures
            r.off_x.bits == 0 && r.off_y.bits == 0 && r.vel_x.bits == 0 && r.vel_y.bits == 0,
    {
        let zero = Single { bits: 0 };
        SatState { off_x: zero, off_y: zero, vel_x: zero, vel_y: zero }
    }
}

/// A blob leaving one screen for another.
///
/// ```text
/// throw_id    u64   unique per sender; echoed in the ACK/NACK, and used to
///                   discard a duplicate delivery
/// from_node   u64
/// from_port   u16   the sender's own TCP listening port
/// edge        u8    Edge, from the SENDER's point of view
/// pad         u8
/// along       f32   0..=1 along that edge, where the core crossed
/// vel_x       f32   sender screen heights per second
/// vel_y       f32
/// sat_count   u16
/// pad2        u16
/// sats        SatState[sat_count]   16 bytes each
/// ```
///
/// A receiver whose blob has a different satellite count may ignore `sats` and start the
/// arriving blob at rest around its core: the throw still lands, it just does not carry
/// the wobble across.
#[derive(Debug, PartialEq)]
pub struct Throw {
    pub throw_id: u64,
    pub from_node: u64,
    /// The sender's own listening port. Combined with the connection's source address it
    /// is everything needed to throw back.
    pub from_port: u16,
    pub edge: Edge,
    pub along: Single,
    pub vel_x: Single,
    pub vel_y: Single,
    pub sats: Vec<SatState>,
}

/// What a [`Throw`] says.
pub struct ThrowView {
    pub throw_id: u64,
    pub from_node: u64,
    pub from_port: u16,
    pub edge: Edge,
    pub along: Single,
    pub vel_x: Single,
    pub vel_y: Single,
    pub sats: Seq<SatState>,
}

impl View for Throw {
    type V = ThrowView;

    open spec fn view(&self) -> ThrowView {
        ThrowView {
            throw_id: self.throw_id,
            from_node: self.from_node,
            from_port: self.from_port,
            edge: self.edge,
            along: self.along,
            vel_x: self.vel_x,
            vel_y: self.vel_y,
            sats: self.sats@,
        }
    }
}

impl Clone for Throw {
    fn clone(&self) -> (r: Throw)
        ensures
            r@ == self@,
    {
        let sats = self.sats.clone();
        assert(sats@ =~= self.sats@);
        Throw {
            throw_id: self.throw_id,
            from_node: self.from_node,
            from_port: self.from_port,
            edge: self.edge,
            along: self.along,
            vel_x: self.vel_x,
            vel_y: self.vel_y,
            sats,
        }
    }
}

/// Every message this version can carry, already parsed.
#[derive(Debug, PartialEq)]
pub enum Message {
    Beacon(Beacon),
    Throw(Throw),
    Ack(u64),
    Nack(u64, NackReason),
}

/// What a [`Message`] says.
pub enum MessageView {
    Beacon(BeaconView),
    Throw(ThrowView),
    Ack(u64),
    Nack(u64, NackReason),
}

impl View for Message {
    type V = MessageView;

    open spec fn view(&self) -> MessageView {
        match *self {
            Message::Beacon(b) => MessageView::Beacon(b@),
            Message::Throw(t) => MessageView::Throw(t@),
            Message::Ack(id) => MessageView::Ack(id),
            Message::Nack(id, reason) => MessageView::Nack(id, reason),
        }
    }
}

impl Clone for Message {
    fn clone(&self) -> (r: Message)
        ensures
            r@ == self@,
    {
        match self {
            Message::Beacon(b) => Message::Beacon(b.clone()),
            Message::Throw(t) => Message::Throw(t.clone()),
            Message::Ack(id) => Message::Ack(*id),
            Message::Nack(id, reason) => Message::Nack(*id, *reason),
        }
    }
}

// ---------------------------------------------------------------------------
// Encoding
// ---------------------------------------------------------------------------

/// A frame of the given kind around the given payload.
pub open spec fn framed(kind: Kind, payload: Seq<u8>) -> Seq<u8> {
    MAGIC@ + le_bytes(PROTOCOL_VERSION as nat, 2) + le_bytes(kind.code() as nat, 2) + le_bytes(
        payload.len(),
        4,
    ) + payload
}

/// The four bytes of a float.
pub open spec fn single_bytes(x: Single) -> Seq<u8> {
    le_bytes(x.bits as nat, 4)
}

/// The sixteen bytes of one satellite.
pub open spec fn sat_bytes(s: SatState) -> Seq<u8> {
    single_bytes(s.off_x) + single_bytes(s.off_y) + single_bytes(s.vel_x) + single_bytes(s.vel_y)
}

/// The bytes of all satellites, in order.
pub open spec fn sats_bytes(sats: Seq<SatState>) -> Seq<u8>
    decreases sats.len(),
{
    if sats.len() == 0 {
        Seq::empty()
    } else {
        sats_bytes(sats.drop_last()) + sat_bytes(sats.last())
    }
}

impl BeaconView {
    /// The 26 bytes before the two texts. The length fields hold the low 16 bits.
    pub open spec fn fixed(self) -> Seq<u8> {
        le_bytes(self.node_id as nat, 8) + le_bytes(self.tcp_port as nat, 2) + le_bytes(
            self.screen_w as nat,
            4,
        ) + le_bytes(self.screen_h as nat, 4) + le_bytes(self.blobs as nat, 2) + le_bytes(
            self.capacity as nat,
            2,
        ) + le_bytes(encode_utf8(self.group).len(), 2) + le_bytes(encode_utf8(self.name).len(), 2)
    }

    pub open spec fn payload(self) -> Seq<u8> {
        self.fixed() + encode_utf8(self.group) + encode_utf8(self.name)
    }
}

impl ThrowView {
    /// The 36 bytes before the satellites. The count field holds the low 16 bits.
    pub open spec fn fixed(self) -> Seq<u8> {
        le_bytes(self.throw_id as nat, 8) + le_bytes(self.from_node as nat, 8) + le_bytes(
            self.from_port as nat,
            2,
        ) + seq![self.edge.code(), 0u8] + single_bytes(self.along) + single_bytes(self.vel_x)
            + single_bytes(self.vel_y) + le_bytes(self.sats.len(), 2) + le_bytes(0, 2)
    }

    pub open spec fn payload(self) -> Seq<u8> {
        self.fixed() + sats_bytes(self.sats)
    }
}

/// The frame that carries a message.
pub open spec fn encoded(m: MessageView) -> Seq<u8> {
    match m {
        MessageView::Beacon(b) => framed(Kind::Beacon, b.payload()),
        MessageView::Throw(t) => framed(Kind::Throw, t.payload()),
        MessageView::Ack(id) => framed(Kind::Ack, le_bytes(id as nat, 8)),
        MessageView::Nack(id, reason) => framed(
            Kind::Nack,
            le_bytes(id as nat, 8) + seq![reason.code()],
        ),
    }
}

/// Appends the low 16 bits of a length.
fn put_len16(b: &mut Vec<u8>, n: usize)
    ensures
        final(b)@ == old(b)@ + le_bytes(n as nat, 2),
{
    proof {
        lemma_byte_ranges();
        lemma_le_bytes_mod(n as nat, 2);
    }
    put_u16(b, (n % 0x1_0000) as u16);
}

/// Appends the low 32 bits of a length.
fn put_len32(b: &mut Vec<u8>, n: usize)
    ensures
        final(b)@ == old(b)@ + le_bytes(n as nat, 4),
{
    proof {
        lemma_byte_ranges();
        lemma_le_bytes_mod(n as nat, 4);
    }
    put_u32(b, (n as u64 % 0x1_0000_0000) as u32);
}

fn put_f32(b: &mut Vec<u8>, v: Single)
    ensures
        final(b)@ == old(b)@ + single_bytes(v),
{
    put_u32(b, v.bits);
}

/// Wrap a payload in the standard frame header.
pub fn frame(kind: Kind, payload: &[u8]) -> (out: Vec<u8>)
    ensures
        out@ == framed(kind, payload@),
{
    let mut out: Vec<u8> = Vec::new();
    put_all(&mut out, &MAGIC);
    assert(out@ =~= MAGIC@);
    put_u16(&mut out, PROTOCOL_VERSION);
    put_u16(&mut out, kind.to_u16());
    put_len32(&mut out, payload.len());
    put_all(&mut out, payload);
    out
}

impl Beacon {
    /// The frame that announces this node.
    pub fn encode(&self) -> (out: Vec<u8>)
        ensures
            out@ == encoded(MessageView::Beacon(self@)),
    {
        let g = self.group.as_str().as_bytes();
        let n = self.name.as_str().as_bytes();
        let mut p: Vec<u8> = Vec::new();
        put_u64(&mut p, self.node_id);
        put_u16(&mut p, self.tcp_port);
        put_u32(&mut p, self.screen_w);
        put_u32(&mut p, self.screen_h);
        put_u16(&mut p, self.blobs);
        put_u16(&mut p, self.capacity);
        put_len16(&mut p, g.len());
        put_len16(&mut p, n.len());
        assert(p@ =~= self@.fixed());
        put_all(&mut p, g);
        put_all(&mut p, n);
        frame(Kind::Beacon, p.as_slice())
    }
}

impl Throw {
    /// The frame that carries this throw.
    pub fn encode(&self) -> (out: Vec<u8>)
        ensures
            out@ == encoded(MessageView::Throw(self@)),
    {
        let mut p: Vec<u8> = Vec::new();
        put_u64(&mut p, self.throw_id);
        put_u64(&mut p, self.from_node);
        put_u16(&mut p, self.from_port);
        p.push(self.edge.to_u8());
        p.push(0);
        put_f32(&mut p, self.along);
        put_f32(&mut p, self.vel_x);
        put_f32(&mut p, self.vel_y);
        put_len16(&mut p, self.sats.len());
        put_u16(&mut p, 0);
        assert(p@ =~= self@.fixed());
        let mut k: usize = 0;
        while k < self.sats.len()
            invariant
                k <= self.sats.len(),
                p@ == self@.fixed() + sats_bytes(self.sats@.take(k as int)),
            decreases self.sats.len() - k,
        {
            let s = self.sats[k];
            put_f32(&mut p, s.off_x);
            put_f32(&mut p, s.off_y);
            put_f32(&mut p, s.vel_x);
            put_f32(&mut p, s.vel_y);
            k = k + 1;
            proof {
                let head = self.sats@.take(k as int);
                assert(head.drop_last() =~= self.sats@.take(k - 1));
                assert(p@ =~= self@.fixed() + sats_bytes(head));
            }
        }
        assert(self.sats@.take(k as int) =~= self.sats@);
        frame(Kind::Throw, p.as_slice())
    }
}

/// `ACK` is just the id being acknowledged.
pub fn encode_ack(throw_id: u64) -> (out: Vec<u8>)
    ensures
        out@ == encoded(MessageView::Ack(throw_id)),
{
    let mut p: Vec<u8> = Vec::new();
    put_u64(&mut p, throw_id);
    assert(p@ =~= le_bytes(throw_id as nat, 8));
    frame(Kind::Ack, p.as_slice())
}

/// `NACK` is the id plus one byte saying why, so the sender can tell the user something
/// better than "it did not work".
pub fn encode_nack(throw_id: u64, reason: NackReason) -> (out: Vec<u8>)
    ensures
        out@ == encoded(MessageView::Nack(throw_id, reason)),
{
    let mut p: Vec<u8> = Vec::new();
    put_u64(&mut p, throw_id);
    p.push(reason.to_u8());
    assert(p@ =~= le_bytes(throw_id as nat, 8) + seq![reason.code()]);
    frame(Kind::Nack, p.as_slice())
}

// ---------------------------------------------------------------------------
// Decoding
// ---------------------------------------------------------------------------

#[derive(Copy, Clone, Debug, PartialEq, Eq, Structural)]
pub enum DecodeError {
    /// Fewer bytes than the format requires. On TCP this means "wait for more".
    Truncated,
    /// Not one of our frames at all.
    BadMagic,
    /// Our magic, a version we do not speak.
    BadVersion(u16),
    /// A kind this version does not know. Ignorable, not fatal.
    UnknownKind(u16),
    /// `length` exceeds `MAX_FRAME_LEN`.
    TooLong(usize),
    BadUtf8,
    BadEnum,
    /// A float that was NaN or infinite.
    NotFinite,
}

impl DecodeError {
    /// The error in words.
    pub open spec fn words(self) -> Seq<char> {
        match self {
            DecodeError::Truncated => "frame is short"@,
            DecodeError::BadMagic => "not a liquidMetal frame"@,
            DecodeError::BadVersion(v) => "protocol version "@ + decimal(v as nat) + ", we speak "@
                + decimal(PROTOCOL_VERSION as nat),
            DecodeError::UnknownKind(k) => "unknown message kind "@ + decimal(k as nat),
            DecodeError::TooLong(n) => "frame claims "@ + decimal(n as nat) + " bytes"@,
            DecodeError::BadUtf8 => "a string field was not UTF-8"@,
            DecodeError::BadEnum => "an enum field was out of range"@,
            DecodeError::NotFinite => "a float field was NaN or infinite"@,
        }
    }

    /// The error as a message for a log.
    pub fn describe(&self) -> (out: String)
        ensures
            out@ == self.words(),
    {
        match *self {
            DecodeError::Truncated => String::from_str("frame is short"),
            DecodeError::BadMagic => String::from_str("not a liquidMetal frame"),
            DecodeError::BadVersion(v) => {
                let mut out = String::from_str("protocol version ");
                push_decimal(&mut out, v as u64);
                out.append(", we speak ");
                push_decimal(&mut out, PROTOCOL_VERSION as u64);
                out
            },
            DecodeError::UnknownKind(k) => {
                let mut out = String::from_str("unknown message kind ");
                push_decimal(&mut out, k as u64);
                out
            },
            DecodeError::TooLong(n) => {
                let mut out = String::from_str("frame claims ");
                push_decimal(&mut out, n as u64);
                out.append(" bytes");
                out
            },
            DecodeError::BadUtf8 => String::from_str("a string field was not UTF-8"),
            DecodeError::BadEnum => String::from_str("an enum field was out of range"),
            DecodeError::NotFinite => String::from_str("a float field was NaN or infinite"),
        }
    }
}

/// A parsed frame header plus the payload bounds inside the input buffer.
#[derive(Debug, PartialEq, Eq)]
pub struct Header {
    pub kind: u16,
    pub payload: std::ops::Range<usize>,
}

impl Clone for Header {
    fn clone(&self) -> (r: Header)
        ensures
            r == *self,
    {
        Header { kind: self.kind, payload: self.payload.start..self.payload.end }
    }
}

impl Header {
    /// Total bytes this frame occupies.
    pub fn total_len(&self) -> (r: usize)
        ensures
            r == self.payload.end,
    {
        self.payload.end
    }
}

/// What the first bytes of `buf` say: the kind and the payload's length, or why they are
/// no header of a whole frame.
pub open spec fn header_of(buf: Seq<u8>) -> Result<(u16, nat), DecodeError> {
    let length = le_at(buf, 8, 4);
    if buf.len() < HEADER_LEN {
        Err(DecodeError::Truncated)
    } else if buf.take(4) != MAGIC@ {
        Err(DecodeError::BadMagic)
    } else if le_at(buf, 4, 2) != PROTOCOL_VERSION {
        Err(DecodeError::BadVersion(le_at(buf, 4, 2) as u16))
    } else if length > MAX_FRAME_LEN {
        Err(DecodeError::TooLong(length as usize))
    } else if buf.len() < HEADER_LEN + length {
        Err(DecodeError::Truncated)
    } else {
        Ok((le_at(buf, 6, 2) as u16, length))
    }
}

/// Parse just the header. Returns `Truncated` when `buf` does not yet hold the whole
/// frame, which on a stream transport means "read more and try again".
pub fn parse_header(buf: &[u8]) -> (r: Result<Header, DecodeError>)
    ensures
        match r {
            Ok(h) => header_of(buf@) == Ok::<(u16, nat), DecodeError>(
                (h.kind, (h.payload.end - HEADER_LEN) as nat),
            ) && h.payload.start == HEADER_LEN && h.payload.end >= HEADER_LEN && h.payload.end
                <= buf@.len(),
            Err(e) => header_of(buf@) == Err::<(u16, nat), DecodeError>(e),
        },
{
    if buf.len() < HEADER_LEN {
        return Err(DecodeError::Truncated);
    }
    if buf[0] != MAGIC[0] || buf[1] != MAGIC[1] || buf[2] != MAGIC[2] || buf[3] != MAGIC[3] {
        assert(buf@.take(4)[0] == buf@[0] && buf@.take(4)[1] == buf@[1] && buf@.take(4)[2]
            == buf@[2] && buf@.take(4)[3] == buf@[3]);
        return Err(DecodeError::BadMagic);
    }
    assert(buf@.take(4) =~= MAGIC@);
    let version: u16 = read_u16(slice_subrange(buf, 4, 6));
    if version != PROTOCOL_VERSION {
        return Err(DecodeError::BadVersion(version));
    }
    let kind: u16 = read_u16(slice_subrange(buf, 6, 8));
    let len: usize = read_u32(slice_subrange(buf, 8, 12)) as usize;
    if len > MAX_FRAME_LEN {
        return Err(DecodeError::TooLong(len));
    }
    if buf.len() < HEADER_LEN + len {
        return Err(DecodeError::Truncated);
    }
    Ok(Header { kind, payload: HEADER_LEN..HEADER_LEN + len })
}

/// A cursor that can only fail, never panic, on a short or malformed buffer.
struct Cursor<'a> {
    b: &'a [u8],
    i: usize,
}

/// The float whose bytes stand at `at`.
pub open spec fn single_at(p: Seq<u8>, at: int) -> Single {
    Single { bits: le_at(p, at, 4) as u32 }
}

/// `String::from_utf8`: the text that the bytes spell, if they are UTF-8 at all.
#[verifier::external_body]
fn text_of(bytes: &[u8]) -> (r: Option<String>)
    ensures
        match r {
            Some(s) => valid_utf8(bytes@) && s@ == decode_utf8(bytes@),
            None => !valid_utf8(bytes@),
        },
{
    String::from_utf8(bytes.to_vec()).ok()
}

impl<'a> Cursor<'a> {
    spec fn wf(self) -> bool {
        self.i <= self.b@.len()
    }

    /// Whether `n` more bytes are there.
    spec fn holds(self, n: int) -> bool {
        self.i + n <= self.b@.len()
    }

    /// The cursor, `n` bytes further on.
    spec fn past(self, n: int, next: Cursor<'a>) -> bool {
        next.b == self.b && next.i == self.i + n
    }

    fn new(b: &'a [u8]) -> (c: Cursor<'a>)
        ensures
            c.b == b,
            c.i == 0,
    {
        Cursor { b, i: 0 }
    }

    /// The next `n` bytes. With fewer left, the cursor stays where it is.
    fn take(&mut self, n: usize) -> (r: Result<&'a [u8], DecodeError>)
        requires
            old(self).wf(),
        ensures
            final(self).wf(),
            match r {
                Ok(s) => old(self).holds(n as int) && old(self).past(n as int, *final(self)) && s@
                    == old(self).b@.subrange(old(self).i as int, old(self).i + n),
                Err(e) => !old(self).holds(n as int) && e == DecodeError::Truncated
                    && *final(self) == *old(self),
            },
    {
        let len: usize = self.b.len();
        let end: usize = match self.i.checked_add(n) {
            Some(end) => end,
            None => return Err(DecodeError::Truncated),
        };
        if end > len {
            return Err(DecodeError::Truncated);
        }
        let s = slice_subrange(self.b, self.i, end);
        self.i = end;
        Ok(s)
    }

    fn u8(&mut self) -> (r: Result<u8, DecodeError>)
        requires
            old(self).wf(),
        ensures
            final(self).wf(),
            match r {
                Ok(v) => old(self).holds(1) && old(self).past(1, *final(self)) && v
                    == old(self).b@[old(self).i as int],
                Err(e) => !old(self).holds(1) && e == DecodeError::Truncated
                    && *final(self) == *old(self),
            },
    {
        let s = self.take(1)?;
        Ok(s[0])
    }

    fn u16(&mut self) -> (r: Result<u16, DecodeError>)
        requires
            old(self).wf(),
        ensures
            final(self).wf(),
            match r {
                Ok(v) => old(self).holds(2) && old(self).past(2, *final(self)) && v == le_at(
                    old(self).b@,
                    old(self).i as int,
                    2,
                ),
                Err(e) => !old(self).holds(2) && e == DecodeError::Truncated
                    && *final(self) == *old(self),
            },
    {
        let s = self.take(2)?;
        Ok(read_u16(s))
    }

    fn u32(&mut self) -> (r: Result<u32, DecodeError>)
        requires
            old(self).wf(),
        ensures
            final(self).wf(),
            match r {
                Ok(v) => old(self).holds(4) && old(self).past(4, *final(self)) && v == le_at(
                    old(self).b@,
                    old(self).i as int,
                    4,
                ),
                Err(e) => !old(self).holds(4) && e == DecodeError::Truncated
                    && *final(self) == *old(self),
            },
    {
        let s = self.take(4)?;
        Ok(read_u32(s))
    }

    fn u64(&mut self) -> (r: Result<u64, DecodeError>)
        requires
            old(self).wf(),
        ensures
            final(self).wf(),
            match r {
                Ok(v) => old(self).holds(8) && old(self).past(8, *final(self)) && v == le_at(
                    old(self).b@,
                    old(self).i as int,
                    8,
                ),
                Err(e) => !old(self).holds(8) && e == DecodeError::Truncated
                    && *final(self) == *old(self),
            },
    {
        let s = self.take(8)?;
        Ok(read_u64(s))
    }

    /// A NaN or infinity would poison the receiving simulation forever, and it can only
    /// arrive from a buggy or hostile peer, so it is rejected here.
    fn single(&mut self) -> (r: Result<Single, DecodeError>)
        requires
            old(self).wf(),
        ensures
            final(self).wf(),
            match r {
                Ok(v) => old(self).holds(4) && old(self).past(4, *final(self)) && v == single_at(
                    old(self).b@,
                    old(self).i as int,
                ) && v.finite(),
                Err(e) => if old(self).holds(4) {
                    e == DecodeError::NotFinite && !single_at(
                        old(self).b@,
                        old(self).i as int,
                    ).finite()
                } else {
                    e == DecodeError::Truncated && *final(self) == *old(self)
                },
            },
    {
        let bits: u32 = self.u32()?;
        let v = Single { bits };
        if v.is_finite() {
            Ok(v)
        } else {
            Err(DecodeError::NotFinite)
        }
    }

    fn utf8(&mut self, n: usize) -> (r: Result<String, DecodeError>)
        requires
            old(self).wf(),
        ensures
            final(self).wf(),
            ({
                let bytes = old(self).b@.subrange(old(self).i as int, old(self).i + n);
                match r {
                    Ok(v) => old(self).holds(n as int) && old(self).past(n as int, *final(self))
                        && valid_utf8(bytes) && v@ == decode_utf8(bytes),
                    Err(e) => if old(self).holds(n as int) {
                        e == DecodeError::BadUtf8 && !valid_utf8(bytes)
                    } else {
                        e == DecodeError::Truncated && *final(self) == *old(self)
                    },
                }
            }),
    {
        let s = self.take(n)?;
        match text_of(s) {
            Some(v) => Ok(v),
            None => Err(DecodeError::BadUtf8),
        }
    }
}

/// The beacon that a payload holds.
pub open spec fn beacon_of(p: Seq<u8>) -> Result<BeaconView, DecodeError> {
    let group_end = 26 + le_at(p, 22, 2);
    let name_end = group_end + le_at(p, 24, 2);
    if p.len() < 26 || p.len() < group_end {
        Err(DecodeError::Truncated)
    } else if !valid_utf8(p.subrange(26, group_end as int)) {
        Err(DecodeError::BadUtf8)
    } else if p.len() < name_end {
        Err(DecodeError::Truncated)
    } else if !valid_utf8(p.subrange(group_end as int, name_end as int)) {
        Err(DecodeError::BadUtf8)
    } else {
        Ok(
            BeaconView {
                node_id: le_at(p, 0, 8) as u64,
                tcp_port: le_at(p, 8, 2) as u16,
                screen_w: le_at(p, 10, 4) as u32,
                screen_h: le_at(p, 14, 4) as u32,
                blobs: le_at(p, 18, 2) as u16,
                capacity: le_at(p, 20, 2) as u16,
                group: decode_utf8(p.subrange(26, group_end as int)),
                name: decode_utf8(p.subrange(group_end as int, name_end as int)),
            },
        )
    }
}

/// Whether one of the first `n` floats from `at` on is there in full and not finite.
pub open spec fn has_wild_single(p: Seq<u8>, at: int, n: int) -> bool {
    exists|k: int| wild_single(p, at, n, k)
}

/// Whether float `k` of the `n` from `at` on is there in full and not finite.
pub open spec fn wild_single(p: Seq<u8>, at: int, n: int, k: int) -> bool {
    0 <= k < n && at + 4 * k + 4 <= p.len() && !single_at(p, at + 4 * k).finite()
}

/// What is wrong with the `n` floats from `at` on, if anything.
pub open spec fn singles_error(p: Seq<u8>, at: int, n: int) -> Option<DecodeError> {
    if has_wild_single(p, at, n) {
        Some(DecodeError::NotFinite)
    } else if p.len() < at + 4 * n {
        Some(DecodeError::Truncated)
    } else {
        None
    }
}

/// The satellite whose bytes stand at `at`.
pub open spec fn sat_at(p: Seq<u8>, at: int) -> SatState {
    SatState {
        off_x: single_at(p, at),
        off_y: single_at(p, at + 4),
        vel_x: single_at(p, at + 8),
        vel_y: single_at(p, at + 12),
    }
}

/// The throw that a payload holds. The crossing is clamped rather than rejected: a peer
/// that computes it a hair outside its own edge is not wrong enough to drop a throw for.
pub open spec fn throw_of(p: Seq<u8>) -> Result<ThrowView, DecodeError> {
    let n = le_at(p, 32, 2);
    if p.len() < 19 {
        Err(DecodeError::Truncated)
    } else if Edge::of(p[18]) is None {
        Err(DecodeError::BadEnum)
    } else if let Some(e) = singles_error(p, 20, 3) {
        Err(e)
    } else if p.len() < 36 {
        Err(DecodeError::Truncated)
    } else if let Some(e) = singles_error(p, 36, (4 * n) as int) {
        Err(e)
    } else {
        Ok(
            ThrowView {
                throw_id: le_at(p, 0, 8) as u64,
                from_node: le_at(p, 8, 8) as u64,
                from_port: le_at(p, 16, 2) as u16,
                edge: Edge::of(p[18])->0,
                along: single_at(p, 20).clamped(),
                vel_x: single_at(p, 24),
                vel_y: single_at(p, 28),
                sats: Seq::new(n, |k: int| sat_at(p, 36 + 16 * k)),
            },
        )
    }
}

/// The message that a payload of the given kind holds.
pub open spec fn message_of(kind: Kind, p: Seq<u8>) -> Result<MessageView, DecodeError> {
    match kind {
        Kind::Beacon => match beacon_of(p) {
            Ok(b) => Ok(MessageView::Beacon(b)),
            Err(e) => Err(e),
        },
        Kind::Throw => match throw_of(p) {
            Ok(t) => Ok(MessageView::Throw(t)),
            Err(e) => Err(e),
        },
        Kind::Ack => if p.len() < 8 {
            Err(DecodeError::Truncated)
        } else {
            Ok(MessageView::Ack(le_at(p, 0, 8) as u64))
        },
        Kind::Nack => if p.len() < 9 {
            Err(DecodeError::Truncated)
        } else {
            match NackReason::of(p[8]) {
                Some(reason) => Ok(MessageView::Nack(le_at(p, 0, 8) as u64, reason)),
                None => Err(DecodeError::BadEnum),
            }
        },
    }
}

/// The message at the front of `buf` and the bytes its frame takes up.
pub open spec fn decoded(buf: Seq<u8>) -> Result<(MessageView, nat), DecodeError> {
    match header_of(buf) {
        Err(e) => Err(e),
        Ok((code, length)) => match Kind::of(code) {
            None => Err(DecodeError::UnknownKind(code)),
            Some(kind) => match message_of(
                kind,
                buf.subrange(HEADER_LEN as int, HEADER_LEN + length),
            ) {
                Ok(m) => Ok((m, HEADER_LEN as nat + length)),
                Err(e) => Err(e),
            },
        },
    }
}

fn decode_beacon(p: &[u8]) -> (r: Result<Beacon, DecodeError>)
    ensures
        match r {
            Ok(b) => beacon_of(p@) == Ok::<BeaconView, DecodeError>(b@),
            Err(e) => beacon_of(p@) == Err::<BeaconView, DecodeError>(e),
        },
{
    let mut c = Cursor::new(p);
    let node_id: u64 = c.u64()?;
    let tcp_port: u16 = c.u16()?;
    let screen_w: u32 = c.u32()?;
    let screen_h: u32 = c.u32()?;
    let blobs: u16 = c.u16()?;
    let capacity: u16 = c.u16()?;
    let gl: usize = c.u16()? as usize;
    let nl: usize = c.u16()? as usize;
    let group = c.utf8(gl)?;
    let name = c.utf8(nl)?;
    Ok(Beacon { node_id, tcp_port, screen_w, screen_h, blobs, capacity, group, name })
}

/// The next float, on the way through a run of `n` of them from `start` on, of which
/// those before float `k` are finite.
fn next_single(c: &mut Cursor<'_>, Ghost(start): Ghost<int>, Ghost(n): Ghost<int>, Ghost(k): Ghost<int>) -> (r: Result<Single, DecodeError>)
    requires
        old(c).wf(),
        0 <= start,
        0 <= k < n,
        old(c).i == start + 4 * k,
        !has_wild_single(old(c).b@, start, k),
    ensures
        final(c).wf(),
        match r {
            Ok(v) => old(c).past(4, *final(c)) && v == single_at(old(c).b@, start + 4 * k)
                && !has_wild_single(old(c).b@, start, k + 1) && v.finite(),
            Err(e) => singles_error(old(c).b@, start, n) == Some(e),
        },
{
    let ghost p = c.b@;
    let r = c.single();
    proof {
        match r {
            Ok(v) => {
                let after = k + 1;
                assert forall|j: int| !wild_single(p, start, after, j) by {
                    assert(!wild_single(p, start, k, j));
                }
            },
            Err(e) => {
                if p.len() >= start + 4 * k + 4 {
                    assert(wild_single(p, start, n, k));
                } else {
                    assert forall|j: int| !wild_single(p, start, n, j) by {
                        assert(!wild_single(p, start, k, j));
                    }
                }
            },
        }
    }
    r
}

fn decode_throw(p: &[u8]) -> (r: Result<Throw, DecodeError>)
    ensures
        match r {
            Ok(t) => throw_of(p@) == Ok::<ThrowView, DecodeError>(t@),
            Err(e) => throw_of(p@) == Err::<ThrowView, DecodeError>(e),
        },
{
    let mut c = Cursor::new(p);
    let throw_id: u64 = c.u64()?;
    let from_node: u64 = c.u64()?;
    let from_port: u16 = c.u16()?;
    let edge = match Edge::from_u8(c.u8()?) {
        Some(edge) => edge,
        None => return Err(DecodeError::BadEnum),
    };
    proof {
        assert(p@.len() < 20 ==> !has_wild_single(p@, 20, 3));
        assert(!has_wild_single(p@, 20, 0));
    }
    c.take(1)?;
    let along = next_single(&mut c, Ghost(20int), Ghost(3int), Ghost(0int))?;
    let vel_x = next_single(&mut c, Ghost(20int), Ghost(3int), Ghost(1int))?;
    let vel_y = next_single(&mut c, Ghost(20int), Ghost(3int), Ghost(2int))?;
    let n: usize = c.u16()? as usize;
    c.u16()?;
    let mut sats: Vec<SatState> = Vec::new();
    let mut k: usize = 0;
    let ghost total = 4 * n as int;
    assert(!has_wild_single(p@, 36, 0));
    while k < n
        invariant
            k <= n,
            total == 4 * n,
            c.wf(),
            c.b == p,
            c.i == 36 + 16 * k,
            !has_wild_single(p@, 36, 4 * k),
            sats@.len() == k,
            forall|j: int| 0 <= j < k ==> sats@[j] == sat_at(p@, 36 + 16 * j),
            n == le_at(p@, 32, 2),
            p@.len() >= 36,
            Edge::of(p@[18]) is Some,
            singles_error(p@, 20, 3) is None,
        decreases n - k,
    {
        let ghost f = 4 * k as int;
        let off_x = next_single(&mut c, Ghost(36int), Ghost(total), Ghost(f))?;
        let off_y = next_single(&mut c, Ghost(36int), Ghost(total), Ghost(f + 1))?;
        let vel_x = next_single(&mut c, Ghost(36int), Ghost(total), Ghost(f + 2))?;
        let vel_y = next_single(&mut c, Ghost(36int), Ghost(total), Ghost(f + 3))?;
        sats.push(SatState { off_x, off_y, vel_x, vel_y });
        k = k + 1;
    }
    let out = Throw {
        throw_id,
        from_node,
        from_port,
        edge,
        along: along.clamp_unit(),
        vel_x,
        vel_y,
        sats,
    };
    proof {
        assert(out.sats@ =~= Seq::new(n as nat, |k: int| sat_at(p@, 36 + 16 * k)));
    }
    Ok(out)
}

/// Parse one whole frame from the front of `buf`, returning the message and how many
/// bytes it consumed.
pub fn decode(buf: &[u8]) -> (r: Result<(Message, usize), DecodeError>)
    ensures
        match r {
            Ok((m, used)) => decoded(buf@) == Ok::<(MessageView, nat), DecodeError>(
                (m@, used as nat),
            ) && used <= buf@.len(),
            Err(e) => decoded(buf@) == Err::<(MessageView, nat), DecodeError>(e),
        },
{
    let h = parse_header(buf)?;
    let total: usize = h.total_len();
    let p = slice_subrange(buf, h.payload.start, h.payload.end);
    let kind = match Kind::from_u16(h.kind) {
        Some(kind) => kind,
        None => return Err(DecodeError::UnknownKind(h.kind)),
    };
    let msg = match kind {
        Kind::Beacon => Message::Beacon(decode_beacon(p)?),
        Kind::Throw => Message::Throw(decode_throw(p)?),
        Kind::Ack => {
            let mut c = Cursor::new(p);
            Message::Ack(c.u64()?)
        },
        Kind::Nack => {
            let mut c = Cursor::new(p);
            let id: u64 = c.u64()?;
            match NackReason::from_u8(c.u8()?) {
                Some(reason) => Message::Nack(id, reason),
                None => return Err(DecodeError::BadEnum),
            }
        },
    };
    Ok((msg, total))
}

} // verus!
