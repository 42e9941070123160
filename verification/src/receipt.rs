//! The sender's side of a throw: waiting for the receipt.

use crate::address::{Address, AddressView};
use crate::net::{NetEvent, NetEventView};
use crate::wire::{
    decode, decoded, header_of, parse_header, DecodeError, Message, MessageView, NackReason,
    HEADER_LEN,
};
use vstd::prelude::*;
use vstd::slice::slice_subrange;

verus! {

/// How long to wait for the receipt, in nanoseconds, before giving up and bouncing the
/// blob back.
pub const ACK_TIMEOUT: u64 = 900_000_000;

/// The peer's answer to a throw.
#[derive(Copy, Clone, Debug, PartialEq, Eq, Structural)]
pub enum Delivery {
    Ack,
    Nack(NackReason),
}

/// What came of one read from the connection.
#[derive(Debug)]
pub enum Reading {
    /// The peer closed the connection.
    Closed,
    Bytes(Vec<u8>),
    /// Nothing came within the read timeout.
    TimedOut,
    /// The read failed, for this reason.
    Failed(String),
}

/// What a [`Reading`] is.
pub enum ReadingView {
    Closed,
    Bytes(Seq<u8>),
    TimedOut,
    Failed(Seq<char>),
}

impl View for Reading {
    type V = ReadingView;

    open spec fn view(&self) -> ReadingView {
        match *self {
            Reading::Closed => ReadingView::Closed,
            Reading::Bytes(b) => ReadingView::Bytes(b@),
            Reading::TimedOut => ReadingView::TimedOut,
            Reading::Failed(e) => ReadingView::Failed(e@),
        }
    }
}

/// What a run of frames has to say about a throw.
pub enum Word {
    /// Nothing yet; the bytes that are left begin an unfinished frame.
    Nothing(Seq<u8>),
    Answer(Delivery),
    /// A frame did not parse.
    Broken(DecodeError),
}

/// The answer to a throw in the bytes of a connection. Receipts for other throws, and
/// frames that are no receipts at all, are passed over.
pub open spec fn word_on(throw_id: u64, buf: Seq<u8>) -> Word
    decreases buf.len(),
{
    match decoded(buf) {
        Ok((m, used)) => if m == MessageView::Ack(throw_id) {
            Word::Answer(Delivery::Ack)
        } else if m is Nack && m->Nack_0 == throw_id {
            Word::Answer(Delivery::Nack(m->Nack_1))
        } else {
            word_on(throw_id, buf.skip(used as int))
        },
        Err(DecodeError::Truncated) => Word::Nothing(buf),
        Err(DecodeError::UnknownKind(_)) => word_on(
            throw_id,
            buf.skip(HEADER_LEN + (header_of(buf)->Ok_0).1),
        ),
        Err(e) => Word::Broken(e),
    }
}

/// What one more read means to a throw, of whose answer `buf` was read before: what came of
/// it, or nothing yet.
pub open spec fn heeded(throw_id: u64, buf: Seq<u8>, reading: ReadingView) -> Option<
    Result<Delivery, Seq<char>>,
> {
    match reading {
        ReadingView::Closed => Some(Err("the peer closed the connection without a receipt"@)),
        ReadingView::TimedOut => Some(Err("no receipt within the deadline"@)),
        ReadingView::Failed(e) => Some(Err("reading the receipt failed: "@ + e)),
        ReadingView::Bytes(b) => match word_on(throw_id, buf + b) {
            Word::Nothing(_) => None,
            Word::Answer(d) => Some(Ok(d)),
            Word::Broken(e) => Some(Err("the receipt did not parse: "@ + e.words())),
        },
    }
}

/// What went wrong before there was anything to wait for.
#[derive(Debug)]
pub enum Setback {
    /// The peer at this address could not be reached.
    Unreachable(Address),
    ReadTimeout,
    WriteTimeout,
    /// The frame could not be sent.
    Unsent,
}

/// What a [`Setback`] is.
pub enum SetbackView {
    Unreachable(AddressView),
    ReadTimeout,
    WriteTimeout,
    Unsent,
}

impl View for Setback {
    type V = SetbackView;

    open spec fn view(&self) -> SetbackView {
        match *self {
            Setback::Unreachable(addr) => SetbackView::Unreachable(addr@),
            Setback::ReadTimeout => SetbackView::ReadTimeout,
            Setback::WriteTimeout => SetbackView::WriteTimeout,
            Setback::Unsent => SetbackView::Unsent,
        }
    }
}

impl SetbackView {
    /// The setback in words, with the reason that the system gave.
    pub open spec fn words(self, why: Seq<char>) -> Seq<char> {
        match self {
            SetbackView::Unreachable(addr) => "could not reach "@ + addr.written() + ": "@ + why,
            SetbackView::ReadTimeout => "could not set a read timeout: "@ + why,
            SetbackView::WriteTimeout => "could not set a write timeout: "@ + why,
            SetbackView::Unsent => "could not send the throw: "@ + why,
        }
    }
}

impl Setback {
    /// The setback in words, with the reason that the system gave.
    pub fn describe(&self, why: &str) -> (out: String)
        ensures
            out@ == self@.words(why@),
    {
        let mut out = match self {
            Setback::Unreachable(addr) => {
                let mut out = String::from_str("could not reach ");
                out.append(addr.text().as_str());
                out.append(": ");
                out
            },
            Setback::ReadTimeout => String::from_str("could not set a read timeout: "),
            Setback::WriteTimeout => String::from_str("could not set a write timeout: "),
            Setback::Unsent => String::from_str("could not send the throw: "),
        };
        out.append(why);
        out
    }
}

/// One turn of the wait for a receipt: when the deadline was asked about, and what the read
/// after that brought, if there still was one.
pub struct Attempt {
    pub at: u64,
    pub reading: ReadingView,
}

/// What a whole wait comes to: turn by turn [`Awaiting::expired`] is asked and then, if there
/// is time left, [`Awaiting::on_read`] told what came, until there is an outcome. `None` if
/// after all these turns the wait still goes on.
pub open spec fn awaited(
    throw_id: u64,
    deadline: u64,
    buf: Seq<u8>,
    turns: Seq<Attempt>,
) -> Option<Result<Delivery, Seq<char>>>
    decreases turns.len(),
{
    if turns.len() == 0 {
        None
    } else if turns[0].at >= deadline {
        Some(Err("no receipt within the deadline"@))
    } else {
        match heeded(throw_id, buf, turns[0].reading) {
            Some(outcome) => Some(outcome),
            None => awaited(
                throw_id,
                deadline,
                word_on(throw_id, buf + turns[0].reading->Bytes_0)->Nothing_0,
                turns.skip(1),
            ),
        }
    }
}

/// What a whole delivery comes to: a setback at the start, or what the wait comes to.
pub open spec fn delivered(
    throw_id: u64,
    setback: Option<(SetbackView, Seq<char>)>,
    deadline: u64,
    turns: Seq<Attempt>,
) -> Option<Result<Delivery, Seq<char>>> {
    match setback {
        Some((what, why)) => Some(Err(what.words(why))),
        None => awaited(throw_id, deadline, Seq::empty(), turns),
    }
}

/// The event that tells what came of a throw to the peer called `peer`.
pub open spec fn reported(
    throw_id: u64,
    peer: Seq<char>,
    outcome: Result<Delivery, Seq<char>>,
) -> NetEventView {
    match outcome {
        Ok(Delivery::Ack) => NetEventView::Landed { throw_id, peer },
        Ok(Delivery::Nack(why)) => NetEventView::Refused { throw_id, peer, why },
        Err(why) => NetEventView::Lost { throw_id, peer, why },
    }
}

/// A throw that has been sent and not been answered yet.
#[derive(Debug)]
pub struct Awaiting {
    pub throw_id: u64,
    /// When to give up.
    pub deadline: u64,
    /// What has been read and is not a whole frame yet.
    pub buf: Vec<u8>,
}

/// What a delivery that failed, or one that was answered, comes to.
pub open spec fn outcome_view(r: Result<Delivery, String>) -> Result<Delivery, Seq<char>> {
    match r {
        Ok(d) => Ok(d),
        Err(why) => Err(why@),
    }
}

impl Awaiting {
    /// Starts to wait at `now`.
    pub fn new(throw_id: u64, now: u64) -> (r: Awaiting)
        ensures
            r.throw_id == throw_id,
            r.deadline == (if now + ACK_TIMEOUT <= u64::MAX {
                now + ACK_TIMEOUT
            } else {
                u64::MAX as int
            }),
            now + 900_000_000 <= u64::MAX ==> r.deadline == now + 900_000_000,
            r.buf@.len() == 0,
    {
        Awaiting { throw_id, deadline: now.saturating_add(ACK_TIMEOUT), buf: Vec::new() }
    }

    /// Whether the wait is over; asked before each read.
    pub fn expired(&self, now: u64) -> (r: Option<String>)
        ensures
            r is Some <==> now >= self.deadline,
            r matches Some(why) ==> why@ == "no receipt within the deadline"@,
    {
        if now >= self.deadline {
            Some(String::from_str("no receipt within the deadline"))
        } else {
            None
        }
    }

    /// Takes in what one read brought. `None` means: keep waiting.
    pub fn on_read(&mut self, reading: Reading) -> (r: Option<Result<Delivery, String>>)
        ensures
            final(self).throw_id == old(self).throw_id,
            final(self).deadline == old(self).deadline,
            (match r {
                Some(outcome) => Some(outcome_view(outcome)),
                None => None,
            }) == heeded(old(self).throw_id, old(self).buf@, reading@),
            r is None ==> reading is Bytes && word_on(
                old(self).throw_id,
                old(self).buf@ + reading->Bytes_0@,
            ) == Word::Nothing(final(self).buf@),
    {
        let mut b = match reading {
            Reading::Closed => return Some(
                Err(String::from_str("the peer closed the connection without a receipt")),
            ),
            Reading::TimedOut => return Some(
                Err(String::from_str("no receipt within the deadline")),
            ),
            Reading::Failed(e) => {
                let mut why = String::from_str("reading the receipt failed: ");
                why.append(e.as_str());
                return Some(Err(why));
            },
            Reading::Bytes(b) => b,
        };
        self.buf.append(&mut b);
        let ghost all = self.buf@;
        let mut at: usize = 0;
        assert(all.skip(0) =~= all);
        loop
            invariant
                at <= all.len(),
                self.buf@ == all,
                reading is Bytes,
                all == old(self).buf@ + reading->Bytes_0@,
                self.throw_id == old(self).throw_id,
                self.deadline == old(self).deadline,
                word_on(self.throw_id, all) == word_on(self.throw_id, all.skip(at as int)),
            ensures
                at <= all.len(),
                self.buf@ == all,
                self.throw_id == old(self).throw_id,
                self.deadline == old(self).deadline,
                word_on(self.throw_id, all) == Word::Nothing(all.skip(at as int)),
            decreases all.len() - at,
        {
            let rest = slice_subrange(self.buf.as_slice(), at, self.buf.len());
            assert(rest@ =~= all.skip(at as int));
            let used: usize = match decode(rest) {
                Ok((Message::Ack(id), used)) => {
                    if id == self.throw_id {
                        return Some(Ok(Delivery::Ack));
                    }
                    used
                },
                Ok((Message::Nack(id, why), used)) => {
                    if id == self.throw_id {
                        return Some(Ok(Delivery::Nack(why)));
                    }
                    used
                },
                Ok((Message::Beacon(_), used)) => used,
                Ok((Message::Throw(_), used)) => used,
                Err(DecodeError::Truncated) => break,
                Err(DecodeError::UnknownKind(_)) => match parse_header(rest) {
                    Ok(h) => h.total_len(),
                    Err(_) => {
                        assert(false);
                        0
                    },
                },
                Err(e) => {
                    let mut why = String::from_str("the receipt did not parse: ");
                    why.append(e.describe().as_str());
                    return Some(Err(why));
                },
            };
            proof {
                assert(HEADER_LEN <= used <= rest@.len());
                assert(all.skip(at as int).skip(used as int) =~= all.skip(at + used));
            }
            at = at + used;
        }
        let left = self.buf.split_off(at);
        assert(left@ =~= all.skip(at as int));
        self.buf = left;
        None
    }
}

/// The event that tells the frame loop what became of a throw to the peer called `peer`.
pub fn report(throw_id: u64, peer: String, outcome: Result<Delivery, String>) -> (e: NetEvent)
    ensures
        e@ == reported(throw_id, peer@, outcome_view(outcome)),
{
    match outcome {
        Ok(Delivery::Ack) => NetEvent::Landed { throw_id, peer },
        Ok(Delivery::Nack(why)) => NetEvent::Refused { throw_id, peer, why },
        Err(why) => NetEvent::Lost { throw_id, peer, why },
    }
}

} // verus!
