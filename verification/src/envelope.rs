//! The wire envelope: a tagged message that carries exactly one payload, and
//! its framed binary form.
//!
//! A frame is the length of the body as a 64-bit little-endian integer,
//! followed by the body: one tag byte, then the payload of the variant that
//! the tag names.

use vstd::prelude::*;
use crate::flightplan::{steps_from_vec, well_formed, FlightPlan, PlanModel};
use crate::trigger::Reading;
use crate::wire::{
    dec_reading, dec_steps, dec_u32, enc_reading, enc_steps, enc_u32, enc_u64, field_u64,
    lemma_reading_round_trip,
    lemma_reading_canonical, lemma_steps_canonical, lemma_steps_length, lemma_steps_round_trip,
    lemma_suffix, lemma_u32_found, lemma_u32_window, lemma_u64_found, lemma_u64_window,
    put_reading, put_steps, put_u32, put_u64, put_u8, read_reading, read_steps, read_u32, read_u64,
    u64_at, DecodeError, Parsed,
};

verus! {

/// What a watchdog message reports.
#[derive(Clone, Copy, Debug, PartialEq, Eq)]
pub enum WatchdogStatus {
    /// The control loop is alive.
    AckAlive,
}

/// The tag of an envelope.
#[derive(Clone, Copy, Debug, PartialEq, Eq, Structural)]
pub enum MessageType {
    Empty,
    Watchdog,
    Telemetry,
    FlightPlan,
    Countdown,
}

/// A wire message: exactly one of its variants, named by an explicit tag.
#[derive(Clone, Debug, PartialEq, Eq)]
pub enum Envelope {
    /// A keep-alive without content.
    Empty,
    /// Proof that the vehicle's control loop is live, with the time of sending.
    Watchdog { status: WatchdogStatus, time: u64 },
    /// The vehicle's position, attitude and velocity at the reading's time.
    Telemetry { reading: Reading },
    /// A flight plan on its way to the vehicle.
    FlightPlan { plan: FlightPlan },
    /// Seconds left until launch.
    Countdown { seconds_remaining: u32 },
}

/// The mathematical content of an [`Envelope`].
pub enum Message {
    Empty,
    Watchdog { status: WatchdogStatus, time: u64 },
    Telemetry { reading: Reading },
    FlightPlan { plan: PlanModel },
    Countdown { seconds_remaining: u32 },
}

impl View for Envelope {
    type V = Message;

    open spec fn view(&self) -> Message {
        match *self {
            Envelope::Empty => Message::Empty,
            Envelope::Watchdog { status, time } => Message::Watchdog { status, time },
            Envelope::Telemetry { reading } => Message::Telemetry { reading },
            Envelope::FlightPlan { plan } => Message::FlightPlan { plan: plan@ },
            Envelope::Countdown { seconds_remaining } => Message::Countdown { seconds_remaining },
        }
    }
}

impl Message {
    /// The tag that names this message's variant.
    pub open spec fn message_type(self) -> MessageType {
        match self {
            Message::Empty => MessageType::Empty,
            Message::Watchdog { .. } => MessageType::Watchdog,
            Message::Telemetry { .. } => MessageType::Telemetry,
            Message::FlightPlan { .. } => MessageType::FlightPlan,
            Message::Countdown { .. } => MessageType::Countdown,
        }
    }

    /// A flight plan carried by the message announces as many steps as it holds.
    pub open spec fn wf(self) -> bool {
        match self {
            Message::FlightPlan { plan } => well_formed(plan),
            _ => true,
        }
    }
}

impl Envelope {
    /// The tag that names this envelope's variant.
    pub fn message_type(&self) -> (tag: MessageType)
        ensures
            tag == self@.message_type(),
    {
        match self {
            Envelope::Empty => MessageType::Empty,
            Envelope::Watchdog { .. } => MessageType::Watchdog,
            Envelope::Telemetry { .. } => MessageType::Telemetry,
            Envelope::FlightPlan { .. } => MessageType::FlightPlan,
            Envelope::Countdown { .. } => MessageType::Countdown,
        }
    }
}

/// The body of a frame: the tag byte (0 empty, 1 watchdog, 2 telemetry,
/// 3 flight plan, 4 countdown), then the payload.
pub open spec fn enc_body(m: Message) -> Seq<u8> {
    match m {
        Message::Empty => seq![0u8],
        Message::Watchdog { status, time } => seq![1u8] + (seq![0u8] + enc_u64(time)),
        Message::Telemetry { reading } => seq![2u8] + enc_reading(reading),
        Message::FlightPlan { plan } => seq![3u8] + (enc_u32(plan.step_count) + enc_steps(
            plan.steps,
        )),
        Message::Countdown { seconds_remaining } => seq![4u8] + enc_u32(seconds_remaining),
    }
}

/// The framed form of a message.
pub open spec fn spec_encode(m: Message) -> Seq<u8> {
    enc_u64(enc_body(m).len() as u64) + enc_body(m)
}

/// Reads a tag and the payload it names from the front of `b`.
pub open spec fn dec_payload(b: Seq<u8>) -> Parsed<Message> {
    if b.len() < 1 {
        Err(DecodeError::Truncated)
    } else if b[0] == 0 {
        Ok((Message::Empty, b.skip(1)))
    } else if b[0] == 1 {
        if b.len() < 2 {
            Err(DecodeError::Truncated)
        } else if b[1] != 0 {
            Err(DecodeError::UnknownTag)
        } else if b.len() < 10 {
            Err(DecodeError::Truncated)
        } else {
            Ok((Message::Watchdog { status: WatchdogStatus::AckAlive, time: u64_at(b, 2) }, b.skip(10)))
        }
    } else if b[0] == 2 {
        match dec_reading(b.skip(1)) {
            Err(e) => Err(e),
            Ok((reading, rest)) => Ok((Message::Telemetry { reading }, rest)),
        }
    } else if b[0] == 3 {
        match dec_u32(b.skip(1)) {
            Err(e) => Err(e),
            Ok((step_count, after_count)) => match dec_steps(after_count, step_count as nat) {
                Err(e) => Err(e),
                Ok((steps, rest)) => Ok(
                    (Message::FlightPlan { plan: PlanModel { step_count, steps } }, rest),
                ),
            },
        }
    } else if b[0] == 4 {
        match dec_u32(b.skip(1)) {
            Err(e) => Err(e),
            Ok((seconds_remaining, rest)) => Ok((Message::Countdown { seconds_remaining }, rest)),
        }
    } else {
        Err(DecodeError::UnknownTag)
    }
}

/// Reads a frame's body: a tag and its payload, with nothing after them.
pub open spec fn dec_body(b: Seq<u8>) -> Result<Message, DecodeError> {
    match dec_payload(b) {
        Err(e) => Err(e),
        Ok((m, rest)) => if rest.len() == 0 {
            Ok(m)
        } else {
            Err(DecodeError::TrailingBytes)
        },
    }
}

/// Reads a frame: the announced length, then a body of exactly that length.
pub open spec fn spec_decode(b: Seq<u8>) -> Result<Message, DecodeError> {
    if b.len() < 8 {
        Err(DecodeError::Truncated)
    } else if b.len() - 8 < u64_at(b, 0) {
        Err(DecodeError::Truncated)
    } else if b.len() - 8 > u64_at(b, 0) {
        Err(DecodeError::TrailingBytes)
    } else {
        dec_body(b.skip(8))
    }
}

/// An executable decoder's result says what the specification says: the
/// envelope whose content is the decoded message, or the same error.
pub open spec fn decoded(got: Result<Envelope, DecodeError>, want: Result<Message, DecodeError>) -> bool {
    match (got, want) {
        (Ok(envelope), Ok(message)) => envelope@ == message,
        (Err(e), Err(f)) => e == f,
        _ => false,
    }
}

/// The framed form of an envelope.
pub fn encode(envelope: &Envelope) -> (bytes: Vec<u8>)
    ensures
        bytes@ == spec_encode(envelope@),
{
    let mut body: Vec<u8> = Vec::new();
    match envelope {
        Envelope::Empty => {
            put_u8(&mut body, 0);
        },
        Envelope::Watchdog { status, time } => {
            put_u8(&mut body, 1);
            match status {
                WatchdogStatus::AckAlive => {
                    put_u8(&mut body, 0);
                },
            }
            put_u64(&mut body, *time);
        },
        Envelope::Telemetry { reading } => {
            put_u8(&mut body, 2);
            put_reading(&mut body, reading);
        },
        Envelope::FlightPlan { plan } => {
            put_u8(&mut body, 3);
            put_u32(&mut body, plan.step_count);
            put_steps(&mut body, plan.steps());
        },
        Envelope::Countdown { seconds_remaining } => {
            put_u8(&mut body, 4);
            put_u32(&mut body, *seconds_remaining);
        },
    }
    assert(body@ =~= enc_body(envelope@));
    let mut bytes: Vec<u8> = Vec::new();
    put_u64(&mut bytes, body.len() as u64);
    bytes.append(&mut body);
    assert(bytes@ =~= spec_encode(envelope@));
    bytes
}

/// The length of the body that a frame's first eight bytes announce.
pub fn body_length(header: &[u8]) -> (announced: Result<u64, DecodeError>)
    ensures
        header@.len() < 8 ==> announced == Err::<u64, _>(DecodeError::Truncated),
        header@.len() >= 8 ==> announced == Ok::<_, DecodeError>(u64_at(header@, 0)),
{
    proof {
        assert(header@.skip(0) =~= header@);
    }
    match read_u64(header, 0) {
        Ok((length, _)) => Ok(length),
        Err(e) => Err(e),
    }
}

fn read_payload(bytes: &[u8], pos: usize) -> (got: Result<(Envelope, usize), DecodeError>)
    requires
        pos <= bytes@.len(),
    ensures
        match (got, dec_payload(bytes@.skip(pos as int))) {
            (Ok((envelope, next)), Ok((message, rest))) => {
                &&& envelope@ == message
                &&& pos <= next <= bytes@.len()
                &&& rest == bytes@.skip(next as int)
            },
            (Err(e), Err(f)) => e == f,
            _ => false,
        },
{
    let left = bytes.len() - pos;
    if left < 1 {
        return Err(DecodeError::Truncated);
    }
    proof {
        lemma_suffix(bytes@, pos as int, 0, 1);
        lemma_suffix(bytes@, pos as int, 1, 0);
    }
    let tag = bytes[pos];
    if tag == 0 {
        Ok((Envelope::Empty, pos + 1))
    } else if tag == 1 {
        if left < 2 {
            return Err(DecodeError::Truncated);
        }
        proof {
            lemma_suffix(bytes@, pos as int, 1, 1);
        }
        if bytes[pos + 1] != 0 {
            return Err(DecodeError::UnknownTag);
        }
        if left < 10 {
            return Err(DecodeError::Truncated);
        }
        proof {
            lemma_suffix(bytes@, pos as int, 10, 0);
        }
        let time = field_u64(bytes, pos, 2);
        Ok((Envelope::Watchdog { status: WatchdogStatus::AckAlive, time }, pos + 10))
    } else if tag == 2 {
        match read_reading(bytes, pos + 1) {
            Ok((reading, next)) => Ok((Envelope::Telemetry { reading }, next)),
            Err(e) => Err(e),
        }
    } else if tag == 3 {
        let (step_count, after_count) = match read_u32(bytes, pos + 1) {
            Ok(found) => found,
            Err(e) => {
                return Err(e);
            },
        };
        match read_steps(bytes, after_count, step_count) {
            Ok((steps, next)) => Ok(
                (Envelope::FlightPlan { plan: FlightPlan { step_count, steps: steps_from_vec(steps) } }, next),
            ),
            Err(e) => Err(e),
        }
    } else if tag == 4 {
        match read_u32(bytes, pos + 1) {
            Ok((seconds_remaining, next)) => Ok((Envelope::Countdown { seconds_remaining }, next)),
            Err(e) => Err(e),
        }
    } else {
        Err(DecodeError::UnknownTag)
    }
}

/// Reads one frame. Succeeds exactly on the bytes that [`spec_decode`]
/// accepts, and names the reason otherwise.
pub fn decode(bytes: &[u8]) -> (got: Result<Envelope, DecodeError>)
    ensures
        decoded(got, spec_decode(bytes@)),
        got is Ok ==> got->Ok_0@.wf(),
{
    proof {
        assert(bytes@.skip(0) =~= bytes@);
    }
    let announced = match read_u64(bytes, 0) {
        Ok((length, _)) => length,
        Err(e) => {
            return Err(e);
        },
    };
    let left = bytes.len() - 8;
    if (left as u64) < announced {
        return Err(DecodeError::Truncated);
    }
    if left as u64 > announced {
        return Err(DecodeError::TrailingBytes);
    }
    match read_payload(bytes, 8) {
        Err(e) => Err(e),
        Ok((envelope, next)) => {
            if next == bytes.len() {
                proof {
                    lemma_payload_canonical(bytes@.skip(8));
                }
                Ok(envelope)
            } else {
                Err(DecodeError::TrailingBytes)
            }
        },
    }
}

/// A message that was encoded is read back from the front of any bytes that
/// begin with its body, and the bytes after the body are left.
pub proof fn lemma_payload_round_trip(m: Message, rest: Seq<u8>)
    requires
        m.wf(),
    ensures
        dec_payload(enc_body(m) + rest) == Ok::<_, DecodeError>((m, rest)),
        enc_body(m).len() <= 5 + 46 * 0xffff_ffff,
{
    let b = enc_body(m) + rest;
    match m {
        Message::Empty => {
            assert(b.skip(1) =~= rest);
        },
        Message::Watchdog { status, time } => {
            lemma_u64_found(seq![1u8, 0u8], time, rest);
            assert(b =~= seq![1u8, 0u8] + (enc_u64(time) + rest));
            assert(b.skip(10) =~= rest);
        },
        Message::Telemetry { reading } => {
            lemma_reading_round_trip(reading, rest);
            assert(b.skip(1) =~= enc_reading(reading) + rest);
        },
        Message::FlightPlan { plan } => {
            let tail = enc_steps(plan.steps) + rest;
            lemma_u32_found(Seq::empty(), plan.step_count, tail);
            lemma_steps_round_trip(plan.steps, rest);
            lemma_steps_length(plan.steps);
            assert(b.skip(1) =~= Seq::<u8>::empty() + (enc_u32(plan.step_count) + tail));
            assert(b.skip(1).skip(4) =~= tail);
        },
        Message::Countdown { seconds_remaining } => {
            lemma_u32_found(Seq::empty(), seconds_remaining, rest);
            assert(b.skip(1) =~= Seq::<u8>::empty() + (enc_u32(seconds_remaining) + rest));
            assert(b.skip(1).skip(4) =~= rest);
        },
    }
}

/// Decoding the encoding of a well-formed message returns that message.
pub proof fn lemma_round_trip(m: Message)
    requires
        m.wf(),
    ensures
        spec_decode(spec_encode(m)) == Ok::<_, DecodeError>(m),
{
    let body = enc_body(m);
    let b = spec_encode(m);
    lemma_payload_round_trip(m, Seq::empty());
    lemma_u64_found(Seq::empty(), body.len() as u64, body);
    assert(body + Seq::<u8>::empty() =~= body);
    assert(b =~= Seq::<u8>::empty() + (enc_u64(body.len() as u64) + body));
    assert(b.skip(8) =~= body);
}

/// Two well-formed messages with the same encoding are the same message.
pub proof fn lemma_encoding_injective(first: Message, second: Message)
    requires
        first.wf(),
        second.wf(),
        spec_encode(first) == spec_encode(second),
    ensures
        first == second,
{
    lemma_round_trip(first);
    lemma_round_trip(second);
}

/// Bytes from which a message is read begin with that message's body.
pub proof fn lemma_payload_canonical(b: Seq<u8>)
    ensures
        dec_payload(b) matches Ok((m, rest)) ==> m.wf() && b == enc_body(m) + rest,
{
    if let Ok((m, rest)) = dec_payload(b) {
        match m {
            Message::Empty => {},
            Message::Watchdog { .. } => {
                lemma_u64_window(b, 2);
            },
            Message::Telemetry { reading } => {
                lemma_reading_canonical(b.skip(1));
                assert(b =~= seq![2u8] + (enc_reading(reading) + rest));
            },
            Message::FlightPlan { plan } => {
                let after_tag = b.skip(1);
                let after_count = after_tag.skip(4);
                lemma_u32_window(after_tag, 0);
                lemma_steps_canonical(after_count, plan.step_count as nat);
                assert(after_tag =~= after_tag.subrange(0, 4) + after_count);
                assert(b =~= seq![3u8] + (enc_u32(plan.step_count) + (enc_steps(plan.steps) + rest)));
            },
            Message::Countdown { seconds_remaining } => {
                let after_tag = b.skip(1);
                lemma_u32_window(after_tag, 0);
                assert(after_tag =~= after_tag.subrange(0, 4) + rest);
                assert(b =~= seq![4u8] + (enc_u32(seconds_remaining) + rest));
            },
        }
        assert(b =~= enc_body(m) + rest);
    }
}

/// Only encodings decode: bytes that decode to a message are the encoding of
/// that message, and the message is well formed.
pub proof fn lemma_decoded_is_encoding(b: Seq<u8>)
    ensures
        spec_decode(b) matches Ok(m) ==> m.wf() && spec_encode(m) == b,
{
    if let Ok(m) = spec_decode(b) {
        lemma_payload_canonical(b.skip(8));
        lemma_u64_window(b, 0);
        assert(enc_body(m) + Seq::<u8>::empty() =~= enc_body(m));
        assert(b =~= b.subrange(0, 8) + b.skip(8));
    }
}

} // verus!
