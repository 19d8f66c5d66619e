//! Byte-level building blocks of the wire format: fixed-width little-endian
//! integers, and the encodings of triggers, actions, steps and readings.
//!
//! Each `dec_*` function reads one value from the front of a byte sequence
//! and returns it with the bytes that follow; each `enc_*` function is its
//! inverse, as the round-trip lemmas state.

use vstd::prelude::*;
use crate::flightplan::{Action, Step, Trigger};
use crate::trigger::Reading;

verus! {

/// Why a byte sequence is not the encoding of an envelope.
#[derive(Clone, Copy, Debug, PartialEq, Eq)]
pub enum DecodeError {
    /// The bytes end before the value they announce is complete.
    Truncated,
    /// A tag byte names no known variant.
    UnknownTag,
    /// Bytes remain after the value is complete.
    TrailingBytes,
}

/// The outcome of reading one value from the front of a byte sequence.
pub type Parsed<T> = Result<(T, Seq<u8>), DecodeError>;

/// The 32-bit value whose four bytes, least significant first, stand at `at`.
#[verifier::opaque]
pub open spec fn u32_at(b: Seq<u8>, at: int) -> u32 {
    (b[at] + 0x100 * (b[at + 1] + 0x100 * (b[at + 2] + 0x100 * b[at + 3]))) as u32
}

/// The 64-bit value whose eight bytes, least significant first, stand at `at`.
#[verifier::opaque]
pub open spec fn u64_at(b: Seq<u8>, at: int) -> u64 {
    (u32_at(b, at) + 0x1_0000_0000 * u32_at(b, at + 4)) as u64
}

/// The signed value whose two's complement stands at `at`.
pub open spec fn i64_at(b: Seq<u8>, at: int) -> i64 {
    u64_at(b, at) as i64
}

/// A 32-bit value travels as four bytes, least significant first.
#[verifier::opaque]
pub open spec fn enc_u32(x: u32) -> Seq<u8> {
    seq![
        (x as int % 0x100) as u8,
        (x as int / 0x100 % 0x100) as u8,
        (x as int / 0x100 / 0x100 % 0x100) as u8,
        (x as int / 0x100 / 0x100 / 0x100 % 0x100) as u8,
    ]
}

/// A 64-bit value travels as eight bytes, least significant first.
#[verifier::opaque]
pub open spec fn enc_u64(x: u64) -> Seq<u8> {
    enc_u32((x as int % 0x1_0000_0000) as u32) + enc_u32((x as int / 0x1_0000_0000) as u32)
}

/// A signed value travels as its two's complement.
pub open spec fn enc_i64(x: i64) -> Seq<u8> {
    enc_u64(x as u64)
}

pub open spec fn dec_u32(b: Seq<u8>) -> Parsed<u32> {
    if b.len() < 4 {
        Err(DecodeError::Truncated)
    } else {
        Ok((u32_at(b, 0), b.skip(4)))
    }
}

pub open spec fn dec_u64(b: Seq<u8>) -> Parsed<u64> {
    if b.len() < 8 {
        Err(DecodeError::Truncated)
    } else {
        Ok((u64_at(b, 0), b.skip(8)))
    }
}

/// Tag 0: no trigger; 1: time; 2: position; 3: altitude.
pub open spec fn enc_trigger(t: Option<Trigger>) -> Seq<u8> {
    match t {
        None => seq![0u8],
        Some(Trigger::Time { seconds_since_epoch }) => seq![1u8] + enc_u64(seconds_since_epoch),
        Some(Trigger::Position { lat, lon }) => seq![2u8] + (enc_i64(lat) + enc_i64(lon)),
        Some(Trigger::Altitude { value }) => seq![3u8] + enc_i64(value),
    }
}

pub open spec fn dec_trigger(b: Seq<u8>) -> Parsed<Option<Trigger>> {
    if b.len() < 1 {
        Err(DecodeError::Truncated)
    } else if b[0] == 0 {
        Ok((None, b.skip(1)))
    } else if b[0] == 1 {
        if b.len() < 9 {
            Err(DecodeError::Truncated)
        } else {
            Ok((Some(Trigger::Time { seconds_since_epoch: u64_at(b, 1) }), b.skip(9)))
        }
    } else if b[0] == 2 {
        if b.len() < 17 {
            Err(DecodeError::Truncated)
        } else {
            Ok((Some(Trigger::Position { lat: i64_at(b, 1), lon: i64_at(b, 9) }), b.skip(17)))
        }
    } else if b[0] == 3 {
        if b.len() < 9 {
            Err(DecodeError::Truncated)
        } else {
            Ok((Some(Trigger::Altitude { value: i64_at(b, 1) }), b.skip(9)))
        }
    } else {
        Err(DecodeError::UnknownTag)
    }
}

/// Tag 0: ignite; 1: reorient; 2: throttle level; 3: coast; 4: next stage.
pub open spec fn enc_action(a: Action) -> Seq<u8> {
    match a {
        Action::Ignite => seq![0u8],
        Action::Reorient { pitch, roll, yaw } => seq![1u8] + (enc_i64(pitch) + (enc_i64(roll)
            + enc_i64(yaw))),
        Action::ThrottleLevel { throttle } => seq![2u8] + enc_i64(throttle),
        Action::Coast => seq![3u8],
        Action::NextStage => seq![4u8],
    }
}

pub open spec fn dec_action(b: Seq<u8>) -> Parsed<Action> {
    if b.len() < 1 {
        Err(DecodeError::Truncated)
    } else if b[0] == 0 {
        Ok((Action::Ignite, b.skip(1)))
    } else if b[0] == 1 {
        if b.len() < 25 {
            Err(DecodeError::Truncated)
        } else {
            Ok(
                (
                    Action::Reorient {
                        pitch: i64_at(b, 1),
                        roll: i64_at(b, 9),
                        yaw: i64_at(b, 17),
                    },
                    b.skip(25),
                ),
            )
        }
    } else if b[0] == 2 {
        if b.len() < 9 {
            Err(DecodeError::Truncated)
        } else {
            Ok((Action::ThrottleLevel { throttle: i64_at(b, 1) }, b.skip(9)))
        }
    } else if b[0] == 3 {
        Ok((Action::Coast, b.skip(1)))
    } else if b[0] == 4 {
        Ok((Action::NextStage, b.skip(1)))
    } else {
        Err(DecodeError::UnknownTag)
    }
}

/// A step travels as its count, its action and its trigger, in that order.
pub open spec fn enc_step(s: Step) -> Seq<u8> {
    enc_u32(s.count) + (enc_action(s.action) + enc_trigger(s.trigger))
}

pub open spec fn dec_step(b: Seq<u8>) -> Parsed<Step> {
    match dec_u32(b) {
        Err(e) => Err(e),
        Ok((count, after_count)) => match dec_action(after_count) {
            Err(e) => Err(e),
            Ok((action, after_action)) => match dec_trigger(after_action) {
                Err(e) => Err(e),
                Ok((trigger, rest)) => Ok((Step { count, action, trigger }, rest)),
            },
        },
    }
}

/// The steps of a plan travel one after the other, first step first.
pub open spec fn enc_steps(steps: Seq<Step>) -> Seq<u8>
    decreases steps.len(),
{
    if steps.len() == 0 {
        Seq::empty()
    } else {
        enc_step(steps[0]) + enc_steps(steps.skip(1))
    }
}

/// `front` put before the steps of a parse that succeeded.
pub open spec fn after(front: Seq<Step>, parsed: Parsed<Seq<Step>>) -> Parsed<Seq<Step>> {
    match parsed {
        Err(e) => Err(e),
        Ok((steps, rest)) => Ok((front + steps, rest)),
    }
}

/// Reads `n` steps from the front of `b`.
pub open spec fn dec_steps(b: Seq<u8>, n: nat) -> Parsed<Seq<Step>>
    decreases n,
{
    if n == 0 {
        Ok((Seq::empty(), b))
    } else {
        match dec_step(b) {
            Err(e) => Err(e),
            Ok((step, rest)) => after(seq![step], dec_steps(rest, (n - 1) as nat)),
        }
    }
}

/// A reading travels as latitude, longitude, altitude, yaw, pitch, roll,
/// velocity and time: 64 bytes.
pub open spec fn enc_reading(r: Reading) -> Seq<u8> {
    enc_i64(r.lat) + (enc_i64(r.lon) + (enc_i64(r.alt) + (enc_i64(r.yaw) + (enc_i64(r.pitch) + (
    enc_i64(r.roll) + (enc_i64(r.velocity) + enc_u64(r.time)))))))
}

pub open spec fn dec_reading(b: Seq<u8>) -> Parsed<Reading> {
    if b.len() < 64 {
        Err(DecodeError::Truncated)
    } else {
        Ok(
            (
                Reading {
                    lat: i64_at(b, 0),
                    lon: i64_at(b, 8),
                    alt: i64_at(b, 16),
                    yaw: i64_at(b, 24),
                    pitch: i64_at(b, 32),
                    roll: i64_at(b, 40),
                    velocity: i64_at(b, 48),
                    time: u64_at(b, 56),
                },
                b.skip(64),
            ),
        )
    }
}

/// Casting a signed value to unsigned and back returns it.
pub proof fn lemma_i64_cast_round_trip(x: i64)
    ensures
        (x as u64) as i64 == x,
{
    assert((x as u64) as i64 == x) by (bit_vector);
}

/// A 32-bit value is the sum of its four bytes, each at its place.
pub proof fn lemma_u32_split(x: u32)
    ensures
        x == (x as int % 0x100) + 0x100 * ((x as int / 0x100 % 0x100) + 0x100 * ((x as int / 0x100
            / 0x100 % 0x100) + 0x100 * (x as int / 0x100 / 0x100 / 0x100 % 0x100))),
{
    let a = x as int / 0x100;
    let b = a / 0x100;
    let c = b / 0x100;
    assert(x == x as int % 0x100 + 0x100 * a);
    assert(a == a % 0x100 + 0x100 * b);
    assert(b == b % 0x100 + 0x100 * c);
    assert(c == c % 0x100);
}

/// Four bytes, each at its place, sum to a 32-bit value whose bytes they are.
pub proof fn lemma_u32_joined(b0: u8, b1: u8, b2: u8, b3: u8)
    ensures
        ({
            let v = b0 + 0x100 * (b1 + 0x100 * (b2 + 0x100 * b3));
            &&& 0 <= v <= u32::MAX
            &&& v % 0x100 == b0
            &&& v / 0x100 % 0x100 == b1
            &&& v / 0x100 / 0x100 % 0x100 == b2
            &&& v / 0x100 / 0x100 / 0x100 % 0x100 == b3
        }),
{
    let c = b3 as int;
    let b = b2 + 0x100 * c;
    let a = b1 + 0x100 * b;
    let v = b0 + 0x100 * a;
    assert(v % 0x100 == b0 && v / 0x100 == a);
    assert(a % 0x100 == b1 && a / 0x100 == b);
    assert(b % 0x100 == b2 && b / 0x100 == c);
}

/// A 32-bit value placed after `front` is found there again.
pub proof fn lemma_u32_found(front: Seq<u8>, x: u32, rest: Seq<u8>)
    ensures
        enc_u32(x).len() == 4,
        u32_at(front + (enc_u32(x) + rest), front.len() as int) == x,
{
    reveal(enc_u32);
    reveal(u32_at);
    let b = front + (enc_u32(x) + rest);
    let at = front.len() as int;
    lemma_u32_split(x);
    assert(b[at] == enc_u32(x)[0]);
    assert(b[at + 1] == enc_u32(x)[1]);
    assert(b[at + 2] == enc_u32(x)[2]);
    assert(b[at + 3] == enc_u32(x)[3]);
}

/// A 64-bit value placed after `front` is found there again.
pub proof fn lemma_u64_found(front: Seq<u8>, x: u64, rest: Seq<u8>)
    ensures
        enc_u64(x).len() == 8,
        u64_at(front + (enc_u64(x) + rest), front.len() as int) == x,
{
    reveal(enc_u64);
    reveal(u64_at);
    let low = (x as int % 0x1_0000_0000) as u32;
    let high = (x as int / 0x1_0000_0000) as u32;
    let b = front + (enc_u64(x) + rest);
    lemma_u32_found(front, low, enc_u32(high) + rest);
    lemma_u32_found(front + enc_u32(low), high, rest);
    assert(b =~= front + (enc_u32(low) + (enc_u32(high) + rest)));
    assert(b =~= (front + enc_u32(low)) + (enc_u32(high) + rest));
}

/// A signed value placed after `front` is found there again.
pub proof fn lemma_i64_found(front: Seq<u8>, x: i64, rest: Seq<u8>)
    ensures
        enc_i64(x).len() == 8,
        i64_at(front + (enc_i64(x) + rest), front.len() as int) == x,
{
    lemma_u64_found(front, x as u64, rest);
    lemma_i64_cast_round_trip(x);
}

/// A trigger that was encoded is read back, and the bytes after it are left.
pub proof fn lemma_trigger_round_trip(t: Option<Trigger>, rest: Seq<u8>)
    ensures
        dec_trigger(enc_trigger(t) + rest) == Ok::<_, DecodeError>((t, rest)),
        1 <= enc_trigger(t).len() <= 17,
{
    let b = enc_trigger(t) + rest;
    match t {
        None => {
            assert(b.skip(1) =~= rest);
        },
        Some(Trigger::Time { seconds_since_epoch }) => {
            lemma_u64_found(seq![1u8], seconds_since_epoch, rest);
            assert(b =~= seq![1u8] + (enc_u64(seconds_since_epoch) + rest));
            assert(b.skip(9) =~= rest);
        },
        Some(Trigger::Position { lat, lon }) => {
            lemma_i64_found(seq![2u8], lat, enc_i64(lon) + rest);
            lemma_i64_found(seq![2u8] + enc_i64(lat), lon, rest);
            assert(b =~= seq![2u8] + (enc_i64(lat) + (enc_i64(lon) + rest)));
            assert(b =~= (seq![2u8] + enc_i64(lat)) + (enc_i64(lon) + rest));
            assert(b.skip(17) =~= rest);
        },
        Some(Trigger::Altitude { value }) => {
            lemma_i64_found(seq![3u8], value, rest);
            assert(b =~= seq![3u8] + (enc_i64(value) + rest));
            assert(b.skip(9) =~= rest);
        },
    }
}

/// An action that was encoded is read back, and the bytes after it are left.
pub proof fn lemma_action_round_trip(a: Action, rest: Seq<u8>)
    ensures
        dec_action(enc_action(a) + rest) == Ok::<_, DecodeError>((a, rest)),
        1 <= enc_action(a).len() <= 25,
{
    let b = enc_action(a) + rest;
    match a {
        Action::Reorient { pitch, roll, yaw } => {
            lemma_i64_found(seq![1u8], pitch, enc_i64(roll) + (enc_i64(yaw) + rest));
            lemma_i64_found(seq![1u8] + enc_i64(pitch), roll, enc_i64(yaw) + rest);
            lemma_i64_found(seq![1u8] + enc_i64(pitch) + enc_i64(roll), yaw, rest);
            assert(b =~= seq![1u8] + (enc_i64(pitch) + (enc_i64(roll) + (enc_i64(yaw) + rest))));
            assert(b =~= (seq![1u8] + enc_i64(pitch)) + (enc_i64(roll) + (enc_i64(yaw) + rest)));
            assert(b =~= (seq![1u8] + enc_i64(pitch) + enc_i64(roll)) + (enc_i64(yaw) + rest));
            assert(b.skip(25) =~= rest);
        },
        Action::ThrottleLevel { throttle } => {
            lemma_i64_found(seq![2u8], throttle, rest);
            assert(b =~= seq![2u8] + (enc_i64(throttle) + rest));
            assert(b.skip(9) =~= rest);
        },
        _ => {
            assert(b.skip(1) =~= rest);
        },
    }
}

/// A step that was encoded is read back, and the bytes after it are left.
pub proof fn lemma_step_round_trip(s: Step, rest: Seq<u8>)
    ensures
        dec_step(enc_step(s) + rest) == Ok::<_, DecodeError>((s, rest)),
        6 <= enc_step(s).len() <= 46,
{
    let b = enc_step(s) + rest;
    let after_count = enc_action(s.action) + (enc_trigger(s.trigger) + rest);
    let after_action = enc_trigger(s.trigger) + rest;
    lemma_u32_found(Seq::empty(), s.count, after_count);
    lemma_action_round_trip(s.action, after_action);
    lemma_trigger_round_trip(s.trigger, rest);
    assert(b =~= Seq::<u8>::empty() + (enc_u32(s.count) + after_count));
    assert(b.skip(4) =~= after_count);
}

/// The encoding of a sequence of steps is at most 46 bytes a step.
pub proof fn lemma_steps_length(steps: Seq<Step>)
    ensures
        enc_steps(steps).len() <= 46 * steps.len(),
    decreases steps.len(),
{
    if steps.len() > 0 {
        lemma_step_round_trip(steps[0], Seq::empty());
        lemma_steps_length(steps.skip(1));
    }
}

/// Steps that were encoded are read back in order, and the bytes after them
/// are left.
pub proof fn lemma_steps_round_trip(steps: Seq<Step>, rest: Seq<u8>)
    ensures
        dec_steps(enc_steps(steps) + rest, steps.len()) == Ok::<_, DecodeError>((steps, rest)),
    decreases steps.len(),
{
    let b = enc_steps(steps) + rest;
    if steps.len() == 0 {
        assert(b =~= rest);
        assert(steps =~= Seq::empty());
    } else {
        let tail = enc_steps(steps.skip(1)) + rest;
        lemma_step_round_trip(steps[0], tail);
        lemma_steps_round_trip(steps.skip(1), rest);
        assert(b =~= enc_step(steps[0]) + tail);
        assert(seq![steps[0]] + steps.skip(1) =~= steps);
    }
}

/// A reading that was encoded is read back, and the bytes after it are left.
pub proof fn lemma_reading_round_trip(r: Reading, rest: Seq<u8>)
    ensures
        dec_reading(enc_reading(r) + rest) == Ok::<_, DecodeError>((r, rest)),
        enc_reading(r).len() == 64,
{
    let b = enc_reading(r) + rest;
    let f0 = Seq::<u8>::empty();
    let f1 = f0 + enc_i64(r.lat);
    let f2 = f1 + enc_i64(r.lon);
    let f3 = f2 + enc_i64(r.alt);
    let f4 = f3 + enc_i64(r.yaw);
    let f5 = f4 + enc_i64(r.pitch);
    let f6 = f5 + enc_i64(r.roll);
    let f7 = f6 + enc_i64(r.velocity);
    let t7 = rest;
    let t6 = enc_u64(r.time) + t7;
    let t5 = enc_i64(r.velocity) + t6;
    let t4 = enc_i64(r.roll) + t5;
    let t3 = enc_i64(r.pitch) + t4;
    let t2 = enc_i64(r.yaw) + t3;
    let t1 = enc_i64(r.alt) + t2;
    let t0 = enc_i64(r.lon) + t1;
    lemma_i64_found(f0, r.lat, t0);
    lemma_i64_found(f1, r.lon, t1);
    lemma_i64_found(f2, r.alt, t2);
    lemma_i64_found(f3, r.yaw, t3);
    lemma_i64_found(f4, r.pitch, t4);
    lemma_i64_found(f5, r.roll, t5);
    lemma_i64_found(f6, r.velocity, t6);
    lemma_u64_found(f7, r.time, t7);
    assert(b =~= f0 + (enc_i64(r.lat) + t0));
    assert(b =~= f1 + (enc_i64(r.lon) + t1));
    assert(b =~= f2 + (enc_i64(r.alt) + t2));
    assert(b =~= f3 + (enc_i64(r.yaw) + t3));
    assert(b =~= f4 + (enc_i64(r.pitch) + t4));
    assert(b =~= f5 + (enc_i64(r.roll) + t5));
    assert(b =~= f6 + (enc_i64(r.velocity) + t6));
    assert(b =~= f7 + (enc_u64(r.time) + t7));
    assert(b.skip(64) =~= rest);
}

/// An executable reader that started at `pos` returned what `want`, the
/// reading of the bytes from `pos` on, says: the same value and the position
/// of the bytes left, or the same error.
pub open spec fn reads<T>(
    got: Result<(T, usize), DecodeError>,
    bytes: Seq<u8>,
    pos: usize,
    want: Parsed<T>,
) -> bool {
    match (got, want) {
        (Ok((value, next)), Ok((wanted, rest))) => {
            &&& value == wanted
            &&& pos <= next <= bytes.len()
            &&& rest == bytes.skip(next as int)
        },
        (Err(e), Err(f)) => e == f,
        _ => false,
    }
}

/// A window into a suffix is a window into the whole, and a suffix of a
/// suffix is a suffix.
pub proof fn lemma_suffix(b: Seq<u8>, pos: int, k: int, n: int)
    requires
        0 <= pos,
        0 <= k,
        0 <= n,
        pos + k + n <= b.len(),
    ensures
        b.skip(pos).subrange(k, k + n) == b.subrange(pos + k, pos + k + n),
        b.skip(pos).skip(k) == b.skip(pos + k),
        b.skip(pos).len() == b.len() - pos,
        n > 0 ==> b.skip(pos)[k] == b[pos + k],
{
    assert(b.skip(pos).subrange(k, k + n) =~= b.subrange(pos + k, pos + k + n));
    assert(b.skip(pos).skip(k) =~= b.skip(pos + k));
}

/// The 32-bit value `k` bytes after `pos`.
pub fn field_u32(bytes: &[u8], pos: usize, k: usize) -> (v: u32)
    requires
        pos + k + 4 <= bytes@.len(),
    ensures
        v == u32_at(bytes@.skip(pos as int), k as int),
{
    let end: usize = bytes.len();
    let at: usize = pos + k;
    let b0: u32 = bytes[at] as u32;
    let b1: u32 = bytes[at + 1] as u32;
    let b2: u32 = bytes[at + 2] as u32;
    let b3: u32 = bytes[at + 3] as u32;
    proof {
        reveal(u32_at);
        lemma_u32_joined(b0 as u8, b1 as u8, b2 as u8, b3 as u8);
    }
    b0 + 0x100 * (b1 + 0x100 * (b2 + 0x100 * b3))
}

/// The 64-bit value `k` bytes after `pos`.
pub fn field_u64(bytes: &[u8], pos: usize, k: usize) -> (v: u64)
    requires
        pos + k + 8 <= bytes@.len(),
    ensures
        v == u64_at(bytes@.skip(pos as int), k as int),
{
    let end: usize = bytes.len();
    let low: u64 = field_u32(bytes, pos, k) as u64;
    let high: u64 = field_u32(bytes, pos, k + 4) as u64;
    proof {
        reveal(u64_at);
    }
    low + 0x1_0000_0000 * high
}

/// The signed 64-bit value `k` bytes after `pos`.
pub fn field_i64(bytes: &[u8], pos: usize, k: usize) -> (v: i64)
    requires
        pos + k + 8 <= bytes@.len(),
    ensures
        v == i64_at(bytes@.skip(pos as int), k as int),
{
    field_u64(bytes, pos, k) as i64
}

/// Reads a 32-bit value at `pos`.
pub fn read_u32(bytes: &[u8], pos: usize) -> (got: Result<(u32, usize), DecodeError>)
    requires
        pos <= bytes@.len(),
    ensures
        reads(got, bytes@, pos, dec_u32(bytes@.skip(pos as int))),
{
    if bytes.len() - pos < 4 {
        return Err(DecodeError::Truncated);
    }
    proof {
        lemma_suffix(bytes@, pos as int, 4, 0);
    }
    Ok((field_u32(bytes, pos, 0), pos + 4))
}

/// Reads a 64-bit value at `pos`.
pub fn read_u64(bytes: &[u8], pos: usize) -> (got: Result<(u64, usize), DecodeError>)
    requires
        pos <= bytes@.len(),
    ensures
        reads(got, bytes@, pos, dec_u64(bytes@.skip(pos as int))),
{
    if bytes.len() - pos < 8 {
        return Err(DecodeError::Truncated);
    }
    proof {
        lemma_suffix(bytes@, pos as int, 8, 0);
    }
    Ok((field_u64(bytes, pos, 0), pos + 8))
}

/// Reads an optional trigger at `pos`.
pub fn read_trigger(bytes: &[u8], pos: usize) -> (got: Result<(Option<Trigger>, usize), DecodeError>)
    requires
        pos <= bytes@.len(),
    ensures
        reads(got, bytes@, pos, dec_trigger(bytes@.skip(pos as int))),
{
    let left = bytes.len() - pos;
    if left < 1 {
        return Err(DecodeError::Truncated);
    }
    proof {
        lemma_suffix(bytes@, pos as int, 0, 1);
        lemma_suffix(bytes@, pos as int, 1, 0);
    }
    let tag = bytes[pos];
    if tag == 0 {
        Ok((None, pos + 1))
    } else if tag == 1 {
        if left < 9 {
            return Err(DecodeError::Truncated);
        }
        proof {
            lemma_suffix(bytes@, pos as int, 9, 0);
        }
        let seconds_since_epoch = field_u64(bytes, pos, 1);
        Ok((Some(Trigger::Time { seconds_since_epoch }), pos + 9))
    } else if tag == 2 {
        if left < 17 {
            return Err(DecodeError::Truncated);
        }
        proof {
            lemma_suffix(bytes@, pos as int, 17, 0);
        }
        let lat = field_i64(bytes, pos, 1);
        let lon = field_i64(bytes, pos, 9);
        Ok((Some(Trigger::Position { lat, lon }), pos + 17))
    } else if tag == 3 {
        if left < 9 {
            return Err(DecodeError::Truncated);
        }
        proof {
            lemma_suffix(bytes@, pos as int, 9, 0);
        }
        let value = field_i64(bytes, pos, 1);
        Ok((Some(Trigger::Altitude { value }), pos + 9))
    } else {
        Err(DecodeError::UnknownTag)
    }
}

/// Reads an action at `pos`.
pub fn read_action(bytes: &[u8], pos: usize) -> (got: Result<(Action, usize), DecodeError>)
    requires
        pos <= bytes@.len(),
    ensures
        reads(got, bytes@, pos, dec_action(bytes@.skip(pos as int))),
{
    let left = bytes.len() - pos;
    if left < 1 {
        return Err(DecodeError::Truncated);
    }
    proof {
        lemma_suffix(bytes@, pos as int, 0, 1);
        lemma_suffix(bytes@, pos as int, 1, 0);
    }
    let tag = bytes[pos];
    if tag == 0 {
        Ok((Action::Ignite, pos + 1))
    } else if tag == 1 {
        if left < 25 {
            return Err(DecodeError::Truncated);
        }
        proof {
            lemma_suffix(bytes@, pos as int, 25, 0);
        }
        let pitch = field_i64(bytes, pos, 1);
        let roll = field_i64(bytes, pos, 9);
        let yaw = field_i64(bytes, pos, 17);
        Ok((Action::Reorient { pitch, roll, yaw }, pos + 25))
    } else if tag == 2 {
        if left < 9 {
            return Err(DecodeError::Truncated);
        }
        proof {
            lemma_suffix(bytes@, pos as int, 9, 0);
        }
        let throttle = field_i64(bytes, pos, 1);
        Ok((Action::ThrottleLevel { throttle }, pos + 9))
    } else if tag == 3 {
        Ok((Action::Coast, pos + 1))
    } else if tag == 4 {
        Ok((Action::NextStage, pos + 1))
    } else {
        Err(DecodeError::UnknownTag)
    }
}

/// Reads a step at `pos`.
pub fn read_step(bytes: &[u8], pos: usize) -> (got: Result<(Step, usize), DecodeError>)
    requires
        pos <= bytes@.len(),
    ensures
        reads(got, bytes@, pos, dec_step(bytes@.skip(pos as int))),
{
    let (count, after_count) = match read_u32(bytes, pos) {
        Ok(found) => found,
        Err(e) => {
            return Err(e);
        },
    };
    let (action, after_action) = match read_action(bytes, after_count) {
        Ok(found) => found,
        Err(e) => {
            return Err(e);
        },
    };
    let (trigger, next) = match read_trigger(bytes, after_action) {
        Ok(found) => found,
        Err(e) => {
            return Err(e);
        },
    };
    Ok((Step { count, action, trigger }, next))
}

/// Reads `n` steps at `pos`.
pub fn read_steps(bytes: &[u8], pos: usize, n: u32) -> (got: Result<(Vec<Step>, usize), DecodeError>)
    requires
        pos <= bytes@.len(),
    ensures
        match (got, dec_steps(bytes@.skip(pos as int), n as nat)) {
            (Ok((steps, next)), Ok((wanted, rest))) => {
                &&& steps@ == wanted
                &&& steps@.len() == n
                &&& pos <= next <= bytes@.len()
                &&& rest == bytes@.skip(next as int)
            },
            (Err(e), Err(f)) => e == f,
            _ => false,
        },
{
    let ghost whole = dec_steps(bytes@.skip(pos as int), n as nat);
    let mut steps: Vec<Step> = Vec::new();
    let mut at: usize = pos;
    let mut done: u32 = 0;
    proof {
        lemma_after_nothing(whole);
    }
    while done < n
        invariant
            done <= n,
            steps@.len() == done,
            pos <= at <= bytes@.len(),
            whole == dec_steps(bytes@.skip(pos as int), n as nat),
            whole == after(steps@, dec_steps(bytes@.skip(at as int), (n - done) as nat)),
        decreases n - done,
    {
        let ghost before = steps@;
        let ghost here = bytes@.skip(at as int);
        match read_step(bytes, at) {
            Err(e) => {
                return Err(e);
            },
            Ok((step, next)) => {
                proof {
                    let tail = dec_steps(bytes@.skip(next as int), (n - done - 1) as nat);
                    assert(dec_steps(here, (n - done) as nat) == after(seq![step], tail));
                    lemma_after_twice(before, step, tail);
                }
                steps.push(step);
                at = next;
                done += 1;
            },
        }
    }
    proof {
        assert(steps@ + Seq::<Step>::empty() =~= steps@);
    }
    Ok((steps, at))
}

/// Nothing put before a parse leaves it as it is.
pub proof fn lemma_after_nothing(parsed: Parsed<Seq<Step>>)
    ensures
        after(Seq::empty(), parsed) == parsed,
{
    if let Ok((steps, rest)) = parsed {
        assert(Seq::<Step>::empty() + steps =~= steps);
    }
}

/// Putting a step, then a front, before a parse puts the front with the step
/// appended before it.
pub proof fn lemma_after_twice(front: Seq<Step>, step: Step, parsed: Parsed<Seq<Step>>)
    ensures
        after(front, after(seq![step], parsed)) == after(front.push(step), parsed),
{
    if let Ok((steps, rest)) = parsed {
        assert(front + (seq![step] + steps) =~= front.push(step) + steps);
    }
}

/// Reads a reading at `pos`.
pub fn read_reading(bytes: &[u8], pos: usize) -> (got: Result<(Reading, usize), DecodeError>)
    requires
        pos <= bytes@.len(),
    ensures
        reads(got, bytes@, pos, dec_reading(bytes@.skip(pos as int))),
{
    if bytes.len() - pos < 64 {
        return Err(DecodeError::Truncated);
    }
    proof {
        lemma_suffix(bytes@, pos as int, 64, 0);
    }
    let reading = Reading {
        lat: field_i64(bytes, pos, 0),
        lon: field_i64(bytes, pos, 8),
        alt: field_i64(bytes, pos, 16),
        yaw: field_i64(bytes, pos, 24),
        pitch: field_i64(bytes, pos, 32),
        roll: field_i64(bytes, pos, 40),
        velocity: field_i64(bytes, pos, 48),
        time: field_u64(bytes, pos, 56),
    };
    Ok((reading, pos + 64))
}

/// Appends one byte.
pub fn put_u8(out: &mut Vec<u8>, x: u8)
    ensures
        final(out)@ == old(out)@ + seq![x],
{
    out.push(x);
    assert(out@ =~= old(out)@ + seq![x]);
}

/// Appends a 32-bit value.
pub fn put_u32(out: &mut Vec<u8>, x: u32)
    ensures
        final(out)@ == old(out)@ + enc_u32(x),
{
    out.push((x % 0x100) as u8);
    out.push((x / 0x100 % 0x100) as u8);
    out.push((x / 0x100 / 0x100 % 0x100) as u8);
    out.push((x / 0x100 / 0x100 / 0x100 % 0x100) as u8);
    proof {
        reveal(enc_u32);
        assert(out@ =~= old(out)@ + enc_u32(x));
    }
}

/// Appends a 64-bit value.
pub fn put_u64(out: &mut Vec<u8>, x: u64)
    ensures
        final(out)@ == old(out)@ + enc_u64(x),
{
    put_u32(out, (x % 0x1_0000_0000) as u32);
    put_u32(out, (x / 0x1_0000_0000) as u32);
    proof {
        reveal(enc_u64);
        assert(out@ =~= old(out)@ + enc_u64(x));
    }
}

/// Appends a signed 64-bit value.
pub fn put_i64(out: &mut Vec<u8>, x: i64)
    ensures
        final(out)@ == old(out)@ + enc_i64(x),
{
    put_u64(out, x as u64);
}

/// Appends an optional trigger.
pub fn put_trigger(out: &mut Vec<u8>, t: &Option<Trigger>)
    ensures
        final(out)@ == old(out)@ + enc_trigger(*t),
{
    match t {
        None => {
            put_u8(out, 0);
        },
        Some(Trigger::Time { seconds_since_epoch }) => {
            put_u8(out, 1);
            put_u64(out, *seconds_since_epoch);
        },
        Some(Trigger::Position { lat, lon }) => {
            put_u8(out, 2);
            put_i64(out, *lat);
            put_i64(out, *lon);
        },
        Some(Trigger::Altitude { value }) => {
            put_u8(out, 3);
            put_i64(out, *value);
        },
    }
    assert(out@ =~= old(out)@ + enc_trigger(*t));
}

/// Appends an action.
pub fn put_action(out: &mut Vec<u8>, a: &Action)
    ensures
        final(out)@ == old(out)@ + enc_action(*a),
{
    match a {
        Action::Ignite => {
            put_u8(out, 0);
        },
        Action::Reorient { pitch, roll, yaw } => {
            put_u8(out, 1);
            put_i64(out, *pitch);
            put_i64(out, *roll);
            put_i64(out, *yaw);
        },
        Action::ThrottleLevel { throttle } => {
            put_u8(out, 2);
            put_i64(out, *throttle);
        },
        Action::Coast => {
            put_u8(out, 3);
        },
        Action::NextStage => {
            put_u8(out, 4);
        },
    }
    assert(out@ =~= old(out)@ + enc_action(*a));
}

/// Appends a step.
pub fn put_step(out: &mut Vec<u8>, s: &Step)
    ensures
        final(out)@ == old(out)@ + enc_step(*s),
{
    put_u32(out, s.count);
    put_action(out, &s.action);
    put_trigger(out, &s.trigger);
    assert(out@ =~= old(out)@ + enc_step(*s));
}

/// Appends steps in order.
pub fn put_steps(out: &mut Vec<u8>, steps: &[Step])
    ensures
        final(out)@ == old(out)@ + enc_steps(steps@),
{
    let mut i: usize = 0;
    proof {
        assert(steps@.skip(0) =~= steps@);
    }
    while i < steps.len()
        invariant
            i <= steps@.len(),
            out@ + enc_steps(steps@.skip(i as int)) == old(out)@ + enc_steps(steps@),
        decreases steps.len() - i,
    {
        let ghost before = out@;
        put_step(out, &steps[i]);
        proof {
            let here = steps@.skip(i as int);
            assert(here.skip(1) =~= steps@.skip(i + 1));
            assert(before + enc_steps(here) =~= (before + enc_step(here[0])) + enc_steps(
                here.skip(1),
            ));
        }
        i += 1;
    }
    assert(out@ + enc_steps(steps@.skip(i as int)) =~= out@);
}

/// Appends a reading.
pub fn put_reading(out: &mut Vec<u8>, r: &Reading)
    ensures
        final(out)@ == old(out)@ + enc_reading(*r),
{
    put_i64(out, r.lat);
    put_i64(out, r.lon);
    put_i64(out, r.alt);
    put_i64(out, r.yaw);
    put_i64(out, r.pitch);
    put_i64(out, r.roll);
    put_i64(out, r.velocity);
    put_u64(out, r.time);
    assert(out@ =~= old(out)@ + enc_reading(*r));
}

/// Casting an unsigned value to signed and back returns it.
pub proof fn lemma_u64_cast_round_trip(x: u64)
    ensures
        (x as i64) as u64 == x,
{
    assert((x as i64) as u64 == x) by (bit_vector);
}

/// The four bytes at `at` are the encoding of the value read there.
pub proof fn lemma_u32_window(b: Seq<u8>, at: int)
    requires
        0 <= at,
        at + 4 <= b.len(),
    ensures
        enc_u32(u32_at(b, at)) == b.subrange(at, at + 4),
{
    reveal(enc_u32);
    reveal(u32_at);
    lemma_u32_joined(b[at], b[at + 1], b[at + 2], b[at + 3]);
    assert(enc_u32(u32_at(b, at)) =~= b.subrange(at, at + 4));
}

/// The eight bytes at `at` are the encoding of the value read there, signed
/// or unsigned.
pub proof fn lemma_u64_window(b: Seq<u8>, at: int)
    requires
        0 <= at,
        at + 8 <= b.len(),
    ensures
        enc_u64(u64_at(b, at)) == b.subrange(at, at + 8),
        enc_i64(i64_at(b, at)) == b.subrange(at, at + 8),
{
    reveal(enc_u64);
    reveal(u64_at);
    lemma_u32_window(b, at);
    lemma_u32_window(b, at + 4);
    lemma_u64_cast_round_trip(u64_at(b, at));
    assert(enc_u64(u64_at(b, at)) =~= b.subrange(at, at + 4) + b.subrange(at + 4, at + 8));
    assert(b.subrange(at, at + 4) + b.subrange(at + 4, at + 8) =~= b.subrange(at, at + 8));
}

/// Bytes from which a trigger is read begin with that trigger's encoding.
pub proof fn lemma_trigger_canonical(b: Seq<u8>)
    ensures
        dec_trigger(b) matches Ok((t, rest)) ==> b == enc_trigger(t) + rest,
{
    if let Ok((t, rest)) = dec_trigger(b) {
        match t {
            None => {},
            Some(Trigger::Time { .. }) => {
                lemma_u64_window(b, 1);
            },
            Some(Trigger::Position { .. }) => {
                lemma_u64_window(b, 1);
                lemma_u64_window(b, 9);
            },
            Some(Trigger::Altitude { .. }) => {
                lemma_u64_window(b, 1);
            },
        }
        assert(b =~= enc_trigger(t) + rest);
    }
}

/// Bytes from which an action is read begin with that action's encoding.
pub proof fn lemma_action_canonical(b: Seq<u8>)
    ensures
        dec_action(b) matches Ok((a, rest)) ==> b == enc_action(a) + rest,
{
    if let Ok((a, rest)) = dec_action(b) {
        match a {
            Action::Reorient { .. } => {
                lemma_u64_window(b, 1);
                lemma_u64_window(b, 9);
                lemma_u64_window(b, 17);
            },
            Action::ThrottleLevel { .. } => {
                lemma_u64_window(b, 1);
            },
            _ => {},
        }
        assert(b =~= enc_action(a) + rest);
    }
}

/// Bytes from which a step is read begin with that step's encoding.
pub proof fn lemma_step_canonical(b: Seq<u8>)
    ensures
        dec_step(b) matches Ok((s, rest)) ==> b == enc_step(s) + rest,
{
    if let Ok((s, rest)) = dec_step(b) {
        let after_count = b.skip(4);
        let after_action = dec_action(after_count)->Ok_0.1;
        lemma_u32_window(b, 0);
        lemma_action_canonical(after_count);
        lemma_trigger_canonical(after_action);
        assert(b =~= b.subrange(0, 4) + after_count);
        assert(b =~= enc_u32(s.count) + (enc_action(s.action) + (enc_trigger(s.trigger) + rest)));
        assert(b =~= enc_step(s) + rest);
    }
}

/// Bytes from which steps are read begin with the encoding of those steps,
/// and as many are read as were asked for.
pub proof fn lemma_steps_canonical(b: Seq<u8>, n: nat)
    ensures
        dec_steps(b, n) matches Ok((steps, rest)) ==> steps.len() == n && b == enc_steps(steps)
            + rest,
    decreases n,
{
    if let Ok((steps, rest)) = dec_steps(b, n) {
        if n == 0 {
            assert(b =~= enc_steps(steps) + rest);
        } else {
            let (first, after_first) = dec_step(b)->Ok_0;
            let (others, _) = dec_steps(after_first, (n - 1) as nat)->Ok_0;
            lemma_step_canonical(b);
            lemma_steps_canonical(after_first, (n - 1) as nat);
            assert(steps.skip(1) =~= others);
            assert(b =~= enc_steps(steps) + rest);
        }
    }
}

/// Bytes from which a reading is read begin with that reading's encoding.
pub proof fn lemma_reading_canonical(b: Seq<u8>)
    ensures
        dec_reading(b) matches Ok((r, rest)) ==> b == enc_reading(r) + rest,
{
    if let Ok((r, rest)) = dec_reading(b) {
        lemma_u64_window(b, 0);
        lemma_u64_window(b, 8);
        lemma_u64_window(b, 16);
        lemma_u64_window(b, 24);
        lemma_u64_window(b, 32);
        lemma_u64_window(b, 40);
        lemma_u64_window(b, 48);
        lemma_u64_window(b, 56);
        assert(b =~= enc_reading(r) + rest);
    }
}

} // verus!
