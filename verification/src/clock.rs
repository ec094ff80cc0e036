//! Clocks: wall-clock milliseconds and a monotonic nanosecond counter.
use vstd::prelude::*;

use std::time::{Instant, SystemTimeError};

use crate::channel::Record;

verus! {

#[verifier::external_type_specification]
#[verifier::external_body]
pub struct ExInstant(Instant);

#[verifier::external_type_specification]
#[verifier::external_body]
pub struct ExSystemTimeError(SystemTimeError);

/// What the wall clock said: the nanoseconds since the Unix epoch, or that it
/// stands before the epoch.
pub type WallReading = Result<u128, SystemTimeError>;

/// What the monotonic clock said: the nanoseconds since one of its points.
pub struct Elapsed {
    pub since: Instant,
    pub nanos: u128,
}

/// `Instant::now`: the current point of the monotonic clock. Which it is, is up to
/// the clock; the record gets it.
#[verifier::external_body]
fn instant_now(taken: &mut Record<Instant>) -> (now: Instant)
    ensures
        final(taken)@ == old(taken)@.push(now),
{
    Instant::now()
}

/// `Instant::elapsed`: the time since a point of the monotonic clock, as a number
/// of nanoseconds. How much it is, is up to the clock; the record gets it, and the
/// point that was asked of.
#[verifier::external_body]
fn elapsed_since(read: &mut Record<Elapsed>, since: &Instant) -> (nanos: u128)
    ensures
        final(read)@ == old(read)@.push(Elapsed { since: *since, nanos }),
{
    since.elapsed().as_nanos()
}

/// `SystemTime::elapsed` of the Unix epoch: the time since then by the wall clock,
/// as a number of nanoseconds, or an error where the clock stands before it. What
/// it is, is up to the clock; the record gets it.
#[verifier::external_body]
fn since_epoch(read: &mut Record<WallReading>) -> (outcome: WallReading)
    ensures
        final(read)@ == old(read)@.push(outcome),
{
    match std::time::UNIX_EPOCH.elapsed() {
        Ok(d) => Ok(d.as_nanos()),
        Err(e) => Err(e),
    }
}

/// Nanoseconds in a millisecond.
pub const NANOS_PER_MILLI: u128 = 1_000_000;

/// The whole milliseconds since the Unix epoch; nothing where the clock stands
/// before the epoch.
pub open spec fn millis_of(outcome: WallReading) -> Option<u128> {
    match outcome {
        Ok(n) => Some(n / NANOS_PER_MILLI),
        Err(_) => None,
    }
}

/// A number of milliseconds as an unsigned time stamp: 0 where there is none, the
/// largest stamp where the number does not fit.
pub open spec fn unsigned_stamp(reading: Option<u128>) -> u64 {
    match reading {
        None => 0,
        Some(n) => if n <= u64::MAX {
            n as u64
        } else {
            u64::MAX
        },
    }
}

/// A number of milliseconds as a signed time stamp: 0 where there is none and
/// where the number does not fit.
pub open spec fn signed_stamp(reading: Option<u128>) -> i64 {
    match reading {
        None => 0,
        Some(n) => if n <= i64::MAX {
            n as i64
        } else {
            0
        },
    }
}

/// The time stamp that is made of what the wall clock said.
pub open spec fn stamp(outcome: WallReading) -> u64 {
    unsigned_stamp(millis_of(outcome))
}

/// What the wall clock said, in milliseconds since the Unix epoch; nothing where
/// the clock stands before the epoch.
pub fn reading_of(outcome: WallReading) -> (reading: Option<u128>)
    ensures
        reading == millis_of(outcome),
{
    match outcome {
        Ok(n) => Some(n / NANOS_PER_MILLI),
        Err(_) => None,
    }
}

/// Read the wall clock, once, in milliseconds since the Unix epoch; nothing where
/// the clock stands before the epoch.
fn read_wall_clock(read: &mut Record<WallReading>) -> (reading: Option<u128>)
    ensures
        final(read)@ == old(read)@.push(final(read)@.last()),
        reading == millis_of(final(read)@.last()),
{
    let outcome = since_epoch(read);
    reading_of(outcome)
}

/// A clock reading as an unsigned time stamp: 0 before the epoch, the largest
/// stamp where the reading does not fit.
pub fn stamp_of(reading: Option<u128>) -> (ms: u64)
    ensures
        ms == unsigned_stamp(reading),
{
    match reading {
        None => 0,
        Some(n) => if n <= u64::MAX as u128 {
            n as u64
        } else {
            u64::MAX
        },
    }
}

/// A clock reading as a signed time stamp: 0 before the epoch and where the
/// reading does not fit.
pub fn signed_stamp_of(reading: Option<u128>) -> (ms: i64)
    ensures
        ms == signed_stamp(reading),
        ms >= 0,
{
    match reading {
        None => 0,
        Some(n) => if n <= i64::MAX as u128 {
            n as i64
        } else {
            0
        },
    }
}

/// The wall clock as an unsigned time stamp. It is read once.
pub fn now_unix_ms(read: &mut Record<WallReading>) -> (ms: u64)
    ensures
        final(read)@ == old(read)@.push(final(read)@.last()),
        ms == stamp(final(read)@.last()),
{
    stamp_of(read_wall_clock(read))
}

/// The wall clock as a signed time stamp, which is never negative. It is read
/// once.
pub fn now_unix_ms_i64(read: &mut Record<WallReading>) -> (ms: i64)
    ensures
        final(read)@ == old(read)@.push(final(read)@.last()),
        ms == signed_stamp(millis_of(final(read)@.last())),
        ms >= 0,
{
    signed_stamp_of(read_wall_clock(read))
}

/// A monotonic clock, as a value.
#[verifier::ext_equal]
pub struct ClockModel {
    /// The point that it counts from.
    pub started: Instant,
    /// The points that were taken for it, each the current one at its time.
    pub taken: Seq<Instant>,
    /// How it was read since, in order.
    pub read: Seq<Elapsed>,
}

/// The clock counts from the one point that was taken for it, and was not read
/// yet.
pub open spec fn just_started(c: ClockModel) -> bool {
    &&& c.taken == seq![c.started]
    &&& c.read == Seq::<Elapsed>::empty()
}

/// The clock was read once more, against its own start.
pub open spec fn ticked(before: ClockModel, after: ClockModel) -> bool {
    after == (ClockModel {
        read: before.read.push(
            Elapsed { since: before.started, nanos: after.read.last().nanos },
        ),
        ..before
    })
}

/// What the clock showed when it was last read: the nanoseconds since its start,
/// or the largest count where they do not fit.
pub open spec fn shown(c: ClockModel) -> u64 {
    unsigned_stamp(Some(c.read.last().nanos))
}

/// A monotonic clock that counts from its own start.
pub struct Clock {
    started: Instant,
    taken: Record<Instant>,
    read: Record<Elapsed>,
}

impl View for Clock {
    type V = ClockModel;

    closed spec fn view(&self) -> ClockModel {
        ClockModel { started: self.started, taken: self.taken@, read: self.read@ }
    }
}

impl Clock {
    /// A clock that starts now and was not read yet.
    pub fn start() -> (c: Clock)
        ensures
            just_started(c@),
    {
        let mut taken: Record<Instant> = Record::new();
        let started = instant_now(&mut taken);
        assert(taken@ =~= seq![started]);
        Clock { started, taken, read: Record::new() }
    }

    /// Nanoseconds since the start. The clock is read once.
    pub fn nanos(&mut self) -> (n: u64)
        ensures
            ticked(old(self)@, final(self)@),
            n == shown(final(self)@),
    {
        let nanos: u128 = elapsed_since(&mut self.read, &self.started);
        stamp_of(Some(nanos))
    }
}

/// A time stamp is in milliseconds: a reading lies less than a thousand
/// microseconds behind its stamp. A clock before the epoch reads 0, and one that
/// is past the last stamp reads the last one as an unsigned stamp and 0 as a signed
/// one.
pub proof fn law_stamps_are_milliseconds(n: u128, outcome: WallReading)
    requires
        outcome matches Ok(m) && m == n,
    ensures
        n < 0x1_0000_0000_0000_0000 ==> stamp(outcome) * 1_000_000 <= n < (stamp(outcome) + 1)
            * 1_000_000,
        stamp(outcome) < u64::MAX ==> stamp(outcome) * 1_000_000 <= n < (stamp(outcome) + 1)
            * 1_000_000,
        signed_stamp(millis_of(outcome)) > 0 ==> signed_stamp(millis_of(outcome)) == stamp(outcome),
        signed_stamp(millis_of(outcome)) == 0 ==> stamp(outcome) == 0 || stamp(outcome) > i64::MAX,
{
}

/// A later reading has no earlier stamp.
pub proof fn law_stamps_follow_time(a: u128, b: u128, early: WallReading, late: WallReading)
    requires
        early matches Ok(m) && m == a,
        late matches Ok(m) && m == b,
        a <= b,
    ensures
        stamp(early) <= stamp(late),
{
    assert(a / 1_000_000 <= b / 1_000_000) by (nonlinear_arith)
        requires
            a <= b,
    ;
}

/// A clock shows the nanoseconds since its own start, each time that it is read; it keeps
/// its start.
pub proof fn law_clock_counts_nanoseconds(before: ClockModel, after: ClockModel)
    requires
        ticked(before, after),
    ensures
        after.started == before.started,
        after.taken == before.taken,
        after.read.len() == before.read.len() + 1,
        after.read.drop_last() == before.read,
        after.read.last().since == before.started,
        after.read.last().nanos <= u64::MAX ==> shown(after) == after.read.last().nanos,
        after.read.last().nanos > u64::MAX ==> shown(after) == u64::MAX,
{
    assert(after.read.drop_last() =~= before.read);
}

/// A clock that was just started counts from a point that was taken for it.
pub proof fn law_clock_starts_now(c: ClockModel)
    requires
        just_started(c),
    ensures
        c.taken.len() == 1,
        c.taken[0] == c.started,
        c.read.len() == 0,
{
}

/// A clock that stands before the epoch gives the stamp 0.
pub proof fn law_no_time_before_the_epoch(outcome: WallReading)
    requires
        outcome is Err,
    ensures
        stamp(outcome) == 0,
        signed_stamp(millis_of(outcome)) == 0,
{
}

} // verus!
