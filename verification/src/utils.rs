//! Small shared utilities: ids, time and the room clock. Points in time are
//! milliseconds, either of the monotonic clock that deadlines are kept in or of
//! the wall clock.

use vstd::prelude::*;

verus! {

/// The characters of ids: letters, digits, the underscore and the hyphen.
pub open spec fn is_id_char(c: char) -> bool {
    ('a' <= c && c <= 'z') || ('A' <= c && c <= 'Z') || ('0' <= c && c <= '9') || c == '_' || c
        == '-'
}

/// A text of so many characters that are safe in a URL.
pub open spec fn is_safe_text(t: Seq<char>, size: int) -> bool {
    t.len() == size && forall|i: int| 0 <= i < t.len() ==> is_id_char(#[trigger] t[i])
}

/// An id: sixteen characters that are safe in a URL.
pub open spec fn is_id(t: Seq<char>) -> bool {
    is_safe_text(t, 16)
}

/// A random text of so many characters that are safe in a URL, from
/// `nanoid::format` with the alphabet `nanoid::alphabet::SAFE`; which text comes
/// is left to chance.
#[verifier::external_body]
pub(crate) fn random_text(size: usize) -> (r: String)
    requires
        0 < size < 0x1000_0000,
    ensures
        is_safe_text(r@, size as int),
{
    nanoid::format(nanoid::rngs::default, &nanoid::alphabet::SAFE, size)
}

/// A URL-safe random id (session ids, room ids, reconnection tokens).
pub fn generate_id() -> (r: String)
    ensures
        is_id(r@),
{
    random_text(16)
}

/// Current wall-clock time in milliseconds since the Unix epoch, from
/// `std::time::SystemTime::now`; nothing is claimed of it.
#[verifier::external_body]
pub fn now_wallclock_ms() -> (r: u64) {
    let since = std::time::SystemTime::now().duration_since(std::time::UNIX_EPOCH);
    since.map(|d| d.as_millis() as u64).unwrap_or(0)
}

/// The wall-clock time of a deadline: now where it has passed.
pub open spec fn wallclock_of(t: u64, now: u64, sys_now: u64) -> int {
    if t <= now {
        sys_now as int
    } else {
        sys_now + (t - now)
    }
}

/// Converts a monotonic deadline to an absolute wall-clock value, given what both
/// clocks show. Used when persisting expiries so they survive restarts.
pub fn instant_to_wallclock_ms(t: u64, now: u64, sys_now: u64) -> (r: u64)
    requires
        wallclock_of(t, now, sys_now) <= u64::MAX,
    ensures
        r == wallclock_of(t, now, sys_now),
{
    if t <= now {
        sys_now
    } else {
        sys_now + (t - now)
    }
}

/// The deadline that a wall-clock time stands for: now where it has passed.
pub open spec fn instant_of(ms: u64, now: u64, sys_now: u64) -> int {
    if ms <= sys_now {
        now as int
    } else {
        now + (ms - sys_now)
    }
}

/// Converts an absolute wall-clock value back into a monotonic deadline, given
/// what both clocks show.
pub fn wallclock_ms_to_instant(ms: u64, now: u64, sys_now: u64) -> (r: u64)
    requires
        instant_of(ms, now, sys_now) <= u64::MAX,
    ensures
        r == instant_of(ms, now, sys_now),
{
    if ms <= sys_now {
        now
    } else {
        now + (ms - sys_now)
    }
}

/// A deadline converted and converted back at the same time is the deadline, or
/// now where it has passed.
pub proof fn law_deadline_survives(t: u64, now: u64, sys_now: u64)
    requires
        wallclock_of(t, now, sys_now) <= u64::MAX,
    ensures
        instant_of(wallclock_of(t, now, sys_now) as u64, now, sys_now) == if t <= now {
            now
        } else {
            t
        },
{
}

/// A deadline converted before a restart and converted back after it leaves as
/// much wall-clock time as was left.
pub proof fn law_deadline_survives_restart(
    t: u64,
    now: u64,
    sys_now: u64,
    later_now: u64,
    later_sys_now: u64,
)
    requires
        now <= t,
        wallclock_of(t, now, sys_now) <= u64::MAX,
        sys_now <= later_sys_now <= wallclock_of(t, now, sys_now),
    ensures
        instant_of(wallclock_of(t, now, sys_now) as u64, later_now, later_sys_now) - later_now == (t
            - now) - (later_sys_now - sys_now),
{
}

/// The time from `since` to `now`, which is none where `now` is earlier.
pub open spec fn elapsed_since(since: u64, now: u64) -> u64 {
    if now <= since {
        0
    } else {
        (now - since) as u64
    }
}

/// A point in time `d` later, at the latest the last one there is.
pub open spec fn later(t: u64, d: u64) -> u64 {
    if t + d <= u64::MAX {
        (t + d) as u64
    } else {
        u64::MAX
    }
}

/// A point in time `d` later, at the latest the last one there is.
pub fn add_time(t: u64, d: u64) -> (r: u64)
    ensures
        r == later(t, d),
{
    if t <= u64::MAX - d {
        t + d
    } else {
        u64::MAX
    }
}

/// The nanoseconds of so many milliseconds.
pub open spec fn clock_nanos(ms: u64) -> u128 {
    (ms * 1_000_000) as u128
}

/// The whole milliseconds in so many nanoseconds, as many of their bits as a `u64`
/// takes.
pub open spec fn clock_millis(ns: u128) -> u64 {
    ((ns / 1_000_000) % 0x1_0000_0000_0000_0000) as u64
}

/// The nanoseconds of so many milliseconds.
pub fn nanos_of_millis(ms: u64) -> (r: u128)
    ensures
        r == clock_nanos(ms),
{
    ms as u128 * 1_000_000
}

/// The nanoseconds from `since` to `now`, of which there are none where `now` is
/// earlier.
pub open spec fn nanos_since(since: u128, now: u128) -> u128 {
    if now <= since {
        0
    } else {
        (now - since) as u128
    }
}

/// The time since a clock was started, on top of what it had shown before.
pub open spec fn time_run(base: u128, started: u128, now: u128) -> u128 {
    let since = nanos_since(started, now);
    if base + since <= u128::MAX {
        (base + since) as u128
    } else {
        u128::MAX
    }
}

/// What a clock shows after a tick. It never goes back.
pub open spec fn time_shown(shown: u128, base: u128, started: u128, now: u128) -> u128 {
    let run = time_run(base, started, now);
    if run < shown {
        shown
    } else {
        run
    }
}

/// A clock never goes back, and while time goes on it shows the time since it was
/// started on top of what it was restored with, from the moment it starts.
pub proof fn law_clock_runs_on(shown: u128, base: u128, started: u128, earlier: u128, now: u128)
    ensures
        time_shown(shown, base, started, now) >= shown,
        time_run(base, started, started) == base,
        shown == time_run(base, started, earlier) && earlier <= now ==> time_shown(
            shown,
            base,
            started,
            now,
        ) == time_run(base, started, now),
{
}

/// A monotonic clock for rooms, in nanoseconds. It is ticked by the framework: on
/// every simulation tick when a simulation interval is set, or on every patch
/// broadcast otherwise.
#[derive(Debug, Clone, Copy)]
pub struct Clock {
    start: u128,
    base: u128,
    elapsed: u128,
}

impl Clock {
    /// When the clock was started.
    pub closed spec fn started(self) -> u128 {
        self.start
    }

    /// What the clock showed when it was started.
    pub closed spec fn base(self) -> u128 {
        self.base
    }

    /// What the clock shows.
    pub closed spec fn shown(self) -> u128 {
        self.elapsed
    }

    /// A clock that starts now.
    pub fn new(now: u128) -> (r: Self)
        ensures
            r.started() == now,
            r.base() == 0,
            r.shown() == 0,
    {
        Clock { start: now, base: 0, elapsed: 0 }
    }

    /// A clock that starts now and goes on from a previously elapsed time.
    pub fn restore(elapsed: u128, now: u128) -> (r: Self)
        ensures
            r.started() == now,
            r.base() == elapsed,
            r.shown() == elapsed,
    {
        Clock { start: now, base: elapsed, elapsed }
    }

    /// Brings what the clock shows up to date: the time since it was started, on
    /// top of what it showed then.
    pub fn tick(&mut self, now: u128)
        ensures
            final(self).started() == old(self).started(),
            final(self).base() == old(self).base(),
            final(self).shown() == time_shown(
                old(self).shown(),
                old(self).base(),
                old(self).started(),
                now,
            ),
            final(self).shown() >= old(self).shown(),
    {
        let since: u128 = if now <= self.start {
            0
        } else {
            now - self.start
        };
        let run: u128 = if self.base <= u128::MAX - since {
            self.base + since
        } else {
            u128::MAX
        };
        if run > self.elapsed {
            self.elapsed = run;
        }
    }

    /// Elapsed nanoseconds since the clock was created (as of the last tick).
    pub fn elapsed(&self) -> (r: u128)
        ensures
            r == self.shown(),
    {
        self.elapsed
    }

    /// Elapsed whole milliseconds since the clock was created (as of the last
    /// tick).
    pub fn elapsed_millis(&self) -> (r: u64)
        ensures
            r == clock_millis(self.shown()),
    {
        ((self.elapsed / 1_000_000) % 0x1_0000_0000_0000_0000) as u64
    }
}

}
