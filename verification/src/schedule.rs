//! The platform's own scheduler: when a check is due, who holds the run lock,
//! and the units that start the next run.

use crate::catalog::Platform;
use crate::clock;
use crate::config::{self, Config};
use crate::duration::Duration;
use crate::exec::{self, ExecError, Output};
use crate::herdr;
use crate::location::Location;
use crate::text::{self, CharClass};
use vstd::arithmetic::power2;
use vstd::prelude::*;
use vstd::string::*;

verus! {

pub const STATE_FILE: &'static str = "schedule-state.json";

pub const LOCK_DIR: &'static str = "schedule.lock";

pub const LOCK_OWNER_FILE: &'static str = "owner.json";

/// The age in seconds at which a lock is reclaimed when nothing can be proved
/// of its owner. It is the last resort: a run killed by a signal leaves its
/// lock behind, and waiting this long for every such lock would leave a
/// scheduler that fires, reports success and does nothing.
pub const LOCK_STALE_AFTER: u64 = 7_200;

pub const MIN_SCHEDULER_TICK: u64 = 60;

pub const MAX_SCHEDULER_TICK: u64 = 300;

/// The most that is read of a state file, in bytes.
pub const MAX_STATE_BYTES: u64 = 65_536;

#[derive(Debug, Clone, Copy, PartialEq, Eq, Structural)]
pub struct ScheduleState {
    pub last_attempt_unix_seconds: Option<u64>,
    pub last_success_unix_seconds: Option<u64>,
    pub last_fleet_sync_unix_seconds: Option<u64>,
    pub next_check_unix_seconds: Option<u64>,
    pub consecutive_failures: u32,
    pub last_exit_code: Option<i32>,
}

pub open spec fn fresh_state() -> ScheduleState {
    ScheduleState {
        last_attempt_unix_seconds: None,
        last_success_unix_seconds: None,
        last_fleet_sync_unix_seconds: None,
        next_check_unix_seconds: None,
        consecutive_failures: 0,
        last_exit_code: None,
    }
}

impl Default for ScheduleState {
    fn default() -> (r: Self)
        ensures
            r == fresh_state(),
    {
        ScheduleState {
            last_attempt_unix_seconds: None,
            last_success_unix_seconds: None,
            last_fleet_sync_unix_seconds: None,
            next_check_unix_seconds: None,
            consecutive_failures: 0,
            last_exit_code: None,
        }
    }
}

// ---------------------------------------------------------------------------
// Timing

pub open spec fn lesser(a: nat, b: nat) -> nat {
    if a <= b {
        a
    } else {
        b
    }
}

pub open spec fn greater(a: nat, b: nat) -> nat {
    if a >= b {
        a
    } else {
        b
    }
}

/// A sum of seconds that stays within the range of a timestamp.
pub open spec fn later(now: nat, seconds: nat) -> nat {
    lesser(now + seconds, u64::MAX as nat)
}

/// The seconds since a recorded moment: none for a moment that is still to
/// come, and the most there is where nothing was recorded.
pub open spec fn elapsed(value: Option<u64>, now: u64) -> nat {
    match value {
        None => u64::MAX as nat,
        Some(at) => if at <= now {
            (now - at) as nat
        } else {
            0
        },
    }
}

pub fn elapsed_since(value: Option<u64>, now: u64) -> (r: u64)
    ensures
        r == elapsed(value, now),
{
    match value {
        None => u64::MAX,
        Some(at) => if at <= now {
            now - at
        } else {
            0
        },
    }
}

/// A minute of the day lies in a window, which may cross midnight.
pub open spec fn window_holds(current: u16, start: u16, end: u16) -> bool {
    if start < end {
        start <= current < end
    } else {
        current >= start || current < end
    }
}

pub fn in_window(current: u16, start: u16, end: u16) -> (r: bool)
    ensures
        r == window_holds(current, start, end),
{
    if start < end {
        current >= start && current < end
    } else {
        current >= start || current < end
    }
}

/// A window and the same window turned around split the day between them:
/// every minute lies in exactly one of the two.
pub proof fn law_windows_split_the_day(current: u16, start: u16, end: u16)
    requires
        start != end,
    ensures
        window_holds(current, start, end) != window_holds(current, end, start),
{
}

/// The doublings of the retry delay after so many failures.
pub open spec fn doublings(failures: nat) -> nat {
    if failures == 0 {
        0
    } else {
        lesser((failures - 1) as nat, 8)
    }
}

/// The delay after so many failures in a row: five minutes, doubled by each
/// failure after the first, and no longer than the usual interval.
pub open spec fn retry_seconds(failures: nat, normal: nat) -> nat {
    lesser(300 * power2::pow2(doublings(failures)), greater(normal, 300))
}

pub fn retry_delay(failures: u32, normal: Duration) -> (r: Duration)
    ensures
        r@ == retry_seconds(failures as nat, normal@),
{
    let exponent: u32 = if failures == 0 {
        0
    } else if failures - 1 < 8 {
        failures - 1
    } else {
        8
    };
    let mut seconds: u64 = 300;
    let mut i: u32 = 0;
    proof {
        power2::lemma2_to64();
    }
    while i < exponent
        invariant
            i <= exponent <= 8,
            seconds == 300 * power2::pow2(i as nat),
        decreases exponent - i,
    {
        proof {
            power2::lemma2_to64();
            power2::lemma_pow2_unfold((i + 1) as nat);
            power2::lemma_pow2_strictly_increases(i as nat, 8);
        }
        seconds = seconds * 2;
        i = i + 1;
    }
    let usual: u64 = normal.as_secs();
    let cap: u64 = if usual >= 300 {
        usual
    } else {
        300
    };
    if seconds <= cap {
        Duration::from_secs(seconds)
    } else {
        Duration::from_secs(cap)
    }
}

/// The retry delay is at least five minutes, never longer than the usual
/// interval where that is longer than five minutes, and never shrinks as
/// failures add up.
pub proof fn law_retries_back_off(failures: nat, more: nat, normal: nat)
    requires
        failures <= more,
    ensures
        300 <= retry_seconds(failures, normal) <= greater(normal, 300),
        retry_seconds(failures, normal) <= retry_seconds(more, normal),
{
    let a = doublings(failures);
    let b = doublings(more);
    power2::lemma2_to64();
    if 0 < a {
        power2::lemma_pow2_strictly_increases(0, a);
    }
    if a < b {
        power2::lemma_pow2_strictly_increases(a, b);
    }
}

/// The number that spreads checks out over time: the seed's bits, rotated and
/// multiplied by the golden ratio.
pub open spec fn scattered(seed: u64) -> nat {
    (((seed << 17) | (seed >> 47)) * 0x9e37_79b9_7f4a_7c15) as nat % 0x1_0000_0000_0000_0000
}

pub open spec fn jitter_seconds(seed: u64, maximum: nat) -> nat {
    scattered(seed) % (maximum + 1)
}

/// The seconds by which a check is put off, the same for the same seed.
pub fn deterministic_jitter(seed: u64, maximum: Duration) -> (r: u64)
    requires
        maximum@ < u64::MAX,
    ensures
        r == jitter_seconds(seed, maximum@),
{
    let max: u64 = maximum.as_secs();
    if max == 0 {
        0
    } else {
        let rotated: u64 = (seed << 17) | (seed >> 47);
        rotated.wrapping_mul(0x9e37_79b9_7f4a_7c15) % (max + 1)
    }
}

/// The jitter never exceeds its configured maximum.
pub proof fn law_jitter_is_bounded(seed: u64, maximum: nat)
    ensures
        jitter_seconds(seed, maximum) <= maximum,
{
}

/// How often the platform's scheduler fires: often enough to notice a
/// deadline, from a minute to five.
pub open spec fn tick_seconds(check: nat, delay: nat, jitter: nat) -> nat {
    let longest = lesser(check, MAX_SCHEDULER_TICK as nat);
    let delayed = if delay == 0 {
        longest
    } else {
        lesser(longest, delay)
    };
    let jittered = if jitter == 0 {
        delayed
    } else {
        lesser(delayed, jitter)
    };
    greater(jittered, MIN_SCHEDULER_TICK as nat)
}

pub open spec fn config_tick(config: Config) -> nat {
    tick_seconds(
        config::seconds_or(config.check_interval@, 21_600),
        config::seconds_or(config.initial_delay@, 300),
        config::seconds_or(config.jitter@, 300),
    )
}

pub fn scheduler_tick(config: &Config) -> (r: Duration)
    ensures
        r@ == config_tick(*config),
{
    let mut tick: u64 = config.check_every().as_secs();
    if tick > MAX_SCHEDULER_TICK {
        tick = MAX_SCHEDULER_TICK;
    }
    let delay: u64 = config.initial_delay_value().as_secs();
    if delay != 0 && delay < tick {
        tick = delay;
    }
    let jitter: u64 = config.jitter_value().as_secs();
    if jitter != 0 && jitter < tick {
        tick = jitter;
    }
    if tick < MIN_SCHEDULER_TICK {
        tick = MIN_SCHEDULER_TICK;
    }
    Duration::from_secs(tick)
}

/// The scheduler fires at least every five minutes and at most once a minute,
/// and no more seldom than the jitter it has to observe, where that is longer
/// than a minute.
pub proof fn law_tick_observes_deadlines(check: nat, delay: nat, jitter: nat)
    ensures
        MIN_SCHEDULER_TICK <= tick_seconds(check, delay, jitter) <= MAX_SCHEDULER_TICK,
        jitter > 0 ==> tick_seconds(check, delay, jitter) <= greater(
            jitter,
            MIN_SCHEDULER_TICK as nat,
        ),
        delay > 0 ==> tick_seconds(check, delay, jitter) <= greater(
            delay,
            MIN_SCHEDULER_TICK as nat,
        ),
{
}

// ---------------------------------------------------------------------------
// The state of the schedule

/// What looking at a state file came to.
#[derive(Debug)]
pub enum StateFile {
    Missing,
    Uninspectable(String),
    /// Not a regular file, or too large.
    Unbounded,
    Unreadable(String),
    Unparsable(String),
    Parsed(ScheduleState),
}

/// A file of this length may be read for state.
pub fn bounded(regular: bool, bytes: u64) -> (r: bool)
    ensures
        r == (regular && bytes <= MAX_STATE_BYTES),
{
    regular && bytes <= MAX_STATE_BYTES
}

/// The state that a file holds, or what is wrong with it. No file is a fresh
/// state.
pub open spec fn state_of(path: Seq<char>, file: StateFile) -> Result<ScheduleState, Seq<char>> {
    match file {
        StateFile::Missing => Ok(fresh_state()),
        StateFile::Uninspectable(e) => Err("cannot inspect "@ + path + ": "@ + e@),
        StateFile::Unbounded => Err(path + " is not a bounded regular file"@),
        StateFile::Unreadable(e) => Err("cannot read "@ + path + ": "@ + e@),
        StateFile::Unparsable(e) => Err("cannot parse "@ + path + ": "@ + e@),
        StateFile::Parsed(state) => Ok(state),
    }
}

pub open spec fn result_is(
    r: Result<ScheduleState, String>,
    expected: Result<ScheduleState, Seq<char>>,
) -> bool {
    match expected {
        Ok(state) => r == Ok::<ScheduleState, String>(state),
        Err(error) => r matches Err(e) && e@ == error,
    }
}

pub fn read_state(path: &str, file: &StateFile) -> (r: Result<ScheduleState, String>)
    ensures
        result_is(r, state_of(path@, *file)),
{
    match file {
        StateFile::Missing => Ok(ScheduleState::default()),
        StateFile::Uninspectable(e) => Err(
            "cannot inspect ".to_string().concat(path).concat(": ").concat(e.as_str()),
        ),
        StateFile::Unbounded => Err(path.to_string().concat(" is not a bounded regular file")),
        StateFile::Unreadable(e) => Err(
            "cannot read ".to_string().concat(path).concat(": ").concat(e.as_str()),
        ),
        StateFile::Unparsable(e) => Err(
            "cannot parse ".to_string().concat(path).concat(": ").concat(e.as_str()),
        ),
        StateFile::Parsed(state) => Ok(*state),
    }
}

/// The jitter can be computed: the whole range of a timestamp is no jitter.
pub open spec fn jitter_fits(config: Config) -> bool {
    config::seconds_or(config.jitter@, 300) < u64::MAX
}

/// The moment of the next check: so many seconds on, and the jitter of a seed.
pub open spec fn next_check(now: u64, delay: nat, seed: u64, config: Config) -> u64 {
    later(
        later(now as nat, delay),
        jitter_seconds(seed, config::seconds_or(config.jitter@, 300)),
    ) as u64
}

fn next_check_at(now: u64, delay: u64, seed: u64, config: &Config) -> (r: u64)
    requires
        jitter_fits(*config),
    ensures
        r == next_check(now, delay as nat, seed, *config),
{
    now.saturating_add(delay).saturating_add(deterministic_jitter(seed, config.jitter_value()))
}

/// A check is due at the moment that was set for it; where none was set, once
/// the check interval has passed since the last attempt.
pub open spec fn due(state: ScheduleState, config: Config, now: u64) -> bool {
    match state.next_check_unix_seconds {
        Some(next) => now >= next,
        None => elapsed(state.last_attempt_unix_seconds, now) >= config::seconds_or(
            config.check_interval@,
            21_600,
        ),
    }
}

pub fn check_due(path: &str, file: &StateFile, config: &Config) -> (r: Result<bool, String>)
    ensures
        match state_of(path@, *file) {
            Ok(state) => r matches Ok(b) && exists|now: u64| b == #[trigger] due(
                state,
                *config,
                now,
            ),
            Err(error) => r matches Err(e) && e@ == error,
        },
{
    let state = read_state(path, file)?;
    let now = clock::now();
    let r = check_due_at(&state, config, now);
    assert(r == due(state, *config, now));
    Ok(r)
}

pub fn check_due_at(state: &ScheduleState, config: &Config, now: u64) -> (r: bool)
    ensures
        r == due(*state, *config, now),
{
    match state.next_check_unix_seconds {
        Some(next) => now >= next,
        None => elapsed_since(state.last_attempt_unix_seconds, now)
            >= config.check_every().as_secs(),
    }
}

/// A run that holds the lock, and the state it found.
#[derive(Debug)]
pub struct RunLease {
    pub state: ScheduleState,
}

/// Scheduled synchronisation is on, and its interval has passed.
pub open spec fn sync_due(state: ScheduleState, config: Config, now: u64) -> bool {
    config.scheduled_fleet_sync && elapsed(state.last_fleet_sync_unix_seconds, now)
        >= config::seconds_or(config.fleet_sync_interval@, 21_600)
}

/// The state after a run that ended at `now`.
pub open spec fn finished(
    state: ScheduleState,
    config: Config,
    exit_code: i32,
    successful: bool,
    fleet_synced: bool,
    now: u64,
) -> ScheduleState {
    let failures = if successful {
        0
    } else if state.consecutive_failures < u32::MAX {
        (state.consecutive_failures + 1) as u32
    } else {
        u32::MAX
    };
    let check = config::seconds_or(config.check_interval@, 21_600);
    let delay = if successful {
        check
    } else {
        retry_seconds(failures as nat, check)
    };
    ScheduleState {
        last_attempt_unix_seconds: Some(now),
        last_exit_code: Some(exit_code),
        last_success_unix_seconds: if successful {
            Some(now)
        } else {
            state.last_success_unix_seconds
        },
        consecutive_failures: failures,
        last_fleet_sync_unix_seconds: if fleet_synced {
            Some(now)
        } else {
            state.last_fleet_sync_unix_seconds
        },
        next_check_unix_seconds: Some(next_check(now, delay, now, config)),
    }
}

/// The state of a run that was put off for quiet hours: only the next check
/// moves, five minutes on from `now`, with the jitter of `seed`.
pub open spec fn deferred(
    state: ScheduleState,
    config: Config,
    now: u64,
    seed: u64,
) -> ScheduleState {
    ScheduleState { next_check_unix_seconds: Some(next_check(now, 300, seed, config)), ..state }
}

impl RunLease {
    pub fn fleet_sync_due(&self, config: &Config) -> (r: bool)
        ensures
            exists|now: u64| r == #[trigger] sync_due(self.state, *config, now),
    {
        let now = clock::now();
        let r = self.fleet_sync_due_at(config, now);
        assert(r == sync_due(self.state, *config, now));
        r
    }

    pub fn fleet_sync_due_at(&self, config: &Config, now: u64) -> (r: bool)
        ensures
            r == sync_due(self.state, *config, now),
    {
        config.scheduled_fleet_sync && elapsed_since(self.state.last_fleet_sync_unix_seconds, now)
            >= config.fleet_sync_every().as_secs()
    }

    /// Records how a run ended and when the next one is due.
    pub fn finish(
        &mut self,
        config: &Config,
        exit_code: i32,
        successful: bool,
        fleet_synced: bool,
    )
        requires
            jitter_fits(*config),
        ensures
            exists|now: u64|
                final(self).state == #[trigger] finished(
                    old(self).state,
                    *config,
                    exit_code,
                    successful,
                    fleet_synced,
                    now,
                ),
    {
        let now = clock::now();
        self.finish_at(config, exit_code, successful, fleet_synced, now);
    }

    pub fn finish_at(
        &mut self,
        config: &Config,
        exit_code: i32,
        successful: bool,
        fleet_synced: bool,
        now: u64,
    )
        requires
            jitter_fits(*config),
        ensures
            final(self).state == finished(
                old(self).state,
                *config,
                exit_code,
                successful,
                fleet_synced,
                now,
            ),
    {
        self.state.last_attempt_unix_seconds = Some(now);
        self.state.last_exit_code = Some(exit_code);
        if successful {
            self.state.last_success_unix_seconds = Some(now);
            self.state.consecutive_failures = 0;
        } else {
            self.state.consecutive_failures = self.state.consecutive_failures.saturating_add(1);
        }
        if fleet_synced {
            self.state.last_fleet_sync_unix_seconds = Some(now);
        }
        let delay: u64 = if successful {
            config.check_every().as_secs()
        } else {
            retry_delay(self.state.consecutive_failures, config.check_every()).as_secs()
        };
        self.state.next_check_unix_seconds = Some(next_check_at(now, delay, now, config));
    }

    /// Puts the next check off without recording an attempt.
    pub fn defer_for_quiet_hours(&mut self, config: &Config)
        requires
            jitter_fits(*config),
        ensures
            exists|now: u64, seed: u64|
                final(self).state == #[trigger] deferred(old(self).state, *config, now, seed),
    {
        let now = clock::now();
        let seed = clock::now();
        self.defer_at(config, now, seed);
    }

    pub fn defer_at(&mut self, config: &Config, now: u64, seed: u64)
        requires
            jitter_fits(*config),
        ensures
            final(self).state == deferred(old(self).state, *config, now, seed),
    {
        self.state.next_check_unix_seconds = Some(next_check_at(now, 300, seed, config));
    }
}

/// A finished run is not due again at once: no sooner than the retry delay
/// after a failure, no sooner than the check interval after a success, as far
/// as timestamps reach.
pub proof fn law_finished_run_waits(
    state: ScheduleState,
    config: Config,
    exit_code: i32,
    successful: bool,
    fleet_synced: bool,
    now: u64,
    at: u64,
)
    requires
        now <= at,
        at < u64::MAX,
        due(finished(state, config, exit_code, successful, fleet_synced, now), config, at),
    ensures
        successful ==> at - now >= config::seconds_or(config.check_interval@, 21_600),
        !successful ==> at - now >= 300,
{
    let after = finished(state, config, exit_code, successful, fleet_synced, now);
    law_retries_back_off(
        after.consecutive_failures as nat,
        after.consecutive_failures as nat,
        config::seconds_or(config.check_interval@, 21_600),
    );
}

/// A success ends a row of failures, and nothing but a success does.
pub proof fn law_failures_are_counted(
    state: ScheduleState,
    config: Config,
    exit_code: i32,
    successful: bool,
    fleet_synced: bool,
    now: u64,
)
    ensures
        ({
            let after = finished(state, config, exit_code, successful, fleet_synced, now);
            (after.consecutive_failures == 0) == successful
        }),
{
}

/// A state that was never used: nothing was tried, and nothing is planned.
pub open spec fn untouched(state: ScheduleState) -> bool {
    state.next_check_unix_seconds is None && state.last_attempt_unix_seconds is None
        && state.last_success_unix_seconds is None
}

/// The state with which a schedule is installed: an untouched one gets its
/// first check after the initial delay, any other stays as it is.
pub open spec fn seeded(state: ScheduleState, config: Config, now: u64) -> ScheduleState {
    if untouched(state) {
        ScheduleState {
            next_check_unix_seconds: Some(
                next_check(now, config::seconds_or(config.initial_delay@, 300), now, config),
            ),
            ..state
        }
    } else {
        state
    }
}

/// The state that an installation starts from, and whether it has to be saved.
pub fn prepare_initial_state(
    path: &str,
    file: &StateFile,
    config: &Config,
    now: u64,
) -> (r: Result<(ScheduleState, bool), String>)
    requires
        jitter_fits(*config),
    ensures
        match state_of(path@, *file) {
            Ok(state) => r == Ok::<(ScheduleState, bool), String>(
                (seeded(state, *config, now), untouched(state)),
            ),
            Err(error) => r matches Err(e) && e@ == error,
        },
{
    let mut state = read_state(path, file)?;
    let changed = state.next_check_unix_seconds.is_none()
        && state.last_attempt_unix_seconds.is_none() && state.last_success_unix_seconds.is_none();
    if changed {
        let delay: u64 = config.initial_delay_value().as_secs();
        state.next_check_unix_seconds = Some(next_check_at(now, delay, now, config));
    }
    Ok((state, changed))
}

/// How a state file is put back after an installation that failed.
#[derive(Debug, Clone, Copy, PartialEq, Eq, Structural)]
pub enum Restoration {
    Nothing,
    /// Write the bytes that were there.
    Rewrite,
    /// There was no file.
    Remove,
}

/// How the state of before is brought back.
pub open spec fn restoration(changed: bool, existed: bool) -> Restoration {
    if !changed {
        Restoration::Nothing
    } else if existed {
        Restoration::Rewrite
    } else {
        Restoration::Remove
    }
}

pub fn restore(changed: bool, existed: bool) -> (r: Restoration)
    ensures
        r == restoration(changed, existed),
{
    if !changed {
        Restoration::Nothing
    } else if existed {
        Restoration::Rewrite
    } else {
        Restoration::Remove
    }
}

/// The error of an installation that failed, with that of putting the state
/// back where this failed too.
pub fn install_error(error: String, restored: &Result<(), String>) -> (r: String)
    ensures
        r@ == match *restored {
            Ok(_) => error@,
            Err(e) => error@ + "; additionally could not restore schedule state: "@ + e@,
        },
{
    match restored {
        Ok(_) => error,
        Err(e) => error.concat("; additionally could not restore schedule state: ").concat(
            e.as_str(),
        ),
    }
}

// ---------------------------------------------------------------------------
// The run lock

/// Who holds the lock, written inside it so that a later run can ask whether
/// that process still exists instead of only how old the lock is.
#[derive(Debug)]
pub struct LockOwner {
    pub pid: u32,
    /// Tells boots apart, so that a process number reused after a restart is
    /// not mistaken for the holder. None where the platform has none.
    pub boot: Option<String>,
    pub acquired_unix_seconds: u64,
}

impl Clone for LockOwner {
    fn clone(&self) -> (r: Self)
        ensures
            r == *self,
    {
        LockOwner {
            pid: self.pid,
            boot: text::clone_option(&self.boot),
            acquired_unix_seconds: self.acquired_unix_seconds,
        }
    }
}

/// The record that a run leaves in the lock it acquired: its own process, in
/// this boot, now.
pub fn write_owner(pid: u32, boot: Option<String>, now: u64) -> (r: LockOwner)
    ensures
        r == (LockOwner { pid, boot, acquired_unix_seconds: now }),
{
    LockOwner { pid, boot, acquired_unix_seconds: now }
}

/// What is known of the holder of the lock.
#[derive(Debug, Clone, Copy, PartialEq, Eq, Structural)]
pub enum LockVerdict {
    /// A live process holds it.
    Held,
    /// The recorded owner is provably gone.
    OwnerGone,
    /// Only the age can decide.
    Unknown,
}

/// What the lock looks like, for reporting rather than acquiring.
#[derive(Debug, Clone, Copy)]
pub struct LockReport {
    pub verdict: LockVerdict,
    pub pid: Option<u32>,
    pub held_for: Option<Duration>,
}

/// The boot identity in what the kernel reports of it.
pub open spec fn boot_of(reported: Option<Seq<char>>) -> Option<Seq<char>> {
    match reported {
        Some(value) if text::trimmed(value).len() > 0 => Some(text::trimmed(value)),
        _ => None,
    }
}

pub fn boot_id(reported: &Option<String>) -> (r: Option<String>)
    ensures
        text::opt_text(r) == boot_of(text::opt_text(*reported)),
{
    match reported {
        None => None,
        Some(value) => {
            let trimmed = text::trim(value.as_str());
            if text::text_eq(trimmed, "") {
                proof {
                    reveal_strlit("");
                }
                None
            } else {
                proof {
                    reveal_strlit("");
                    assert(trimmed@.len() == 0 ==> trimmed@ =~= ""@);
                }
                Some(trimmed.to_string())
            }
        },
    }
}

/// How the platform answers whether a process is running.
#[derive(Debug)]
pub enum ProcessProbe {
    /// Whether the process has an entry in the process table.
    Entry(bool),
    /// What `kill -0` came to.
    Signal(Result<Output, ExecError>),
    /// There is no way to ask.
    Unavailable,
}

/// Whether a process is running, as far as that is known. Where it can be
/// asked at all, process zero is never a valid holder.
pub open spec fn alive(pid: u32, probe: ProcessProbe) -> Option<bool> {
    match probe {
        ProcessProbe::Entry(exists) => Some(pid != 0 && exists),
        ProcessProbe::Signal(run) => if pid == 0 {
            Some(false)
        } else {
            match run {
                Ok(output) => Some(output.code == 0),
                Err(_) => None,
            }
        },
        ProcessProbe::Unavailable => None,
    }
}

pub fn process_alive(pid: u32, probe: &ProcessProbe) -> (r: Option<bool>)
    ensures
        r == alive(pid, *probe),
{
    match probe {
        ProcessProbe::Entry(exists) => Some(pid != 0 && *exists),
        ProcessProbe::Signal(run) => if pid == 0 {
            Some(false)
        } else {
            match run {
                Ok(output) => Some(output.ok()),
                Err(_) => None,
            }
        },
        ProcessProbe::Unavailable => None,
    }
}

/// The verdict on an owner: gone if it was recorded in another boot, else as
/// the process table says. Without an owner nothing is known.
pub open spec fn owner_verdict(
    owner: Option<LockOwner>,
    boot: Option<Seq<char>>,
    probe: ProcessProbe,
) -> LockVerdict {
    match owner {
        None => LockVerdict::Unknown,
        Some(o) => match (o.boot, boot) {
            (Some(recorded), Some(current)) if recorded@ != current => LockVerdict::OwnerGone,
            _ => match alive(o.pid, probe) {
                Some(true) => LockVerdict::Held,
                Some(false) => LockVerdict::OwnerGone,
                None => LockVerdict::Unknown,
            },
        },
    }
}

pub fn inspect_owner(owner: &Option<LockOwner>, boot: &Option<String>, probe: &ProcessProbe) -> (r:
    LockVerdict)
    ensures
        r == owner_verdict(*owner, text::opt_text(*boot), *probe),
{
    match owner {
        None => LockVerdict::Unknown,
        Some(o) => {
            if let (Some(recorded), Some(current)) = (&o.boot, boot) {
                if !text::text_eq(recorded.as_str(), current.as_str()) {
                    return LockVerdict::OwnerGone;
                }
            }
            match process_alive(o.pid, probe) {
                Some(true) => LockVerdict::Held,
                Some(false) => LockVerdict::OwnerGone,
                None => LockVerdict::Unknown,
            }
        },
    }
}

/// What is said of a lock: nothing where there is none.
pub open spec fn lock_described(
    is_dir: bool,
    owner: Option<LockOwner>,
    boot: Option<Seq<char>>,
    probe: ProcessProbe,
    held_for: Option<Duration>,
    r: Option<LockReport>,
) -> bool {
    match r {
        None => !is_dir,
        Some(report) => {
            &&& is_dir
            &&& report.verdict == owner_verdict(owner, boot, probe)
            &&& report.pid == match owner {
                Some(o) => Some(o.pid),
                None => None,
            }
            &&& report.held_for == held_for
        },
    }
}

/// Describes the lock without touching it; nothing where no run holds one.
pub fn describe_lock(
    is_dir: bool,
    owner: &Option<LockOwner>,
    boot: &Option<String>,
    probe: &ProcessProbe,
    held_for: Option<Duration>,
) -> (r: Option<LockReport>)
    ensures
        lock_described(is_dir, *owner, text::opt_text(*boot), *probe, held_for, r),
{
    if !is_dir {
        return None;
    }
    Some(
        LockReport {
            verdict: inspect_owner(owner, boot, probe),
            pid: match owner {
                Some(o) => Some(o.pid),
                None => None,
            },
            held_for,
        },
    )
}

/// A lock may be taken over: its owner is gone, or nothing is known of the
/// owner and the lock is old.
pub open spec fn reclaimable(verdict: LockVerdict, age: Option<Duration>) -> bool {
    match verdict {
        LockVerdict::Held => false,
        LockVerdict::OwnerGone => true,
        LockVerdict::Unknown => age matches Some(a) && a@ >= LOCK_STALE_AFTER,
    }
}

/// What happened when the lock was last worked on.
#[derive(Debug)]
pub enum LockEvent {
    /// The lock directory was created.
    Created,
    /// Something of that name is there already, as the platform words it.
    Exists(String),
    /// The operation failed.
    Failed(String),
    /// What is there: whether it is a directory, what is known of its owner,
    /// and its age.
    Inspected { is_dir: bool, verdict: LockVerdict, age: Option<Duration> },
    /// The old lock was removed.
    Cleared,
}

/// What has to be done next to acquire the lock.
#[derive(Debug, Clone, Copy, PartialEq, Eq, Structural)]
pub enum LockStage {
    /// Create the lock directory.
    Create,
    /// Look at the one that is there.
    Inspect,
    /// Remove it with its owner file.
    Clear,
    /// Create it again.
    Recreate,
    /// The lock is held by this run.
    Acquired,
    /// Another run holds it.
    Refused,
}

/// The step of acquiring the lock at `lock` that follows an event.
pub open spec fn lock_step(stage: LockStage, event: LockEvent, lock: Seq<char>) -> Result<
    LockStage,
    Seq<char>,
> {
    match (stage, event) {
        (LockStage::Create, LockEvent::Created) => Ok(LockStage::Acquired),
        (LockStage::Create, LockEvent::Exists(_)) => Ok(LockStage::Inspect),
        (LockStage::Create, LockEvent::Failed(e)) => Err("cannot acquire "@ + lock + ": "@ + e@),
        (LockStage::Inspect, LockEvent::Failed(e)) => Err("cannot inspect "@ + lock + ": "@ + e@),
        (LockStage::Inspect, LockEvent::Inspected { is_dir, verdict, age }) => if !is_dir {
            Err(lock + " is not the updater's lock directory"@)
        } else if reclaimable(verdict, age) {
            Ok(LockStage::Clear)
        } else {
            Ok(LockStage::Refused)
        },
        (LockStage::Clear, LockEvent::Cleared) => Ok(LockStage::Recreate),
        (LockStage::Clear, LockEvent::Failed(e)) => Err("cannot clear stale "@ + lock + ": "@ + e@),
        (LockStage::Recreate, LockEvent::Created) => Ok(LockStage::Acquired),
        (LockStage::Recreate, LockEvent::Failed(e)) => Err("cannot acquire "@ + lock + ": "@ + e@),
        (LockStage::Recreate, LockEvent::Exists(e)) => Err("cannot acquire "@ + lock + ": "@ + e@),
        _ => Ok(stage),
    }
}

/// Takes the next step towards the lock. An event that does not belong to the
/// stage changes nothing.
pub fn begin(stage: LockStage, event: &LockEvent, lock: &str) -> (r: Result<LockStage, String>)
    ensures
        match lock_step(stage, *event, lock@) {
            Ok(next) => r == Ok::<LockStage, String>(next),
            Err(error) => r matches Err(e) && e@ == error,
        },
{
    match (stage, event) {
        (LockStage::Create, LockEvent::Created) => Ok(LockStage::Acquired),
        (LockStage::Create, LockEvent::Exists(_)) => Ok(LockStage::Inspect),
        (LockStage::Create, LockEvent::Failed(e)) => Err(lock_error("cannot acquire ", lock, e)),
        (LockStage::Inspect, LockEvent::Failed(e)) => Err(lock_error("cannot inspect ", lock, e)),
        (LockStage::Inspect, LockEvent::Inspected { is_dir, verdict, age }) => {
            if !*is_dir {
                return Err(lock.to_string().concat(" is not the updater's lock directory"));
            }
            let reclaim = match *verdict {
                LockVerdict::Held => false,
                LockVerdict::OwnerGone => true,
                LockVerdict::Unknown => match age {
                    Some(a) => a.as_secs() >= LOCK_STALE_AFTER,
                    None => false,
                },
            };
            if reclaim {
                Ok(LockStage::Clear)
            } else {
                Ok(LockStage::Refused)
            }
        },
        (LockStage::Clear, LockEvent::Cleared) => Ok(LockStage::Recreate),
        (LockStage::Clear, LockEvent::Failed(e)) => Err(lock_error("cannot clear stale ", lock, e)),
        (LockStage::Recreate, LockEvent::Created) => Ok(LockStage::Acquired),
        (LockStage::Recreate, LockEvent::Failed(e)) => Err(lock_error("cannot acquire ", lock, e)),
        (LockStage::Recreate, LockEvent::Exists(e)) => Err(lock_error("cannot acquire ", lock, e)),
        _ => Ok(stage),
    }
}

fn lock_error(what: &str, lock: &str, error: &String) -> (r: String)
    ensures
        r@ == what@ + lock@ + ": "@ + error@,
{
    what.to_string().concat(lock).concat(": ").concat(error.as_str())
}

/// A lock is cleared only where its owner is gone, or where nothing is known
/// of the owner and the lock has stood for two hours. A live holder is never
/// dislodged.
pub proof fn law_live_holder_is_respected(
    event: LockEvent,
    verdict: LockVerdict,
    age: Option<Duration>,
    lock: Seq<char>,
)
    requires
        event == (LockEvent::Inspected { is_dir: true, verdict, age }),
    ensures
        verdict == LockVerdict::Held ==> lock_step(LockStage::Inspect, event, lock) == Ok::<
            LockStage,
            Seq<char>,
        >(LockStage::Refused),
        verdict == LockVerdict::OwnerGone ==> lock_step(LockStage::Inspect, event, lock) == Ok::<
            LockStage,
            Seq<char>,
        >(LockStage::Clear),
        verdict == LockVerdict::Unknown ==> (lock_step(LockStage::Inspect, event, lock) == Ok::<
            LockStage,
            Seq<char>,
        >(LockStage::Clear)) == (age matches Some(a) && a@ >= LOCK_STALE_AFTER),
{
}

/// The lock is acquired only by creating its directory, and a directory that
/// was there is removed only after it was looked at.
pub proof fn law_lock_is_created(stage: LockStage, event: LockEvent, lock: Seq<char>)
    requires
        stage != LockStage::Acquired,
        stage != LockStage::Clear,
    ensures
        lock_step(stage, event, lock) == Ok::<LockStage, Seq<char>>(LockStage::Acquired)
            ==> event is Created,
        lock_step(stage, event, lock) == Ok::<LockStage, Seq<char>>(LockStage::Clear) ==> stage
            == LockStage::Inspect && event is Inspected,
{
}

/// A run that is still alive is seen as the holder of the lock by the record it
/// left there.
pub proof fn law_recorded_owner_holds(
    pid: u32,
    boot: Option<String>,
    now: u64,
    probe: ProcessProbe,
)
    requires
        alive(pid, probe) == Some(true),
    ensures
        owner_verdict(
            Some(LockOwner { pid, boot, acquired_unix_seconds: now }),
            text::opt_text(boot),
            probe,
        ) == LockVerdict::Held,
{
}

/// A holder recorded in another boot is gone, whatever its process number
/// says now; without a record nothing is guessed.
pub proof fn law_other_boot_is_gone(
    owner: LockOwner,
    recorded: String,
    current: Seq<char>,
    probe: ProcessProbe,
)
    requires
        owner.boot == Some(recorded),
        recorded@ != current,
    ensures
        owner_verdict(Some(owner), Some(current), probe) == LockVerdict::OwnerGone,
        owner_verdict(None, Some(current), probe) == LockVerdict::Unknown,
{
}

// ---------------------------------------------------------------------------
// Quiet hours

/// What is run to read the local time.
pub open spec fn time_command(platform: Platform) -> (Seq<char>, Seq<Seq<char>>) {
    if platform == Platform::Windows {
        ("powershell"@, seq!["-NoProfile"@, "-Command"@, "(Get-Date).ToString('HH:mm')"@])
    } else {
        ("date"@, seq!["+%H:%M"@])
    }
}

/// The command that prints the local time as `HH:MM`.
pub fn local_time_command(platform: Platform) -> (r: (String, Vec<String>))
    ensures
        (r.0@, text::texts(r.1@)) == time_command(platform),
{
    if platform == Platform::Windows {
        let args = vec![
            "-NoProfile".to_string(),
            "-Command".to_string(),
            "(Get-Date).ToString('HH:mm')".to_string(),
        ];
        assert(text::texts(args@) =~= seq![
            "-NoProfile"@,
            "-Command"@,
            "(Get-Date).ToString('HH:mm')"@,
        ]);
        ("powershell".to_string(), args)
    } else {
        let args = vec!["+%H:%M".to_string()];
        assert(text::texts(args@) =~= seq!["+%H:%M"@]);
        ("date".to_string(), args)
    }
}

/// The minute of the day that the local time command printed, or what is
/// wrong with it.
pub open spec fn minute_of_day(run: Result<Output, ExecError>) -> Result<nat, Seq<char>> {
    match run {
        Err(e) => Err("cannot read local time: "@ + exec::exec_error_text(e)),
        Ok(output) => match text::cut_at_char(exec::trimmed_output(output), ':') {
            None => Err("local time command returned an invalid value"@),
            Some((hour, minute)) => match (
                text::parsed_number(hour, 65_535),
                text::parsed_number(minute, 65_535),
            ) {
                (None, _) => Err("local time command returned an invalid hour"@),
                (_, None) => Err("local time command returned an invalid minute"@),
                (Some(h), Some(m)) => if h >= 24 || m >= 60 {
                    Err("local time command returned an out-of-range value"@)
                } else {
                    Ok(h * 60 + m)
                },
            },
        },
    }
}

pub fn local_minutes(run: &Result<Output, ExecError>) -> (r: Result<u16, String>)
    ensures
        match r {
            Ok(n) => minute_of_day(*run) == Ok::<nat, Seq<char>>(n as nat) && n < 1440,
            Err(e) => minute_of_day(*run) == Err::<nat, Seq<char>>(e@),
        },
{
    match run {
        Err(e) => Err("cannot read local time: ".to_string().concat(e.describe().as_str())),
        Ok(output) => match text::split_once(output.trimmed(), ':') {
            None => Err("local time command returned an invalid value".to_string()),
            Some((hour, minute)) => match (
                text::parse_number(hour.as_str(), 65_535),
                text::parse_number(minute.as_str(), 65_535),
            ) {
                (None, _) => Err("local time command returned an invalid hour".to_string()),
                (_, None) => Err("local time command returned an invalid minute".to_string()),
                (Some(h), Some(m)) => if h >= 24 || m >= 60 {
                    Err("local time command returned an out-of-range value".to_string())
                } else {
                    Ok((h * 60 + m) as u16)
                },
            },
        },
    }
}

/// Whether it is quiet now: quiet hours are set, they are well written, the
/// local time could be read, and it lies inside them.
pub open spec fn quiet_verdict(
    quiet_hours: Option<Seq<char>>,
    run: Result<Output, ExecError>,
) -> Result<bool, Seq<char>> {
    match quiet_hours {
        None => Ok(false),
        Some(raw) => match config::quiet_hours_of(raw) {
            Err(e) => Err(e),
            Ok((start, end)) => match minute_of_day(run) {
                Err(e) => Err(e),
                Ok(current) => Ok(window_holds(current as u16, start as u16, end as u16)),
            },
        },
    }
}

pub fn quiet_now(config: &Config, run: &Result<Output, ExecError>) -> (r: Result<bool, String>)
    ensures
        match r {
            Ok(quiet) => quiet_verdict(text::opt_text(config.quiet_hours), *run) == Ok::<
                bool,
                Seq<char>,
            >(quiet),
            Err(e) => quiet_verdict(text::opt_text(config.quiet_hours), *run) == Err::<
                bool,
                Seq<char>,
            >(e@),
        },
{
    match &config.quiet_hours {
        None => Ok(false),
        Some(raw) => match config::parse_quiet_hours(raw.as_str()) {
            Err(e) => Err(e),
            Ok((start, end)) => match local_minutes(run) {
                Err(e) => Err(e),
                Ok(current) => Ok(in_window(current, start, end)),
            },
        },
    }
}

// ---------------------------------------------------------------------------
// The search path of a scheduled run

pub open spec fn path_separator(platform: Platform) -> char {
    if platform == Platform::Windows {
        ';'
    } else {
        ':'
    }
}

/// The path of a run whose installer had none: a conventional one.
pub open spec fn default_path(platform: Platform) -> Seq<char> {
    if platform == Platform::Windows {
        "C:\\Windows\\system32;C:\\Windows"@
    } else {
        "/usr/local/bin:/usr/bin:/bin:/usr/sbin:/sbin"@
    }
}

/// `found` with those of `entries` that are not empty and not there yet, in
/// their order.
pub open spec fn extended(found: Seq<Seq<char>>, entries: Seq<Seq<char>>) -> Seq<Seq<char>>
    decreases entries.len(),
{
    if entries.len() == 0 {
        found
    } else {
        let before = extended(found, entries.drop_last());
        let entry = entries.last();
        if entry.len() > 0 && !before.contains(entry) {
            before.push(entry)
        } else {
            before
        }
    }
}

/// The directories that a scheduled run searches: first the one of the running
/// program, which is where its companion is installed, and then those of the
/// path that the installing shell had, each once. A service manager hands its
/// units a bare path on which nothing of the user's is found.
pub open spec fn path_entries(
    platform: Platform,
    own_dir: Option<Seq<char>>,
    inherited: Seq<char>,
) -> Seq<Seq<char>> {
    let own = match own_dir {
        Some(dir) if dir.len() > 0 => seq![dir],
        _ => seq![],
    };
    let source = if text::trimmed(inherited).len() == 0 {
        default_path(platform)
    } else {
        inherited
    };
    extended(own, text::split_at_char(source, path_separator(platform)))
}

pub open spec fn scheduled_path(
    platform: Platform,
    own_dir: Option<Seq<char>>,
    inherited: Seq<char>,
) -> Seq<char> {
    text::joined(
        path_entries(platform, own_dir, inherited),
        seq![path_separator(platform)],
    )
}

fn is_empty(s: &str) -> (r: bool)
    ensures
        r == (s@.len() == 0),
{
    proof {
        reveal_strlit("");
    }
    let r = text::text_eq(s, "");
    assert(s@.len() == 0 ==> s@ =~= ""@);
    r
}

pub fn scheduler_path(platform: Platform, own_dir: &Option<String>, inherited: &str) -> (r: String)
    ensures
        r@ == scheduled_path(platform, text::opt_text(*own_dir), inherited@),
{
    let mut parts: Vec<String> = Vec::new();
    assert(text::texts(parts@) =~= seq![]);
    if let Some(dir) = own_dir {
        if !is_empty(dir.as_str()) {
            parts.push(dir.clone());
            assert(text::texts(parts@) =~= seq![dir@]);
        }
    }
    let ghost own = text::texts(parts@);
    let separator = if platform == Platform::Windows {
        ';'
    } else {
        ':'
    };
    let conventional = if platform == Platform::Windows {
        "C:\\Windows\\system32;C:\\Windows"
    } else {
        "/usr/local/bin:/usr/bin:/bin:/usr/sbin:/sbin"
    };
    let source = if is_empty(text::trim(inherited)) {
        conventional
    } else {
        inherited
    };
    let entries = text::split(source, separator);
    let ghost all = text::texts(entries@);
    assert(all.take(0) =~= seq![]);
    let mut i: usize = 0;
    while i < entries.len()
        invariant
            i <= entries.len(),
            all == text::texts(entries@),
            text::texts(parts@) == extended(own, all.take(i as int)),
        decreases entries.len() - i,
    {
        let ghost before = text::texts(parts@);
        assert(all.take(i + 1).drop_last() =~= all.take(i as int));
        assert(all.take(i + 1).last() == entries[i as int]@);
        if !is_empty(entries[i].as_str()) && !text::list_has(&parts, entries[i].as_str()) {
            parts.push(entries[i].clone());
            assert(text::texts(parts@) =~= before.push(entries[i as int]@));
        }
        i = i + 1;
    }
    assert(all.take(i as int) =~= all);
    let glue = if platform == Platform::Windows {
        ";"
    } else {
        ":"
    };
    proof {
        reveal_strlit(";");
        reveal_strlit(":");
        assert(glue@ =~= seq![path_separator(platform)]);
    }
    text::join(&parts, glue)
}

proof fn lemma_extended(found: Seq<Seq<char>>, entries: Seq<Seq<char>>)
    requires
        found.no_duplicates(),
        forall|i: int| 0 <= i < found.len() ==> (#[trigger] found[i]).len() > 0,
    ensures
        ({
            let r = extended(found, entries);
            &&& r.no_duplicates()
            &&& found.len() <= r.len()
            &&& r.take(found.len() as int) == found
            &&& forall|i: int| 0 <= i < r.len() ==> (#[trigger] r[i]).len() > 0
            &&& forall|i: int|
                0 <= i < entries.len() && (#[trigger] entries[i]).len() > 0 ==> r.contains(
                    entries[i],
                )
        }),
    decreases entries.len(),
{
    let r = extended(found, entries);
    if entries.len() == 0 {
        assert(r.take(found.len() as int) =~= found);
    } else {
        let before = extended(found, entries.drop_last());
        let entry = entries.last();
        lemma_extended(found, entries.drop_last());
        assert(r.take(found.len() as int) =~= before.take(found.len() as int));
        assert forall|i: int| 0 <= i < entries.len() && (#[trigger] entries[i]).len()
            > 0 implies r.contains(entries[i]) by {
            if i < entries.len() - 1 {
                assert(entries.drop_last()[i] == entries[i]);
                let k = choose|k: int| 0 <= k < before.len() && before[k] == entries[i];
                assert(r[k] == entries[i]);
            } else if !before.contains(entry) {
                assert(r.last() == entry);
            }
        }
    }
}

/// The search path of a scheduled run leads with the program's own directory,
/// keeps every directory of the installing shell's path, and names none twice.
pub proof fn law_scheduled_path_is_inherited(
    platform: Platform,
    own_dir: Option<Seq<char>>,
    inherited: Seq<char>,
)
    ensures
        ({
            let entries = path_entries(platform, own_dir, inherited);
            let given = text::split_at_char(inherited, path_separator(platform));
            &&& entries.no_duplicates()
            &&& (own_dir matches Some(dir) && dir.len() > 0) ==> entries.len() > 0 && entries[0]
                == own_dir->0
            &&& text::trimmed(inherited).len() > 0 ==> forall|i: int|
                0 <= i < given.len() && (#[trigger] given[i]).len() > 0 ==> entries.contains(
                    given[i],
                )
        }),
{
    let own = match own_dir {
        Some(dir) if dir.len() > 0 => seq![dir],
        _ => seq![],
    };
    let source = if text::trimmed(inherited).len() == 0 {
        default_path(platform)
    } else {
        inherited
    };
    lemma_extended(own, text::split_at_char(source, path_separator(platform)));
    let entries = path_entries(platform, own_dir, inherited);
    assert(own.len() > 0 ==> entries[0] == entries.take(own.len() as int)[0]);
}

/// The search path of a scheduled run is not empty where the program's own
/// directory is known or the installing shell had no path.
pub proof fn law_scheduled_path_is_not_empty(
    platform: Platform,
    own_dir: Option<Seq<char>>,
    inherited: Seq<char>,
)
    requires
        (own_dir matches Some(dir) && dir.len() > 0) || text::trimmed(inherited).len() == 0,
    ensures
        scheduled_path(platform, own_dir, inherited).len() > 0,
{
    let own = match own_dir {
        Some(dir) if dir.len() > 0 => seq![dir],
        _ => seq![],
    };
    let source = if text::trimmed(inherited).len() == 0 {
        default_path(platform)
    } else {
        inherited
    };
    let given = text::split_at_char(source, path_separator(platform));
    lemma_extended(own, given);
    let entries = path_entries(platform, own_dir, inherited);
    if own.len() == 0 {
        reveal_strlit("C:\\Windows\\system32;C:\\Windows");
        reveal_strlit("/usr/local/bin:/usr/bin:/bin:/usr/sbin:/sbin");
        text::lemma_find_char(source, path_separator(platform));
        assert(source[0] != path_separator(platform));
        assert(text::find_char(source, path_separator(platform)) > 0);
        assert(given[0].len() > 0);
        assert(entries.contains(given[0]));
    }
    assert(entries.len() > 0);
    assert(entries.last().len() > 0);
}

// ---------------------------------------------------------------------------
// The units that start the next run

pub const LAUNCHD_LABEL: &'static str = "io.github.diegopzz.herdr-updater";

pub const TASK_NAME: &'static str = "Herdr Updater";

/// A character inside a quoted word of a systemd unit.
pub open spec fn systemd_char(c: char) -> Seq<char> {
    if c == '\\' || c == '"' {
        seq!['\\', c]
    } else {
        seq![c]
    }
}

/// The inside of a quoted word of a systemd unit.
pub open spec fn systemd_inside(s: Seq<char>) -> Seq<char>
    decreases s.len(),
{
    if s.len() == 0 {
        seq![]
    } else {
        systemd_inside(s.drop_last()) + systemd_char(s.last())
    }
}

/// A quoted word of a systemd unit.
pub open spec fn systemd_word(s: Seq<char>) -> Seq<char> {
    "\""@ + systemd_inside(s) + "\""@
}

pub fn systemd_quote(path: &str) -> (r: String)
    ensures
        r@ == systemd_word(path@),
{
    let v = text::chars_of(path);
    let mut inside = String::new();
    let mut i: usize = 0;
    while i < v.len()
        invariant
            i <= v.len(),
            v@ == path@,
            inside@ == systemd_inside(path@.take(i as int)),
        decreases v.len() - i,
    {
        assert(path@.take(i + 1).drop_last() =~= path@.take(i as int));
        if v[i] == '\\' || v[i] == '"' {
            inside.push('\\');
        }
        inside.push(v[i]);
        i = i + 1;
        assert(inside@ =~= systemd_inside(path@.take(i as int)));
    }
    assert(path@.take(i as int) =~= path@);
    "\"".to_string().concat(inside.as_str()).concat("\"")
}

/// A character inside an XML element.
pub open spec fn xml_char(c: char) -> Seq<char> {
    if c == '&' {
        "&amp;"@
    } else if c == '<' {
        "&lt;"@
    } else if c == '>' {
        "&gt;"@
    } else if c == '"' {
        "&quot;"@
    } else if c == '\'' {
        "&apos;"@
    } else {
        seq![c]
    }
}

pub open spec fn xml_text(s: Seq<char>) -> Seq<char>
    decreases s.len(),
{
    if s.len() == 0 {
        seq![]
    } else {
        xml_text(s.drop_last()) + xml_char(s.last())
    }
}

pub fn xml_escape(value: &str) -> (r: String)
    ensures
        r@ == xml_text(value@),
{
    let v = text::chars_of(value);
    let mut out = String::new();
    let mut i: usize = 0;
    while i < v.len()
        invariant
            i <= v.len(),
            v@ == value@,
            out@ == xml_text(value@.take(i as int)),
        decreases v.len() - i,
    {
        assert(value@.take(i + 1).drop_last() =~= value@.take(i as int));
        if v[i] == '&' {
            out.append("&amp;");
        } else if v[i] == '<' {
            out.append("&lt;");
        } else if v[i] == '>' {
            out.append("&gt;");
        } else if v[i] == '"' {
            out.append("&quot;");
        } else if v[i] == '\'' {
            out.append("&apos;");
        } else {
            out.push(v[i]);
        }
        i = i + 1;
        assert(out@ =~= xml_text(value@.take(i as int)));
    }
    assert(value@.take(i as int) =~= value@);
    out
}

/// An escaped text opens and closes no element and no attribute.
pub proof fn law_escaped_text_is_inert(s: Seq<char>)
    ensures
        forall|i: int| #![trigger xml_text(s)[i]]
            0 <= i < xml_text(s).len() ==> xml_text(s)[i] != '<' && xml_text(s)[i] != '>'
                && xml_text(s)[i] != '"' && xml_text(s)[i] != '\'',
    decreases s.len(),
{
    if s.len() > 0 {
        law_escaped_text_is_inert(s.drop_last());
        let before = xml_text(s.drop_last());
        let piece = xml_char(s.last());
        reveal_strlit("&amp;");
        reveal_strlit("&lt;");
        reveal_strlit("&gt;");
        reveal_strlit("&quot;");
        reveal_strlit("&apos;");
        assert forall|i: int| #![trigger xml_text(s)[i]] 0 <= i < xml_text(s).len() implies
            xml_text(s)[i] != '<' && xml_text(s)[i] != '>' && xml_text(s)[i] != '"'
            && xml_text(s)[i] != '\'' by {
            if i < before.len() {
                assert(xml_text(s)[i] == before[i]);
            } else {
                assert(xml_text(s)[i] == piece[i - before.len()]);
            }
        }
    }
}

/// The inside of a single-quoted PowerShell string.
pub fn ps_quote(value: &str) -> (r: String)
    ensures
        r@ == text::replaced(value@, '\'', "''"@),
{
    text::replace(value, '\'', "''")
}

/// How a Windows task repeats: its kind of schedule and the number of days or
/// minutes, rounded up.
pub open spec fn frequency(seconds: nat) -> (Seq<char>, nat) {
    if seconds >= 86_400 {
        ("DAILY"@, lesser((seconds + 86_399) / 86_400, 365))
    } else {
        ("MINUTE"@, lesser(greater((seconds + 59) / 60, 1), 1_439))
    }
}

pub fn windows_frequency(interval: Duration) -> (r: (&'static str, String))
    ensures
        r.0@ == frequency(interval@).0,
        r.1@ == text::decimal(frequency(interval@).1),
{
    let seconds: u64 = interval.as_secs();
    if seconds >= 86_400 {
        let whole: u64 = seconds / 86_400;
        let days: u64 = if seconds % 86_400 == 0 {
            whole
        } else {
            whole + 1
        };
        ("DAILY", text::number_text(if days > 365 { 365 } else { days }))
    } else {
        let up: u64 = (seconds + 59) / 60;
        let minutes: u64 = if up < 1 {
            1
        } else if up > 1_439 {
            1_439
        } else {
            up
        };
        ("MINUTE", text::number_text(minutes))
    }
}

/// What a unit needs to know of an installation.
#[derive(Debug)]
pub struct InstallRequest {
    pub executable: String,
    pub config_path: String,
    /// The search path of the run.
    pub path: String,
    /// The file that stands for the schedule: the timer, the agent, the script.
    pub resource: String,
    /// The service that the timer starts, on Linux.
    pub service: String,
}

pub open spec fn service_text(request: InstallRequest) -> Seq<char> {
    "[Unit]\nDescription=Check Herdr core and plugins\n\n[Service]\nType=oneshot\nSuccessExitStatus=1\nEnvironment=PATH="@
        + request.path@ + "\nExecStart="@ + systemd_word(request.executable@)
        + " schedule run --config "@ + systemd_word(request.config_path@) + "\n"@
}

pub open spec fn timer_text(tick: nat, at_once: bool) -> Seq<char> {
    "[Unit]\nDescription=Schedule Herdr update checks\n\n[Timer]\nOnBootSec="@ + text::decimal(
        if at_once {
            1
        } else {
            tick
        },
    ) + "\nOnUnitActiveSec="@ + text::decimal(tick)
        + "\nPersistent=true\nUnit=herdr-updater.service\n\n[Install]\nWantedBy=timers.target\n"@
}

pub open spec fn agent_text(request: InstallRequest, tick: nat) -> Seq<char> {
    "<?xml version=\"1.0\" encoding=\"UTF-8\"?>\n<!DOCTYPE plist PUBLIC \"-//Apple//DTD PLIST 1.0//EN\" \"http://www.apple.com/DTDs/PropertyList-1.0.dtd\">\n<plist version=\"1.0\"><dict>\n<key>Label</key><string>io.github.diegopzz.herdr-updater</string>\n<key>ProgramArguments</key><array><string>"@
        + xml_text(request.executable@)
        + "</string><string>schedule</string><string>run</string><string>--config</string><string>"@
        + xml_text(request.config_path@)
        + "</string></array>\n<key>EnvironmentVariables</key><dict><key>PATH</key><string>"@
        + xml_text(request.path@) + "</string></dict>\n<key>StartInterval</key><integer>"@
        + text::decimal(tick) + "</integer>\n<key>RunAtLoad</key><true/>\n</dict></plist>\n"@
}

pub open spec fn script_text(request: InstallRequest) -> Seq<char> {
    "$ErrorActionPreference = 'Stop'\r\n$env:PATH = '"@ + text::replaced(
        request.path@,
        '\'',
        "''"@,
    ) + "'\r\n& '"@ + text::replaced(request.executable@, '\'', "''"@)
        + "' schedule run --config '"@ + text::replaced(request.config_path@, '\'', "''"@)
        + "'\r\n$code = $LASTEXITCODE\r\nif ($code -eq 1) { exit 0 }\r\nexit $code\r\n"@
}

pub fn service_unit(request: &InstallRequest) -> (r: String)
    ensures
        r@ == service_text(*request),
{
    "[Unit]\nDescription=Check Herdr core and plugins\n\n[Service]\nType=oneshot\nSuccessExitStatus=1\nEnvironment=PATH=".to_string().concat(
        request.path.as_str(),
    ).concat("\nExecStart=").concat(systemd_quote(request.executable.as_str()).as_str()).concat(
        " schedule run --config ",
    ).concat(systemd_quote(request.config_path.as_str()).as_str()).concat("\n")
}

pub fn timer_unit(config: &Config) -> (r: String)
    ensures
        r@ == timer_text(
            config_tick(*config),
            config::seconds_or(config.initial_delay@, 300) == 0,
        ),
{
    let tick: u64 = scheduler_tick(config).as_secs();
    let boot: u64 = if config.initial_delay_value().is_zero() {
        1
    } else {
        tick
    };
    "[Unit]\nDescription=Schedule Herdr update checks\n\n[Timer]\nOnBootSec=".to_string().concat(
        text::number_text(boot).as_str(),
    ).concat("\nOnUnitActiveSec=").concat(text::number_text(tick).as_str()).concat(
        "\nPersistent=true\nUnit=herdr-updater.service\n\n[Install]\nWantedBy=timers.target\n",
    )
}

pub fn agent_plist(request: &InstallRequest, config: &Config) -> (r: String)
    ensures
        r@ == agent_text(*request, config_tick(*config)),
{
    "<?xml version=\"1.0\" encoding=\"UTF-8\"?>\n<!DOCTYPE plist PUBLIC \"-//Apple//DTD PLIST 1.0//EN\" \"http://www.apple.com/DTDs/PropertyList-1.0.dtd\">\n<plist version=\"1.0\"><dict>\n<key>Label</key><string>io.github.diegopzz.herdr-updater</string>\n<key>ProgramArguments</key><array><string>".to_string().concat(
        xml_escape(request.executable.as_str()).as_str(),
    ).concat(
        "</string><string>schedule</string><string>run</string><string>--config</string><string>",
    ).concat(xml_escape(request.config_path.as_str()).as_str()).concat(
        "</string></array>\n<key>EnvironmentVariables</key><dict><key>PATH</key><string>",
    ).concat(xml_escape(request.path.as_str()).as_str()).concat(
        "</string></dict>\n<key>StartInterval</key><integer>",
    ).concat(text::number_text(scheduler_tick(config).as_secs()).as_str()).concat(
        "</integer>\n<key>RunAtLoad</key><true/>\n</dict></plist>\n",
    )
}

pub fn run_script(request: &InstallRequest) -> (r: String)
    ensures
        r@ == script_text(*request),
{
    "$ErrorActionPreference = 'Stop'\r\n$env:PATH = '".to_string().concat(
        ps_quote(request.path.as_str()).as_str(),
    ).concat("'\r\n& '").concat(ps_quote(request.executable.as_str()).as_str()).concat(
        "' schedule run --config '",
    ).concat(ps_quote(request.config_path.as_str()).as_str()).concat(
        "'\r\n$code = $LASTEXITCODE\r\nif ($code -eq 1) { exit 0 }\r\nexit $code\r\n",
    )
}

// ---------------------------------------------------------------------------
// Installing and removing

/// One step of installing or removing a schedule.
#[derive(Debug)]
pub enum Step {
    /// Write a file of the updater's own.
    Write { path: String, content: String },
    /// Remove a file of the updater's own.
    Remove { path: String },
    /// Run a command that has to succeed.
    Run { program: String, args: Vec<String>, label: String },
    /// Run a command, whatever comes of it.
    Attempt { program: String, args: Vec<String> },
    /// Unload a launchd service.
    Unload { target: String },
}

pub enum Task {
    Write { path: Seq<char>, content: Seq<char> },
    Remove { path: Seq<char> },
    Run { program: Seq<char>, args: Seq<Seq<char>>, label: Seq<char> },
    Attempt { program: Seq<char>, args: Seq<Seq<char>> },
    Unload { target: Seq<char> },
}

impl View for Step {
    type V = Task;

    open spec fn view(&self) -> Task {
        match *self {
            Step::Write { path, content } => Task::Write { path: path@, content: content@ },
            Step::Remove { path } => Task::Remove { path: path@ },
            Step::Run { program, args, label } => Task::Run {
                program: program@,
                args: text::texts(args@),
                label: label@,
            },
            Step::Attempt { program, args } => Task::Attempt {
                program: program@,
                args: text::texts(args@),
            },
            Step::Unload { target } => Task::Unload { target: target@ },
        }
    }
}

pub open spec fn tasks(steps: Seq<Step>) -> Seq<Task> {
    Seq::new(steps.len(), |i: int| steps[i]@)
}

/// The program that a platform's scheduler is managed with.
pub open spec fn tool_name(platform: Platform) -> Seq<char> {
    match platform {
        Platform::Linux => "systemctl"@,
        Platform::Macos => "launchctl"@,
        Platform::Windows => "schtasks"@,
    }
}

pub fn scheduler_tool(platform: Platform) -> (r: &'static str)
    ensures
        r@ == tool_name(platform),
{
    match platform {
        Platform::Linux => "systemctl",
        Platform::Macos => "launchctl",
        Platform::Windows => "schtasks",
    }
}

/// The error of an installation without that program.
pub fn missing_tool(platform: Platform) -> (r: String)
    ensures
        r@ == match platform {
            Platform::Linux => "systemctl is required to install the Linux user timer"@,
            Platform::Macos => "launchctl is required to install the macOS user agent"@,
            Platform::Windows => "schtasks is required to install the Windows user task"@,
        },
{
    match platform {
        Platform::Linux => "systemctl is required to install the Linux user timer".to_string(),
        Platform::Macos => "launchctl is required to install the macOS user agent".to_string(),
        Platform::Windows => "schtasks is required to install the Windows user task".to_string(),
    }
}

/// The home directory, where the environment names one.
pub open spec fn home_of(home: Option<Seq<char>>, profile: Option<Seq<char>>) -> Option<Seq<char>> {
    match home {
        Some(dir) => Some(dir),
        None => profile,
    }
}

/// The user's home directory, from the two places that name it.
pub fn home_dir(home: &Option<String>, profile: &Option<String>) -> (r: Result<String, String>)
    ensures
        match home_of(text::opt_text(*home), text::opt_text(*profile)) {
            Some(dir) => r matches Ok(d) && d@ == dir,
            None => r matches Err(e) && e@ == "cannot resolve the user home directory"@,
        },
{
    match (home, profile) {
        (Some(h), _) => Ok(h.clone()),
        (None, Some(p)) => Ok(p.clone()),
        (None, None) => Err("cannot resolve the user home directory".to_string()),
    }
}

/// Where the file that stands for the schedule lies.
pub open spec fn resource_place(
    platform: Platform,
    home: Seq<char>,
    config_dir: Seq<char>,
) -> (Seq<char>, Seq<Seq<char>>) {
    match platform {
        Platform::Linux => (home, seq![".config/systemd/user"@, "herdr-updater.timer"@]),
        Platform::Macos => (
            home,
            seq!["Library/LaunchAgents"@, "io.github.diegopzz.herdr-updater.plist"@],
        ),
        Platform::Windows => (config_dir, seq!["schedule-run.ps1"@]),
    }
}

pub fn resource_location(platform: Platform, home: &str, config_dir: &str) -> (r: Location)
    ensures
        r.is(
            resource_place(platform, home@, config_dir@).0,
            resource_place(platform, home@, config_dir@).1,
        ),
{
    let r = match platform {
        Platform::Linux => Location::at(home).join(".config/systemd/user").join(
            "herdr-updater.timer",
        ),
        Platform::Macos => Location::at(home).join("Library/LaunchAgents").join(
            "io.github.diegopzz.herdr-updater.plist",
        ),
        Platform::Windows => Location::at(config_dir).join("schedule-run.ps1"),
    };
    assert(text::texts(r.components@) =~= resource_place(platform, home@, config_dir@).1);
    r
}

/// Where the service that the timer starts lies, on Linux.
pub fn service_location(home: &str) -> (r: Location)
    ensures
        r.is(home@, seq![".config/systemd/user"@, "herdr-updater.service"@]),
{
    let r = Location::at(home).join(".config/systemd/user").join("herdr-updater.service");
    assert(text::texts(r.components@) =~= seq![
        ".config/systemd/user"@,
        "herdr-updater.service"@,
    ]);
    r
}

pub open spec fn reload_task() -> Task {
    Task::Run {
        program: "systemctl"@,
        args: seq!["--user"@, "daemon-reload"@],
        label: "systemd reload"@,
    }
}

fn reload_step() -> (r: Step)
    ensures
        r@ == reload_task(),
{
    let args = vec!["--user".to_string(), "daemon-reload".to_string()];
    assert(text::texts(args@) =~= seq!["--user"@, "daemon-reload"@]);
    Step::Run { program: "systemctl".to_string(), args, label: "systemd reload".to_string() }
}

pub open spec fn create_args(resource: Seq<char>, tick: nat) -> Seq<Seq<char>> {
    seq![
        "/Create"@,
        "/TN"@,
        "Herdr Updater"@,
        "/TR"@,
        "powershell.exe -NoProfile -ExecutionPolicy Bypass -File \""@ + resource + "\""@,
        "/SC"@,
        frequency(tick).0,
        "/MO"@,
        text::decimal(frequency(tick).1),
        "/RL"@,
        "LIMITED"@,
        "/F"@,
    ]
}

/// The steps that install a schedule. On macOS the agent is written here and
/// loaded by the steps that follow, once the user's domain is known.
pub open spec fn install_tasks(
    platform: Platform,
    request: InstallRequest,
    config: Config,
) -> Seq<Task> {
    let tick = config_tick(config);
    let at_once = config::seconds_or(config.initial_delay@, 300) == 0;
    match platform {
        Platform::Linux => seq![
            Task::Write { path: request.service@, content: service_text(request) },
            Task::Write { path: request.resource@, content: timer_text(tick, at_once) },
            reload_task(),
            Task::Run {
                program: "systemctl"@,
                args: seq!["--user"@, "enable"@, "--now"@, "herdr-updater.timer"@],
                label: "systemd timer enable"@,
            },
        ],
        Platform::Macos => seq![
            Task::Write { path: request.resource@, content: agent_text(request, tick) },
        ],
        Platform::Windows => seq![
            Task::Write { path: request.resource@, content: script_text(request) },
            Task::Run {
                program: "schtasks"@,
                args: create_args(request.resource@, tick),
                label: "Windows task creation"@,
            },
        ] + if at_once {
            seq![
                Task::Run {
                    program: "schtasks"@,
                    args: seq!["/Run"@, "/TN"@, "Herdr Updater"@],
                    label: "Windows task start"@,
                },
            ]
        } else {
            seq![]
        },
    }
}

pub fn install(platform: Platform, request: &InstallRequest, config: &Config) -> (r: Vec<Step>)
    ensures
        tasks(r@) == install_tasks(platform, *request, *config),
{
    match platform {
        Platform::Linux => {
            let service = Step::Write {
                path: request.service.clone(),
                content: service_unit(request),
            };
            let timer = Step::Write { path: request.resource.clone(), content: timer_unit(config) };
            let args = vec![
                "--user".to_string(),
                "enable".to_string(),
                "--now".to_string(),
                "herdr-updater.timer".to_string(),
            ];
            assert(text::texts(args@) =~= seq![
                "--user"@,
                "enable"@,
                "--now"@,
                "herdr-updater.timer"@,
            ]);
            let enable = Step::Run {
                program: "systemctl".to_string(),
                args,
                label: "systemd timer enable".to_string(),
            };
            let steps = vec![service, timer, reload_step(), enable];
            assert(tasks(steps@) =~= install_tasks(platform, *request, *config));
            steps
        },
        Platform::Macos => {
            let agent = Step::Write {
                path: request.resource.clone(),
                content: agent_plist(request, config),
            };
            let steps = vec![agent];
            assert(tasks(steps@) =~= install_tasks(platform, *request, *config));
            steps
        },
        Platform::Windows => {
            let script = Step::Write {
                path: request.resource.clone(),
                content: run_script(request),
            };
            let command = "powershell.exe -NoProfile -ExecutionPolicy Bypass -File \"".to_string().concat(
                request.resource.as_str(),
            ).concat("\"");
            let (schedule, modifier) = windows_frequency(scheduler_tick(config));
            let args = vec![
                "/Create".to_string(),
                "/TN".to_string(),
                TASK_NAME.to_string(),
                "/TR".to_string(),
                command,
                "/SC".to_string(),
                schedule.to_string(),
                "/MO".to_string(),
                modifier,
                "/RL".to_string(),
                "LIMITED".to_string(),
                "/F".to_string(),
            ];
            assert(text::texts(args@) =~= create_args(request.resource@, config_tick(*config)));
            let create = Step::Run {
                program: "schtasks".to_string(),
                args,
                label: "Windows task creation".to_string(),
            };
            let mut steps = vec![script, create];
            if config.initial_delay_value().is_zero() {
                let start = vec!["/Run".to_string(), "/TN".to_string(), TASK_NAME.to_string()];
                assert(text::texts(start@) =~= seq!["/Run"@, "/TN"@, "Herdr Updater"@]);
                steps.push(
                    Step::Run {
                        program: "schtasks".to_string(),
                        args: start,
                        label: "Windows task start".to_string(),
                    },
                );
            }
            assert(tasks(steps@) =~= install_tasks(platform, *request, *config));
            steps
        },
    }
}

/// An agent is loaded after what was loaded under its name is gone.
pub open spec fn load_tasks(domain: Seq<char>, resource: Seq<char>) -> Seq<Task> {
    seq![
        Task::Unload { target: domain + "/"@ + LAUNCHD_LABEL@ },
        Task::Run {
            program: "launchctl"@,
            args: seq!["bootstrap"@, domain, resource],
            label: "launchd bootstrap"@,
        },
    ]
}

/// The steps that load a launchd agent into a domain: what was loaded before
/// is unloaded first.
pub fn load_steps(domain: &str, resource: &str) -> (r: Vec<Step>)
    ensures
        tasks(r@) == load_tasks(domain@, resource@),
{
    let args = vec!["bootstrap".to_string(), domain.to_string(), resource.to_string()];
    assert(text::texts(args@) =~= seq!["bootstrap"@, domain@, resource@]);
    let steps = vec![
        Step::Unload { target: launchd_service_target(domain, LAUNCHD_LABEL) },
        Step::Run {
            program: "launchctl".to_string(),
            args,
            label: "launchd bootstrap".to_string(),
        },
    ];
    assert(tasks(steps@) =~= seq![
        Task::Unload { target: domain@ + "/"@ + LAUNCHD_LABEL@ },
        Task::Run {
            program: "launchctl"@,
            args: seq!["bootstrap"@, domain@, resource@],
            label: "launchd bootstrap"@,
        },
    ]);
    steps
}

/// The steps that remove a schedule. The scheduler is told only where its
/// program is there; the files go in any case. `target` is the launchd service.
pub open spec fn remove_tasks(
    platform: Platform,
    have_tool: bool,
    target: Seq<char>,
    resource: Seq<char>,
    service: Seq<char>,
) -> Seq<Task> {
    let first = if !have_tool {
        seq![]
    } else {
        match platform {
            Platform::Linux => seq![
                Task::Attempt {
                    program: "systemctl"@,
                    args: seq!["--user"@, "disable"@, "--now"@, "herdr-updater.timer"@],
                },
            ],
            Platform::Macos => seq![Task::Unload { target }],
            Platform::Windows => seq![
                Task::Attempt {
                    program: "schtasks"@,
                    args: seq!["/Delete"@, "/TN"@, "Herdr Updater"@, "/F"@],
                },
            ],
        }
    };
    let files = first.push(Task::Remove { path: resource });
    if platform != Platform::Linux {
        files
    } else if have_tool {
        files.push(Task::Remove { path: service }).push(reload_task())
    } else {
        files.push(Task::Remove { path: service })
    }
}

pub fn remove(
    platform: Platform,
    have_tool: bool,
    target: &str,
    resource: &str,
    service: &str,
) -> (r: Vec<Step>)
    ensures
        tasks(r@) == remove_tasks(platform, have_tool, target@, resource@, service@),
{
    let mut steps: Vec<Step> = Vec::new();
    if have_tool {
        match platform {
            Platform::Linux => {
                let args = vec![
                    "--user".to_string(),
                    "disable".to_string(),
                    "--now".to_string(),
                    "herdr-updater.timer".to_string(),
                ];
                assert(text::texts(args@) =~= seq![
                    "--user"@,
                    "disable"@,
                    "--now"@,
                    "herdr-updater.timer"@,
                ]);
                steps.push(Step::Attempt { program: "systemctl".to_string(), args });
            },
            Platform::Macos => {
                steps.push(Step::Unload { target: target.to_string() });
            },
            Platform::Windows => {
                let args = vec![
                    "/Delete".to_string(),
                    "/TN".to_string(),
                    TASK_NAME.to_string(),
                    "/F".to_string(),
                ];
                assert(text::texts(args@) =~= seq!["/Delete"@, "/TN"@, "Herdr Updater"@, "/F"@]);
                steps.push(Step::Attempt { program: "schtasks".to_string(), args });
            },
        }
    }
    steps.push(Step::Remove { path: resource.to_string() });
    if platform == Platform::Linux {
        steps.push(Step::Remove { path: service.to_string() });
        if have_tool {
            steps.push(reload_step());
        }
    }
    assert(tasks(steps@) =~= remove_tasks(platform, have_tool, target@, resource@, service@));
    steps
}

/// A removed schedule leaves no file behind: whatever the scheduler's program
/// says, the file that stands for the schedule is among those removed.
pub proof fn law_removal_removes_the_resource(
    platform: Platform,
    have_tool: bool,
    target: Seq<char>,
    resource: Seq<char>,
    service: Seq<char>,
)
    ensures
        remove_tasks(platform, have_tool, target, resource, service).contains(
            Task::Remove { path: resource },
        ),
        platform == Platform::Linux ==> remove_tasks(
            platform,
            have_tool,
            target,
            resource,
            service,
        ).contains(Task::Remove { path: service }),
{
    let all = remove_tasks(platform, have_tool, target, resource, service);
    let k: int = if have_tool {
        1
    } else {
        0
    };
    assert(all[k] == Task::Remove { path: resource });
    if platform == Platform::Linux {
        assert(all[k + 1] == Task::Remove { path: service });
    }
}

/// What is at a path.
#[derive(Debug)]
pub enum Presence {
    Missing,
    Regular,
    /// Something that is not a regular file.
    Other,
    Uninspectable(String),
}

/// What forbids writing a file of the updater's own: something there that is
/// not a regular file.
pub fn write_refusal(path: &str, presence: &Presence) -> (r: Option<String>)
    ensures
        text::opt_text(r) == if *presence is Other {
            Some("refusing to replace non-regular "@ + path@)
        } else {
            None
        },
{
    match presence {
        Presence::Other => Some("refusing to replace non-regular ".to_string().concat(path)),
        _ => None,
    }
}

/// There is something to remove, or why nothing may be.
pub open spec fn removable(path: Seq<char>, presence: Presence) -> Result<bool, Seq<char>> {
    match presence {
        Presence::Missing => Ok(false),
        Presence::Regular => Ok(true),
        Presence::Other => Err("refusing to remove non-regular "@ + path),
        Presence::Uninspectable(error) => Err("cannot inspect "@ + path + ": "@ + error@),
    }
}

/// Whether a file of the updater's own is there to be removed, or what forbids
/// it.
pub fn removal(path: &str, presence: &Presence) -> (r: Result<bool, String>)
    ensures
        match removable(path@, *presence) {
            Ok(b) => r == Ok::<bool, String>(b),
            Err(error) => r matches Err(e) && e@ == error,
        },
{
    match presence {
        Presence::Missing => Ok(false),
        Presence::Regular => Ok(true),
        Presence::Other => Err("refusing to remove non-regular ".to_string().concat(path)),
        Presence::Uninspectable(e) => Err(
            "cannot inspect ".to_string().concat(path).concat(": ").concat(e.as_str()),
        ),
    }
}

// ---------------------------------------------------------------------------
// launchd

/// A service is named by its domain and label together.
pub fn launchd_service_target(domain: &str, label: &str) -> (r: String)
    ensures
        r@ == domain@ + "/"@ + label@,
{
    domain.to_string().concat("/").concat(label)
}

/// The launchd domain of the user whose id was read.
pub open spec fn domain_of(run: Result<Output, ExecError>) -> Result<Seq<char>, Seq<char>> {
    match run {
        Err(error) => Err("cannot read uid: "@ + exec::exec_error_text(error)),
        Ok(output) => if output.code == 0 && text::all_in(
            exec::trimmed_output(output),
            CharClass::Digit,
        ) {
            Ok("gui/"@ + exec::trimmed_output(output))
        } else {
            Err("cannot read the current macOS uid"@)
        },
    }
}

/// The launchd domain of the user whose number `id -u` printed.
pub fn launch_domain(run: &Result<Output, ExecError>) -> (r: Result<String, String>)
    ensures
        match domain_of(*run) {
            Ok(domain) => r matches Ok(d) && d@ == domain,
            Err(error) => r matches Err(e) && e@ == error,
        },
{
    match run {
        Err(e) => Err("cannot read uid: ".to_string().concat(e.describe().as_str())),
        Ok(output) => if !output.ok() || !text::text_all_in(output.trimmed(), CharClass::Digit) {
            Err("cannot read the current macOS uid".to_string())
        } else {
            Ok("gui/".to_string().concat(output.trimmed()))
        },
    }
}

/// `launchctl` failed because it knows no such service.
pub open spec fn not_loaded(output: Output) -> bool {
    let message = text::lowercase(output.stdout@ + "\n"@ + output.stderr@);
    output.code != 0 && (text::has_text(message, "could not find service"@) || text::has_text(
        message,
        "service not found"@,
    ))
}

pub fn launchd_service_not_loaded(output: &Output) -> (r: bool)
    ensures
        r == not_loaded(*output),
{
    if output.ok() {
        return false;
    }
    let message = text::to_lower(
        output.stdout.clone().concat("\n").concat(output.stderr.as_str()).as_str(),
    );
    text::contains_text(message.as_str(), "could not find service") || text::contains_text(
        message.as_str(),
        "service not found",
    )
}

/// What has to be done next to unload a launchd service.
#[derive(Debug, Clone, Copy, PartialEq, Eq, Structural)]
pub enum UnloadStage {
    /// Print the service.
    Inspect,
    /// Boot it out.
    Bootout,
    /// Print it again.
    Verify,
    Done,
}

/// The arguments for `launchctl` at a stage.
pub fn unload_args(stage: UnloadStage, target: &str) -> (r: Vec<String>)
    ensures
        text::texts(r@) == match stage {
            UnloadStage::Inspect => seq!["print"@, target@],
            UnloadStage::Bootout => seq!["bootout"@, target@],
            UnloadStage::Verify => seq!["print"@, target@],
            UnloadStage::Done => seq![],
        },
{
    let args = match stage {
        UnloadStage::Inspect => vec!["print".to_string(), target.to_string()],
        UnloadStage::Bootout => vec!["bootout".to_string(), target.to_string()],
        UnloadStage::Verify => vec!["print".to_string(), target.to_string()],
        UnloadStage::Done => Vec::new(),
    };
    assert(text::texts(args@) =~= match stage {
        UnloadStage::Inspect => seq!["print"@, target@],
        UnloadStage::Bootout => seq!["bootout"@, target@],
        UnloadStage::Verify => seq!["print"@, target@],
        UnloadStage::Done => seq![],
    });
    args
}

pub open spec fn exit_text(what: Seq<char>, output: Output) -> Seq<char> {
    what + " exited "@ + text::signed_decimal(output.code as int) + ": "@ + text::first_line_or(
        output.stderr@,
        "no stderr"@,
    )
}

/// The stage that follows what a command came to. A service that is not loaded
/// needs nothing; one that is has to be gone afterwards.
pub open spec fn unload_step(
    stage: UnloadStage,
    target: Seq<char>,
    run: Result<Output, ExecError>,
) -> Result<UnloadStage, Seq<char>> {
    match stage {
        UnloadStage::Inspect => match run {
            Err(e) => Err("launchd status: "@ + exec::exec_error_text(e)),
            Ok(output) => if output.code == 0 {
                Ok(UnloadStage::Bootout)
            } else if not_loaded(output) {
                Ok(UnloadStage::Done)
            } else {
                Err(exit_text("launchd status"@, output))
            },
        },
        UnloadStage::Bootout => match herdr::run_failure("launchd bootout"@, run) {
            Some(e) => Err(e),
            None => Ok(UnloadStage::Verify),
        },
        UnloadStage::Verify => match run {
            Err(e) => Err("launchd unload verification: "@ + exec::exec_error_text(e)),
            Ok(output) => if not_loaded(output) {
                Ok(UnloadStage::Done)
            } else if output.code == 0 {
                Err("launchd service "@ + target + " is still loaded"@)
            } else {
                Err(exit_text("launchd unload verification"@, output))
            },
        },
        UnloadStage::Done => Ok(UnloadStage::Done),
    }
}

fn exit_error(what: &str, output: &Output) -> (r: String)
    ensures
        r@ == exit_text(what@, *output),
{
    what.to_string().concat(" exited ").concat(text::signed_text(output.code).as_str()).concat(
        ": ",
    ).concat(text::first_line(output.stderr.as_str(), "no stderr").as_str())
}

pub fn launchd_unload(stage: UnloadStage, target: &str, run: &Result<Output, ExecError>) -> (r:
    Result<UnloadStage, String>)
    ensures
        match unload_step(stage, target@, *run) {
            Ok(next) => r == Ok::<UnloadStage, String>(next),
            Err(error) => r matches Err(e) && e@ == error,
        },
{
    match stage {
        UnloadStage::Inspect => match run {
            Err(e) => Err("launchd status: ".to_string().concat(e.describe().as_str())),
            Ok(output) => if output.ok() {
                Ok(UnloadStage::Bootout)
            } else if launchd_service_not_loaded(output) {
                Ok(UnloadStage::Done)
            } else {
                Err(exit_error("launchd status", output))
            },
        },
        UnloadStage::Bootout => match herdr::failure_of("launchd bootout", run) {
            Some(e) => Err(e),
            None => Ok(UnloadStage::Verify),
        },
        UnloadStage::Verify => match run {
            Err(e) => Err(
                "launchd unload verification: ".to_string().concat(e.describe().as_str()),
            ),
            Ok(output) => if launchd_service_not_loaded(output) {
                Ok(UnloadStage::Done)
            } else if output.ok() {
                Err("launchd service ".to_string().concat(target).concat(" is still loaded"))
            } else {
                Err(exit_error("launchd unload verification", output))
            },
        },
        UnloadStage::Done => Ok(UnloadStage::Done),
    }
}

/// Unloading ends only where launchd itself said that it knows no such
/// service; any other failure is an error.
pub proof fn law_unloaded_is_confirmed(
    stage: UnloadStage,
    target: Seq<char>,
    run: Result<Output, ExecError>,
)
    requires
        stage != UnloadStage::Done,
    ensures
        unload_step(stage, target, run) == Ok::<UnloadStage, Seq<char>>(UnloadStage::Done) ==> (
        run matches Ok(output) && not_loaded(output)),
{
}

// ---------------------------------------------------------------------------
// The command

#[derive(Debug)]
pub struct Status {
    pub platform: &'static str,
    pub installed: bool,
    pub resource: String,
    pub state: ScheduleState,
}

pub open spec fn scheduler_name(platform: Platform) -> Seq<char> {
    match platform {
        Platform::Linux => "linux/systemd-user"@,
        Platform::Macos => "macos/launchd-user"@,
        Platform::Windows => "windows/task-scheduler-user"@,
    }
}

/// The arguments that ask for the task on Windows.
pub fn query_args() -> (r: Vec<String>)
    ensures
        text::texts(r@) == seq!["/Query"@, "/TN"@, "Herdr Updater"@],
{
    let args = vec!["/Query".to_string(), "/TN".to_string(), TASK_NAME.to_string()];
    assert(text::texts(args@) =~= seq!["/Query"@, "/TN"@, "Herdr Updater"@]);
    args
}

/// The schedule is in place.
pub open spec fn is_installed(
    platform: Platform,
    presence: Presence,
    query: Option<Result<Output, ExecError>>,
) -> bool {
    presence is Regular && (platform == Platform::Windows ==> (query matches Some(q)
        && exec::succeeded(q)))
}

/// The state of the schedule, for reporting. It is installed where its file
/// is a regular one; on Windows the task has to be there too.
pub fn describe(
    platform: Platform,
    resource: &str,
    presence: &Presence,
    query: &Option<Result<Output, ExecError>>,
    state: Result<ScheduleState, String>,
) -> (r: Result<Status, String>)
    ensures
        match state {
            Ok(found) => r matches Ok(status) && status.platform@ == scheduler_name(platform)
                && status.resource@ == resource@ && status.state == found && status.installed
                == is_installed(platform, *presence, *query),
            Err(error) => r matches Err(e) && e@ == error@,
        },
{
    let found = state?;
    let regular = matches!(presence, Presence::Regular);
    let installed = match platform {
        Platform::Windows => regular && match query {
            Some(q) => exec::have(q),
            None => false,
        },
        _ => regular,
    };
    let name = match platform {
        Platform::Linux => "linux/systemd-user",
        Platform::Macos => "macos/launchd-user",
        Platform::Windows => "windows/task-scheduler-user",
    };
    Ok(Status { platform: name, installed, resource: resource.to_string(), state: found })
}

/// What `schedule` is asked to do, other than to run.
#[derive(Debug, Clone, Copy, PartialEq, Eq, Structural)]
pub enum ScheduleMode {
    Install,
    Remove,
    Status,
}

pub open spec fn mode_of(mode: Seq<char>) -> Option<ScheduleMode> {
    if mode == "install"@ {
        Some(ScheduleMode::Install)
    } else if mode == "remove"@ {
        Some(ScheduleMode::Remove)
    } else if mode == "status"@ {
        Some(ScheduleMode::Status)
    } else {
        None
    }
}

pub fn schedule_mode(mode: &str) -> (r: Result<ScheduleMode, String>)
    ensures
        match mode_of(mode@) {
            Some(m) => r == Ok::<ScheduleMode, String>(m),
            None => r matches Err(e) && e@
                == "schedule mode must be run, install, status, or remove"@,
        },
{
    if text::text_eq(mode, "install") {
        Ok(ScheduleMode::Install)
    } else if text::text_eq(mode, "remove") {
        Ok(ScheduleMode::Remove)
    } else if text::text_eq(mode, "status") {
        Ok(ScheduleMode::Status)
    } else {
        Err("schedule mode must be run, install, status, or remove".to_string())
    }
}

/// What is printed of a schedule, line by line.
pub open spec fn status_lines(status: Status, now: u64) -> Seq<Seq<char>> {
    let head = seq![
        "schedule: "@ + (if status.installed {
            "installed"@
        } else {
            "not installed"@
        }) + " on "@ + status.platform@,
        "resource: "@ + status.resource@,
    ];
    let next = match status.state.next_check_unix_seconds {
        Some(at) => head.push("next check: "@ + clock::described_text(at as nat, now as nat)),
        None => head,
    };
    let last = match status.state.last_success_unix_seconds {
        Some(at) => next.push("last success: "@ + clock::described_text(at as nat, now as nat)),
        None => next,
    };
    if status.state.consecutive_failures > 0 {
        last.push(
            "consecutive failures: "@ + text::decimal(status.state.consecutive_failures as nat),
        )
    } else {
        last
    }
}

/// The exit code and the printed lines of `schedule`. A failure is 2 where the
/// state could not be told, and 1 where something could not be changed.
pub fn cmd_schedule(mode: &str, result: &Result<Status, String>, now: u64) -> (r: (
    i32,
    Vec<String>,
))
    ensures
        match *result {
            Ok(status) => r.0 == 0 && text::texts(r.1@) == status_lines(status, now),
            Err(error) => r.0 == (if mode@ == "status"@ {
                2int
            } else {
                1int
            }) && text::texts(r.1@) == seq!["herdr-updater: "@ + error@],
        },
{
    match result {
        Ok(status) => {
            let mut lines: Vec<String> = Vec::new();
            let word = if status.installed {
                "installed"
            } else {
                "not installed"
            };
            lines.push(
                "schedule: ".to_string().concat(word).concat(" on ").concat(status.platform),
            );
            lines.push("resource: ".to_string().concat(status.resource.as_str()));
            if let Some(at) = status.state.next_check_unix_seconds {
                lines.push(
                    "next check: ".to_string().concat(clock::describe_at(at, now).as_str()),
                );
            }
            if let Some(at) = status.state.last_success_unix_seconds {
                lines.push(
                    "last success: ".to_string().concat(clock::describe_at(at, now).as_str()),
                );
            }
            if status.state.consecutive_failures > 0 {
                lines.push(
                    "consecutive failures: ".to_string().concat(
                        text::number_text(status.state.consecutive_failures as u64).as_str(),
                    ),
                );
            }
            assert(text::texts(lines@) =~= status_lines(*status, now));
            (0, lines)
        },
        Err(error) => {
            let lines = vec!["herdr-updater: ".to_string().concat(error.as_str())];
            assert(text::texts(lines@) =~= seq!["herdr-updater: "@ + error@]);
            if text::text_eq(mode, "status") {
                (2, lines)
            } else {
                (1, lines)
            }
        },
    }
}

/// What a scheduled run that holds the lock does.
#[derive(Debug, Clone, Copy, PartialEq, Eq, Structural)]
pub enum RunCourse {
    /// It is not time yet.
    Wait,
    /// It is time, and quiet hours put it off.
    Defer,
    Run,
}

pub open spec fn course_of(due: bool, quiet: bool) -> RunCourse {
    if !due {
        RunCourse::Wait
    } else if quiet {
        RunCourse::Defer
    } else {
        RunCourse::Run
    }
}

pub fn run_course(due: bool, quiet: bool) -> (r: RunCourse)
    ensures
        r == course_of(due, quiet),
{
    if !due {
        RunCourse::Wait
    } else if quiet {
        RunCourse::Defer
    } else {
        RunCourse::Run
    }
}

/// The code says that every answer is known.
pub open spec fn counts_as_success(code: i32) -> bool {
    code == 0 || code == 1
}

/// A scheduled run succeeded where every answer is known: the units count the
/// codes 0 and 1 as success too.
pub fn run_succeeded(code: i32) -> (r: bool)
    ensures
        r == counts_as_success(code),
{
    code == 0 || code == 1
}

// ---------------------------------------------------------------------------
// When runs happen

/// A window begins at its start and ends before its end, whether or not it
/// crosses midnight.
pub proof fn law_window_begins_and_ends(current: u16, start: u16, end: u16)
    ensures
        start < end ==> (window_holds(current, start, end) <==> start <= current && current < end),
        end < start ==> (window_holds(current, start, end) <==> !(end <= current && current
            < start)),
        start != end ==> window_holds(start, start, end) && !window_holds(end, start, end),
{
}

/// The first retry comes after five minutes, each further failure doubles the
/// delay, and it never exceeds the usual interval, where that is longer.
pub proof fn law_retries_double(failures: nat, normal: nat)
    requires
        normal >= 300,
    ensures
        retry_seconds(0, normal) == 300,
        retry_seconds(1, normal) == 300,
        1 <= failures <= 8 ==> retry_seconds(failures + 1, normal) == lesser(
            2 * retry_seconds(failures, normal),
            normal,
        ),
        failures >= 9 ==> retry_seconds(failures, normal) == lesser(76_800, normal),
{
    power2::lemma2_to64();
    if failures >= 1 {
        power2::lemma_pow2_unfold(failures);
    }
}

/// A run that ended is due again once its interval and the longest jitter have
/// passed: after a success that of the checks, after a failure no longer one.
pub proof fn law_finished_run_comes_due(
    state: ScheduleState,
    config: Config,
    exit_code: i32,
    successful: bool,
    fleet_synced: bool,
    now: u64,
    at: u64,
)
    requires
        at >= now + greater(config::seconds_or(config.check_interval@, 21_600), 300)
            + config::seconds_or(config.jitter@, 300),
    ensures
        due(finished(state, config, exit_code, successful, fleet_synced, now), config, at),
{
    law_jitter_is_bounded(now, config::seconds_or(config.jitter@, 300));
    let check = config::seconds_or(config.check_interval@, 21_600);
    let after = finished(state, config, exit_code, successful, fleet_synced, now);
    law_retries_back_off(
        after.consecutive_failures as nat,
        after.consecutive_failures as nat,
        check,
    );
}

/// A run leaves its record: when it was and how it ended, a success and a fleet
/// sync only where there was one, and the failures counted one by one.
pub proof fn law_run_leaves_its_record(
    state: ScheduleState,
    config: Config,
    exit_code: i32,
    successful: bool,
    fleet_synced: bool,
    now: u64,
)
    ensures
        ({
            let after = finished(state, config, exit_code, successful, fleet_synced, now);
            &&& after.last_attempt_unix_seconds == Some(now)
            &&& after.last_exit_code == Some(exit_code)
            &&& successful ==> after.last_success_unix_seconds == Some(now)
            &&& !successful ==> after.last_success_unix_seconds == state.last_success_unix_seconds
            &&& fleet_synced ==> after.last_fleet_sync_unix_seconds == Some(now)
            &&& !fleet_synced ==> after.last_fleet_sync_unix_seconds
                == state.last_fleet_sync_unix_seconds
            &&& !successful && state.consecutive_failures < u32::MAX
                ==> after.consecutive_failures == state.consecutive_failures + 1
        }),
{
}

/// Quiet hours only put the next check off, by five minutes and the jitter at
/// most; nothing is recorded as tried.
pub proof fn law_quiet_hours_only_put_off(
    state: ScheduleState,
    config: Config,
    now: u64,
    seed: u64,
)
    requires
        now + 300 + config::seconds_or(config.jitter@, 300) <= u64::MAX,
    ensures
        ({
            let after = deferred(state, config, now, seed);
            &&& after.last_attempt_unix_seconds == state.last_attempt_unix_seconds
            &&& after.last_success_unix_seconds == state.last_success_unix_seconds
            &&& after.last_fleet_sync_unix_seconds == state.last_fleet_sync_unix_seconds
            &&& after.consecutive_failures == state.consecutive_failures
            &&& after.last_exit_code == state.last_exit_code
            &&& after.next_check_unix_seconds matches Some(next) && now + 300 <= next && next
                <= now + 300 + config::seconds_or(config.jitter@, 300)
        }),
{
    law_jitter_is_bounded(seed, config::seconds_or(config.jitter@, 300));
}

/// A schedule that never ran gets its first check after the initial delay and
/// the jitter; one that ran before keeps its state.
pub proof fn law_first_check_waits_for_the_delay(state: ScheduleState, config: Config, now: u64)
    requires
        now + config::seconds_or(config.initial_delay@, 300) + config::seconds_or(
            config.jitter@,
            300,
        ) <= u64::MAX,
    ensures
        state.next_check_unix_seconds is Some || state.last_attempt_unix_seconds is Some
            || state.last_success_unix_seconds is Some ==> seeded(state, config, now) == state,
        state.next_check_unix_seconds is None && state.last_attempt_unix_seconds is None
            && state.last_success_unix_seconds is None ==> (seeded(
            state,
            config,
            now,
        ).next_check_unix_seconds matches Some(next) && now + config::seconds_or(
            config.initial_delay@,
            300,
        ) <= next && next <= now + config::seconds_or(config.initial_delay@, 300)
            + config::seconds_or(config.jitter@, 300)),
{
    law_jitter_is_bounded(now, config::seconds_or(config.jitter@, 300));
}

/// A check is due from the moment that was set on, and not before; where none
/// was set, from the interval after the last attempt on, and at once where
/// nothing was ever tried.
pub proof fn law_due_from_its_moment_on(state: ScheduleState, config: Config, now: u64, later_on: u64)
    requires
        now <= later_on,
    ensures
        state.next_check_unix_seconds matches Some(next) ==> (due(state, config, now) <==> next
            <= now),
        state.next_check_unix_seconds is None ==> match state.last_attempt_unix_seconds {
            Some(at) => at <= now ==> (due(state, config, now) <==> now - at >= config::seconds_or(
                config.check_interval@,
                21_600,
            )),
            None => config::seconds_or(config.check_interval@, 21_600) <= u64::MAX ==> due(
                state,
                config,
                now,
            ),
        },
        due(state, config, now) ==> due(state, config, later_on),
{
}

/// The fleet is synchronised on schedule only where that is asked for, and then
/// once in an interval.
pub proof fn law_fleet_sync_keeps_its_interval(state: ScheduleState, config: Config, now: u64)
    ensures
        !config.scheduled_fleet_sync ==> !sync_due(state, config, now),
        config.scheduled_fleet_sync ==> match state.last_fleet_sync_unix_seconds {
            Some(at) => at <= now ==> (sync_due(state, config, now) <==> now - at
                >= config::seconds_or(config.fleet_sync_interval@, 21_600)),
            None => config::seconds_or(config.fleet_sync_interval@, 21_600) <= u64::MAX ==> sync_due(
                state,
                config,
                now,
            ),
        },
{
}

/// State is read as it was written; without a file it is fresh, and a file that
/// cannot be used is an error, never a fresh start.
pub proof fn law_state_is_read_as_it_is(path: Seq<char>, file: StateFile)
    ensures
        file matches StateFile::Parsed(state) ==> state_of(path, file) == Ok::<
            ScheduleState,
            Seq<char>,
        >(state),
        file is Missing ==> (state_of(path, file) matches Ok(state) && untouched(state)
            && state.consecutive_failures == 0 && state.last_exit_code is None
            && state.last_fleet_sync_unix_seconds is None),
        state_of(path, file) is Ok <==> file is Missing || file is Parsed,
{
}

/// Runs are spread out: no two moments are scattered to the same number.
pub proof fn law_seeds_are_scattered_apart(a: u64, b: u64)
    requires
        scattered(a) == scattered(b),
    ensures
        a == b,
{
    let x = (a << 17) | (a >> 47);
    let y = (b << 17) | (b >> 47);
    lemma_odd_factor(x as nat);
    lemma_odd_factor(y as nat);
    assert(x == y);
    assert(a == b) by (bit_vector)
        requires
            x == y,
            x == (a << 17) | (a >> 47),
            y == (b << 17) | (b >> 47),
    ;
}

/// The number that undoes a multiplication by the golden ratio.
spec fn factor_inverse() -> nat {
    0xf1de_83e1_9937_733d
}

/// Multiplying by the odd factor can be undone.
proof fn lemma_odd_factor(x: nat)
    requires
        x < 0x1_0000_0000_0000_0000,
    ensures
        (x * 0x9e37_79b9_7f4a_7c15) % 0x1_0000_0000_0000_0000 * factor_inverse()
            % 0x1_0000_0000_0000_0000 == x,
{
    let m: int = 0x1_0000_0000_0000_0000;
    let f: int = 0x9e37_79b9_7f4a_7c15;
    let g: int = factor_inverse() as int;
    let z = x as int;
    assert((f * g) % m == 1);
    vstd::arithmetic::div_mod::lemma_mul_mod_noop_left(z * f, g, m);
    vstd::arithmetic::mul::lemma_mul_is_associative(z, f, g);
    vstd::arithmetic::div_mod::lemma_mul_mod_noop_right(z, f * g, m);
    vstd::arithmetic::div_mod::lemma_small_mod(x, m as nat);
}

/// A process is taken to run exactly where the system says so of a number that
/// a process can have.
pub proof fn law_process_runs_where_the_system_says_so(pid: u32, exists: bool, run: Result<Output, ExecError>)
    ensures
        alive(pid, ProcessProbe::Entry(exists)) == Some(pid != 0 && exists),
        pid != 0 ==> (alive(pid, ProcessProbe::Signal(run)) == Some(true) <==> (run matches Ok(
            out,
        ) && out.code == 0)),
        alive(0, ProcessProbe::Signal(run)) == Some(false),
        alive(pid, ProcessProbe::Unavailable) is None,
{
}

/// The local time is read as hours and minutes.
pub proof fn law_local_time_is_read(output: Output, hour: nat, minute: nat)
    requires
        hour < 24,
        minute < 60,
        output.stdout@ == text::zero_padded(hour, 2) + seq![':'] + text::zero_padded(minute, 2),
    ensures
        minute_of_day(Ok(output)) == Ok::<nat, Seq<char>>(hour * 60 + minute),
{
    let h = text::zero_padded(hour, 2);
    let m = text::zero_padded(minute, 2);
    let s = output.stdout@;
    text::lemma_two_digit_field(hour);
    text::lemma_two_digit_field(minute);
    assert(s.last() == m.last());
    text::lemma_strip_nothing(s, CharClass::LineEnd);
    assert(s[0] == h[0]);
    assert forall|i: int| 0 <= i < h.len() implies s[i] != ':' by {
        assert(text::is_digit(h[i]));
    }
    assert(s[2] == ':');
    text::lemma_find_char_is(s, ':', 2);
    assert(s.take(2) =~= h);
    assert(s.skip(3) =~= m);
}

/// It is quiet exactly where quiet hours are set and the local time lies in
/// them; without quiet hours it never is.
pub proof fn law_quiet_where_the_clock_says_so(
    raw: Seq<char>,
    start: nat,
    end: nat,
    run: Result<Output, ExecError>,
    current: nat,
)
    requires
        config::quiet_hours_of(raw) == Ok::<(nat, nat), Seq<char>>((start, end)),
        minute_of_day(run) == Ok::<nat, Seq<char>>(current),
        start < 1440 && end < 1440 && current < 1440,
    ensures
        quiet_verdict(None, run) == Ok::<bool, Seq<char>>(false),
        quiet_verdict(Some(raw), run) == Ok::<bool, Seq<char>>(
            if start < end {
                start <= current && current < end
            } else {
                current >= start || current < end
            },
        ),
{
}

// ---------------------------------------------------------------------------
// What a schedule runs

/// A text is quoted for systemd character by character: a backslash and a quote
/// are escaped, and nothing else changes.
pub proof fn law_systemd_escapes_by_character(s: Seq<char>, c: char)
    ensures
        systemd_inside(s.push(c)) == systemd_inside(s) + systemd_inside(seq![c]),
        c == '\\' || c == '"' ==> systemd_inside(seq![c]) == seq!['\\', c],
        c != '\\' && c != '"' ==> systemd_inside(seq![c]) == seq![c],
        systemd_word(s) == seq!['"'] + systemd_inside(s) + seq!['"'],
{
    reveal_strlit("\"");
    assert("\""@ =~= seq!['"']);
    assert(s.push(c).drop_last() =~= s);
    assert(seq![c].drop_last() =~= seq![]);
    assert(systemd_inside(seq![]) =~= seq![]);
    assert(systemd_inside(seq![c]) =~= systemd_char(c));
}

/// A text is escaped for XML character by character, each of the five special
/// characters by its own entity.
pub proof fn law_xml_escapes_by_character(s: Seq<char>, c: char)
    ensures
        xml_text(s.push(c)) == xml_text(s) + xml_text(seq![c]),
        xml_text(seq!['&']) == "&amp;"@,
        xml_text(seq!['<']) == "&lt;"@,
        xml_text(seq!['>']) == "&gt;"@,
        xml_text(seq!['"']) == "&quot;"@,
        xml_text(seq!['\'']) == "&apos;"@,
        c != '&' && c != '<' && c != '>' && c != '"' && c != '\'' ==> xml_text(seq![c]) == seq![c],
{
    assert(s.push(c).drop_last() =~= s);
    lemma_xml_single(c);
    lemma_xml_single('&');
    lemma_xml_single('<');
    lemma_xml_single('>');
    lemma_xml_single('"');
    lemma_xml_single('\'');
}

proof fn lemma_xml_single(c: char)
    ensures
        xml_text(seq![c]) == xml_char(c),
{
    assert(seq![c].drop_last() =~= seq![]);
    assert(xml_text(seq![]) =~= seq![]);
    assert(xml_text(seq![c]) =~= xml_char(c));
}

/// A Windows task repeats no sooner than asked for and less than a unit later,
/// in minutes below a day and in days from there on, as far as it can count.
pub proof fn law_windows_frequency_rounds_up(seconds: nat)
    ensures
        ({
            let (unit, count) = frequency(seconds);
            &&& 60 <= seconds < 86_340 ==> unit == "MINUTE"@ && count * 60 >= seconds && (count - 1)
                * 60 < seconds
            &&& 86_400 <= seconds <= 31_536_000 ==> unit == "DAILY"@ && count * 86_400 >= seconds
                && (count - 1) * 86_400 < seconds
            &&& seconds < 60 ==> unit == "MINUTE"@ && count == 1
        }),
{
}

/// Whatever the platform, what is scheduled is this program, running its
/// scheduled check on the given configuration, with the given search path.
pub proof fn law_schedule_runs_this_program(request: InstallRequest, tick: nat, at_once: bool)
    ensures
        text::has_text(
            service_text(request),
            "\nExecStart="@ + systemd_word(request.executable@) + " schedule run --config "@
                + systemd_word(request.config_path@),
        ),
        text::has_text(service_text(request), request.path@ + "\nExecStart="@),
        text::has_text(timer_text(tick, at_once), "\nOnUnitActiveSec="@ + text::decimal(tick)),
        at_once ==> text::has_text(
            timer_text(tick, at_once),
            text::decimal(1) + "\nOnUnitActiveSec="@,
        ),
        !at_once ==> text::has_text(
            timer_text(tick, at_once),
            text::decimal(tick) + "\nOnUnitActiveSec="@,
        ),
        text::has_text(
            agent_text(request, tick),
            xml_text(request.executable@)
                + "</string><string>schedule</string><string>run</string><string>--config</string><string>"@
                + xml_text(request.config_path@),
        ),
        text::has_text(
            agent_text(request, tick),
            "<key>PATH</key><string>"@ + xml_text(request.path@) + "</string>"@,
        ),
        text::has_text(
            agent_text(request, tick),
            "<key>StartInterval</key><integer>"@ + text::decimal(tick) + "</integer>"@,
        ),
        text::has_text(
            script_text(request),
            "& '"@ + text::replaced(request.executable@, '\'', "''"@)
                + "' schedule run --config '"@ + text::replaced(request.config_path@, '\'', "''"@)
                + "'"@,
        ),
        text::has_text(
            script_text(request),
            "$env:PATH = '"@ + text::replaced(request.path@, '\'', "''"@) + "'"@,
        ),
{
    lemma_service_runs(request);
    lemma_timer_ticks(tick, at_once);
    lemma_agent_runs(request, tick);
    lemma_script_runs(request);
}

proof fn lemma_service_runs(request: InstallRequest)
    ensures
        text::has_text(
            service_text(request),
            "\nExecStart="@ + systemd_word(request.executable@) + " schedule run --config "@
                + systemd_word(request.config_path@),
        ),
        text::has_text(service_text(request), request.path@ + "\nExecStart="@),
{
    let s = service_text(request);
    let head =
        "[Unit]\nDescription=Check Herdr core and plugins\n\n[Service]\nType=oneshot\nSuccessExitStatus=1\nEnvironment=PATH="@;
    let run = "\nExecStart="@ + systemd_word(request.executable@) + " schedule run --config "@
        + systemd_word(request.config_path@);
    text::lemma_has_middle(head + request.path@, run, "\n"@);
    assert(s =~= head + request.path@ + run + "\n"@);
    let rest = systemd_word(request.executable@) + " schedule run --config "@ + systemd_word(
        request.config_path@,
    ) + "\n"@;
    text::lemma_has_middle(head, request.path@ + "\nExecStart="@, rest);
    assert(s =~= head + (request.path@ + "\nExecStart="@) + rest);
}

proof fn lemma_timer_ticks(tick: nat, at_once: bool)
    ensures
        text::has_text(timer_text(tick, at_once), "\nOnUnitActiveSec="@ + text::decimal(tick)),
        text::has_text(
            timer_text(tick, at_once),
            text::decimal(
                if at_once {
                    1
                } else {
                    tick
                },
            ) + "\nOnUnitActiveSec="@,
        ),
{
    let s = timer_text(tick, at_once);
    let head = "[Unit]\nDescription=Schedule Herdr update checks\n\n[Timer]\nOnBootSec="@;
    let first = text::decimal(
        if at_once {
            1
        } else {
            tick
        },
    );
    let end =
        "\nPersistent=true\nUnit=herdr-updater.service\n\n[Install]\nWantedBy=timers.target\n"@;
    let every = "\nOnUnitActiveSec="@ + text::decimal(tick);
    text::lemma_has_middle(head + first, every, end);
    assert(s =~= head + first + every + end);
    text::lemma_has_middle(head, first + "\nOnUnitActiveSec="@, text::decimal(tick) + end);
    assert(s =~= head + (first + "\nOnUnitActiveSec="@) + (text::decimal(tick) + end));
}

proof fn lemma_agent_runs(request: InstallRequest, tick: nat)
    ensures
        text::has_text(
            agent_text(request, tick),
            xml_text(request.executable@)
                + "</string><string>schedule</string><string>run</string><string>--config</string><string>"@
                + xml_text(request.config_path@),
        ),
        text::has_text(
            agent_text(request, tick),
            "<key>PATH</key><string>"@ + xml_text(request.path@) + "</string>"@,
        ),
        text::has_text(
            agent_text(request, tick),
            "<key>StartInterval</key><integer>"@ + text::decimal(tick) + "</integer>"@,
        ),
{
    let s = agent_text(request, tick);
    let head =
        "<?xml version=\"1.0\" encoding=\"UTF-8\"?>\n<!DOCTYPE plist PUBLIC \"-//Apple//DTD PLIST 1.0//EN\" \"http://www.apple.com/DTDs/PropertyList-1.0.dtd\">\n<plist version=\"1.0\"><dict>\n<key>Label</key><string>io.github.diegopzz.herdr-updater</string>\n<key>ProgramArguments</key><array><string>"@;
    let exe = xml_text(request.executable@);
    let mid =
        "</string><string>schedule</string><string>run</string><string>--config</string><string>"@;
    let config = xml_text(request.config_path@);
    let env =
        "</string></array>\n<key>EnvironmentVariables</key><dict><key>PATH</key><string>"@;
    let path = xml_text(request.path@);
    let every = "</string></dict>\n<key>StartInterval</key><integer>"@;
    let n = text::decimal(tick);
    let end = "</integer>\n<key>RunAtLoad</key><true/>\n</dict></plist>\n"@;
    let tail = env + path + every + n + end;
    text::lemma_has_middle(head, exe + mid + config, tail);
    assert(s =~= head + (exe + mid + config) + tail);
    reveal_strlit(
        "</string></array>\n<key>EnvironmentVariables</key><dict><key>PATH</key><string>",
    );
    reveal_strlit("<key>PATH</key><string>");
    reveal_strlit("</string></dict>\n<key>StartInterval</key><integer>");
    reveal_strlit("<key>StartInterval</key><integer>");
    reveal_strlit("</string>");
    reveal_strlit("</integer>\n<key>RunAtLoad</key><true/>\n</dict></plist>\n");
    reveal_strlit("</integer>");
    let key = "<key>PATH</key><string>"@;
    let env_head = env.take(env.len() - key.len());
    assert(env =~= env_head + key);
    let close = "</string>"@;
    let every_tail = every.skip(close.len() as int);
    assert(every =~= close + every_tail);
    let before = head + exe + mid + config + env_head;
    let after = every_tail + n + end;
    text::lemma_has_middle(before, key + path + close, after);
    assert(s =~= before + (key + path + close) + after);
    let tick_key = "<key>StartInterval</key><integer>"@;
    let every_head = every.take(every.len() - tick_key.len());
    assert(every =~= every_head + tick_key);
    let stop = "</integer>"@;
    let end_tail = end.skip(stop.len() as int);
    assert(end =~= stop + end_tail);
    let start = head + exe + mid + config + env + path + every_head;
    text::lemma_has_middle(start, tick_key + n + stop, end_tail);
    assert(s =~= start + (tick_key + n + stop) + end_tail);
}

proof fn lemma_script_runs(request: InstallRequest)
    ensures
        text::has_text(
            script_text(request),
            "& '"@ + text::replaced(request.executable@, '\'', "''"@)
                + "' schedule run --config '"@ + text::replaced(request.config_path@, '\'', "''"@)
                + "'"@,
        ),
        text::has_text(
            script_text(request),
            "$env:PATH = '"@ + text::replaced(request.path@, '\'', "''"@) + "'"@,
        ),
{
    let s = script_text(request);
    let head = "$ErrorActionPreference = 'Stop'\r\n$env:PATH = '"@;
    let path = text::replaced(request.path@, '\'', "''"@);
    let call = "'\r\n& '"@;
    let exe = text::replaced(request.executable@, '\'', "''"@);
    let mid = "' schedule run --config '"@;
    let config = text::replaced(request.config_path@, '\'', "''"@);
    let end =
        "'\r\n$code = $LASTEXITCODE\r\nif ($code -eq 1) { exit 0 }\r\nexit $code\r\n"@;
    reveal_strlit("$ErrorActionPreference = 'Stop'\r\n$env:PATH = '");
    reveal_strlit("$env:PATH = '");
    reveal_strlit("'\r\n& '");
    reveal_strlit("& '");
    reveal_strlit("'");
    reveal_strlit(
        "'\r\n$code = $LASTEXITCODE\r\nif ($code -eq 1) { exit 0 }\r\nexit $code\r\n",
    );
    let q = "'"@;
    let set = "$env:PATH = '"@;
    let head_start = head.take(head.len() - set.len());
    assert(head =~= head_start + set);
    let call_tail = call.skip(1);
    assert(call =~= q + call_tail);
    let after = call_tail + exe + mid + config + end;
    text::lemma_has_middle(head_start, set + path + q, after);
    assert(s =~= head_start + (set + path + q) + after);
    let amp = "& '"@;
    let call_head = call.take(call.len() - amp.len());
    assert(call =~= call_head + amp);
    let end_tail = end.skip(1);
    assert(end =~= q + end_tail);
    let start = head + path + call_head;
    text::lemma_has_middle(start, amp + exe + mid + config + q, end_tail);
    assert(s =~= start + (amp + exe + mid + config + q) + end_tail);
}

/// Installing writes the file that stands for the schedule and then has the
/// platform's scheduler take it up; on macOS that follows once the user's
/// domain is known.
pub proof fn law_installing_hands_the_schedule_over(
    request: InstallRequest,
    config: Config,
)
    ensures
        ({
            let steps = install_tasks(Platform::Linux, request, config);
            &&& steps[0] == (Task::Write { path: request.service@, content: service_text(request) })
            &&& steps[1] is Write && steps[1]->Write_path == request.resource@
            &&& steps.last() == (Task::Run {
                program: "systemctl"@,
                args: seq!["--user"@, "enable"@, "--now"@, "herdr-updater.timer"@],
                label: "systemd timer enable"@,
            })
        }),
        install_tasks(Platform::Macos, request, config)[0] is Write,
        install_tasks(Platform::Macos, request, config)[0]->Write_path == request.resource@,
        ({
            let steps = install_tasks(Platform::Windows, request, config);
            &&& steps[0] == (Task::Write { path: request.resource@, content: script_text(request) })
            &&& steps[1] is Run && steps[1]->Run_program == "schtasks"@
            &&& steps[1]->Run_args[0] == "/Create"@
            &&& text::has_text(steps[1]->Run_args[4], request.resource@)
            &&& (steps.len() == 3) == (config::seconds_or(config.initial_delay@, 300) == 0)
        }),
{
    let lead = "powershell.exe -NoProfile -ExecutionPolicy Bypass -File \""@;
    text::lemma_has_middle(lead, request.resource@, "\""@);
}

/// Removing first tells the scheduler, where its program is there, and then
/// removes the files; it touches nothing but what stands for this schedule.
pub proof fn law_removal_touches_only_its_own(
    platform: Platform,
    have_tool: bool,
    target: Seq<char>,
    resource: Seq<char>,
    service: Seq<char>,
    i: int,
)
    requires
        0 <= i < remove_tasks(platform, have_tool, target, resource, service).len(),
    ensures
        ({
            let task = remove_tasks(platform, have_tool, target, resource, service)[i];
            &&& !(task is Write)
            &&& task matches Task::Remove { path } ==> path == resource || (platform
                == Platform::Linux && path == service)
            &&& task matches Task::Unload { target: t } ==> t == target
            &&& !have_tool ==> task is Remove
            &&& have_tool && i == 0 ==> !(task is Remove)
            &&& task matches Task::Attempt { program, args } ==> (platform == Platform::Linux
                && program == "systemctl"@ && args == seq![
                "--user"@,
                "disable"@,
                "--now"@,
                "herdr-updater.timer"@,
            ]) || (platform == Platform::Windows && program == "schtasks"@ && args == seq![
                "/Delete"@,
                "/TN"@,
                "Herdr Updater"@,
                "/F"@,
            ])
        }),
{
}

/// A loaded service is unloaded and looked for again; what is not loaded needs
/// nothing; and a failure ends it.
pub proof fn law_unloading_goes_step_by_step(target: Seq<char>, output: Output)
    ensures
        output.code == 0 ==> unload_step(UnloadStage::Inspect, target, Ok(output)) == Ok::<
            UnloadStage,
            Seq<char>,
        >(UnloadStage::Bootout),
        output.code == 0 ==> unload_step(UnloadStage::Bootout, target, Ok(output)) == Ok::<
            UnloadStage,
            Seq<char>,
        >(UnloadStage::Verify),
        output.code == 0 ==> unload_step(UnloadStage::Verify, target, Ok(output)) is Err,
        not_loaded(output) ==> unload_step(UnloadStage::Inspect, target, Ok(output)) == Ok::<
            UnloadStage,
            Seq<char>,
        >(UnloadStage::Done),
        not_loaded(output) ==> unload_step(UnloadStage::Verify, target, Ok(output)) == Ok::<
            UnloadStage,
            Seq<char>,
        >(UnloadStage::Done),
        output.code == 0 ==> !not_loaded(output),
{
}

/// The status says whether the schedule is installed, where it lies, when the
/// next check is, when the last one succeeded, and how many failed since.
pub proof fn law_status_tells_the_state(status: Status, now: u64)
    ensures
        ({
            let lines = status_lines(status, now);
            &&& lines[0] == "schedule: "@ + (if status.installed {
                "installed"@
            } else {
                "not installed"@
            }) + " on "@ + status.platform@
            &&& lines[1] == "resource: "@ + status.resource@
            &&& status.state.next_check_unix_seconds matches Some(at) ==> lines.contains(
                "next check: "@ + clock::described_text(at as nat, now as nat),
            )
            &&& status.state.last_success_unix_seconds matches Some(at) ==> lines.contains(
                "last success: "@ + clock::described_text(at as nat, now as nat),
            )
            &&& status.state.consecutive_failures > 0 ==> lines.last() == "consecutive failures: "@
                + text::decimal(status.state.consecutive_failures as nat)
        }),
{
    let lines = status_lines(status, now);
    if status.state.next_check_unix_seconds is Some {
        assert(lines[2] == "next check: "@ + clock::described_text(
            status.state.next_check_unix_seconds->0 as nat,
            now as nat,
        ));
        if status.state.last_success_unix_seconds is Some {
            assert(lines[3] == "last success: "@ + clock::described_text(
                status.state.last_success_unix_seconds->0 as nat,
                now as nat,
            ));
        }
    } else if status.state.last_success_unix_seconds is Some {
        assert(lines[2] == "last success: "@ + clock::described_text(
            status.state.last_success_unix_seconds->0 as nat,
            now as nat,
        ));
    }
}

/// Each mode does what it is called.
pub proof fn law_schedule_modes(mode: Seq<char>)
    ensures
        mode_of(mode) == Some(ScheduleMode::Install) <==> mode == "install"@,
        mode_of(mode) == Some(ScheduleMode::Remove) <==> mode == "remove"@,
        mode_of(mode) == Some(ScheduleMode::Status) <==> mode == "status"@,
{
    reveal_strlit("install");
    reveal_strlit("remove");
    reveal_strlit("status");
    assert("install"@.len() == 7);
    assert("remove"@[0] == 'r' && "status"@[0] == 's');
}

/// The search path of a scheduled run falls apart into its directories again.
pub proof fn law_scheduled_path_falls_apart(
    platform: Platform,
    own_dir: Option<Seq<char>>,
    inherited: Seq<char>,
)
    requires
        path_entries(platform, own_dir, inherited).len() > 0,
        forall|i: int|
            0 <= i < path_entries(platform, own_dir, inherited).len() ==> !(
            #[trigger] path_entries(platform, own_dir, inherited)[i]).contains(
                if platform == Platform::Windows {
                    ';'
                } else {
                    ':'
                },
            ),
    ensures
        text::split_at_char(
            scheduled_path(platform, own_dir, inherited),
            if platform == Platform::Windows {
                ';'
            } else {
                ':'
            },
        ) == path_entries(platform, own_dir, inherited),
{
    text::law_split_undoes_joining(
        path_entries(platform, own_dir, inherited),
        path_separator(platform),
    );
}

/// A run happens exactly where it is due and not quiet; due in quiet hours it
/// is put off, and otherwise it waits.
pub proof fn law_runs_when_due_and_not_quiet(due: bool, quiet: bool)
    ensures
        course_of(due, quiet) == RunCourse::Run <==> due && !quiet,
        course_of(due, quiet) == RunCourse::Defer <==> due && quiet,
        course_of(due, quiet) == RunCourse::Wait <==> !due,
{
}

/// A run that found nothing to do and one that found an update succeeded; an
/// answer that is not known, a usage error and a crash did not.
pub proof fn law_unknown_answers_are_retried(code: i32)
    ensures
        counts_as_success(code) <==> code == 0 || code == 1,
        !counts_as_success(2) && !counts_as_success(3) && !counts_as_success(-1i32),
{
}

/// A schedule is installed exactly where its file is a regular one, and on
/// Windows only where the task is known too.
pub proof fn law_installed_means_in_place(
    presence: Presence,
    query: Option<Result<Output, ExecError>>,
)
    ensures
        is_installed(Platform::Linux, presence, query) <==> presence is Regular,
        is_installed(Platform::Macos, presence, query) <==> presence is Regular,
        is_installed(Platform::Windows, presence, query) <==> presence is Regular && (
        query matches Some(Ok(out)) && out.code == 0),
{
}

/// Each platform's schedule goes by its own name, is managed with its own
/// program and lies in its own place.
pub proof fn law_platforms_have_their_schedulers(home: Seq<char>, config_dir: Seq<char>)
    ensures
        scheduler_name(Platform::Linux) == "linux/systemd-user"@,
        scheduler_name(Platform::Macos) == "macos/launchd-user"@,
        scheduler_name(Platform::Windows) == "windows/task-scheduler-user"@,
        tool_name(Platform::Linux) == "systemctl"@,
        tool_name(Platform::Macos) == "launchctl"@,
        tool_name(Platform::Windows) == "schtasks"@,
        resource_place(Platform::Linux, home, config_dir) == (
            home,
            seq![".config/systemd/user"@, "herdr-updater.timer"@],
        ),
        resource_place(Platform::Macos, home, config_dir) == (
            home,
            seq!["Library/LaunchAgents"@, "io.github.diegopzz.herdr-updater.plist"@],
        ),
        resource_place(Platform::Windows, home, config_dir) == (
            config_dir,
            seq!["schedule-run.ps1"@],
        ),
{
}

/// The scheduler fires as often as the shortest of the interval, the delay and
/// the jitter asks for, within its bounds.
pub proof fn law_tick_is_the_shortest_deadline(check: nat, delay: nat, jitter: nat)
    requires
        60 <= check,
    ensures
        check <= 300 && delay == 0 && jitter == 0 ==> tick_seconds(check, delay, jitter) == check,
        check >= 300 && delay == 0 && jitter == 0 ==> tick_seconds(check, delay, jitter) == 300,
        60 <= delay <= check && delay <= 300 && (jitter == 0 || jitter >= delay) ==> tick_seconds(
            check,
            delay,
            jitter,
        ) == delay,
        60 <= jitter <= check && jitter <= 300 && (delay == 0 || delay >= jitter) ==> tick_seconds(
            check,
            delay,
            jitter,
        ) == jitter,
        0 < jitter < 60 ==> tick_seconds(check, delay, jitter) == 60,
{
}

/// A lock is described exactly where there is one, and truly: it is held where
/// its owner runs, and its owner is gone where it does not run or the machine was
/// started since.
pub proof fn law_lock_is_described_truly(
    owner: LockOwner,
    boot: Option<Seq<char>>,
    probe: ProcessProbe,
    held_for: Option<Duration>,
    is_dir: bool,
    r: Option<LockReport>,
)
    requires
        lock_described(is_dir, Some(owner), boot, probe, held_for, r),
    ensures
        r is Some <==> is_dir,
        r matches Some(report) ==> {
            let restarted = owner.boot is Some && boot is Some && owner.boot->0@ != boot->0;
            &&& report.pid == Some(owner.pid)
            &&& report.held_for == held_for
            &&& report.verdict == LockVerdict::Held <==> !restarted && alive(owner.pid, probe)
                == Some(true)
            &&& report.verdict == LockVerdict::OwnerGone <==> restarted || alive(owner.pid, probe)
                == Some(false)
        },
{
}

/// The home directory is the first that the environment names; a domain is read
/// only from a number; and the state of before is rewritten where there was one
/// and removed where there was none.
pub proof fn law_places_are_found(
    home: Seq<char>,
    profile: Option<Seq<char>>,
    run: Result<Output, ExecError>,
    existed: bool,
)
    ensures
        home_of(Some(home), profile) == Some(home),
        home_of(None, profile) == profile,
        domain_of(run) matches Ok(domain) ==> (run matches Ok(out) && out.code == 0 && domain
            == "gui/"@ + exec::trimmed_output(out) && forall|i: int|
            0 <= i < exec::trimmed_output(out).len() ==> '0' <= #[trigger] exec::trimmed_output(
                out,
            )[i] <= '9'),
        restoration(false, existed) == Restoration::Nothing,
        restoration(true, true) == Restoration::Rewrite,
        restoration(true, false) == Restoration::Remove,
{
    if let Ok(out) = run {
        let uid = exec::trimmed_output(out);
        if domain_of(run) is Ok {
            assert forall|i: int| 0 <= i < uid.len() implies '0' <= #[trigger] uid[i] <= '9' by {
                assert(CharClass::Digit.holds(uid[i]));
            }
        }
    }
}

/// What is loaded was unloaded first, under the same name in the same domain.
pub proof fn law_agent_is_loaded_afresh(domain: Seq<char>, resource: Seq<char>)
    ensures
        load_tasks(domain, resource).len() == 2,
        load_tasks(domain, resource)[0] == (Task::Unload {
            target: domain + "/"@ + "io.github.diegopzz.herdr-updater"@,
        }),
        load_tasks(domain, resource)[1] matches Task::Run { program, args, label } && program
            == "launchctl"@ && args == seq!["bootstrap"@, domain, resource],
{
}

/// The local time is read with the program of the platform, as hours and minutes.
pub proof fn law_local_time_is_asked_for(platform: Platform)
    ensures
        time_command(Platform::Linux) == ("date"@, seq!["+%H:%M"@]),
        time_command(Platform::Macos) == ("date"@, seq!["+%H:%M"@]),
        time_command(Platform::Windows).0 == "powershell"@,
        time_command(Platform::Windows).1.last() == "(Get-Date).ToString('HH:mm')"@,
{
}

/// A regular file is removed, a missing one needs no removal, and nothing else
/// is touched.
pub proof fn law_only_regular_files_are_removed(path: Seq<char>, presence: Presence)
    ensures
        removable(path, presence) == Ok::<bool, Seq<char>>(true) <==> presence is Regular,
        removable(path, presence) == Ok::<bool, Seq<char>>(false) <==> presence is Missing,
{
}

/// The boot is what the machine reports, without space around it; an empty
/// report is none.
pub proof fn law_boot_is_what_is_reported(value: Seq<char>)
    ensures
        text::trimmed(value).len() > 0 ==> boot_of(Some(value)) == Some(text::trimmed(value)),
        text::trimmed(value).len() == 0 ==> boot_of(Some(value)) is None,
        boot_of(None) is None,
{
}

/// What has passed since a moment and the moment make up the present; nothing has
/// passed since one to come; and what never happened is as long ago as can be.
pub proof fn law_time_passes(at: u64, now: u64)
    ensures
        at <= now ==> at + elapsed(Some(at), now) == now,
        at > now ==> elapsed(Some(at), now) == 0,
        elapsed(None, now) == u64::MAX,
{
}

} // verus!
