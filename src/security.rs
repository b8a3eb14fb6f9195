//! Live policy state: the process budget, the sliding-window rate limiter,
//! per-command figures, and the screening of raw input.
use vstd::prelude::*;
use std::time::{Duration, Instant};
use crate::config::Config;
use crate::error::{ErrorKind, SecurityError, ShellError, ShellResult, err_of, fails_with};
use crate::text::{chars_of, contains_char, contains_infix, has_infix, pushed, texts};

verus! {

/// `std::time::Instant`, held opaque: the origin of the manager's clock.
#[verifier::external_type_specification]
#[verifier::external_body]
pub struct ExInstant(Instant);

/// Relies on `Instant::now`: a reading of the monotonic clock.
#[verifier::external_body]
fn clock_start() -> Instant {
    Instant::now()
}

/// Relies on `Instant::elapsed`: the time that passed since `origin`.
#[verifier::external_body]
fn elapsed_since(origin: &Instant) -> Duration {
    origin.elapsed()
}

/// Relies on `Duration::as_micros`: the length of `d` in whole
/// microseconds, saturated to `u64`.
#[verifier::external_body]
fn micros_of(d: Duration) -> u64 {
    u64::try_from(d.as_micros()).unwrap_or(u64::MAX)
}

/// Length of the rate limiter's sliding window, in milliseconds.
pub const RATE_WINDOW_MS: u64 = 60000;

/// Uses of one key that the rate limiter accepts within one window.
pub const RATE_LIMIT: usize = 10;

/// A use at time `t` still counts at time `now` (a time after `now` counts).
pub open spec fn in_window(t: u64, now: u64) -> bool {
    now < t || now - t < RATE_WINDOW_MS
}

/// The uses of `w` that still count at time `now`, in order.
pub open spec fn recent(w: Seq<u64>, now: u64) -> Seq<u64> {
    w.filter(|t: u64| in_window(t, now))
}

/// One call of the rate limiter on a key whose recorded uses are `w`: whether
/// the use at `now` is accepted, and the uses recorded afterwards. Uses out
/// of the window are dropped; a rejected use is not recorded.
pub open spec fn rate_step(w: Seq<u64>, now: u64) -> (bool, Seq<u64>) {
    let p = recent(w, now);
    if p.len() < RATE_LIMIT {
        (true, p.push(now))
    } else {
        (false, p)
    }
}

/// Aggregate figures of one command name.
#[derive(Debug, Clone, Copy, PartialEq, Eq, Structural)]
pub struct CommandStats {
    /// Number of recorded executions.
    pub count: usize,
    /// When the last one was recorded, in milliseconds since the manager was made.
    pub last_execution: u64,
    /// Sum of the recorded durations, in microseconds.
    pub total_time: u64,
}

/// The figures of a command after one more execution of `duration`
/// microseconds recorded at `now`. The sums saturate.
pub open spec fn next_stats(old: Option<CommandStats>, duration: u64, now: u64) -> CommandStats {
    match old {
        None => CommandStats { count: 1, last_execution: now, total_time: duration },
        Some(s) => CommandStats {
            count: if s.count < usize::MAX { (s.count + 1) as usize } else { usize::MAX },
            last_execution: now,
            total_time: if s.total_time + duration <= u64::MAX {
                (s.total_time + duration) as u64
            } else {
                u64::MAX
            },
        },
    }
}

/// A change of the number of live processes.
pub enum GuardEvent {
    Acquire,
    Release,
}

/// The number of live processes after `e`.
pub open spec fn guard_step(active: int, e: GuardEvent) -> int {
    match e {
        GuardEvent::Acquire => active + 1,
        GuardEvent::Release => active - 1,
    }
}

/// Fragments that `validate_input` refuses, in the order they are tried.
pub open spec fn refused_fragments() -> Seq<Seq<char>> {
    seq![
        ";"@,
        "&"@,
        "|"@,
        "`"@,
        "$"@,
        "("@,
        ")"@,
        "<"@,
        ">"@,
        "\""@,
        "'"@,
        "\\"@,
        "rm "@,
        "del "@,
        "format "@,
        "shutdown"@,
        "reboot"@,
        "halt"@,
        "../"@,
        "..\\"@,
        "/etc/"@,
        "/bin/"@,
        "/usr/"@,
        "C:\\"@,
    ]
}

/// `k` is the first of `frags` that stands in `s`.
pub open spec fn first_infix(s: Seq<char>, frags: Seq<Seq<char>>, k: int) -> bool {
    &&& 0 <= k < frags.len()
    &&& has_infix(s, frags[k])
    &&& forall|j: int| 0 <= j < k ==> !has_infix(s, #[trigger] frags[j])
}

fn refused_fragment_list() -> (r: Vec<String>)
    ensures
        texts(r) == refused_fragments(),
{
    let mut v: Vec<String> = Vec::new();
    v = pushed(v, ";");
    v = pushed(v, "&");
    v = pushed(v, "|");
    v = pushed(v, "`");
    v = pushed(v, "$");
    v = pushed(v, "(");
    v = pushed(v, ")");
    v = pushed(v, "<");
    v = pushed(v, ">");
    v = pushed(v, "\"");
    v = pushed(v, "'");
    v = pushed(v, "\\");
    v = pushed(v, "rm ");
    v = pushed(v, "del ");
    v = pushed(v, "format ");
    v = pushed(v, "shutdown");
    v = pushed(v, "reboot");
    v = pushed(v, "halt");
    v = pushed(v, "../");
    v = pushed(v, "..\\");
    v = pushed(v, "/etc/");
    v = pushed(v, "/bin/");
    v = pushed(v, "/usr/");
    v = pushed(v, "C:\\");
    assert(texts(v) =~= refused_fragments());
    v
}

/// Rejects output of more than `max_memory_mb` mebibytes.
pub fn check_output_size(len: usize, config: &Config) -> (r: ShellResult<()>)
    ensures
        r is Ok <==> len <= config.limits.max_memory_mb * 1048576,
        r is Err ==> fails_with(r, err_of(ErrorKind::ResourceLimitExceeded, "Output too large"@)),
{
    if config.limits.max_memory_mb > usize::MAX / 1048576 {
        assert(config.limits.max_memory_mb * 1048576 > usize::MAX) by (nonlinear_arith)
            requires
                config.limits.max_memory_mb > usize::MAX / 1048576,
        ;
        return Ok(());
    }
    assert(config.limits.max_memory_mb * 1048576 <= usize::MAX) by (nonlinear_arith)
        requires
            config.limits.max_memory_mb <= usize::MAX / 1048576,
    ;
    if len > config.limits.max_memory_mb * 1048576 {
        return Err(ShellError::Security(SecurityError::ResourceLimitExceeded("Output too large".to_owned())));
    }
    Ok(())
}

/// Replays uses at `times`, in order, on a key whose recorded uses are `w`:
/// the verdict of each use, and the uses recorded at the end.
pub open spec fn replay(w: Seq<u64>, times: Seq<u64>) -> (Seq<bool>, Seq<u64>)
    decreases times.len(),
{
    if times.len() == 0 {
        (Seq::empty(), w)
    } else {
        let (verdicts, w0) = replay(w, times.drop_last());
        let (ok, w1) = rate_step(w0, times.last());
        (verdicts.push(ok), w1)
    }
}

proof fn lemma_recent_keeps_all(w: Seq<u64>, now: u64)
    requires
        forall|i: int| 0 <= i < w.len() ==> in_window(#[trigger] w[i], now),
    ensures
        recent(w, now) == w,
    decreases w.len(),
{
    reveal(Seq::filter);
    if w.len() > 0 {
        lemma_recent_keeps_all(w.drop_last(), now);
        assert(w.drop_last().push(w.last()) =~= w);
    }
}

proof fn lemma_recent_keeps_none(w: Seq<u64>, now: u64)
    requires
        forall|i: int| 0 <= i < w.len() ==> !in_window(#[trigger] w[i], now),
    ensures
        recent(w, now) == Seq::<u64>::empty(),
    decreases w.len(),
{
    reveal(Seq::filter);
    if w.len() > 0 {
        lemma_recent_keeps_none(w.drop_last(), now);
    }
}

/// From a key with no recorded use, eleven uses in time order that all fall
/// within one window: the first ten are accepted and the eleventh is rejected.
pub proof fn lemma_rate_limit_ten_then_reject(times: Seq<u64>)
    requires
        times.len() == RATE_LIMIT + 1,
        forall|i: int, j: int| 0 <= i <= j < times.len() ==> times[i] <= times[j],
        times[times.len() - 1] - times[0] < RATE_WINDOW_MS,
    ensures
        replay(Seq::empty(), times).0 == seq![
            true,
            true,
            true,
            true,
            true,
            true,
            true,
            true,
            true,
            true,
            false,
        ],
{
    let n = times.len() as int;
    assert forall|k: int| 0 <= k <= RATE_LIMIT implies #[trigger] replay(Seq::empty(), times.take(k))
        == (Seq::new(k as nat, |i: int| true), times.take(k)) by {
        lemma_replay_accepts(times, k);
    }
    let (v10, w10) = replay(Seq::empty(), times.take(10));
    assert(times.take(11).drop_last() =~= times.take(10));
    assert(times.take(11) =~= times);
    assert forall|i: int| 0 <= i < w10.len() implies in_window(#[trigger] w10[i], times[10]) by {
        assert(w10[i] == times[i]);
    }
    lemma_recent_keeps_all(w10, times[10]);
    assert(replay(Seq::empty(), times.take(11)).0 == v10.push(false));
    assert(v10.push(false) =~= seq![true, true, true, true, true, true, true, true, true, true, false]);
}

proof fn lemma_replay_accepts(times: Seq<u64>, k: int)
    requires
        times.len() == RATE_LIMIT + 1,
        forall|i: int, j: int| 0 <= i <= j < times.len() ==> times[i] <= times[j],
        times[times.len() - 1] - times[0] < RATE_WINDOW_MS,
        0 <= k <= RATE_LIMIT,
    ensures
        replay(Seq::empty(), times.take(k)) == (Seq::new(k as nat, |i: int| true), times.take(k)),
    decreases k,
{
    if k == 0 {
        assert(Seq::new(0, |i: int| true) =~= Seq::<bool>::empty());
        assert(times.take(0) =~= Seq::<u64>::empty());
    } else {
        lemma_replay_accepts(times, k - 1);
        let w = times.take(k - 1);
        let now = times[k - 1];
        assert(times.take(k).drop_last() =~= w);
        assert forall|i: int| 0 <= i < w.len() implies in_window(#[trigger] w[i], now) by {
            assert(w[i] == times[i]);
            assert(times[0] <= times[i]);
        }
        lemma_recent_keeps_all(w, now);
        assert(w.push(now) =~= times.take(k));
        assert(Seq::new((k - 1) as nat, |i: int| true).push(true) =~= Seq::new(k as nat, |i: int| true));
    }
}

/// After a gap of a full window since the last recorded use, a use is
/// accepted and starts a fresh window.
pub proof fn lemma_rate_limit_resets(w: Seq<u64>, last: u64, now: u64)
    requires
        forall|i: int| 0 <= i < w.len() ==> #[trigger] w[i] <= last,
        now >= last + RATE_WINDOW_MS,
    ensures
        rate_step(w, now) == (true, seq![now]),
{
    lemma_recent_keeps_none(w, now);
    assert(Seq::<u64>::empty().push(now) =~= seq![now]);
}

/// The number of live processes after the events `es`, from `start`.
pub open spec fn active_after(start: int, es: Seq<GuardEvent>) -> int
    decreases es.len(),
{
    if es.len() == 0 {
        start
    } else {
        guard_step(active_after(start, es.drop_last()), es.last())
    }
}

pub open spec fn acquisitions(es: Seq<GuardEvent>) -> int
    decreases es.len(),
{
    if es.len() == 0 {
        0
    } else {
        acquisitions(es.drop_last()) + if es.last() is Acquire { 1int } else { 0int }
    }
}

pub open spec fn releases(es: Seq<GuardEvent>) -> int
    decreases es.len(),
{
    if es.len() == 0 {
        0
    } else {
        releases(es.drop_last()) + if es.last() is Release { 1int } else { 0int }
    }
}

proof fn lemma_active_after_counts(start: int, es: Seq<GuardEvent>)
    ensures
        active_after(start, es) == start + acquisitions(es) - releases(es),
    decreases es.len(),
{
    if es.len() > 0 {
        lemma_active_after_counts(start, es.drop_last());
    }
}

/// Acquisitions and releases of process slots balance: whatever their
/// interleaving, as many releases as acquisitions bring the number of live
/// processes back to where it started.
pub proof fn lemma_guards_balance(start: int, es: Seq<GuardEvent>)
    requires
        acquisitions(es) == releases(es),
    ensures
        active_after(start, es) == start,
{
    lemma_active_after_counts(start, es);
}

/// How a command run under a deadline ended.
pub enum RunOutcome {
    /// It finished, with this many bytes of standard output.
    Finished(usize),
    /// It could not be started or waited for; the text says why.
    Failed(String),
    /// The deadline passed first.
    TimedOut,
}

/// The verdict on a command run under a deadline: a finished run passes when
/// its output is within the ceiling; a failed one is an execution error; a
/// timeout is a resource-limit error.
pub fn monitored_verdict(outcome: RunOutcome, config: &Config) -> (r: ShellResult<()>)
    ensures
        match outcome {
            RunOutcome::Finished(n) => (r is Ok <==> n <= config.limits.max_memory_mb * 1048576)
                && (r is Err ==> fails_with(
                r,
                err_of(ErrorKind::ResourceLimitExceeded, "Output too large"@),
            )),
            RunOutcome::Failed(m) => fails_with(r, err_of(ErrorKind::CommandExecution, m@)),
            RunOutcome::TimedOut => fails_with(
                r,
                err_of(ErrorKind::ResourceLimitExceeded, "Command execution timeout"@),
            ),
        },
{
    match outcome {
        RunOutcome::Finished(n) => check_output_size(n, config),
        RunOutcome::Failed(m) => Err(ShellError::CommandExecution(m)),
        RunOutcome::TimedOut => Err(
            ShellError::Security(
                SecurityError::ResourceLimitExceeded("Command execution timeout".to_owned()),
            ),
        ),
    }
}

/// While no more slots have been given back than taken, the number of live
/// processes never falls below where it started.
pub proof fn lemma_guards_never_below_start(start: int, es: Seq<GuardEvent>)
    requires
        forall|n: int| 0 <= n <= es.len() ==> releases(#[trigger] es.take(n)) <= acquisitions(es.take(n)),
    ensures
        forall|n: int| 0 <= n <= es.len() ==> active_after(start, #[trigger] es.take(n)) >= start,
{
    assert forall|n: int| 0 <= n <= es.len() implies active_after(start, #[trigger] es.take(n)) >= start by {
        lemma_active_after_counts(start, es.take(n));
    }
}

struct RateEntry {
    key: String,
    stamps: Vec<u64>,
}

struct StatsEntry {
    name: String,
    stats: CommandStats,
}

spec fn rate_keys_unique(es: Seq<RateEntry>) -> bool {
    forall|i: int, j: int| 0 <= i < j < es.len() ==> es[i].key@ != es[j].key@
}

spec fn stats_keys_unique(es: Seq<StatsEntry>) -> bool {
    forall|i: int, j: int| 0 <= i < j < es.len() ==> es[i].name@ != es[j].name@
}

spec fn rate_window(es: Seq<RateEntry>, key: Seq<char>) -> Seq<u64> {
    if exists|i: int| 0 <= i < es.len() && es[i].key@ == key {
        es[choose|i: int| 0 <= i < es.len() && es[i].key@ == key].stamps@
    } else {
        Seq::empty()
    }
}

spec fn stats_entry(es: Seq<StatsEntry>, name: Seq<char>) -> Option<CommandStats> {
    if exists|i: int| 0 <= i < es.len() && es[i].name@ == name {
        Some(es[choose|i: int| 0 <= i < es.len() && es[i].name@ == name].stats)
    } else {
        None
    }
}

proof fn lemma_rate_window_at(es: Seq<RateEntry>, i: int, key: Seq<char>)
    requires
        rate_keys_unique(es),
        0 <= i < es.len(),
        es[i].key@ == key,
    ensures
        rate_window(es, key) == es[i].stamps@,
{
    let j = choose|j: int| 0 <= j < es.len() && es[j].key@ == key;
    if j < i {
        assert(es[j].key@ != es[i].key@);
    } else if i < j {
        assert(es[i].key@ != es[j].key@);
    }
}

proof fn lemma_stats_entry_at(es: Seq<StatsEntry>, i: int, name: Seq<char>)
    requires
        stats_keys_unique(es),
        0 <= i < es.len(),
        es[i].name@ == name,
    ensures
        stats_entry(es, name) == Some(es[i].stats),
{
    let j = choose|j: int| 0 <= j < es.len() && es[j].name@ == name;
    if j < i {
        assert(es[j].name@ != es[i].name@);
    } else if i < j {
        assert(es[i].name@ != es[j].name@);
    }
}

/// Replacing the stamps of entry `i` leaves the window of every other key.
proof fn lemma_rate_window_other(
    es: Seq<RateEntry>,
    es2: Seq<RateEntry>,
    i: int,
    key: Seq<char>,
    other: Seq<char>,
)
    requires
        rate_keys_unique(es),
        rate_keys_unique(es2),
        es.len() == es2.len(),
        0 <= i < es.len(),
        es[i].key@ == key,
        es2[i].key@ == key,
        forall|j: int| 0 <= j < es.len() && j != i ==> es2[j] == es[j],
        other != key,
    ensures
        rate_window(es2, other) == rate_window(es, other),
{
    if exists|j: int| 0 <= j < es.len() && es[j].key@ == other {
        let j = choose|j: int| 0 <= j < es.len() && es[j].key@ == other;
        lemma_rate_window_at(es, j, other);
        lemma_rate_window_at(es2, j, other);
    } else {
        assert forall|j: int| 0 <= j < es2.len() implies es2[j].key@ != other by {
            if j != i {
                assert(es2[j] == es[j]);
            }
        }
    }
}

proof fn lemma_stats_entry_other(
    es: Seq<StatsEntry>,
    es2: Seq<StatsEntry>,
    i: int,
    name: Seq<char>,
    other: Seq<char>,
)
    requires
        stats_keys_unique(es),
        stats_keys_unique(es2),
        es.len() == es2.len(),
        0 <= i < es.len(),
        es[i].name@ == name,
        es2[i].name@ == name,
        forall|j: int| 0 <= j < es.len() && j != i ==> es2[j] == es[j],
        other != name,
    ensures
        stats_entry(es2, other) == stats_entry(es, other),
{
    if exists|j: int| 0 <= j < es.len() && es[j].name@ == other {
        let j = choose|j: int| 0 <= j < es.len() && es[j].name@ == other;
        lemma_stats_entry_at(es, j, other);
        lemma_stats_entry_at(es2, j, other);
    } else {
        assert forall|j: int| 0 <= j < es2.len() implies es2[j].name@ != other by {
            if j != i {
                assert(es2[j] == es[j]);
            }
        }
    }
}

/// Index of the entry of `key`, if there is one.
fn find_rate(es: &Vec<RateEntry>, key: &String) -> (r: Option<usize>)
    ensures
        match r {
            Some(i) => i < es@.len() && es@[i as int].key@ == key@,
            None => forall|j: int| 0 <= j < es@.len() ==> es@[j].key@ != key@,
        },
{
    let mut i: usize = 0;
    while i < es.len()
        invariant
            i <= es@.len(),
            forall|j: int| 0 <= j < i ==> es@[j].key@ != key@,
        decreases es@.len() - i,
    {
        if es[i].key == *key {
            return Some(i);
        }
        i += 1;
    }
    None
}

/// Index of the entry of `name`, if there is one.
fn find_stats(es: &Vec<StatsEntry>, name: &String) -> (r: Option<usize>)
    ensures
        match r {
            Some(i) => i < es@.len() && es@[i as int].name@ == name@,
            None => forall|j: int| 0 <= j < es@.len() ==> es@[j].name@ != name@,
        },
{
    let mut i: usize = 0;
    while i < es.len()
        invariant
            i <= es@.len(),
            forall|j: int| 0 <= j < i ==> es@[j].name@ != name@,
        decreases es@.len() - i,
    {
        if es[i].name == *name {
            return Some(i);
        }
        i += 1;
    }
    None
}

/// The uses of `w` that still count at `now`.
fn prune(w: &Vec<u64>, now: u64) -> (r: Vec<u64>)
    ensures
        r@ == recent(w@, now),
{
    let mut r: Vec<u64> = Vec::new();
    let mut i: usize = 0;
    proof {
        reveal(Seq::filter);
        assert(w@.take(0) =~= Seq::<u64>::empty());
    }
    while i < w.len()
        invariant
            i <= w@.len(),
            r@ == recent(w@.take(i as int), now),
        decreases w@.len() - i,
    {
        let t = w[i];
        proof {
            reveal(Seq::filter);
            assert(w@.take(i + 1).drop_last() =~= w@.take(i as int));
            assert(w@.take(i + 1).last() == t);
        }
        if now < t || now - t < RATE_WINDOW_MS {
            r.push(t);
        }
        i += 1;
    }
    assert(w@.take(w@.len() as int) =~= w@);
    r
}

/// Live state of the security policy: the number of live processes, the
/// rate limiter's recorded uses per key, and per-command figures.
pub struct SecurityManager {
    active_processes: usize,
    command_history: Vec<StatsEntry>,
    rate_limiter: Vec<RateEntry>,
    origin: Instant,
}

/// A slot of the live-process budget, taken by `register_process`.
///
/// Dropping it gives nothing back: every guard must be handed to
/// `release_process` on every path out of the code that took it, which is
/// what keeps the live-process count exact.
pub struct ProcessGuard {
    slot: (),
}

impl SecurityManager {
    /// The number of live processes.
    pub closed spec fn active(&self) -> int {
        self.active_processes as int
    }

    /// The uses of `key` that the rate limiter holds.
    pub closed spec fn window(&self, key: Seq<char>) -> Seq<u64> {
        rate_window(self.rate_limiter@, key)
    }

    /// The figures recorded for the command `name`.
    pub closed spec fn stats(&self, name: Seq<char>) -> Option<CommandStats> {
        stats_entry(self.command_history@, name)
    }

    pub closed spec fn wf(&self) -> bool {
        rate_keys_unique(self.rate_limiter@) && stats_keys_unique(self.command_history@)
    }

    /// A manager with no live process and nothing recorded.
    pub fn new() -> (r: SecurityManager)
        ensures
            r.wf(),
            r.active() == 0,
            forall|k: Seq<char>| #[trigger] r.window(k) == Seq::<u64>::empty(),
            forall|k: Seq<char>| #[trigger] r.stats(k) == None::<CommandStats>,
    {
        SecurityManager {
            active_processes: 0,
            command_history: Vec::new(),
            rate_limiter: Vec::new(),
            origin: clock_start(),
        }
    }

    /// The number of live processes.
    pub fn active_processes(&self) -> (r: usize)
        ensures
            r == self.active(),
    {
        self.active_processes
    }

    /// Fails when the number of live processes has reached the configured ceiling.
    pub fn can_start_process(&self, config: &Config) -> (r: ShellResult<()>)
        ensures
            r is Ok <==> self.active() < config.limits.max_background_processes,
            r is Err ==> fails_with(
                r,
                err_of(ErrorKind::ResourceLimitExceeded, "Maximum background processes reached"@),
            ),
    {
        if self.active_processes >= config.limits.max_background_processes {
            return Err(
                ShellError::Security(
                    SecurityError::ResourceLimitExceeded(
                        "Maximum background processes reached".to_owned(),
                    ),
                ),
            );
        }
        Ok(())
    }

    /// Takes a slot of the live-process budget; the guard must be given back
    /// with [`Self::release_process`].
    #[must_use]
    pub fn register_process(&mut self) -> (g: ProcessGuard)
        requires
            old(self).active() < usize::MAX,
        ensures
            final(self).active() == guard_step(old(self).active(), GuardEvent::Acquire),
            final(self).wf() == old(self).wf(),
            forall|k: Seq<char>| #[trigger] final(self).window(k) == old(self).window(k),
            forall|k: Seq<char>| #[trigger] final(self).stats(k) == old(self).stats(k),
    {
        self.active_processes = self.active_processes + 1;
        ProcessGuard { slot: () }
    }

    /// Gives back the slot `guard`.
    pub fn release_process(&mut self, guard: ProcessGuard)
        requires
            old(self).active() > 0,
        ensures
            final(self).active() == guard_step(old(self).active(), GuardEvent::Release),
            final(self).wf() == old(self).wf(),
            forall|k: Seq<char>| #[trigger] final(self).window(k) == old(self).window(k),
            forall|k: Seq<char>| #[trigger] final(self).stats(k) == old(self).stats(k),
    {
        let ProcessGuard { slot: _ } = guard;
        self.active_processes = self.active_processes - 1;
    }

    /// Milliseconds since this manager was made.
    pub fn now_millis(&self) -> u64 {
        micros_of(elapsed_since(&self.origin)) / 1000
    }

    /// The rate limiter on a use of `key` at time `now` (milliseconds since
    /// the manager was made): uses older than the window are dropped, and the
    /// use is accepted and recorded when fewer than [`RATE_LIMIT`] remain.
    pub fn check_rate_limit_at(&mut self, key: &str, now: u64) -> (r: ShellResult<()>)
        requires
            old(self).wf(),
        ensures
            final(self).wf(),
            (r is Ok, final(self).window(key@)) == rate_step(old(self).window(key@), now),
            r is Err ==> fails_with(
                r,
                err_of(ErrorKind::ResourceLimitExceeded, "Rate limit exceeded"@),
            ),
            forall|k: Seq<char>| k != key@ ==> #[trigger] final(self).window(k) == old(self).window(k),
            forall|k: Seq<char>| #[trigger] final(self).stats(k) == old(self).stats(k),
            final(self).active() == old(self).active(),
    {
        let owned = key.to_owned();
        let ghost es0 = self.rate_limiter@;
        let i = match find_rate(&self.rate_limiter, &owned) {
            Some(i) => {
                proof {
                    lemma_rate_window_at(es0, i as int, key@);
                }
                i
            },
            None => {
                self.rate_limiter.push(RateEntry { key: key.to_owned(), stamps: Vec::new() });
                proof {
                    let es = self.rate_limiter@;
                    assert(es.drop_last() == es0);
                    lemma_rate_window_at(es, es.len() - 1, key@);
                    assert forall|k: Seq<char>| k != key@ implies #[trigger] rate_window(es, k)
                        == rate_window(es0, k) by {
                        if exists|j: int| 0 <= j < es0.len() && es0[j].key@ == k {
                            let j = choose|j: int| 0 <= j < es0.len() && es0[j].key@ == k;
                            lemma_rate_window_at(es0, j, k);
                            lemma_rate_window_at(es, j, k);
                        } else {
                            assert forall|j: int| 0 <= j < es.len() implies es[j].key@ != k by {
                                if j < es0.len() {
                                    assert(es[j] == es0[j]);
                                }
                            }
                        }
                    }
                }
                self.rate_limiter.len() - 1
            },
        };
        let ghost es1 = self.rate_limiter@;
        assert(self.window(key@) == old(self).window(key@));
        let mut kept = prune(&self.rate_limiter[i].stamps, now);
        let accepted = kept.len() < RATE_LIMIT;
        if accepted {
            kept.push(now);
        }
        self.rate_limiter.set(i, RateEntry { key: owned, stamps: kept });
        proof {
            let es2 = self.rate_limiter@;
            assert forall|a: int, b: int| 0 <= a < b < es2.len() implies es2[a].key@
                != es2[b].key@ by {
                assert(es1[a].key@ != es1[b].key@);
            }
            lemma_rate_window_at(es2, i as int, key@);
            assert forall|k: Seq<char>| k != key@ implies #[trigger] rate_window(es2, k)
                == rate_window(es1, k) by {
                lemma_rate_window_other(es1, es2, i as int, key@, k);
            }
        }
        if accepted {
            Ok(())
        } else {
            Err(ShellError::Security(SecurityError::ResourceLimitExceeded("Rate limit exceeded".to_owned())))
        }
    }

    /// The rate limiter on a use of `key` now; see [`Self::check_rate_limit_at`].
    pub fn check_rate_limit(&mut self, key: &str, _config: &Config) -> (r: ShellResult<()>)
        requires
            old(self).wf(),
        ensures
            final(self).wf(),
            exists|now: u64|
                (r is Ok, final(self).window(key@)) == rate_step(old(self).window(key@), now),
            r is Err ==> fails_with(
                r,
                err_of(ErrorKind::ResourceLimitExceeded, "Rate limit exceeded"@),
            ),
            forall|k: Seq<char>| k != key@ ==> #[trigger] final(self).window(k) == old(self).window(k),
            forall|k: Seq<char>| #[trigger] final(self).stats(k) == old(self).stats(k),
            final(self).active() == old(self).active(),
    {
        let now = self.now_millis();
        self.check_rate_limit_at(key, now)
    }

    /// Records one execution of `command` that took `duration` microseconds,
    /// at time `now` (milliseconds since the manager was made).
    pub fn record_command_at(&mut self, command: &str, duration: u64, now: u64)
        requires
            old(self).wf(),
        ensures
            final(self).wf(),
            final(self).stats(command@) == Some(next_stats(old(self).stats(command@), duration, now)),
            forall|k: Seq<char>| k != command@ ==> #[trigger] final(self).stats(k) == old(self).stats(k),
            forall|k: Seq<char>| #[trigger] final(self).window(k) == old(self).window(k),
            final(self).active() == old(self).active(),
    {
        let owned = command.to_owned();
        let ghost es0 = self.command_history@;
        match find_stats(&self.command_history, &owned) {
            Some(i) => {
                proof {
                    lemma_stats_entry_at(es0, i as int, command@);
                }
                let old_stats = self.command_history[i].stats;
                let count = if old_stats.count < usize::MAX { old_stats.count + 1 } else { usize::MAX };
                let total = if old_stats.total_time <= u64::MAX - duration {
                    old_stats.total_time + duration
                } else {
                    u64::MAX
                };
                let stats = CommandStats { count, last_execution: now, total_time: total };
                self.command_history.set(i, StatsEntry { name: owned, stats });
                proof {
                    let es2 = self.command_history@;
                    assert forall|a: int, b: int| 0 <= a < b < es2.len() implies es2[a].name@
                        != es2[b].name@ by {
                        assert(es0[a].name@ != es0[b].name@);
                    }
                    lemma_stats_entry_at(es2, i as int, command@);
                    assert forall|k: Seq<char>| k != command@ implies #[trigger] stats_entry(es2, k)
                        == stats_entry(es0, k) by {
                        lemma_stats_entry_other(es0, es2, i as int, command@, k);
                    }
                }
            },
            None => {
                let stats = CommandStats { count: 1, last_execution: now, total_time: duration };
                self.command_history.push(StatsEntry { name: owned, stats });
                proof {
                    let es = self.command_history@;
                    assert(es.drop_last() == es0);
                    lemma_stats_entry_at(es, es.len() - 1, command@);
                    assert forall|k: Seq<char>| k != command@ implies #[trigger] stats_entry(es, k)
                        == stats_entry(es0, k) by {
                        if exists|j: int| 0 <= j < es0.len() && es0[j].name@ == k {
                            let j = choose|j: int| 0 <= j < es0.len() && es0[j].name@ == k;
                            lemma_stats_entry_at(es0, j, k);
                            lemma_stats_entry_at(es, j, k);
                        } else {
                            assert forall|j: int| 0 <= j < es.len() implies es[j].name@ != k by {
                                if j < es0.len() {
                                    assert(es[j] == es0[j]);
                                }
                            }
                        }
                    }
                }
            },
        }
    }

    /// Records one execution of `command` that took `execution_time`, now.
    pub fn record_command(&mut self, command: &str, execution_time: Duration)
        requires
            old(self).wf(),
        ensures
            final(self).wf(),
            exists|micros: u64, now: u64|
                final(self).stats(command@) == Some(
                    #[trigger] next_stats(old(self).stats(command@), micros, now),
                ),
            forall|k: Seq<char>| k != command@ ==> #[trigger] final(self).stats(k) == old(self).stats(k),
            forall|k: Seq<char>| #[trigger] final(self).window(k) == old(self).window(k),
            final(self).active() == old(self).active(),
    {
        let duration = micros_of(execution_time);
        let now = self.now_millis();
        self.record_command_at(command, duration, now);
    }

    /// Screens a raw input line: no NUL character, at most 10000 bytes, and
    /// none of [`refused_fragments`].
    pub fn validate_input(&self, input: &str) -> (r: ShellResult<()>)
        ensures
            input@.contains('\0') ==> fails_with(
                r,
                err_of(ErrorKind::InvalidInput, "Null bytes not allowed"@),
            ),
            !input@.contains('\0') && input.len() > 10000 ==> fails_with(
                r,
                err_of(ErrorKind::InvalidInput, "Input too long"@),
            ),
            !input@.contains('\0') && input.len() <= 10000 && r is Err ==> exists|k: int|
                first_infix(input@, refused_fragments(), k) && fails_with(
                    r,
                    err_of(
                        ErrorKind::InvalidInput,
                        "Suspicious pattern detected: "@ + #[trigger] refused_fragments()[k],
                    ),
                ),
            r is Ok <==> (!input@.contains('\0') && input.len() <= 10000 && forall|k: int|
                0 <= k < refused_fragments().len() ==> !has_infix(
                    input@,
                    #[trigger] refused_fragments()[k],
                )),
    {
        let cs = chars_of(input);
        if contains_char(&cs, '\0') {
            return Err(ShellError::Security(SecurityError::InvalidInput("Null bytes not allowed".to_owned())));
        }
        if input.len() > 10000 {
            return Err(ShellError::Security(SecurityError::InvalidInput("Input too long".to_owned())));
        }
        let frags = refused_fragment_list();
        let mut k: usize = 0;
        while k < frags.len()
            invariant
                k <= frags@.len(),
                cs@ == input@,
                !input@.contains('\0'),
                input.len() <= 10000,
                texts(frags) == refused_fragments(),
                forall|j: int| 0 <= j < k ==> !has_infix(input@, #[trigger] refused_fragments()[j]),
            decreases frags@.len() - k,
        {
            let f = chars_of(frags[k].as_str());
            assert(f@ == refused_fragments()[k as int]);
            if contains_infix(&cs, &f) {
                let mut m = "Suspicious pattern detected: ".to_owned();
                m.append(frags[k].as_str());
                assert(first_infix(input@, refused_fragments(), k as int));
                return Err(ShellError::Security(SecurityError::InvalidInput(m)));
            }
            k += 1;
        }
        Ok(())
    }

    /// The figures recorded for `command`.
    pub fn command_stats(&self, command: &str) -> (r: Option<CommandStats>)
        requires
            self.wf(),
        ensures
            r == self.stats(command@),
    {
        let owned = command.to_owned();
        match find_stats(&self.command_history, &owned) {
            Some(i) => {
                proof {
                    lemma_stats_entry_at(self.command_history@, i as int, command@);
                }
                Some(self.command_history[i].stats)
            },
            None => None,
        }
    }
}

} // verus!
