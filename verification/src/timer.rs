//! The tick scheduler: a fixed-interval timer on the monotonic clock, and the
//! game timer that derives per-subsystem sub-tick flags from modular counters.
use vstd::prelude::*;

verus! {

/// The default tick interval in nanoseconds: sixty frames per second.
pub const TICK_INTERVAL_NANOS: u64 = 1_000_000_000 / 60;

/// The default number of ticks between gravity events (about 200 ms per row
/// at sixty ticks per second).
pub const INITIAL_GRAVITY_TICKS: u64 = 12;

/// The default number of ticks between input samplings.
pub const INPUT_TICKS: u64 = 1;

/// A game tick; each flag says whether the corresponding subsystem should
/// fire on that tick.
#[derive(Debug, Copy, Clone, PartialEq, Eq, Structural)]
pub struct Tick {
    pub gravity: bool,
    pub input: bool,
}

impl Default for Tick {
    /// A tick with no subsystem scheduled.
    fn default() -> (r: Self)
        ensures
            !r.gravity,
            !r.input,
    {
        Tick { gravity: false, input: false }
    }
}

/// Declares std's monotonic clock reading so a value of it can be held and
/// passed through; Verus sees nothing inside it.
#[verifier::external_type_specification]
#[verifier::external_body]
pub struct ExInstant(std::time::Instant);

/// Relies on std::time::Instant::now: an opaque reading of the monotonic
/// clock. Nothing is assumed of the value.
#[verifier::external_body]
fn instant_now() -> (r: std::time::Instant) {
    std::time::Instant::now()
}

/// Relies on std::time::Instant::elapsed and Duration::as_nanos: the
/// nanoseconds the monotonic clock has advanced since `origin`, clamped to
/// the u64 range. Nothing is assumed of the value, which depends on the time
/// of the call.
#[verifier::external_body]
fn nanos_since(origin: &std::time::Instant) -> (r: u64) {
    let nanos = origin.elapsed().as_nanos();
    u64::try_from(nanos).unwrap_or(u64::MAX)
}

/// Addition clamped at the top of the u64 range.
pub open spec fn sat_add(a: int, b: int) -> int {
    if a + b <= u64::MAX {
        a + b
    } else {
        u64::MAX as int
    }
}

/// The elapsed time one update observes: a reading older than the last one
/// counts as no progress.
pub open spec fn spec_delta(t: IntervalTimer, now: u64) -> int {
    if now >= t.last_update {
        now - t.last_update
    } else {
        0
    }
}

/// The interval timer as one update at clock reading `now` leaves it: the
/// observed time is accumulated, whole intervals are drained, and the
/// fractional remainder is preserved.
pub open spec fn spec_stepped_timer(pre: IntervalTimer, now: u64) -> IntervalTimer {
    let t = pre.tick_interval as int;
    let gathered = sat_add(pre.time_since_last_tick as int, spec_delta(pre, now));
    IntervalTimer {
        origin: pre.origin,
        tick_interval: pre.tick_interval,
        last_update: now,
        time_since_last_tick: (gathered % t) as u64,
        next_tick_at: sat_add(now as int, t - gathered % t) as u64,
    }
}

/// Whether one update at clock reading `now` drains at least one interval.
pub open spec fn spec_step_ticked(pre: IntervalTimer, now: u64) -> bool {
    sat_add(pre.time_since_last_tick as int, spec_delta(pre, now)) >= pre.tick_interval
}

/// How one update at clock reading `now` steps an interval timer.
pub open spec fn spec_interval_step(
    pre: IntervalTimer,
    now: u64,
    post: IntervalTimer,
    ticked: bool,
) -> bool {
    &&& post == spec_stepped_timer(pre, now)
    &&& ticked == spec_step_ticked(pre, now)
}

/// Ticks at a fixed interval measured on the monotonic clock. The timer must
/// be updated in a loop; each update accumulates the time elapsed since the
/// previous one and drains whole intervals, so fractional progress is never
/// lost. All times are nanoseconds from the timer's creation.
pub struct IntervalTimer {
    /// The clock reading all times are measured from.
    pub origin: std::time::Instant,
    /// The interval between ticks, in nanoseconds; always positive.
    pub tick_interval: u64,
    /// The reading at which the timer was last updated.
    pub last_update: u64,
    /// The accumulated time since the last tick; always below the interval.
    pub time_since_last_tick: u64,
    /// The reading at which the next tick is expected.
    pub next_tick_at: u64,
}

impl IntervalTimer {
    /// A positive interval keeps draining meaningful; the accumulator holds
    /// less than one interval, and the next tick is due within one interval
    /// of the last update.
    pub open spec fn wf(&self) -> bool {
        &&& self.tick_interval >= 1
        &&& self.time_since_last_tick < self.tick_interval
        &&& self.last_update <= self.next_tick_at
        &&& self.next_tick_at - self.last_update <= self.tick_interval
    }

    /// A timer that starts ticking immediately; `tick_interval` is in
    /// nanoseconds. A zero interval would never stop draining, so it is
    /// excluded.
    pub fn new(tick_interval: u64) -> (r: Self)
        requires
            tick_interval >= 1,
        ensures
            r.wf(),
            r.tick_interval == tick_interval,
            r.last_update == 0,
            r.time_since_last_tick == 0,
            r.next_tick_at == tick_interval,
    {
        IntervalTimer {
            origin: instant_now(),
            tick_interval,
            last_update: 0,
            time_since_last_tick: 0,
            next_tick_at: tick_interval,
        }
    }

    /// The current clock, in nanoseconds from the timer's creation.
    fn read_clock(&self) -> u64 {
        nanos_since(&self.origin)
    }

    /// Steps the timer to the clock reading `now`; true iff at least one full
    /// interval has accumulated.
    pub fn update_at(&mut self, now: u64) -> (ticked: bool)
        requires
            old(self).wf(),
        ensures
            final(self).wf(),
            spec_interval_step(*old(self), now, *final(self), ticked),
    {
        let delta = if now >= self.last_update {
            now - self.last_update
        } else {
            0
        };
        self.last_update = now;
        let gathered = if delta > u64::MAX - self.time_since_last_tick {
            u64::MAX
        } else {
            self.time_since_last_tick + delta
        };
        let ticked = gathered >= self.tick_interval;
        self.time_since_last_tick = gathered % self.tick_interval;
        let slack = self.tick_interval - self.time_since_last_tick;
        self.next_tick_at = if slack > u64::MAX - now {
            u64::MAX
        } else {
            now + slack
        };
        proof {
            assert(*self == spec_stepped_timer(*old(self), now));
        }
        ticked
    }

    /// Reads the clock and steps the timer; true iff it ticked.
    pub fn update(&mut self) -> (ticked: bool)
        requires
            old(self).wf(),
        ensures
            final(self).wf(),
            exists|now: u64| #[trigger] spec_interval_step(*old(self), now, *final(self), ticked),
    {
        let now = self.read_clock();
        self.update_at(now)
    }
}

/// One update's accounting: as long as the timer is polled at least once per
/// interval, `ticks * interval + accumulator` keeps equalling the time since
/// `start`.
pub proof fn lemma_interval_cadence(
    pre: IntervalTimer,
    now: u64,
    post: IntervalTimer,
    ticked: bool,
    ticks: int,
    start: int,
)
    requires
        pre.wf(),
        pre.tick_interval <= u64::MAX / 2,
        spec_interval_step(pre, now, post, ticked),
        pre.last_update <= now,
        now - pre.last_update <= pre.tick_interval,
        ticks >= 0,
        start <= pre.last_update,
        ticks * pre.tick_interval + pre.time_since_last_tick == pre.last_update - start,
    ensures
        (if ticked {
            ticks + 1
        } else {
            ticks
        }) * pre.tick_interval + post.time_since_last_tick == now - start,
        post.time_since_last_tick < post.tick_interval,
{
    let t = pre.tick_interval as int;
    let gathered = pre.time_since_last_tick + (now - pre.last_update);
    assert(gathered <= 2 * t - 1);
    assert(sat_add(pre.time_since_last_tick as int, spec_delta(pre, now)) == gathered);
    if ticked {
        assert(gathered % t == gathered - t) by (nonlinear_arith)
            requires
                t >= 1,
                t <= gathered < 2 * t,
        ;
        assert((ticks + 1) * t == ticks * t + t) by (nonlinear_arith);
    } else {
        assert(gathered % t == gathered) by (nonlinear_arith)
            requires
                t >= 1,
                0 <= gathered < t,
        ;
    }
}

/// The interval timer after one update at each clock reading of `reads`, in
/// order.
pub open spec fn spec_run_timer(t: IntervalTimer, reads: Seq<u64>) -> IntervalTimer
    decreases reads.len(),
{
    if reads.len() == 0 {
        t
    } else {
        spec_stepped_timer(spec_run_timer(t, reads.drop_last()), reads.last())
    }
}

/// How many of the updates of a run tick.
pub open spec fn spec_run_tick_count(t: IntervalTimer, reads: Seq<u64>) -> nat
    decreases reads.len(),
{
    if reads.len() == 0 {
        0
    } else {
        spec_run_tick_count(t, reads.drop_last()) + (if spec_step_ticked(
            spec_run_timer(t, reads.drop_last()),
            reads.last(),
        ) {
            1nat
        } else {
            0nat
        })
    }
}

/// A run that polls the timer at least once per interval: readings never move
/// backwards and consecutive readings are at most one interval apart.
pub open spec fn spec_polled_each_interval(t: IntervalTimer, reads: Seq<u64>) -> bool {
    forall|i: int|
        0 <= i < reads.len() ==> {
            let prev = if i == 0 {
                t.last_update
            } else {
                reads[i - 1]
            };
            prev <= #[trigger] reads[i] && reads[i] - prev <= t.tick_interval
        }
}

/// Law (run form): across any run that polls the timer at least once per
/// interval, the emitted ticks account exactly for the elapsed time:
/// `ticks * interval + accumulator` equals the time since the run began.
pub proof fn lemma_interval_run_cadence(t: IntervalTimer, reads: Seq<u64>)
    requires
        t.wf(),
        t.tick_interval <= u64::MAX / 2,
        spec_polled_each_interval(t, reads),
    ensures
        spec_run_timer(t, reads).wf(),
        spec_run_timer(t, reads).tick_interval == t.tick_interval,
        spec_run_timer(t, reads).last_update == (if reads.len() == 0 {
            t.last_update as int
        } else {
            reads.last() as int
        }),
        t.last_update <= spec_run_timer(t, reads).last_update,
        spec_run_tick_count(t, reads) * t.tick_interval + spec_run_timer(
            t,
            reads,
        ).time_since_last_tick == spec_run_timer(t, reads).last_update - t.last_update
            + t.time_since_last_tick,
    decreases reads.len(),
{
    if reads.len() > 0 {
        let dl = reads.drop_last();
        assert forall|i: int|
            0 <= i < dl.len() implies ({
            let prev = if i == 0 {
                t.last_update
            } else {
                dl[i - 1]
            };
            prev <= #[trigger] dl[i] && dl[i] - prev <= t.tick_interval
        }) by {
            assert(dl[i] == reads[i]);
            if i > 0 {
                assert(dl[i - 1] == reads[i - 1]);
            }
        }
        lemma_interval_run_cadence(t, dl);
        let pre = spec_run_timer(t, dl);
        let now = reads.last();
        let last = reads.len() - 1;
        assert({
            let prev = if last == 0 {
                t.last_update
            } else {
                reads[last - 1]
            };
            prev <= reads[last] && reads[last] - prev <= t.tick_interval
        });
        if last > 0 {
            assert(dl.last() == reads[last - 1]);
        }
        assert(pre.last_update <= now && now - pre.last_update <= t.tick_interval);
        let post = spec_run_timer(t, reads);
        let ticked = spec_step_ticked(pre, now);
        let ticks = spec_run_tick_count(t, dl) as int;
        lemma_interval_cadence(
            pre,
            now,
            post,
            ticked,
            ticks,
            t.last_update - t.time_since_last_tick,
        );
        let start = t.last_update - t.time_since_last_tick;
        assert((if ticked {
            ticks + 1
        } else {
            ticks
        }) * pre.tick_interval + post.time_since_last_tick == now - start);
        let cnt = spec_run_tick_count(t, reads) as int;
        assert(cnt == if ticked {
            ticks + 1
        } else {
            ticks
        });
        assert(cnt * t.tick_interval == (if ticked {
            ticks + 1
        } else {
            ticks
        }) * pre.tick_interval);
        assert(cnt * t.tick_interval + post.time_since_last_tick == post.last_update
            - t.last_update + t.time_since_last_tick);
    } else {
        assert(spec_run_timer(t, reads) == t);
        assert(spec_run_tick_count(t, reads) == 0);
    }
}

/// Law: a timer with an empty accumulator, polled at least once per interval
/// across an elapsed time of exactly `n` intervals, ticks exactly `n` times.
pub proof fn lemma_n_intervals_give_n_ticks(t: IntervalTimer, reads: Seq<u64>, n: nat)
    requires
        t.wf(),
        t.time_since_last_tick == 0,
        t.tick_interval <= u64::MAX / 2,
        spec_polled_each_interval(t, reads),
        reads.len() > 0,
        reads.last() - t.last_update == n * t.tick_interval,
    ensures
        spec_run_tick_count(t, reads) == n,
{
    lemma_interval_run_cadence(t, reads);
    let tt = t.tick_interval as int;
    let k = spec_run_tick_count(t, reads) as int;
    let acc = spec_run_timer(t, reads).time_since_last_tick as int;
    assert(k * tt + acc == n * tt);
    assert(k == n) by (nonlinear_arith)
        requires
            k * tt + acc == (n as int) * tt,
            0 <= acc < tt,
            tt >= 1,
            k >= 0,
            n >= 0,
    ;
}

/// Whether `d` divides `x`, with zero dividing only zero; matches how a
/// modular counter decides that a subsystem fires.
pub open spec fn spec_divides(d: u64, x: u64) -> bool {
    if d == 0 {
        x == 0
    } else {
        x % d == 0
    }
}

/// Whether `d` divides `x`.
fn divides(d: u64, x: u64) -> (r: bool)
    ensures
        r == spec_divides(d, x),
{
    if d == 0 {
        x == 0
    } else {
        x % d == 0
    }
}

/// The counter after one tick, wrapping at the top of the u64 range.
pub open spec fn spec_wrap_inc(c: u64) -> u64 {
    if c == u64::MAX {
        0
    } else {
        (c + 1) as u64
    }
}

/// How many of the ticks numbered `1..=k` a subsystem with period `g` fires
/// on.
pub open spec fn spec_fire_count(g: u64, k: u64) -> nat
    decreases k,
{
    if k == 0 {
        0
    } else {
        spec_fire_count(g, (k - 1) as u64) + if spec_divides(g, k) {
            1nat
        } else {
            0nat
        }
    }
}

/// Law: over `k` ticks, a subsystem with period `g` fires exactly `k / g`
/// times.
pub proof fn lemma_fire_count_exact(g: u64, k: u64)
    requires
        g >= 1,
    ensures
        spec_fire_count(g, k) == k as nat / g as nat,
    decreases k,
{
    if k > 0 {
        lemma_fire_count_exact(g, (k - 1) as u64);
        assert(k as int / g as int == (k - 1) as int / g as int + if k as int % g as int == 0 {
            1int
        } else {
            0int
        }) by (nonlinear_arith)
            requires
                g >= 1,
                k >= 1,
        ;
        assert(k as nat / g as nat == k as int / g as int);
    }
}

/// The game timer as one update at clock reading `now` leaves it: the tick
/// counter advances exactly when the interval timer ticks.
pub open spec fn spec_stepped_game_timer(pre: GameTimer, now: u64) -> GameTimer {
    GameTimer {
        interval_timer: spec_stepped_timer(pre.interval_timer, now),
        tick_count: if spec_step_ticked(pre.interval_timer, now) {
            spec_wrap_inc(pre.tick_count)
        } else {
            pre.tick_count
        },
        ..pre
    }
}

/// The tick one update at clock reading `now` produces, if any: its flags are
/// set from the modular counters at the advanced tick count.
pub open spec fn spec_game_step_result(pre: GameTimer, now: u64) -> Option<Tick> {
    if spec_step_ticked(pre.interval_timer, now) {
        Some(
            Tick {
                gravity: spec_divides(pre.gravity_ticks, spec_wrap_inc(pre.tick_count)),
                input: spec_divides(pre.input_ticks, spec_wrap_inc(pre.tick_count)),
            },
        )
    } else {
        None
    }
}

/// How one update at clock reading `now` steps a game timer.
pub open spec fn spec_game_step(pre: GameTimer, now: u64, post: GameTimer, r: Option<Tick>) -> bool {
    &&& post == spec_stepped_game_timer(pre, now)
    &&& r == spec_game_step_result(pre, now)
}

/// Ticks at a constant rate and reports, for each tick, which subsystems
/// fire on it. Must be updated in a loop to accumulate progress.
pub struct GameTimer {
    pub interval_timer: IntervalTimer,
    /// The number of ticks between gravity events.
    pub gravity_ticks: u64,
    /// The number of ticks between input samplings.
    pub input_ticks: u64,
    /// The total number of ticks elapsed, wrapping at the numeric limit.
    pub tick_count: u64,
}

impl GameTimer {
    pub open spec fn wf(&self) -> bool {
        self.interval_timer.wf()
    }

    /// A timer that ticks every `tick_interval` nanoseconds, fires gravity
    /// every `gravity_ticks` ticks and samples input every `input_ticks`
    /// ticks; its first tick is due one interval after construction.
    pub fn new(tick_interval: u64, gravity_ticks: u64, input_ticks: u64) -> (r: Self)
        requires
            tick_interval >= 1,
        ensures
            r.wf(),
            r.interval_timer.tick_interval == tick_interval,
            r.interval_timer.last_update == 0,
            r.interval_timer.time_since_last_tick == 0,
            r.interval_timer.next_tick_at == tick_interval,
            r.gravity_ticks == gravity_ticks,
            r.input_ticks == input_ticks,
            r.tick_count == 0,
    {
        GameTimer {
            interval_timer: IntervalTimer::new(tick_interval),
            gravity_ticks,
            input_ticks,
            tick_count: 0,
        }
    }

    /// Sets the number of ticks between gravity events, for live difficulty
    /// changes.
    pub fn set_gravity_ticks(&mut self, ticks: u64)
        ensures
            *final(self) == (GameTimer { gravity_ticks: ticks, ..*old(self) }),
    {
        self.gravity_ticks = ticks;
    }

    /// Steps the timer to the clock reading `now`. Returns `None` while less
    /// than one interval has accumulated, and otherwise the tick's flags.
    pub fn update_at(&mut self, now: u64) -> (r: Option<Tick>)
        requires
            old(self).wf(),
        ensures
            final(self).wf(),
            spec_game_step(*old(self), now, *final(self), r),
    {
        let ticked = self.interval_timer.update_at(now);
        if !ticked {
            proof {
                assert(*self == spec_stepped_game_timer(*old(self), now));
            }
            return None;
        }
        self.tick_count = if self.tick_count == u64::MAX {
            0
        } else {
            self.tick_count + 1
        };
        proof {
            assert(*self == spec_stepped_game_timer(*old(self), now));
        }
        Some(
            Tick {
                gravity: divides(self.gravity_ticks, self.tick_count),
                input: divides(self.input_ticks, self.tick_count),
            },
        )
    }

    /// Reads the clock and steps the timer.
    pub fn update(&mut self) -> (r: Option<Tick>)
        requires
            old(self).wf(),
        ensures
            final(self).wf(),
            exists|now: u64| #[trigger] spec_game_step(*old(self), now, *final(self), r),
    {
        let now = self.interval_timer.read_clock();
        self.update_at(now)
    }

    /// The remaining time until the next tick at clock reading `now`: the
    /// saturating difference, and at most one interval behind any reading
    /// that has not run backwards, so a host may sleep for this long without
    /// missing a tick.
    pub fn time_until_next_tick_at(&self, now: u64) -> (r: u64)
        requires
            self.wf(),
        ensures
            r == (if self.interval_timer.next_tick_at >= now {
                self.interval_timer.next_tick_at - now
            } else {
                0
            }),
            now >= self.interval_timer.last_update ==> r <= self.interval_timer.tick_interval,
    {
        if self.interval_timer.next_tick_at >= now {
            self.interval_timer.next_tick_at - now
        } else {
            0
        }
    }

    /// Reads the clock and returns the remaining time until the next tick, in
    /// nanoseconds.
    pub fn time_until_next_tick(&self) -> (r: u64)
        requires
            self.wf(),
        ensures
            r <= self.interval_timer.next_tick_at,
    {
        let now = self.interval_timer.read_clock();
        self.time_until_next_tick_at(now)
    }
}

/// The game timer after one update at each clock reading of `reads`, in
/// order.
pub open spec fn spec_run_game_timer(g: GameTimer, reads: Seq<u64>) -> GameTimer
    decreases reads.len(),
{
    if reads.len() == 0 {
        g
    } else {
        spec_stepped_game_timer(spec_run_game_timer(g, reads.drop_last()), reads.last())
    }
}

/// The ticks a run produces, in order.
pub open spec fn spec_run_game_ticks(g: GameTimer, reads: Seq<u64>) -> Seq<Tick>
    decreases reads.len(),
{
    if reads.len() == 0 {
        Seq::empty()
    } else {
        spec_run_game_ticks(g, reads.drop_last()) + (match spec_game_step_result(
            spec_run_game_timer(g, reads.drop_last()),
            reads.last(),
        ) {
            Some(tick) => seq![tick],
            None => Seq::<Tick>::empty(),
        })
    }
}

/// How many ticks of a sequence have their gravity flag set.
pub open spec fn spec_count_gravity(s: Seq<Tick>) -> nat
    decreases s.len(),
{
    if s.len() == 0 {
        0
    } else {
        spec_count_gravity(s.drop_last()) + (if s.last().gravity {
            1nat
        } else {
            0nat
        })
    }
}

/// How many ticks of a sequence have their input flag set.
pub open spec fn spec_count_input(s: Seq<Tick>) -> nat
    decreases s.len(),
{
    if s.len() == 0 {
        0
    } else {
        spec_count_input(s.drop_last()) + (if s.last().input {
            1nat
        } else {
            0nat
        })
    }
}

/// Law (run form): starting from a fresh tick counter, the i-th tick of any
/// run carries the flags of the modular counters at i, so over the run's K
/// ticks each subsystem fires once per period.
pub proof fn lemma_run_subtick_counts(g: GameTimer, reads: Seq<u64>)
    requires
        g.tick_count == 0,
        reads.len() <= u64::MAX,
    ensures
        spec_run_game_ticks(g, reads).len() <= reads.len(),
        spec_run_game_timer(g, reads).tick_count == spec_run_game_ticks(g, reads).len(),
        spec_run_game_timer(g, reads).gravity_ticks == g.gravity_ticks,
        spec_run_game_timer(g, reads).input_ticks == g.input_ticks,
        forall|i: int|
            0 <= i < spec_run_game_ticks(g, reads).len() ==> (#[trigger] spec_run_game_ticks(
                g,
                reads,
            )[i]).gravity == spec_divides(g.gravity_ticks, (i + 1) as u64)
                && spec_run_game_ticks(g, reads)[i].input == spec_divides(
                g.input_ticks,
                (i + 1) as u64,
            ),
        spec_count_gravity(spec_run_game_ticks(g, reads)) == spec_fire_count(
            g.gravity_ticks,
            spec_run_game_ticks(g, reads).len() as u64,
        ),
        spec_count_input(spec_run_game_ticks(g, reads)) == spec_fire_count(
            g.input_ticks,
            spec_run_game_ticks(g, reads).len() as u64,
        ),
    decreases reads.len(),
{
    if reads.len() > 0 {
        let dl = reads.drop_last();
        lemma_run_subtick_counts(g, dl);
        let pre = spec_run_game_timer(g, dl);
        let prev = spec_run_game_ticks(g, dl);
        let ticks = spec_run_game_ticks(g, reads);
        if spec_step_ticked(pre.interval_timer, reads.last()) {
            assert(pre.tick_count < u64::MAX);
            assert(spec_wrap_inc(pre.tick_count) == pre.tick_count + 1);
            let tick = spec_game_step_result(pre, reads.last()).unwrap();
            assert(ticks =~= prev.push(tick));
            assert(tick.gravity == spec_divides(g.gravity_ticks, (prev.len() + 1) as u64));
            assert(tick.input == spec_divides(g.input_ticks, (prev.len() + 1) as u64));
            assert forall|i: int|
                0 <= i < ticks.len() implies (#[trigger] ticks[i]).gravity == spec_divides(
                g.gravity_ticks,
                (i + 1) as u64,
            ) && ticks[i].input == spec_divides(g.input_ticks, (i + 1) as u64) by {
                if i < prev.len() {
                    assert(ticks[i] == prev[i]);
                } else {
                    assert(ticks[i] == tick);
                }
            }
            assert(ticks.drop_last() =~= prev);
            assert(ticks.last() == tick);
            assert(spec_fire_count(g.gravity_ticks, ticks.len() as u64) == spec_fire_count(
                g.gravity_ticks,
                prev.len() as u64,
            ) + (if spec_divides(g.gravity_ticks, ticks.len() as u64) {
                1nat
            } else {
                0nat
            }));
        } else {
            assert(ticks =~= prev);
        }
    }
}

/// Law: over the K ticks of a run from a fresh counter, gravity fires exactly
/// floor(K / gravity_ticks) times and input exactly floor(K / input_ticks)
/// times.
pub proof fn lemma_run_subtick_shares(g: GameTimer, reads: Seq<u64>)
    requires
        g.tick_count == 0,
        reads.len() <= u64::MAX,
        g.gravity_ticks >= 1,
        g.input_ticks >= 1,
    ensures
        spec_count_gravity(spec_run_game_ticks(g, reads)) == spec_run_game_ticks(g, reads).len()
            / g.gravity_ticks as nat,
        spec_count_input(spec_run_game_ticks(g, reads)) == spec_run_game_ticks(g, reads).len()
            / g.input_ticks as nat,
{
    lemma_run_subtick_counts(g, reads);
    let ticks = spec_run_game_ticks(g, reads);
    lemma_fire_count_exact(g.gravity_ticks, ticks.len() as u64);
    lemma_fire_count_exact(g.input_ticks, ticks.len() as u64);
}

} // verus!
