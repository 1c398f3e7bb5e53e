use tetrust::timer::{GameTimer, IntervalTimer, Tick};

#[test]
fn interval_timer_ticks_once_per_elapsed_interval() {
    let mut timer = IntervalTimer::new(100);
    assert!(!timer.update_at(50));
    assert!(timer.update_at(100));
    assert!(!timer.update_at(150));
    assert!(timer.update_at(250));
}

#[test]
fn interval_timer_preserves_fractional_progress() {
    let mut timer = IntervalTimer::new(100);
    // 70 + 60 crosses one interval, with 30 left towards the next.
    assert!(!timer.update_at(70));
    assert!(timer.update_at(130));
    assert!(timer.update_at(200));
    assert!(!timer.update_at(260));
    assert!(timer.update_at(300));
}

#[test]
fn n_intervals_of_real_time_produce_n_ticks() {
    let interval: u64 = 100;
    let n: u64 = 25;
    let mut timer = GameTimer::new(interval, 1, 1);
    let mut ticks: u64 = 0;
    // Poll twice per interval across a span of n intervals.
    let mut now: u64 = 0;
    while now <= n * interval {
        if timer.update_at(now).is_some() {
            ticks += 1;
        }
        now += interval / 2;
    }
    assert_eq!(n, ticks);
}

#[test]
fn subtick_flags_follow_their_periods() {
    let gravity_period: u64 = 3;
    let input_period: u64 = 2;
    let k: u64 = 12;
    let mut timer = GameTimer::new(10, gravity_period, input_period);
    let mut gravity_count: u64 = 0;
    let mut input_count: u64 = 0;
    for step in 1..=k {
        let tick = timer.update_at(step * 10).expect("each step spans one interval");
        if tick.gravity {
            gravity_count += 1;
        }
        if tick.input {
            input_count += 1;
        }
    }
    assert_eq!(k / gravity_period, gravity_count);
    assert_eq!(k / input_period, input_count);
}

#[test]
fn gravity_period_can_change_live() {
    let mut timer = GameTimer::new(10, 100, 1);
    let first = timer.update_at(10).unwrap();
    assert!(!first.gravity);
    assert!(first.input);

    timer.set_gravity_ticks(1);
    let second = timer.update_at(20).unwrap();
    assert!(second.gravity);
}

#[test]
fn remaining_time_counts_down_to_the_next_tick() {
    let mut timer = GameTimer::new(100, 1, 1);
    // A fresh timer is due one interval after construction.
    assert_eq!(100, timer.time_until_next_tick_at(0));
    assert!(timer.update_at(100).is_some());
    // The next tick is due at 200.
    assert_eq!(50, timer.time_until_next_tick_at(150));
    assert_eq!(0, timer.time_until_next_tick_at(250));
}

#[test]
fn default_tick_schedules_nothing() {
    let tick = Tick::default();
    assert!(!tick.gravity);
    assert!(!tick.input);
}

#[test]
fn real_clock_drives_the_timer() {
    // With a one-nanosecond interval the very next clock reading ticks.
    let mut timer = GameTimer::new(1, 1, 1);
    let mut ticked = false;
    for _ in 0..1000 {
        if timer.update().is_some() {
            ticked = true;
            break;
        }
    }
    assert!(ticked, "the monotonic clock never advanced");
    let _ = timer.time_until_next_tick();
}

#[test]
fn stale_clock_readings_count_as_no_progress() {
    let mut timer = IntervalTimer::new(100);
    assert!(timer.update_at(100));
    // A reading older than the last one must not tick or panic.
    assert!(!timer.update_at(40));
    assert!(timer.update_at(140));
}
