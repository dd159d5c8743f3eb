use resource_ring::delay::{draw_start_delays, start_times};
use resource_ring::model::{Config, NO_LIMIT, TIME_UNIT_MS};
use resource_ring::resource::ResourceState;
use resource_ring::ring::{first_resource, right_resource, second_resource};
use resource_ring::simulation::{SetupError, Simulation, Tick};
use resource_ring::trace::{audit, Event, EventKind};
use resource_ring::worker::Phase;

fn config(limit: u64) -> Config {
    Config { use_ms: 1000, pause_ms: 1000, cycle_limit: limit }
}

fn acquired(time: u64, worker: usize, resource: usize) -> Event {
    Event { time, worker, resource, kind: EventKind::Acquired }
}

fn released(time: u64, worker: usize, resource: usize) -> Event {
    Event { time, worker, resource, kind: EventKind::Released }
}

/// The number of resources held by two workers at once, or by a worker that
/// is not its sharer, read off the workers' own states.
fn double_holds(sim: &Simulation) -> usize {
    let n = sim.size();
    let mut count = 0;
    for resource in 0..n {
        let mut holders = 0;
        for i in 0..n {
            let worker = sim.worker(i).unwrap();
            let holds = (worker.holds_first && first_resource(i, n) == resource)
                || (worker.holds_second && second_resource(i, n) == resource);
            if holds {
                holders += 1;
            }
        }
        let held = sim.resource_state(resource) == Some(ResourceState::Held);
        if holders > 1 || (holders == 1) != held {
            count += 1;
        }
    }
    count
}

/// The number of times that two holds of one resource overlap in the trace,
/// going by the recorded times and the order of the events.
fn overlaps(log: &Vec<Event>, n: usize) -> usize {
    let mut count = 0;
    for resource in 0..n {
        let mut holder: Option<(usize, u64)> = None;
        let mut last_release = 0;
        for event in log.iter().filter(|event| event.resource == resource) {
            match (event.kind, holder) {
                (EventKind::Acquired, None) => {
                    if event.time < last_release {
                        count += 1;
                    }
                    holder = Some((event.worker, event.time));
                }
                (EventKind::Released, Some((worker, since))) => {
                    if worker != event.worker || event.time < since {
                        count += 1;
                    }
                    last_release = event.time;
                    holder = None;
                }
                _ => count += 1,
            }
        }
    }
    count
}

fn total_holds(sim: &Simulation) -> usize {
    let mut holds = 0;
    for i in 0..sim.size() {
        let worker = sim.worker(i).unwrap();
        holds += worker.holds_first as usize + worker.holds_second as usize;
    }
    holds
}

#[test]
fn ring_of_fewer_than_two_is_refused() {
    assert_eq!(Simulation::new(config(1), vec![]).err(), Some(SetupError::RingTooSmall));
    assert_eq!(Simulation::new(config(1), vec![0]).err(), Some(SetupError::RingTooSmall));
    let no_use = Config { use_ms: 0, pause_ms: 0, cycle_limit: 1 };
    assert_eq!(Simulation::new(no_use, vec![0]).err(), Some(SetupError::RingTooSmall));
    assert!(Simulation::new(config(1), vec![0, 0]).is_ok());
}

#[test]
fn use_time_of_zero_is_refused() {
    let no_use = Config { use_ms: 0, pause_ms: 1000, cycle_limit: 1 };
    assert_eq!(Simulation::new(no_use, vec![0, 0]).err(), Some(SetupError::NoUseTime));
    let no_pause = Config { use_ms: 1, pause_ms: 0, cycle_limit: 1 };
    assert!(Simulation::new(no_pause, vec![0, 0, 0]).is_ok());
}

#[test]
fn default_config_is_one_time_unit_and_no_limit() {
    let config = Config::default();
    assert_eq!(config, Config { use_ms: 1000, pause_ms: 1000, cycle_limit: u64::MAX });
    assert_eq!(TIME_UNIT_MS, 1000);
    assert_eq!(NO_LIMIT, u64::MAX);
}

#[test]
fn new_ring_is_all_available_and_idle() {
    let sim = Simulation::new(config(3), vec![5, 0, 7, 1, 2]).unwrap();
    assert_eq!(sim.size(), 5);
    assert_eq!(sim.clock(), 0);
    assert_eq!(sim.config(), config(3));
    assert!(!sim.stop_requested());
    assert!(sim.log().is_empty());
    assert_eq!(sim.held_count(), 0);
    assert!(!sim.is_finished());
    for i in 0..5 {
        assert_eq!(sim.resource_state(i), Some(ResourceState::Available));
        let worker = sim.worker(i).unwrap();
        assert_eq!(worker.index, i);
        assert_eq!(worker.ring_size, 5);
        assert_eq!(worker.cycle_limit, 3);
        assert_eq!(worker.phase, Phase::Idle);
        assert_eq!(worker.cycles, 0);
    }
    assert_eq!(sim.resource_state(5), None);
    assert_eq!(sim.worker(5), None);
    assert!(sim.is_runnable(1));
    assert!(!sim.is_runnable(0));
    assert!(!sim.is_runnable(5));
    assert_eq!(sim.pick_runnable(), Some(1));
    assert_eq!(sim.next_wake(), Some(1));
}

#[test]
fn five_workers_ten_cycles_each() {
    let mut sim = Simulation::new(config(10), vec![0, 0, 0, 0, 0]).unwrap();
    sim.run_to_completion();
    assert!(sim.is_finished());
    for i in 0..5 {
        let worker = sim.worker(i).unwrap();
        assert_eq!(worker.cycles, 10);
        assert_eq!(worker.phase, Phase::Stopped);
        assert_eq!(sim.resource_state(i), Some(ResourceState::Available));
    }
    assert!(sim.reached_total(50));
    assert!(!sim.reached_total(51));
    assert_eq!(sim.log().len(), 200);
    assert_eq!(audit(sim.log(), 5), None);
    assert_eq!(overlaps(sim.log(), 5), 0);
    assert_eq!(double_holds(&sim), 0);
    assert_eq!(sim.held_count(), 0);
    assert!(!sim.stop_requested());
    assert!(sim.clock() <= 50 * 3000);
    assert_eq!(sim.tick(), Tick::Finished);
}

#[test]
fn run_ends_within_its_time_budget() {
    let pacing = Config { use_ms: 40, pause_ms: 250, cycle_limit: 7 };
    let starts = vec![900, 10, 0, 333, 5, 77];
    let mut sim = Simulation::new(pacing, starts).unwrap();
    sim.run_to_completion();
    assert_eq!(sim.log().len(), 4 * 6 * 7);
    assert!(sim.clock() <= 900 + 250 * (4 * 6 * 7));
    let mut sim = Simulation::new(pacing, vec![0, 0, 0]).unwrap();
    sim.advance_clock(5000);
    sim.run_until_total(9);
    assert!(sim.clock() <= 5000 + 250 * sim.log().len() as u64);
}

#[test]
fn stress_run_with_random_start_delays() {
    let delays = draw_start_delays(5);
    let starts = start_times(&delays);
    let last_start = starts[4];
    let mut sim = Simulation::new(Config::default(), starts).unwrap();
    sim.run_for(60_000);
    assert!(sim.is_finished());
    assert!(sim.stop_requested());
    assert!(sim.clock() >= 60_000);
    assert!(sim.clock() <= last_start + 1000 * sim.log().len() as u64);
    assert_eq!(audit(sim.log(), 5), None);
    assert_eq!(overlaps(sim.log(), 5), 0);
    assert_eq!(double_holds(&sim), 0);
    assert_eq!(sim.held_count(), 0);
    let mut total = 0;
    for i in 0..5 {
        let worker = sim.worker(i).unwrap();
        assert_eq!(worker.phase, Phase::Stopped);
        assert!(worker.cycles >= 1);
        total += worker.cycles;
        assert_eq!(sim.resource_state(i), Some(ResourceState::Available));
    }
    assert_eq!(sim.log().len() as u64, 4 * total);
}

#[test]
fn stress_run_keeps_invariants_at_every_instant() {
    let starts = start_times(&draw_start_delays(5));
    let mut sim = Simulation::new(Config::default(), starts).unwrap();
    while sim.clock() < 60_000 {
        let tick = sim.tick();
        assert_ne!(tick, Tick::Finished);
        assert_eq!(double_holds(&sim), 0);
        assert!(sim.held_count() <= 5);
        assert_eq!(sim.held_count(), total_holds(&sim));
    }
    assert_eq!(audit(sim.log(), 5), None);
}

#[test]
fn minimal_ring_runs_without_deadlock() {
    let mut sim = Simulation::new(config(10), vec![0, 0]).unwrap();
    sim.run_to_completion();
    assert!(sim.is_finished());
    assert_eq!(sim.worker(0).unwrap().cycles, 10);
    assert_eq!(sim.worker(1).unwrap().cycles, 10);
    assert_eq!(sim.log().len(), 80);
    assert_eq!(audit(sim.log(), 2), None);
    assert_eq!(overlaps(sim.log(), 2), 0);
    assert_eq!(sim.resource_state(0), Some(ResourceState::Available));
    assert_eq!(sim.resource_state(1), Some(ResourceState::Available));
}

#[test]
fn minimal_ring_keeps_mutual_exclusion_at_every_step() {
    let mut sim = Simulation::new(config(4), vec![0, 300]).unwrap();
    loop {
        let tick = sim.tick();
        assert_eq!(double_holds(&sim), 0);
        let both_using = sim.worker(0).unwrap().phase == Phase::Using
            && sim.worker(1).unwrap().phase == Phase::Using;
        assert!(!both_using);
        if tick == Tick::Finished {
            break;
        }
    }
    assert_eq!(sim.worker(0).unwrap().cycles, 4);
    assert_eq!(sim.worker(1).unwrap().cycles, 4);
}

#[test]
fn minimal_ring_trace_is_exact() {
    let mut sim = Simulation::new(config(2), vec![0, 0]).unwrap();
    sim.run_to_completion();
    let expected = vec![
        acquired(0, 0, 1),
        acquired(0, 0, 0),
        released(1000, 0, 1),
        acquired(1000, 1, 1),
        released(2000, 0, 0),
        acquired(2000, 1, 0),
        released(3000, 1, 1),
        acquired(3000, 0, 1),
        released(4000, 1, 0),
        acquired(4000, 0, 0),
        released(5000, 0, 1),
        acquired(5000, 1, 1),
        released(6000, 0, 0),
        acquired(6000, 1, 0),
        released(7000, 1, 1),
        released(8000, 1, 0),
    ];
    assert_eq!(sim.log(), &expected);
    assert_eq!(sim.clock(), 9000);
}

#[test]
fn scheduler_moves_lowest_runnable_worker_then_sleeps() {
    let mut sim = Simulation::new(config(1), vec![0, 0]).unwrap();
    assert_eq!(sim.tick(), Tick::Stepped { worker: 0 });
    assert_eq!(sim.worker(0).unwrap().phase, Phase::AcquiringFirst);
    assert_eq!(sim.tick(), Tick::Stepped { worker: 0 });
    assert_eq!(sim.worker(0).unwrap().phase, Phase::AcquiringSecond);
    assert_eq!(sim.resource_state(1), Some(ResourceState::Held));
    assert_eq!(sim.tick(), Tick::Stepped { worker: 0 });
    assert_eq!(sim.worker(0).unwrap().phase, Phase::Using);
    assert_eq!(sim.held_count(), 2);
    assert!(!sim.is_runnable(0));
    assert_eq!(sim.tick(), Tick::Stepped { worker: 1 });
    assert_eq!(sim.worker(1).unwrap().phase, Phase::AcquiringFirst);
    assert!(!sim.is_runnable(1));
    assert_eq!(sim.pick_runnable(), None);
    assert_eq!(sim.next_wake(), Some(1000));
    assert_eq!(sim.tick(), Tick::Slept { until: 1000 });
    assert_eq!(sim.clock(), 1000);
    assert_eq!(sim.tick(), Tick::Stepped { worker: 0 });
    assert_eq!(sim.worker(0).unwrap().phase, Phase::Releasing);
    assert_eq!(sim.worker(0).unwrap().cycles, 1);
}

#[test]
fn use_time_and_pause_set_the_wake_up() {
    let pacing = Config { use_ms: 70, pause_ms: 9, cycle_limit: 1 };
    let mut sim = Simulation::new(pacing, vec![4, 1_000_000]).unwrap();
    assert_eq!(sim.tick(), Tick::Slept { until: 4 });
    assert_eq!(sim.tick(), Tick::Stepped { worker: 0 });
    assert_eq!(sim.tick(), Tick::Stepped { worker: 0 });
    assert_eq!(sim.tick(), Tick::Stepped { worker: 0 });
    assert_eq!(sim.tick(), Tick::Slept { until: 74 });
    assert_eq!(sim.tick(), Tick::Stepped { worker: 0 });
    assert_eq!(sim.tick(), Tick::Stepped { worker: 0 });
    assert_eq!(sim.tick(), Tick::Slept { until: 83 });
    assert_eq!(sim.tick(), Tick::Stepped { worker: 0 });
    assert_eq!(sim.worker(0).unwrap().phase, Phase::Idle);
    assert_eq!(sim.tick(), Tick::Slept { until: 92 });
    assert_eq!(sim.tick(), Tick::Stepped { worker: 0 });
    assert_eq!(sim.worker(0).unwrap().phase, Phase::Stopped);
    assert_eq!(sim.tick(), Tick::Slept { until: 1_000_000 });
    assert_eq!(
        sim.log(),
        &vec![acquired(4, 0, 1), acquired(4, 0, 0), released(74, 0, 1), released(83, 0, 0)]
    );
}

#[test]
fn wake_up_stops_at_the_last_instant() {
    let pacing = Config { use_ms: 1000, pause_ms: 1000, cycle_limit: 1 };
    let mut sim = Simulation::new(pacing, vec![u64::MAX - 10, u64::MAX - 10]).unwrap();
    sim.run_to_completion();
    assert!(sim.is_finished());
    assert_eq!(sim.clock(), u64::MAX);
    assert_eq!(sim.worker(0).unwrap().cycles, 1);
    assert_eq!(sim.worker(1).unwrap().cycles, 1);
    assert_eq!(audit(sim.log(), 2), None);
}

#[test]
fn step_changes_nothing_unless_runnable() {
    let mut sim = Simulation::new(config(1), vec![0, 50, 0]).unwrap();
    assert!(!sim.step(3));
    assert!(!sim.step(1));
    assert_eq!(sim.worker(1).unwrap().phase, Phase::Idle);
    assert!(sim.step(0));
    assert!(sim.step(0));
    assert_eq!(sim.log(), &vec![acquired(0, 0, 1)]);
    sim.advance_clock(50);
    assert!(sim.step(1));
    assert_eq!(sim.worker(1).unwrap().phase, Phase::AcquiringFirst);
    let before = sim.worker(1).unwrap();
    assert!(!sim.step(1));
    assert!(!sim.step(1));
    assert_eq!(sim.worker(1).unwrap(), before);
    assert_eq!(sim.log().len(), 1);
    assert_eq!(sim.held_count(), 1);
}

#[test]
fn clock_never_moves_back() {
    let mut sim = Simulation::new(config(1), vec![0, 0]).unwrap();
    sim.advance_clock(500);
    assert_eq!(sim.clock(), 500);
    sim.advance_clock(100);
    assert_eq!(sim.clock(), 500);
    sim.advance_clock(500);
    assert_eq!(sim.clock(), 500);
    sim.advance_clock(501);
    assert_eq!(sim.clock(), 501);
}

#[test]
fn stop_flag_ends_the_run_at_the_top_of_the_loop() {
    let mut sim = Simulation::new(Config::default(), vec![0, 0, 0, 0, 0]).unwrap();
    sim.request_stop();
    assert!(sim.stop_requested());
    sim.run_to_completion();
    assert!(sim.is_finished());
    assert!(sim.log().is_empty());
    assert_eq!(sim.clock(), 0);
    for i in 0..5 {
        assert_eq!(sim.worker(i).unwrap().cycles, 0);
    }
}

#[test]
fn cycle_under_way_is_completed_after_stop() {
    let mut sim = Simulation::new(Config::default(), vec![0, 0, 0, 0, 0]).unwrap();
    assert!(sim.step(0));
    assert!(sim.step(1));
    assert!(sim.step(2));
    assert!(sim.step(2));
    sim.request_stop();
    sim.run_to_completion();
    assert!(sim.is_finished());
    assert_eq!(sim.worker(0).unwrap().cycles, 1);
    assert_eq!(sim.worker(1).unwrap().cycles, 1);
    assert_eq!(sim.worker(2).unwrap().cycles, 1);
    assert_eq!(sim.worker(3).unwrap().cycles, 0);
    assert_eq!(sim.worker(4).unwrap().cycles, 0);
    assert_eq!(sim.log().len(), 12);
    assert_eq!(audit(sim.log(), 5), None);
}

#[test]
fn fifty_cycles_in_total_then_everybody_stops() {
    let mut sim = Simulation::new(Config::default(), vec![0, 0, 0, 0, 0]).unwrap();
    sim.run_until_total(50);
    assert!(sim.is_finished());
    assert!(sim.stop_requested());
    assert!(sim.reached_total(50));
    assert!(!sim.reached_total(56));
    assert_eq!(audit(sim.log(), 5), None);
    assert_eq!(overlaps(sim.log(), 5), 0);
    let mut total = 0;
    for i in 0..5 {
        total += sim.worker(i).unwrap().cycles;
        assert_eq!(sim.worker(i).unwrap().phase, Phase::Stopped);
    }
    assert!(50 <= total && total <= 55);
    assert_eq!(sim.log().len() as u64, 4 * total);
}

#[test]
fn total_of_zero_stops_at_once() {
    let mut sim = Simulation::new(Config::default(), vec![0, 0, 0]).unwrap();
    assert!(sim.reached_total(0));
    assert!(!sim.reached_total(1));
    sim.run_until_total(0);
    assert!(sim.is_finished());
    assert!(sim.log().is_empty());
}

#[test]
fn run_until_total_ends_early_at_the_cycle_limit() {
    let mut sim = Simulation::new(config(2), vec![0, 0, 0]).unwrap();
    sim.run_until_total(100);
    assert!(sim.is_finished());
    assert!(sim.reached_total(6));
    assert!(!sim.reached_total(7));
    for i in 0..3 {
        assert_eq!(sim.worker(i).unwrap().cycles, 2);
    }
}

#[test]
fn run_for_ends_early_at_the_cycle_limit() {
    let mut sim = Simulation::new(config(1), vec![0, 0]).unwrap();
    sim.run_for(1_000_000);
    assert!(sim.is_finished());
    assert!(sim.clock() < 1_000_000);
    assert_eq!(sim.worker(0).unwrap().cycles, 1);
    assert_eq!(sim.worker(1).unwrap().cycles, 1);
}

#[test]
fn run_for_no_time_completes_no_cycle() {
    let mut sim = Simulation::new(Config::default(), vec![0, 0, 0, 0, 0]).unwrap();
    sim.run_for(0);
    assert!(sim.is_finished());
    assert!(sim.log().is_empty());
}

#[test]
fn everybody_reaching_at_once_does_not_deadlock() {
    for n in 2..8usize {
        let mut sim = Simulation::new(config(3), vec![0; n]).unwrap();
        for i in 0..n {
            assert!(sim.step(i));
        }
        for i in 0..n {
            sim.step(i);
        }
        assert_eq!(double_holds(&sim), 0);
        assert!(sim.pick_runnable().is_some());
        sim.run_to_completion();
        for i in 0..n {
            assert_eq!(sim.worker(i).unwrap().cycles, 3);
        }
        assert_eq!(audit(sim.log(), n), None);
    }
}

#[test]
fn adversarial_schedules_keep_the_invariants() {
    let mut seed: u64 = 0x2545_f491_4f6c_dd1d;
    for n in 2..7usize {
        let quick = Config { use_ms: 3, pause_ms: 0, cycle_limit: 1_000_000 };
        let mut sim = Simulation::new(quick, vec![0; n]).unwrap();
        for round in 0..4000u64 {
            seed = seed.wrapping_mul(6364136223846793005).wrapping_add(1442695040888963407);
            let worker = (seed >> 33) as usize % n;
            sim.step(worker);
            if round % 7 == 0 {
                sim.advance_clock(round / 7);
            }
            assert_eq!(double_holds(&sim), 0);
            assert!(sim.held_count() <= n);
            assert_eq!(sim.held_count(), total_holds(&sim));
            for i in 0..n {
                let here = sim.worker(i).unwrap().phase;
                let next = sim.worker(right_resource(i, n)).unwrap().phase;
                assert!(!(here == Phase::Using && next == Phase::Using));
            }
            assert!(sim.pick_runnable().is_some() || sim.next_wake().is_some());
        }
        assert_eq!(audit(sim.log(), n), None);
        assert_eq!(overlaps(sim.log(), n), 0);
        sim.request_stop();
        sim.run_to_completion();
        assert!(sim.is_finished());
        assert_eq!(audit(sim.log(), n), None);
    }
}

#[test]
fn recorded_acquisitions_follow_parity() {
    let mut sim = Simulation::new(config(5), vec![0, 10, 20, 30, 40]).unwrap();
    sim.run_to_completion();
    for worker in 0..5usize {
        let taken: Vec<usize> = sim
            .log()
            .iter()
            .filter(|event| event.worker == worker && event.kind == EventKind::Acquired)
            .map(|event| event.resource)
            .collect();
        assert_eq!(taken.len(), 10);
        let left = worker;
        let right = (worker + 1) % 5;
        for pair in taken.chunks(2) {
            if worker % 2 == 1 {
                assert_eq!(pair, &[left, right]);
            } else {
                assert_eq!(pair, &[right, left]);
            }
        }
    }
}

#[test]
fn resource_states_alternate_along_the_trace() {
    let mut sim = Simulation::new(config(6), vec![0, 0, 0, 0, 0]).unwrap();
    sim.run_to_completion();
    for resource in 0..5usize {
        let kinds: Vec<EventKind> = sim
            .log()
            .iter()
            .filter(|event| event.resource == resource)
            .map(|event| event.kind)
            .collect();
        assert_eq!(kinds.len(), 24);
        for (position, kind) in kinds.iter().enumerate() {
            if position % 2 == 0 {
                assert_eq!(*kind, EventKind::Acquired);
            } else {
                assert_eq!(*kind, EventKind::Released);
            }
        }
    }
}

#[test]
fn staggered_start_follows_the_start_times() {
    let mut sim = Simulation::new(config(1), vec![100, 300, 600]).unwrap();
    assert_eq!(sim.pick_runnable(), None);
    assert_eq!(sim.tick(), Tick::Slept { until: 100 });
    assert_eq!(sim.tick(), Tick::Stepped { worker: 0 });
    assert!(!sim.is_runnable(1));
    assert!(!sim.is_runnable(2));
    sim.run_to_completion();
    let first_of_each: Vec<u64> = (0..3usize)
        .map(|worker| sim.log().iter().find(|event| event.worker == worker).unwrap().time)
        .collect();
    assert_eq!(first_of_each[0], 100);
    assert!(first_of_each[1] >= 300);
    assert!(first_of_each[2] >= 600);
}
