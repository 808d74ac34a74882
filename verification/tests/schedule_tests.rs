use rand::rngs::StdRng;
use rand::{Rng, SeedableRng};
use simulated_annealing::schedule::{step, Action, Event, Phase, TRIALS_PER_SWEEP};
use simulated_annealing::tour::{edges, identity_tour, is_valid_tour, swap_positions};

/// Squared distance from the target 5.0.
fn toy_energy(state: f64) -> f64 {
    (state - 5.0).powi(2)
}

/// Anneals the toy problem from 0.0 under the schedule, with every draw
/// taken from `rng`. Returns the final state, the final temperature and
/// the actions in order.
fn anneal_toy(rng: &mut StdRng, initial_temperature: f64, cooling_rate: f64) -> (f64, f64, Vec<Action>) {
    let mut temperature = initial_temperature;
    let mut current = 0.0;
    let mut candidate = 0.0;
    let mut trace = Vec::new();
    let mut phase = Phase::start();
    loop {
        let event = match phase {
            Phase::Gauge => Event::Temperature { above_threshold: temperature > 0.001 },
            Phase::Compare { .. } => {
                candidate = current + rng.gen_range(-1.0..1.0);
                Event::Energies { improves: toy_energy(candidate) < toy_energy(current) }
            }
            Phase::Draw { .. } => {
                let bar = f64::exp((toy_energy(current) - toy_energy(candidate)) / temperature);
                Event::Drawn { below: rng.gen::<f64>() < bar }
            }
            Phase::Coin => Event::Flipped { heads: rng.gen::<f64>() < 0.5 },
            Phase::Finished => break,
        };
        let (next, action) = step(phase, event);
        match action {
            Action::Adopt => current = candidate,
            Action::Cool => temperature *= 1.0 - cooling_rate,
            _ => {}
        }
        trace.push(action);
        phase = next;
    }
    (current, temperature, trace)
}

#[test]
fn sweep_length_is_150() {
    assert_eq!(TRIALS_PER_SWEEP, 150);
}

#[test]
fn search_starts_by_reading_the_temperature() {
    assert_eq!(Phase::start(), Phase::Gauge);
}

#[test]
fn hot_temperature_opens_a_sweep() {
    assert_eq!(
        step(Phase::Gauge, Event::Temperature { above_threshold: true }),
        (Phase::Compare { done: 0 }, Action::Proceed)
    );
}

#[test]
fn cold_temperature_halts() {
    assert_eq!(
        step(Phase::Gauge, Event::Temperature { above_threshold: false }),
        (Phase::Finished, Action::Halt)
    );
}

#[test]
fn improvement_is_adopted_in_every_trial() {
    for done in 0..150 {
        let (next, action) = step(Phase::Compare { done }, Event::Energies { improves: true });
        assert_eq!(action, Action::Adopt);
        if done < 149 {
            assert_eq!(next, Phase::Compare { done: done + 1 });
        } else {
            assert_eq!(next, Phase::Coin);
        }
    }
}

#[test]
fn worsening_waits_for_the_draw() {
    assert_eq!(
        step(Phase::Compare { done: 17 }, Event::Energies { improves: false }),
        (Phase::Draw { done: 17 }, Action::Proceed)
    );
}

#[test]
fn draw_below_adopts() {
    assert_eq!(
        step(Phase::Draw { done: 17 }, Event::Drawn { below: true }),
        (Phase::Compare { done: 18 }, Action::Adopt)
    );
    assert_eq!(
        step(Phase::Draw { done: 149 }, Event::Drawn { below: true }),
        (Phase::Coin, Action::Adopt)
    );
}

#[test]
fn draw_not_below_discards() {
    assert_eq!(
        step(Phase::Draw { done: 0 }, Event::Drawn { below: false }),
        (Phase::Compare { done: 1 }, Action::Discard)
    );
    assert_eq!(
        step(Phase::Draw { done: 149 }, Event::Drawn { below: false }),
        (Phase::Coin, Action::Discard)
    );
}

#[test]
fn coin_decides_on_cooling() {
    assert_eq!(step(Phase::Coin, Event::Flipped { heads: true }), (Phase::Gauge, Action::Cool));
    assert_eq!(step(Phase::Coin, Event::Flipped { heads: false }), (Phase::Gauge, Action::Hold));
}

#[test]
fn observation_out_of_turn_changes_nothing() {
    assert_eq!(
        step(Phase::Gauge, Event::Flipped { heads: true }),
        (Phase::Gauge, Action::OutOfTurn)
    );
    assert_eq!(
        step(Phase::Compare { done: 3 }, Event::Drawn { below: true }),
        (Phase::Compare { done: 3 }, Action::OutOfTurn)
    );
    assert_eq!(
        step(Phase::Draw { done: 3 }, Event::Energies { improves: true }),
        (Phase::Draw { done: 3 }, Action::OutOfTurn)
    );
    assert_eq!(
        step(Phase::Coin, Event::Temperature { above_threshold: false }),
        (Phase::Coin, Action::OutOfTurn)
    );
    assert_eq!(
        step(Phase::Finished, Event::Temperature { above_threshold: true }),
        (Phase::Finished, Action::OutOfTurn)
    );
}

#[test]
fn trial_count_beyond_a_sweep_leads_to_the_coin() {
    assert_eq!(
        step(Phase::Compare { done: u32::MAX }, Event::Energies { improves: true }),
        (Phase::Coin, Action::Adopt)
    );
}

#[test]
fn one_sweep_decides_150_trials() {
    let (mut phase, _) = step(Phase::start(), Event::Temperature { above_threshold: true });
    let mut decided = 0;
    let mut worse = false;
    while phase != Phase::Coin {
        let (next, action) = match phase {
            Phase::Compare { .. } => step(phase, Event::Energies { improves: !worse }),
            _ => step(phase, Event::Drawn { below: false }),
        };
        if action == Action::Adopt || action == Action::Discard {
            decided += 1;
            worse = !worse;
        }
        phase = next;
    }
    assert_eq!(decided, 150);
}

#[test]
fn steady_cooling_ends_at_or_below_the_threshold() {
    let mut temperature: f64 = 100.0;
    let mut sweeps = 0;
    let mut phase = Phase::start();
    loop {
        let event = match phase {
            Phase::Gauge => Event::Temperature { above_threshold: temperature > 0.001 },
            Phase::Compare { .. } => Event::Energies { improves: false },
            Phase::Draw { .. } => Event::Drawn { below: false },
            Phase::Coin => Event::Flipped { heads: true },
            Phase::Finished => break,
        };
        let (next, action) = step(phase, event);
        if action == Action::Cool {
            temperature *= 1.0 - 0.003;
            sweeps += 1;
        }
        phase = next;
    }
    assert!(temperature <= 0.001);
    let expected = (f64::ln(0.001 / 100.0) / f64::ln(1.0 - 0.003)).ceil();
    assert_eq!(expected, 3832.0);
    assert_eq!(sweeps, 3832);
}

#[test]
fn random_cooling_ends_at_or_below_the_threshold() {
    let mut rng = StdRng::seed_from_u64(7);
    let (_, temperature, trace) = anneal_toy(&mut rng, 100.0, 0.003);
    assert!(temperature <= 0.001);
    assert_eq!(trace.last(), Some(&Action::Halt));
    let cooled = trace.iter().filter(|&&a| a == Action::Cool).count();
    assert_eq!(cooled, 3832);
    assert!(!trace.contains(&Action::OutOfTurn));
}

#[test]
fn temperature_not_above_zero_returns_the_initial_state() {
    let mut rng = StdRng::seed_from_u64(1);
    let (state, temperature, trace) = anneal_toy(&mut rng, 0.0, 0.003);
    assert_eq!(state, 0.0);
    assert_eq!(temperature, 0.0);
    assert_eq!(trace, vec![Action::Halt]);
}

#[test]
fn same_seed_gives_same_decisions_and_state() {
    let mut first = StdRng::seed_from_u64(42);
    let mut second = StdRng::seed_from_u64(42);
    let (state_a, temperature_a, trace_a) = anneal_toy(&mut first, 100.0, 0.003);
    let (state_b, temperature_b, trace_b) = anneal_toy(&mut second, 100.0, 0.003);
    assert_eq!(state_a, state_b);
    assert_eq!(temperature_a, temperature_b);
    assert_eq!(trace_a, trace_b);
}

#[test]
fn toy_problem_converges_toward_its_target() {
    let runs = 4;
    let mut total_distance = 0.0;
    let mut close = 0;
    for seed in 0..runs {
        let mut rng = StdRng::seed_from_u64(seed);
        let (state, _, _) = anneal_toy(&mut rng, 100.0, 0.003);
        let distance = (state - 5.0).abs();
        total_distance += distance;
        if distance <= 1.0 {
            close += 1;
        }
    }
    assert!(total_distance / (runs as f64) < 5.0);
    assert!(2 * close > runs);
}

fn tour_length(cities: &Vec<(f64, f64)>, tour: &Vec<usize>) -> f64 {
    let mut length = 0.0;
    for (from, to) in edges(tour) {
        let (x1, y1) = cities[from];
        let (x2, y2) = cities[to];
        length += ((x1 - x2).powi(2) + (y1 - y2).powi(2)).sqrt();
    }
    length
}

/// Anneals a tour through `cities` from the cities in index order, with
/// every draw taken from `rng`. Returns the final tour and the actions.
fn anneal_tour(rng: &mut StdRng, cities: &Vec<(f64, f64)>) -> (Vec<usize>, Vec<Action>) {
    let mut temperature: f64 = 100.0;
    let mut current = identity_tour(cities.len());
    let mut candidate = current.clone();
    let mut trace = Vec::new();
    let mut phase = Phase::start();
    loop {
        let event = match phase {
            Phase::Gauge => Event::Temperature { above_threshold: temperature > 0.001 },
            Phase::Compare { .. } => {
                let i = rng.gen_range(0..current.len());
                let j = rng.gen_range(0..current.len());
                candidate = swap_positions(&current, i, j);
                Event::Energies {
                    improves: tour_length(cities, &candidate) < tour_length(cities, &current),
                }
            }
            Phase::Draw { .. } => {
                let gap = tour_length(cities, &current) - tour_length(cities, &candidate);
                Event::Drawn { below: rng.gen::<f64>() < f64::exp(gap / temperature) }
            }
            Phase::Coin => Event::Flipped { heads: rng.gen::<f64>() < 0.5 },
            Phase::Finished => break,
        };
        let (next, action) = step(phase, event);
        match action {
            Action::Adopt => current = candidate.clone(),
            Action::Cool => temperature *= 1.0 - 0.05,
            _ => {}
        }
        trace.push(action);
        phase = next;
    }
    (current, trace)
}

#[test]
fn annealed_tour_is_a_tour_and_no_longer_than_the_square() {
    let cities = vec![(0.0, 0.0), (3.0, 4.0), (3.0, 0.0), (0.0, 4.0)];
    let mut rng = StdRng::seed_from_u64(3);
    let (tour, trace) = anneal_tour(&mut rng, &cities);
    assert!(is_valid_tour(&tour, 4));
    assert_eq!(tour_length(&cities, &tour), 14.0);
    assert_eq!(trace.last(), Some(&Action::Halt));
}

#[test]
fn same_seed_gives_the_same_tour() {
    let cities = vec![(5.0, 10.0), (30.0, 60.0), (50.0, 80.0), (10.0, 73.0), (25.0, 3.0), (17.0, 67.0)];
    let mut first = StdRng::seed_from_u64(11);
    let mut second = StdRng::seed_from_u64(11);
    let (tour_a, trace_a) = anneal_tour(&mut first, &cities);
    let (tour_b, trace_b) = anneal_tour(&mut second, &cities);
    assert_eq!(tour_a, tour_b);
    assert_eq!(trace_a, trace_b);
    assert!(is_valid_tour(&tour_a, 6));
}
