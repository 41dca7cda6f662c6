//! Tests of the day loop, the infection state machine, and the simulation
//! driver.

use pandemic_sim::constants::{
    MAX_PARTICLE_RADIUS, MIN_PARTICLE_RADIUS, PPM, TARGET_RADIUS, distance,
};
use pandemic_sim::day::Day;
use pandemic_sim::individual::{Individual, InfectionState};
use pandemic_sim::simulation::{InfectionStatus, Simulation};
use pandemic_sim::target::Target;

fn agent(id: usize, x: i64, y: i64, state: InfectionState) -> Individual {
    let home = (1_000_000, 1_000_000);
    Individual {
        id,
        x,
        y,
        vx: 0,
        vy: 0,
        radius: MIN_PARTICLE_RADIUS,
        state,
        to_infect: 0,
        residence: home,
        targets: [
            Target { location: (1_500_000, 1_000_000), radius: TARGET_RADIUS },
            Target { location: (500_000, 1_000_000), radius: TARGET_RADIUS },
            Target { location: home, radius: TARGET_RADIUS },
        ],
        target_idx: 0,
        day_done: false,
    }
}

#[test]
fn infect_sets_the_state() {
    let mut a = agent(0, 1_000_000, 1_000_000, InfectionState::Susceptible);
    a.infect(5);
    assert!(matches!(a.state, InfectionState::Infected(5)));
}

#[test]
fn status_counts_each_state() {
    let v = vec![
        agent(0, 900_000, 900_000, InfectionState::Susceptible),
        agent(1, 1_000_000, 1_000_000, InfectionState::Infected(3)),
        agent(2, 1_100_000, 1_100_000, InfectionState::Recovered),
    ];
    let status = InfectionStatus::new(&v, 5);
    assert_eq!(status.susceptible, 1);
    assert_eq!(status.infected, 1);
    assert_eq!(status.recovered, 1);
    assert_eq!(status.dead, 2);
    // the four counts always add up to the initial population
    assert_eq!(
        status.susceptible + status.infected + status.recovered + status.dead,
        5
    );
}

#[test]
fn day_run_is_done_when_everyone_is_home() {
    let mut v = vec![
        agent(0, 1_000_000, 1_000_000, InfectionState::Susceptible),
        agent(1, 1_200_000, 1_200_000, InfectionState::Susceptible),
    ];
    v[0].day_done = true;
    v[1].day_done = true;
    let before = (v[0].x, v[0].y, v[1].x, v[1].y);
    let mut day = Day::new(0);
    assert!(day.run(&mut v, 100));
    // nobody moved
    assert_eq!(before, (v[0].x, v[0].y, v[1].x, v[1].y));
}

#[test]
fn day_run_keeps_radii_within_bounds() {
    // a cluster of colliding agents and a free agent, many ticks
    let mut v = vec![
        agent(0, 1_000_000, 1_000_000, InfectionState::Susceptible),
        agent(1, 1_001_000, 1_000_000, InfectionState::Infected(3)),
        agent(2, 1_000_000, 1_001_000, InfectionState::Susceptible),
        agent(3, 1_700_000, 1_700_000, InfectionState::Susceptible),
    ];
    let mut day = Day::new(0);
    day.run(&mut v, 200);
    for a in &v {
        assert!(a.radius >= MIN_PARTICLE_RADIUS);
        assert!(a.radius <= MAX_PARTICLE_RADIUS);
        assert!(a.x >= 0 && a.x <= 2_000_000);
        assert!(a.y >= 0 && a.y <= 2_000_000);
    }
}

#[test]
fn one_tick_records_each_infectious_contact() {
    // a susceptible agent overlapping two infected ones: two exposures
    let mut v = vec![
        agent(0, 1_000_000, 1_000_000, InfectionState::Susceptible),
        agent(1, 1_000_500, 1_000_000, InfectionState::Infected(3)),
        agent(2, 1_000_000, 1_000_500, InfectionState::Infected(3)),
    ];
    let mut day = Day::new(0);
    day.run(&mut v, 1);
    assert_eq!(v[0].to_infect, 2);
    // infected agents do not accumulate exposure
    assert_eq!(v[1].to_infect, 0);
    assert_eq!(v[2].to_infect, 0);
}

#[test]
fn a_free_agent_completes_its_day() {
    // an agent alone in the domain eventually walks its whole itinerary
    let mut v = vec![agent(0, 1_000_000, 1_000_000, InfectionState::Susceptible)];
    let mut day = Day::new(0);
    let mut done = false;
    for _ in 0..40 {
        if day.run(&mut v, 10_000) {
            done = true;
            break;
        }
    }
    assert!(done);
    assert!(v[0].day_done);
    // home: within arrival reach of the residence
    assert!(distance((v[0].x, v[0].y), v[0].residence) <= TARGET_RADIUS + v[0].radius);
}

#[test]
fn certain_transmission_after_contact() {
    // transmission rate one: an exposed susceptible is infected at day's end
    let mut v = vec![
        agent(0, 1_000_000, 1_000_000, InfectionState::Susceptible),
        agent(1, 1_000_500, 1_000_000, InfectionState::Infected(3)),
    ];
    let mut day = Day::new(PPM);
    day.run(&mut v, 1);
    assert!(v[0].to_infect > 0);

    let mut sim = Simulation::new(2, PPM, 4, 0);
    sim.individuals = v;
    sim.infection_status = InfectionStatus::new(&sim.individuals, 2);
    sim.update_infection();
    assert!(matches!(sim.individuals[0].state, InfectionState::Infected(4)));
    assert_eq!(sim.infection_status.infected, 2);
}

#[test]
fn no_transmission_at_rate_zero() {
    let mut v = vec![
        agent(0, 1_000_000, 1_000_000, InfectionState::Susceptible),
        agent(1, 1_000_500, 1_000_000, InfectionState::Infected(3)),
    ];
    let mut day = Day::new(0);
    day.run(&mut v, 1);
    assert!(v[0].to_infect > 0);

    let mut sim = Simulation::new(2, 0, 4, 0);
    sim.individuals = v;
    sim.infection_status = InfectionStatus::new(&sim.individuals, 2);
    sim.update_infection();
    assert!(matches!(sim.individuals[0].state, InfectionState::Susceptible));
    assert!(matches!(sim.individuals[1].state, InfectionState::Infected(2)));
}

#[test]
fn simulation_new_builds_a_separated_population() {
    let sim = Simulation::new(40, 100_000, 7, 50_000);
    assert_eq!(sim.individuals.len(), 40);
    assert_eq!(sim.individual_count, 40);
    assert_eq!(sim.date, 0);
    assert!(matches!(sim.individuals[0].state, InfectionState::Infected(7)));
    for (i, a) in sim.individuals.iter().enumerate() {
        assert_eq!(a.id, i);
        assert_eq!((a.x, a.y), a.residence);
        if i > 0 {
            assert!(matches!(a.state, InfectionState::Susceptible));
        }
    }
    // no two residences closer than the smallest radius
    for a in &sim.individuals {
        for b in &sim.individuals {
            if a.id != b.id {
                assert!(distance(a.residence, b.residence) >= MIN_PARTICLE_RADIUS);
            }
        }
    }
    assert_eq!(sim.infection_status.susceptible, 39);
    assert_eq!(sim.infection_status.infected, 1);
    assert_eq!(sim.infection_status.recovered, 0);
    assert_eq!(sim.infection_status.dead, 0);
}

#[test]
fn seeded_infection_resolves_after_its_period() {
    // one agent, period 7, no mortality, no transmission: the seed counts
    // down for seven updates and recovers on the eighth
    let mut sim = Simulation::new(1, 0, 7, 0);
    for expected_left in (0usize..=6).rev() {
        sim.update_infection();
        assert!(
            matches!(sim.individuals[0].state, InfectionState::Infected(n) if n == expected_left)
        );
    }
    sim.update_infection();
    assert!(matches!(sim.individuals[0].state, InfectionState::Recovered));
    assert_eq!(sim.infection_status.infected, 0);
    // the run is over
    assert!(sim.next_day().is_none());
}

#[test]
fn certain_mortality_removes_the_seed() {
    let mut sim = Simulation::new(3, 0, 0, PPM);
    // the seed is Infected(0): the first update resolves it, with death
    // certain at mortality one
    sim.update_infection();
    assert_eq!(sim.individuals.len(), 2);
    assert_eq!(sim.infection_status.dead, 1);
    assert_eq!(sim.infection_status.infected, 0);
    assert_eq!(sim.infection_status.susceptible, 2);
    assert_eq!(
        sim.infection_status.susceptible + sim.infection_status.infected
            + sim.infection_status.recovered + sim.infection_status.dead,
        3
    );
}

#[test]
fn next_day_counts_dates_while_infection_lasts() {
    let mut sim = Simulation::new(2, 0, 1, 0);
    assert!(sim.next_day().is_some());
    assert_eq!(sim.date, 1);
    assert!(sim.next_day().is_some());
    assert_eq!(sim.date, 2);
    sim.update_infection();  // Infected(1) -> Infected(0)
    sim.update_infection();  // Infected(0) -> Recovered (mortality zero)
    assert!(sim.next_day().is_none());
    assert_eq!(sim.date, 2);
}

#[test]
fn rate_zero_infected_count_never_rises() {
    // a population with the seed infected, transmission rate zero: the
    // infected tally declines day over day until the run terminates
    let mut sim = Simulation::new(8, 0, 3, 500_000);
    let mut last_infected = sim.infection_status.infected;
    let mut days = 0;
    while let Some(mut day) = sim.next_day() {
        days += 1;
        assert!(days <= 10);
        let mut chunks = 0;
        while !day.run(&mut sim.individuals, 20_000) {
            chunks += 1;
            assert!(chunks <= 100);
        }
        sim.update_infection();
        assert!(sim.infection_status.infected <= last_infected);
        last_infected = sim.infection_status.infected;
        assert_eq!(
            sim.infection_status.susceptible + sim.infection_status.infected
                + sim.infection_status.recovered + sim.infection_status.dead,
            8
        );
    }
    assert_eq!(sim.infection_status.infected, 0);
}

#[test]
fn reset_to_residence_brings_the_agent_home_at_rest() {
    let mut a = agent(0, 1_700_000, 200_000, InfectionState::Recovered);
    a.vx = 500;
    a.vy = -500;
    a.reset_to_residence();
    assert_eq!((a.x, a.y), a.residence);
    assert_eq!((a.vx, a.vy), (0, 0));
}

#[test]
fn recreate_random_target_clears_the_day_state() {
    let mut a = agent(0, 1_000_000, 1_000_000, InfectionState::Recovered);
    a.to_infect = 4;
    a.target_idx = 2;
    a.day_done = true;
    a.recreate_random_target();
    assert_eq!(a.to_infect, 0);
    assert_eq!(a.target_idx, 0);
    assert!(!a.day_done);
    assert_eq!(a.targets[2].location, a.residence);
}
