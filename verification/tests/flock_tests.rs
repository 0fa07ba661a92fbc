use boids::flock::{
    alignment_force, apply_reflect, apply_wrap, boundary_force, cohesion_force, drag_force,
    evaluate_acceleration, separation_force, tick, world_wf_check, Agent, Config, World,
};
use boids::math::{V3, COORD_LIMIT};

fn v(x: i64, y: i64, z: i64) -> V3 {
    V3 { x, y, z }
}

fn agent_at(p: V3, vel: V3) -> Agent {
    Agent { position: p, velocity: vel, acceleration: v(0, 0, 0), facing: v(0, 0, 1000) }
}

/// Three agents at (0,0,0), (0.2,0,0) and (10,10,10) with personal space
/// 0.5 and vision range 5.0: the origin agent's too-close set is exactly
/// the near neighbor, its flock set is empty, and its separation force
/// points along -x.
#[test]
fn three_agent_scenario() {
    let cfg = Config::standard();
    let agents = vec![
        agent_at(v(0, 0, 0), v(0, 0, 0)),
        agent_at(v(200, 0, 0), v(0, 0, 0)),
        agent_at(v(10_000, 10_000, 10_000), v(0, 0, 0)),
    ];
    assert_eq!(separation_force(&cfg, &agents, 0), v(-1000, 0, 0));
    assert_eq!(alignment_force(&cfg, &agents, 0), v(0, 0, 0));
    assert_eq!(cohesion_force(&cfg, &agents, 0), v(0, 0, 0));
}

#[test]
fn isolated_agent_feels_no_neighbor_forces() {
    let cfg = Config::standard();
    let agents = vec![
        agent_at(v(0, 0, 0), v(1000, 0, 0)),
        agent_at(v(10_000, 10_000, 10_000), v(0, 1000, 0)),
    ];
    assert_eq!(separation_force(&cfg, &agents, 0), v(0, 0, 0));
    assert_eq!(alignment_force(&cfg, &agents, 0), v(0, 0, 0));
    assert_eq!(cohesion_force(&cfg, &agents, 0), v(0, 0, 0));
}

/// A mirrored pair closer than personal space: each agent is pushed
/// exactly away from the other.
#[test]
fn separation_is_symmetric_for_mirrored_pair() {
    let cfg = Config::standard();
    let agents = vec![
        agent_at(v(-100, 0, 0), v(0, 0, 0)),
        agent_at(v(100, 0, 0), v(0, 0, 0)),
    ];
    assert_eq!(separation_force(&cfg, &agents, 0), v(-1000, 0, 0));
    assert_eq!(separation_force(&cfg, &agents, 1), v(1000, 0, 0));
}

#[test]
fn alignment_and_cohesion_toward_flock_neighbor() {
    let cfg = Config::standard();
    let agents = vec![
        agent_at(v(0, 0, 0), v(0, 0, 0)),
        agent_at(v(1000, 0, 0), v(0, 0, 2000)),
    ];
    assert_eq!(separation_force(&cfg, &agents, 0), v(0, 0, 0));
    assert_eq!(alignment_force(&cfg, &agents, 0), v(0, 0, 1000));
    assert_eq!(cohesion_force(&cfg, &agents, 0), v(1000, 0, 0));
}

#[test]
fn boundary_force_pushes_inward() {
    let cfg = Config::standard();
    assert_eq!(boundary_force(&cfg, v(20_000, -20_000, 0)), v(-1000, 1000, 0));
    assert_eq!(boundary_force(&cfg, v(25_000, 0, -30_000)), v(-1000, 0, 1000));
    assert_eq!(boundary_force(&cfg, v(19_999, -19_999, 0)), v(0, 0, 0));
}

#[test]
fn drag_force_opposes_excess_speed() {
    let cfg = Config::standard();
    assert_eq!(drag_force(&cfg, v(8000, 0, 0)), v(-2000, 0, 0));
    assert_eq!(drag_force(&cfg, v(6000, 0, 0)), v(0, 0, 0));
    assert_eq!(drag_force(&cfg, v(0, 0, 0)), v(0, 0, 0));
}

#[test]
fn acceleration_blends_and_clamps() {
    let cfg = Config::standard();
    let agents = vec![
        agent_at(v(0, 0, 0), v(0, 0, 0)),
        agent_at(v(200, 0, 0), v(0, 0, 0)),
        agent_at(v(10_000, 10_000, 10_000), v(0, 0, 0)),
    ];
    // Only separation acts on the origin agent: 10 * (-1000, 0, 0),
    // whose length is exactly the acceleration cap.
    assert_eq!(evaluate_acceleration(&cfg, &agents, 0), v(-10_000, 0, 0));
    assert_eq!(evaluate_acceleration(&cfg, &agents, 1), v(10_000, 0, 0));
    assert_eq!(evaluate_acceleration(&cfg, &agents, 2), v(0, 0, 0));
}

/// Under the cumulative-velocity model the drag force brings an
/// over-cap speed down to the soft cap and then holds it there.
#[test]
fn speed_converges_to_soft_cap() {
    let cfg = Config::standard();
    let mut w = World { config: cfg, agents: vec![agent_at(v(0, 0, 0), v(8000, 0, 0))] };
    tick(&mut w, 100);
    assert_eq!(w.agents[0].velocity, v(7000, 0, 0));
    tick(&mut w, 100);
    assert_eq!(w.agents[0].velocity, v(6000, 0, 0));
    for _ in 0..10 {
        tick(&mut w, 100);
        assert_eq!(w.agents[0].velocity, v(6000, 0, 0));
    }
}

/// An agent starting exactly at the +x bound with outward velocity is
/// turned around by the boundary force and never moves past the bound.
#[test]
fn boundary_turns_outward_agent_back() {
    let cfg = Config::standard();
    let mut w = World { config: cfg, agents: vec![agent_at(v(20_000, 0, 0), v(1000, 0, 0))] };
    for _ in 0..10 {
        tick(&mut w, 100);
        assert!(w.agents[0].position.x <= 20_000);
    }
    // It has curved back strictly inside.
    assert!(w.agents[0].position.x < 20_000);
}

/// Re-running a tick from an identical snapshot gives identical state:
/// the update is a pure function of the snapshot and dt.
#[test]
fn tick_is_deterministic() {
    let cfg = Config::standard();
    let agents = vec![
        agent_at(v(0, 0, 0), v(500, -200, 0)),
        agent_at(v(200, 100, 0), v(-300, 0, 400)),
        agent_at(v(3000, 0, -1500), v(0, 800, 0)),
    ];
    let mut w1 = World { config: cfg, agents: agents.clone() };
    let mut w2 = World { config: cfg, agents };
    tick(&mut w1, 160);
    tick(&mut w2, 160);
    assert_eq!(w1.agents.len(), w2.agents.len());
    for i in 0..w1.agents.len() {
        assert_eq!(w1.agents[i], w2.agents[i]);
    }
}

/// A tick with dt == 0 recomputes accelerations but leaves position and
/// velocity untouched.
#[test]
fn zero_dt_tick_is_a_no_op_on_motion() {
    let cfg = Config::standard();
    let mut w = World {
        config: cfg,
        agents: vec![
            agent_at(v(0, 0, 0), v(500, 0, 0)),
            agent_at(v(200, 0, 0), v(-300, 0, 0)),
        ],
    };
    tick(&mut w, 0);
    assert_eq!(w.agents[0].position, v(0, 0, 0));
    assert_eq!(w.agents[0].velocity, v(500, 0, 0));
    assert_eq!(w.agents[1].position, v(200, 0, 0));
    assert_eq!(w.agents[1].velocity, v(-300, 0, 0));
    // The evaluator still ran: the close pair repel each other.
    assert_eq!(w.agents[0].acceleration, v(-10_000, 0, 0));
    assert_eq!(w.agents[1].acceleration, v(10_000, 0, 0));
}

#[test]
fn facing_follows_velocity_and_survives_rest() {
    let cfg = Config::standard();
    let mut w = World { config: cfg, agents: vec![agent_at(v(0, 0, 0), v(0, 0, 0))] };
    // At rest with no stimulus: facing keeps its old value.
    tick(&mut w, 100);
    assert_eq!(w.agents[0].facing, v(0, 0, 1000));
    // Give it a velocity: facing follows the heading.
    w.agents[0].velocity = v(0, -4000, 3000);
    tick(&mut w, 100);
    assert_eq!(w.agents[0].facing, v(0, -800, 600));
}

/// Under the wrap policy a coordinate that exceeds a bound is
/// deterministically teleported to the opposite extreme.
#[test]
fn wrap_teleports_to_opposite_bound() {
    let cfg = Config::standard();
    let mut w = World {
        config: cfg,
        agents: vec![
            agent_at(v(20_100, 0, -20_001), v(1000, 0, 0)),
            agent_at(v(0, 19_999, 0), v(0, 0, 0)),
        ],
    };
    apply_wrap(&mut w);
    assert_eq!(w.agents[0].position, v(-20_000, 0, 20_000));
    assert_eq!(w.agents[0].velocity, v(1000, 0, 0));
    assert_eq!(w.agents[1].position, v(0, 19_999, 0));
}

/// Under the reflect policy an outward velocity component flips inward
/// at the bound; speed is preserved and inward motion is untouched.
#[test]
fn reflect_flips_outward_velocity() {
    let cfg = Config::standard();
    let mut w = World {
        config: cfg,
        agents: vec![
            agent_at(v(20_000, 0, 0), v(1000, 200, 0)),
            agent_at(v(-20_000, 0, 0), v(500, 0, 0)),
        ],
    };
    apply_reflect(&mut w);
    assert_eq!(w.agents[0].velocity, v(-1000, 200, 0));
    assert_eq!(w.agents[0].position, v(20_000, 0, 0));
    // Already heading back inside: left alone.
    assert_eq!(w.agents[1].velocity, v(500, 0, 0));
}

#[test]
fn wf_check_accepts_standard_and_rejects_out_of_range() {
    let cfg = Config::standard();
    let good = World { config: cfg, agents: vec![agent_at(v(0, 0, 0), v(0, 0, 0))] };
    assert!(world_wf_check(&good));
    let bad = World {
        config: cfg,
        agents: vec![agent_at(v(COORD_LIMIT + 1, 0, 0), v(0, 0, 0))],
    };
    assert!(!world_wf_check(&bad));
}
