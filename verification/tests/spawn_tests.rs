use boids::flock::{tick, world_wf_check, Config};
use boids::math::{v3_len, SCALE};
use boids::spawn::{agent_from_samples, spawn_world};

#[test]
fn spawned_world_is_well_formed() {
    let cfg = Config::standard();
    let w = spawn_world(cfg, 50);
    assert_eq!(w.agents.len(), 50);
    assert!(world_wf_check(&w));
    for a in w.agents.iter() {
        assert!(-cfg.half_width_x <= a.position.x && a.position.x < cfg.half_width_x);
        assert!(-cfg.half_width_y <= a.position.y && a.position.y < cfg.half_width_y);
        assert!(-cfg.half_width_z <= a.position.z && a.position.z < cfg.half_width_z);
        assert_eq!(a.acceleration.x, 0);
        assert_eq!(a.acceleration.y, 0);
        assert_eq!(a.acceleration.z, 0);
        // Headings are normalized: within a unit on every axis.
        assert!(a.velocity.x.abs() <= SCALE);
        assert!(a.velocity.y.abs() <= SCALE);
        assert!(a.velocity.z.abs() <= SCALE);
    }
}

#[test]
fn spawned_world_stays_in_envelope_while_ticking() {
    let cfg = Config::standard();
    let mut w = spawn_world(cfg, 30);
    for _ in 0..20 {
        assert!(world_wf_check(&w));
        tick(&mut w, 16);
    }
    assert!(world_wf_check(&w));
}

#[test]
fn agent_from_samples_normalizes_heading() {
    let a = agent_from_samples(10, -20, 30, 3000, 4000, 0);
    assert_eq!(a.position.x, 10);
    assert_eq!(a.position.y, -20);
    assert_eq!(a.position.z, 30);
    assert_eq!(a.velocity.x, 600);
    assert_eq!(a.velocity.y, 800);
    assert_eq!(a.velocity.z, 0);
    assert_eq!(a.facing.x, 600);
    assert_eq!(v3_len(a.velocity), 1000);
}

#[test]
fn agent_from_zero_heading_rests_with_default_facing() {
    let a = agent_from_samples(0, 0, 0, 0, 0, 0);
    assert_eq!(a.velocity.x, 0);
    assert_eq!(a.velocity.y, 0);
    assert_eq!(a.velocity.z, 0);
    assert_eq!(a.facing.z, 1000);
}
