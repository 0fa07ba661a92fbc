//! Randomized world creation.
//!
//! Positions are sampled uniformly inside the bounding box and headings
//! are sampled from the same per-axis ranges, then normalized. The draws
//! themselves come from the process RNG through one trusted wrapper;
//! everything built from the drawn values is verified for every outcome.

use vstd::prelude::*;
use crate::flock::{agents_wf, Agent, Config, World, COUNT_LIMIT};
use crate::math::{bounded, v3_normalize, v3_zero, vnorm, vzero, V3, COORD_LIMIT, SCALE};

verus! {

/// Relies on rand::Rng::gen_range over an `i64` half-open range: the
/// result is uniformly distributed in `[lo, hi)`, and the call panics
/// only on an empty range, which the precondition rules out.
#[verifier::external_body]
fn sample_uniform(lo: i64, hi: i64) -> (r: i64)
    requires
        lo < hi,
    ensures
        lo <= r < hi,
{
    rand::Rng::gen_range(&mut rand::thread_rng(), lo..hi)
}

/// Build one agent from six sampled coordinates: a position, and a
/// heading that becomes the initial velocity and facing once normalized.
/// A zero heading draw leaves the agent at rest, facing along the z axis.
pub fn agent_from_samples(px: i64, py: i64, pz: i64, dx: i64, dy: i64, dz: i64) -> (a: Agent)
    requires
        -COORD_LIMIT <= px <= COORD_LIMIT,
        -COORD_LIMIT <= py <= COORD_LIMIT,
        -COORD_LIMIT <= pz <= COORD_LIMIT,
        -COORD_LIMIT <= dx <= COORD_LIMIT,
        -COORD_LIMIT <= dy <= COORD_LIMIT,
        -COORD_LIMIT <= dz <= COORD_LIMIT,
    ensures
        a.position@ == (px as int, py as int, pz as int),
        a.velocity@ == vnorm((dx as int, dy as int, dz as int)),
        a.acceleration@ == vzero(),
        a.facing@ == if vnorm((dx as int, dy as int, dz as int)) == vzero() {
            (0int, 0int, SCALE as int)
        } else {
            vnorm((dx as int, dy as int, dz as int))
        },
        bounded(a.velocity@, SCALE as int),
        a.wf(),
{
    let v = v3_normalize(V3 { x: dx, y: dy, z: dz });
    let facing = if v.x == 0 && v.y == 0 && v.z == 0 {
        V3 { x: 0, y: 0, z: SCALE }
    } else {
        v
    };
    Agent {
        position: V3 { x: px, y: py, z: pz },
        velocity: v,
        acceleration: v3_zero(),
        facing,
    }
}

/// Spawn `n` agents at random. Whatever the draws return, every agent
/// starts inside the box with zero acceleration and a normalized (or,
/// for a zero draw, zero) velocity.
#[verifier::loop_isolation(false)]
pub fn spawn_agents(cfg: &Config, n: usize) -> (agents: Vec<Agent>)
    requires
        cfg.wf(),
        n <= COUNT_LIMIT,
    ensures
        agents@.len() == n as int,
        agents_wf(agents@),
        forall|i: int|
            0 <= i < n as int ==> {
                let a = #[trigger] agents@[i];
                &&& -(cfg.half_width_x as int) <= a.position@.0 < cfg.half_width_x as int
                &&& -(cfg.half_width_y as int) <= a.position@.1 < cfg.half_width_y as int
                &&& -(cfg.half_width_z as int) <= a.position@.2 < cfg.half_width_z as int
                &&& a.acceleration@ == vzero()
                &&& bounded(a.velocity@, SCALE as int)
                &&& a.wf()
            },
{
    let mut agents: Vec<Agent> = Vec::new();
    let mut i: usize = 0;
    while i < n
        invariant
            i <= n,
            agents@.len() == i as int,
            forall|k: int|
                0 <= k < i as int ==> {
                    let a = #[trigger] agents@[k];
                    &&& -(cfg.half_width_x as int) <= a.position@.0 < cfg.half_width_x as int
                    &&& -(cfg.half_width_y as int) <= a.position@.1 < cfg.half_width_y as int
                    &&& -(cfg.half_width_z as int) <= a.position@.2 < cfg.half_width_z as int
                    &&& a.acceleration@ == vzero()
                    &&& bounded(a.velocity@, SCALE as int)
                    &&& a.wf()
                },
        decreases n - i,
    {
        let px = sample_uniform(-cfg.half_width_x, cfg.half_width_x);
        let py = sample_uniform(-cfg.half_width_y, cfg.half_width_y);
        let pz = sample_uniform(-cfg.half_width_z, cfg.half_width_z);
        let dx = sample_uniform(-cfg.half_width_x, cfg.half_width_x);
        let dy = sample_uniform(-cfg.half_width_y, cfg.half_width_y);
        let dz = sample_uniform(-cfg.half_width_z, cfg.half_width_z);
        agents.push(agent_from_samples(px, py, pz, dx, dy, dz));
        i = i + 1;
    }
    agents
}

/// Create a whole world: a configuration plus `n` freshly spawned agents.
pub fn spawn_world(cfg: Config, n: usize) -> (w: World)
    requires
        cfg.wf(),
        n <= COUNT_LIMIT,
    ensures
        w.wf(),
        w.config == cfg,
        w.agents@.len() == n as int,
{
    let agents = spawn_agents(&cfg, n);
    World { config: cfg, agents }
}

} // verus!
