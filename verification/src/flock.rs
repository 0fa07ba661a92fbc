//! The flocking core: per-tick steering and integration.
//!
//! Every tick runs two stages in strict order. The evaluator reads a
//! settled snapshot of all agents and recomputes each agent's
//! acceleration from five blended forces (separation, alignment,
//! cohesion, boundary, drag); the integrator then advances velocity,
//! position and facing. Both stages are specified exactly over the
//! fixed-point model in [`crate::math`].

use vstd::prelude::*;
use crate::math::{
    bounded, dist_sq, norm_sq, vadd, vclamp, vdiv, vlen, vnorm, vscale, vsub, vzero, Iv3, V3,
};
use crate::math::{
    lemma_div_t_bound, lemma_sqrt_floor_le, mul_wide, v3_add, v3_clamp, v3_dist_sq, v3_len,
    v3_normalize, v3_scale, v3_sub, v3_zero,
};
use crate::math::{COORD_LIMIT, SCALE};

verus! {

/// Largest number of agents a world may hold.
pub const COUNT_LIMIT: usize = 1_000_000;

/// Largest value allowed for a force weighting.
pub const WEIGHT_LIMIT: i64 = 1_000;

/// Longest tick duration accepted, in `SCALE` fixed-point seconds.
pub const DT_LIMIT: i64 = 10_000;

/// Bound on the components of every acceleration the evaluator produces.
pub const ACCEL_LIMIT: i64 = 10_000_000_000_000;

/// Bound on the components of a drag force.
pub const DRAG_LIMIT: i64 = 3_000_000_000;

/// The immutable world configuration shared by all agents.
#[derive(Clone, Copy, PartialEq, Eq, Structural, Debug)]
pub struct Config {
    /// Half-widths of the bounding box, per axis.
    pub half_width_x: i64,
    pub half_width_y: i64,
    pub half_width_z: i64,
    /// Neighbors at or beyond this distance are ignored entirely.
    pub vision_range: i64,
    /// Neighbors strictly closer than this trigger separation.
    pub personal_space: i64,
    pub w_separation: i64,
    pub w_alignment: i64,
    pub w_cohesion: i64,
    pub w_boundary: i64,
    pub w_drag: i64,
    /// Speed above which drag starts to push back.
    pub speed_soft_cap: i64,
    /// Acceleration magnitudes are clamped to this each tick.
    pub max_acceleration: i64,
}

impl Config {
    pub open spec fn wf(self) -> bool {
        &&& 1 <= self.half_width_x <= COORD_LIMIT
        &&& 1 <= self.half_width_y <= COORD_LIMIT
        &&& 1 <= self.half_width_z <= COORD_LIMIT
        &&& 0 <= self.personal_space <= self.vision_range
        &&& self.vision_range <= COORD_LIMIT
        &&& 0 <= self.w_separation <= WEIGHT_LIMIT
        &&& 0 <= self.w_alignment <= WEIGHT_LIMIT
        &&& 0 <= self.w_cohesion <= WEIGHT_LIMIT
        &&& 0 <= self.w_boundary <= WEIGHT_LIMIT
        &&& 0 <= self.w_drag <= WEIGHT_LIMIT
        &&& 0 <= self.speed_soft_cap <= COORD_LIMIT
        &&& 0 <= self.max_acceleration <= COORD_LIMIT
    }

    /// The standard configuration: a 40-unit cube, 5-unit vision range,
    /// half-unit personal space, and the default force weights, all in
    /// `SCALE` fixed-point units.
    pub fn standard() -> (c: Config)
        ensures
            c.wf(),
            c.half_width_x == 20_000,
            c.half_width_y == 20_000,
            c.half_width_z == 20_000,
            c.vision_range == 5_000,
            c.personal_space == 500,
            c.w_separation == 10,
            c.w_alignment == 20,
            c.w_cohesion == 2,
            c.w_boundary == 15,
            c.w_drag == 10,
            c.speed_soft_cap == 6_000,
            c.max_acceleration == 10_000,
    {
        Config {
            half_width_x: 20_000,
            half_width_y: 20_000,
            half_width_z: 20_000,
            vision_range: 5_000,
            personal_space: 500,
            w_separation: 10,
            w_alignment: 20,
            w_cohesion: 2,
            w_boundary: 15,
            w_drag: 10,
            speed_soft_cap: 6_000,
            max_acceleration: 10_000,
        }
    }
}

/// One boid: position, velocity and transient acceleration in fixed-point
/// coordinates, plus the unit-ish facing vector handed to a renderer.
#[derive(Clone, Copy, PartialEq, Eq, Structural, Debug)]
pub struct Agent {
    pub position: V3,
    pub velocity: V3,
    pub acceleration: V3,
    pub facing: V3,
}

impl Agent {
    pub open spec fn wf(self) -> bool {
        &&& bounded(self.position@, COORD_LIMIT as int)
        &&& bounded(self.velocity@, COORD_LIMIT as int)
        &&& bounded(self.acceleration@, ACCEL_LIMIT as int)
        &&& bounded(self.facing@, SCALE as int)
    }
}

pub open spec fn agents_wf(agents: Seq<Agent>) -> bool {
    &&& agents.len() <= COUNT_LIMIT
    &&& forall|k: int| 0 <= k < agents.len() ==> (#[trigger] agents[k]).wf()
}

/// The whole simulation state: one configuration and the agent arena.
pub struct World {
    pub config: Config,
    pub agents: Vec<Agent>,
}

impl World {
    pub open spec fn wf(self) -> bool {
        self.config.wf() && agents_wf(self.agents@)
    }
}

/// Agent `j` is a distinct agent strictly inside agent `i`'s personal space.
pub open spec fn too_close(cfg: Config, agents: Seq<Agent>, i: int, j: int) -> bool {
    &&& j != i
    &&& dist_sq(agents[i].position@, agents[j].position@) < (cfg.personal_space as int) * (
    cfg.personal_space as int)
}

/// Agent `j` is a distinct agent strictly between personal space and
/// vision range of agent `i`; a neighbor exactly at personal space
/// belongs to neither set.
pub open spec fn in_flock(cfg: Config, agents: Seq<Agent>, i: int, j: int) -> bool {
    &&& j != i
    &&& (cfg.personal_space as int) * (cfg.personal_space as int) < dist_sq(
        agents[i].position@,
        agents[j].position@,
    )
    &&& dist_sq(agents[i].position@, agents[j].position@) < (cfg.vision_range as int) * (
    cfg.vision_range as int)
}

/// How many of the first `k` agents are too close to agent `i`.
pub open spec fn close_count(cfg: Config, agents: Seq<Agent>, i: int, k: int) -> int
    decreases k,
{
    if k <= 0 {
        0
    } else {
        close_count(cfg, agents, i, k - 1) + if too_close(cfg, agents, i, k - 1) {
            1int
        } else {
            0int
        }
    }
}

/// Sum of the positions of the too-close agents among the first `k`.
pub open spec fn close_pos_sum(cfg: Config, agents: Seq<Agent>, i: int, k: int) -> Iv3
    decreases k,
{
    if k <= 0 {
        vzero()
    } else {
        vadd(
            close_pos_sum(cfg, agents, i, k - 1),
            if too_close(cfg, agents, i, k - 1) {
                agents[k - 1].position@
            } else {
                vzero()
            },
        )
    }
}

/// How many of the first `k` agents are in agent `i`'s flock set.
pub open spec fn flock_count(cfg: Config, agents: Seq<Agent>, i: int, k: int) -> int
    decreases k,
{
    if k <= 0 {
        0
    } else {
        flock_count(cfg, agents, i, k - 1) + if in_flock(cfg, agents, i, k - 1) {
            1int
        } else {
            0int
        }
    }
}

/// Sum of the positions of the flock-set agents among the first `k`.
pub open spec fn flock_pos_sum(cfg: Config, agents: Seq<Agent>, i: int, k: int) -> Iv3
    decreases k,
{
    if k <= 0 {
        vzero()
    } else {
        vadd(
            flock_pos_sum(cfg, agents, i, k - 1),
            if in_flock(cfg, agents, i, k - 1) {
                agents[k - 1].position@
            } else {
                vzero()
            },
        )
    }
}

/// Sum of the normalized headings of the flock-set agents among the first `k`.
pub open spec fn flock_head_sum(cfg: Config, agents: Seq<Agent>, i: int, k: int) -> Iv3
    decreases k,
{
    if k <= 0 {
        vzero()
    } else {
        vadd(
            flock_head_sum(cfg, agents, i, k - 1),
            if in_flock(cfg, agents, i, k - 1) {
                vnorm(agents[k - 1].velocity@)
            } else {
                vzero()
            },
        )
    }
}

/// Separation: away from the average position of the too-close set,
/// scaled by how many agents crowd in; zero when none do.
pub open spec fn separation_spec(cfg: Config, agents: Seq<Agent>, i: int) -> Iv3 {
    let k = close_count(cfg, agents, i, agents.len() as int);
    if k == 0 {
        vzero()
    } else {
        let avg = vdiv(close_pos_sum(cfg, agents, i, agents.len() as int), k);
        vscale(k, vnorm(vsub(agents[i].position@, avg)))
    }
}

/// Alignment: the normalized average of the flock set's normalized
/// headings; zero when the flock set is empty.
pub open spec fn alignment_spec(cfg: Config, agents: Seq<Agent>, i: int) -> Iv3 {
    let m = flock_count(cfg, agents, i, agents.len() as int);
    if m == 0 {
        vzero()
    } else {
        vnorm(vdiv(flock_head_sum(cfg, agents, i, agents.len() as int), m))
    }
}

/// Cohesion: toward the average position of the flock set; zero when the
/// flock set is empty.
pub open spec fn cohesion_spec(cfg: Config, agents: Seq<Agent>, i: int) -> Iv3 {
    let m = flock_count(cfg, agents, i, agents.len() as int);
    if m == 0 {
        vzero()
    } else {
        let avg = vdiv(flock_pos_sum(cfg, agents, i, agents.len() as int), m);
        vnorm(vsub(avg, agents[i].position@))
    }
}

/// Boundary: a unit push back inward on every axis whose coordinate is at
/// or beyond the half-width.
pub open spec fn boundary_spec(cfg: Config, p: Iv3) -> Iv3 {
    (
        if p.0 >= cfg.half_width_x {
            -(SCALE as int)
        } else if p.0 <= -(cfg.half_width_x as int) {
            SCALE as int
        } else {
            0
        },
        if p.1 >= cfg.half_width_y {
            -(SCALE as int)
        } else if p.1 <= -(cfg.half_width_y as int) {
            SCALE as int
        } else {
            0
        },
        if p.2 >= cfg.half_width_z {
            -(SCALE as int)
        } else if p.2 <= -(cfg.half_width_z as int) {
            SCALE as int
        } else {
            0
        },
    )
}

/// Drag: once speed exceeds the soft cap, a push against the heading
/// scaled by the excess; zero at or below the cap.
pub open spec fn drag_spec(cfg: Config, v: Iv3) -> Iv3 {
    let l = vlen(v);
    if l > cfg.speed_soft_cap {
        vdiv(vscale((cfg.speed_soft_cap as int) - l, vnorm(v)), SCALE as int)
    } else {
        vzero()
    }
}

pub fn boundary_force(cfg: &Config, p: V3) -> (r: V3)
    requires
        cfg.wf(),
    ensures
        r@ == boundary_spec(*cfg, p@),
        bounded(r@, SCALE as int),
{
    let x: i64 = if p.x >= cfg.half_width_x {
        -SCALE
    } else if p.x <= -cfg.half_width_x {
        SCALE
    } else {
        0
    };
    let y: i64 = if p.y >= cfg.half_width_y {
        -SCALE
    } else if p.y <= -cfg.half_width_y {
        SCALE
    } else {
        0
    };
    let z: i64 = if p.z >= cfg.half_width_z {
        -SCALE
    } else if p.z <= -cfg.half_width_z {
        SCALE
    } else {
        0
    };
    V3 { x, y, z }
}

pub fn drag_force(cfg: &Config, v: V3) -> (r: V3)
    requires
        cfg.wf(),
        bounded(v@, COORD_LIMIT as int),
    ensures
        r@ == drag_spec(*cfg, v@),
        bounded(r@, DRAG_LIMIT as int),
{
    let l = v3_len(v);
    proof {
        assert(norm_sq(v@) <= 2_000_000_000 * 2_000_000_000) by (nonlinear_arith)
            requires
                norm_sq(v@) == v@.0 * v@.0 + v@.1 * v@.1 + v@.2 * v@.2,
                bounded(v@, COORD_LIMIT as int),
                COORD_LIMIT as int == 1_000_000_000,
        ;
        assert(norm_sq(v@) >= 0) by (nonlinear_arith);
        lemma_sqrt_floor_le(norm_sq(v@), 2_000_000_000);
    }
    if l > cfg.speed_soft_cap {
        let u = v3_normalize(v);
        let excess: i64 = cfg.speed_soft_cap - l;
        proof {
            assert(-3_000_000_000_000 <= (excess as int) * u@.0 <= 3_000_000_000_000)
                by (nonlinear_arith)
                requires
                    -3_000_000_000 <= excess as int <= 0,
                    -(SCALE as int) <= u@.0 <= SCALE as int,
                    SCALE as int == 1000,
            ;
            lemma_div_t_bound((excess as int) * u@.0, SCALE as int, DRAG_LIMIT as int);
            assert(-3_000_000_000_000 <= (excess as int) * u@.1 <= 3_000_000_000_000)
                by (nonlinear_arith)
                requires
                    -3_000_000_000 <= excess as int <= 0,
                    -(SCALE as int) <= u@.1 <= SCALE as int,
                    SCALE as int == 1000,
            ;
            lemma_div_t_bound((excess as int) * u@.1, SCALE as int, DRAG_LIMIT as int);
            assert(-3_000_000_000_000 <= (excess as int) * u@.2 <= 3_000_000_000_000)
                by (nonlinear_arith)
                requires
                    -3_000_000_000 <= excess as int <= 0,
                    -(SCALE as int) <= u@.2 <= SCALE as int,
                    SCALE as int == 1000,
            ;
            lemma_div_t_bound((excess as int) * u@.2, SCALE as int, DRAG_LIMIT as int);
        }
        V3 {
            x: crate::math::div_fix(excess * u.x, SCALE),
            y: crate::math::div_fix(excess * u.y, SCALE),
            z: crate::math::div_fix(excess * u.z, SCALE),
        }
    } else {
        v3_zero()
    }
}

#[verifier::loop_isolation(false)]
pub fn separation_force(cfg: &Config, agents: &Vec<Agent>, i: usize) -> (r: V3)
    requires
        cfg.wf(),
        agents_wf(agents@),
        i < agents@.len(),
    ensures
        r@ == separation_spec(*cfg, agents@, i as int),
        bounded(r@, COORD_LIMIT as int),
{
    let n = agents.len();
    let ps2 = mul_wide(cfg.personal_space, cfg.personal_space);
    let own_pos = agents[i].position;
    let mut count: usize = 0;
    let mut sum = v3_zero();
    let mut j: usize = 0;
    while j < n
        invariant
            j <= n,
            count <= j,
            count as int == close_count(*cfg, agents@, i as int, j as int),
            sum@ == close_pos_sum(*cfg, agents@, i as int, j as int),
            bounded(sum@, (count as int) * (COORD_LIMIT as int)),
        decreases n - j,
    {
        if j != i {
            let d2 = v3_dist_sq(agents[i].position, agents[j].position);
            if d2 < ps2 {
                sum = v3_add(sum, agents[j].position);
                count = count + 1;
            }
        }
        j = j + 1;
    }
    if count == 0 {
        v3_zero()
    } else {
        let k = count as i64;
        proof {
            lemma_div_t_bound(sum@.0, k as int, COORD_LIMIT as int);
            lemma_div_t_bound(sum@.1, k as int, COORD_LIMIT as int);
            lemma_div_t_bound(sum@.2, k as int, COORD_LIMIT as int);
        }
        let avg = V3 {
            x: crate::math::div_fix(sum.x, k),
            y: crate::math::div_fix(sum.y, k),
            z: crate::math::div_fix(sum.z, k),
        };
        let dir = v3_normalize(v3_sub(own_pos, avg));
        proof {
            assert(-(COORD_LIMIT as int) <= (k as int) * dir@.0 <= COORD_LIMIT as int)
                by (nonlinear_arith)
                requires
                    1 <= k as int <= COUNT_LIMIT as int,
                    -(SCALE as int) <= dir@.0 <= SCALE as int,
                    COUNT_LIMIT as int == 1_000_000,
                    SCALE as int == 1000,
                    COORD_LIMIT as int == 1_000_000_000,
            ;
            assert(-(COORD_LIMIT as int) <= (k as int) * dir@.1 <= COORD_LIMIT as int)
                by (nonlinear_arith)
                requires
                    1 <= k as int <= COUNT_LIMIT as int,
                    -(SCALE as int) <= dir@.1 <= SCALE as int,
                    COUNT_LIMIT as int == 1_000_000,
                    SCALE as int == 1000,
                    COORD_LIMIT as int == 1_000_000_000,
            ;
            assert(-(COORD_LIMIT as int) <= (k as int) * dir@.2 <= COORD_LIMIT as int)
                by (nonlinear_arith)
                requires
                    1 <= k as int <= COUNT_LIMIT as int,
                    -(SCALE as int) <= dir@.2 <= SCALE as int,
                    COUNT_LIMIT as int == 1_000_000,
                    SCALE as int == 1000,
                    COORD_LIMIT as int == 1_000_000_000,
            ;
        }
        v3_scale(k, dir)
    }
}

#[verifier::loop_isolation(false)]
pub fn alignment_force(cfg: &Config, agents: &Vec<Agent>, i: usize) -> (r: V3)
    requires
        cfg.wf(),
        agents_wf(agents@),
        i < agents@.len(),
    ensures
        r@ == alignment_spec(*cfg, agents@, i as int),
        bounded(r@, SCALE as int),
{
    let n = agents.len();
    let ps2 = mul_wide(cfg.personal_space, cfg.personal_space);
    let vr2 = mul_wide(cfg.vision_range, cfg.vision_range);
    let mut count: usize = 0;
    let mut sum = v3_zero();
    let mut j: usize = 0;
    while j < n
        invariant
            j <= n,
            count <= j,
            count as int == flock_count(*cfg, agents@, i as int, j as int),
            sum@ == flock_head_sum(*cfg, agents@, i as int, j as int),
            bounded(sum@, (count as int) * (SCALE as int)),
        decreases n - j,
    {
        if j != i {
            let d2 = v3_dist_sq(agents[i].position, agents[j].position);
            if ps2 < d2 && d2 < vr2 {
                sum = v3_add(sum, v3_normalize(agents[j].velocity));
                count = count + 1;
            }
        }
        j = j + 1;
    }
    if count == 0 {
        v3_zero()
    } else {
        let m = count as i64;
        proof {
            lemma_div_t_bound(sum@.0, m as int, SCALE as int);
            lemma_div_t_bound(sum@.1, m as int, SCALE as int);
            lemma_div_t_bound(sum@.2, m as int, SCALE as int);
        }
        let avg = V3 {
            x: crate::math::div_fix(sum.x, m),
            y: crate::math::div_fix(sum.y, m),
            z: crate::math::div_fix(sum.z, m),
        };
        v3_normalize(avg)
    }
}

#[verifier::loop_isolation(false)]
pub fn cohesion_force(cfg: &Config, agents: &Vec<Agent>, i: usize) -> (r: V3)
    requires
        cfg.wf(),
        agents_wf(agents@),
        i < agents@.len(),
    ensures
        r@ == cohesion_spec(*cfg, agents@, i as int),
        bounded(r@, SCALE as int),
{
    let n = agents.len();
    let ps2 = mul_wide(cfg.personal_space, cfg.personal_space);
    let vr2 = mul_wide(cfg.vision_range, cfg.vision_range);
    let own_pos = agents[i].position;
    let mut count: usize = 0;
    let mut sum = v3_zero();
    let mut j: usize = 0;
    while j < n
        invariant
            j <= n,
            count <= j,
            count as int == flock_count(*cfg, agents@, i as int, j as int),
            sum@ == flock_pos_sum(*cfg, agents@, i as int, j as int),
            bounded(sum@, (count as int) * (COORD_LIMIT as int)),
        decreases n - j,
    {
        if j != i {
            let d2 = v3_dist_sq(agents[i].position, agents[j].position);
            if ps2 < d2 && d2 < vr2 {
                sum = v3_add(sum, agents[j].position);
                count = count + 1;
            }
        }
        j = j + 1;
    }
    if count == 0 {
        v3_zero()
    } else {
        let m = count as i64;
        proof {
            lemma_div_t_bound(sum@.0, m as int, COORD_LIMIT as int);
            lemma_div_t_bound(sum@.1, m as int, COORD_LIMIT as int);
            lemma_div_t_bound(sum@.2, m as int, COORD_LIMIT as int);
        }
        let avg = V3 {
            x: crate::math::div_fix(sum.x, m),
            y: crate::math::div_fix(sum.y, m),
            z: crate::math::div_fix(sum.z, m),
        };
        v3_normalize(v3_sub(avg, own_pos))
    }
}

/// The weighted blend of the five steering forces, before clamping.
pub open spec fn blend_spec(cfg: Config, agents: Seq<Agent>, i: int) -> Iv3 {
    vadd(
        vadd(
            vadd(
                vadd(
                    vscale(cfg.w_separation as int, separation_spec(cfg, agents, i)),
                    vscale(cfg.w_alignment as int, alignment_spec(cfg, agents, i)),
                ),
                vscale(cfg.w_cohesion as int, cohesion_spec(cfg, agents, i)),
            ),
            vscale(cfg.w_boundary as int, boundary_spec(cfg, agents[i].position@)),
        ),
        vscale(cfg.w_drag as int, drag_spec(cfg, agents[i].velocity@)),
    )
}

/// The acceleration the evaluator assigns to agent `i`: the blend,
/// clamped in length to the configured maximum.
pub open spec fn accel_spec(cfg: Config, agents: Seq<Agent>, i: int) -> Iv3 {
    vclamp(blend_spec(cfg, agents, i), cfg.max_acceleration as int)
}

pub fn evaluate_acceleration(cfg: &Config, agents: &Vec<Agent>, i: usize) -> (r: V3)
    requires
        cfg.wf(),
        agents_wf(agents@),
        i < agents@.len(),
    ensures
        r@ == accel_spec(*cfg, agents@, i as int),
        bounded(r@, ACCEL_LIMIT as int),
{
    let sep = separation_force(cfg, agents, i);
    let ali = alignment_force(cfg, agents, i);
    let coh = cohesion_force(cfg, agents, i);
    let bnd = boundary_force(cfg, agents[i].position);
    let drg = drag_force(cfg, agents[i].velocity);
    proof {
        crate::math::lemma_scale_bounded(
            cfg.w_separation as int,
            sep@,
            WEIGHT_LIMIT as int,
            COORD_LIMIT as int,
        );
        crate::math::lemma_scale_bounded(
            cfg.w_alignment as int,
            ali@,
            WEIGHT_LIMIT as int,
            SCALE as int,
        );
        crate::math::lemma_scale_bounded(
            cfg.w_cohesion as int,
            coh@,
            WEIGHT_LIMIT as int,
            SCALE as int,
        );
        crate::math::lemma_scale_bounded(
            cfg.w_boundary as int,
            bnd@,
            WEIGHT_LIMIT as int,
            SCALE as int,
        );
        crate::math::lemma_scale_bounded(
            cfg.w_drag as int,
            drg@,
            WEIGHT_LIMIT as int,
            DRAG_LIMIT as int,
        );
    }
    let t1 = v3_scale(cfg.w_separation, sep);
    let t2 = v3_scale(cfg.w_alignment, ali);
    let t3 = v3_scale(cfg.w_cohesion, coh);
    let t4 = v3_scale(cfg.w_boundary, bnd);
    let t5 = v3_scale(cfg.w_drag, drg);
    let blend = v3_add(v3_add(v3_add(v3_add(t1, t2), t3), t4), t5);
    proof {
        crate::math::lemma_vclamp_bounded(
            blend@,
            cfg.max_acceleration as int,
            ACCEL_LIMIT as int,
        );
    }
    v3_clamp(blend, cfg.max_acceleration)
}

/// Advance a velocity by one tick of its acceleration.
pub open spec fn vel_step(v: Iv3, a: Iv3, dt: int) -> Iv3 {
    vadd(v, vdiv(vscale(dt, a), SCALE as int))
}

/// Advance a position by one tick of the already-updated velocity.
pub open spec fn pos_step(p: Iv3, v_new: Iv3, dt: int) -> Iv3 {
    vadd(p, vdiv(vscale(dt, v_new), SCALE as int))
}

/// The facing after a tick: along the new velocity, or unchanged when the
/// new velocity is exactly zero.
pub open spec fn facing_step(f: Iv3, v_new: Iv3) -> Iv3 {
    if v_new == vzero() {
        f
    } else {
        vnorm(v_new)
    }
}

/// Bound on velocity components after one integration step.
pub const VEL_OUT_LIMIT: i64 = 200_000_000_000_000;

/// Bound on position components after one integration step.
pub const POS_OUT_LIMIT: i64 = 3_000_000_000_000_000;

pub fn integrate_agent(a: Agent, dt: i64) -> (r: Agent)
    requires
        a.wf(),
        0 <= dt <= DT_LIMIT,
    ensures
        r.acceleration == a.acceleration,
        r.velocity@ == vel_step(a.velocity@, a.acceleration@, dt as int),
        r.position@ == pos_step(
            a.position@,
            vel_step(a.velocity@, a.acceleration@, dt as int),
            dt as int,
        ),
        r.facing@ == facing_step(a.facing@, vel_step(a.velocity@, a.acceleration@, dt as int)),
        bounded(r.velocity@, VEL_OUT_LIMIT as int),
        bounded(r.position@, POS_OUT_LIMIT as int),
        bounded(r.facing@, SCALE as int),
{
    proof {
        crate::math::lemma_scale_bounded(
            dt as int,
            a.acceleration@,
            DT_LIMIT as int,
            ACCEL_LIMIT as int,
        );
        lemma_div_t_bound((dt as int) * a.acceleration@.0, SCALE as int, 100_000_000_000_000);
        lemma_div_t_bound((dt as int) * a.acceleration@.1, SCALE as int, 100_000_000_000_000);
        lemma_div_t_bound((dt as int) * a.acceleration@.2, SCALE as int, 100_000_000_000_000);
    }
    let dv = V3 {
        x: crate::math::div_fix(dt * a.acceleration.x, SCALE),
        y: crate::math::div_fix(dt * a.acceleration.y, SCALE),
        z: crate::math::div_fix(dt * a.acceleration.z, SCALE),
    };
    let vel = v3_add(a.velocity, dv);
    proof {
        crate::math::lemma_scale_bounded(dt as int, vel@, DT_LIMIT as int, VEL_OUT_LIMIT as int);
        lemma_div_t_bound((dt as int) * vel@.0, SCALE as int, 2_000_000_000_000_000);
        lemma_div_t_bound((dt as int) * vel@.1, SCALE as int, 2_000_000_000_000_000);
        lemma_div_t_bound((dt as int) * vel@.2, SCALE as int, 2_000_000_000_000_000);
    }
    let dp = V3 {
        x: crate::math::div_fix(dt * vel.x, SCALE),
        y: crate::math::div_fix(dt * vel.y, SCALE),
        z: crate::math::div_fix(dt * vel.z, SCALE),
    };
    let pos = v3_add(a.position, dp);
    let facing = if vel.x == 0 && vel.y == 0 && vel.z == 0 {
        a.facing
    } else {
        v3_normalize(vel)
    };
    Agent { position: pos, velocity: vel, acceleration: a.acceleration, facing }
}

/// The evaluator pass: recompute every agent's acceleration from a
/// settled snapshot of the previous tick, touching nothing else. Every
/// acceleration is a function of the incoming state alone, so the result
/// is independent of evaluation order.
#[verifier::loop_isolation(false)]
pub fn evaluate_all(w: &mut World)
    requires
        old(w).wf(),
    ensures
        final(w).config == old(w).config,
        final(w).agents@.len() == old(w).agents@.len(),
        forall|i: int|
            0 <= i < old(w).agents@.len() ==> {
                let a = #[trigger] final(w).agents@[i];
                &&& a.position == old(w).agents@[i].position
                &&& a.velocity == old(w).agents@[i].velocity
                &&& a.facing == old(w).agents@[i].facing
                &&& a.acceleration@ == accel_spec(old(w).config, old(w).agents@, i)
                &&& a.wf()
            },
        final(w).wf(),
{
    let n = w.agents.len();
    let mut out: Vec<Agent> = Vec::new();
    let mut i: usize = 0;
    while i < n
        invariant
            i <= n,
            out@.len() == i as int,
            w.config == old(w).config,
            w.agents@ == old(w).agents@,
            forall|k: int|
                0 <= k < i as int ==> {
                    let a = #[trigger] out@[k];
                    &&& a.position == old(w).agents@[k].position
                    &&& a.velocity == old(w).agents@[k].velocity
                    &&& a.facing == old(w).agents@[k].facing
                    &&& a.acceleration@ == accel_spec(old(w).config, old(w).agents@, k)
                    &&& a.wf()
                },
        decreases n - i,
    {
        let acc = evaluate_acceleration(&w.config, &w.agents, i);
        let a = w.agents[i];
        out.push(
            Agent { position: a.position, velocity: a.velocity, acceleration: acc, facing: a.facing },
        );
        i = i + 1;
    }
    w.agents = out;
}

/// The integrator pass: advance every agent's velocity, position and
/// facing by `dt`, leaving the acceleration as the evaluator set it.
#[verifier::loop_isolation(false)]
pub fn integrate(w: &mut World, dt: i64)
    requires
        old(w).wf(),
        0 <= dt <= DT_LIMIT,
    ensures
        final(w).config == old(w).config,
        final(w).agents@.len() == old(w).agents@.len(),
        forall|i: int|
            0 <= i < old(w).agents@.len() ==> {
                let a = #[trigger] final(w).agents@[i];
                let b = old(w).agents@[i];
                &&& a.acceleration == b.acceleration
                &&& a.velocity@ == vel_step(b.velocity@, b.acceleration@, dt as int)
                &&& a.position@ == pos_step(
                    b.position@,
                    vel_step(b.velocity@, b.acceleration@, dt as int),
                    dt as int,
                )
                &&& a.facing@ == facing_step(
                    b.facing@,
                    vel_step(b.velocity@, b.acceleration@, dt as int),
                )
                &&& bounded(a.velocity@, VEL_OUT_LIMIT as int)
                &&& bounded(a.position@, POS_OUT_LIMIT as int)
                &&& bounded(a.facing@, SCALE as int)
            },
{
    let n = w.agents.len();
    let mut out: Vec<Agent> = Vec::new();
    let mut i: usize = 0;
    while i < n
        invariant
            i <= n,
            out@.len() == i as int,
            w.config == old(w).config,
            w.agents@ == old(w).agents@,
            forall|k: int|
                0 <= k < i as int ==> {
                    let a = #[trigger] out@[k];
                    let b = old(w).agents@[k];
                    &&& a.acceleration == b.acceleration
                    &&& a.velocity@ == vel_step(b.velocity@, b.acceleration@, dt as int)
                    &&& a.position@ == pos_step(
                        b.position@,
                        vel_step(b.velocity@, b.acceleration@, dt as int),
                        dt as int,
                    )
                    &&& a.facing@ == facing_step(
                        b.facing@,
                        vel_step(b.velocity@, b.acceleration@, dt as int),
                    )
                    &&& bounded(a.velocity@, VEL_OUT_LIMIT as int)
                    &&& bounded(a.position@, POS_OUT_LIMIT as int)
                    &&& bounded(a.facing@, SCALE as int)
                },
        decreases n - i,
    {
        out.push(integrate_agent(w.agents[i], dt));
        i = i + 1;
    }
    w.agents = out;
}

/// The velocity of agent `i` after one whole tick from a snapshot.
pub open spec fn tick_vel(cfg: Config, agents: Seq<Agent>, i: int, dt: int) -> Iv3 {
    vel_step(agents[i].velocity@, accel_spec(cfg, agents, i), dt)
}

/// The position of agent `i` after one whole tick from a snapshot.
pub open spec fn tick_pos(cfg: Config, agents: Seq<Agent>, i: int, dt: int) -> Iv3 {
    pos_step(agents[i].position@, tick_vel(cfg, agents, i, dt), dt)
}

/// The facing of agent `i` after one whole tick from a snapshot.
pub open spec fn tick_facing(cfg: Config, agents: Seq<Agent>, i: int, dt: int) -> Iv3 {
    facing_step(agents[i].facing@, tick_vel(cfg, agents, i, dt))
}

/// One whole simulation tick: the evaluator runs for every agent on the
/// incoming snapshot, and only then does the integrator advance anyone.
/// The outcome is a pure function of the snapshot and `dt`.
pub fn tick(w: &mut World, dt: i64)
    requires
        old(w).wf(),
        0 <= dt <= DT_LIMIT,
    ensures
        final(w).config == old(w).config,
        final(w).agents@.len() == old(w).agents@.len(),
        forall|i: int|
            0 <= i < old(w).agents@.len() ==> {
                let a = #[trigger] final(w).agents@[i];
                &&& a.acceleration@ == accel_spec(old(w).config, old(w).agents@, i)
                &&& a.velocity@ == tick_vel(old(w).config, old(w).agents@, i, dt as int)
                &&& a.position@ == tick_pos(old(w).config, old(w).agents@, i, dt as int)
                &&& a.facing@ == tick_facing(old(w).config, old(w).agents@, i, dt as int)
                &&& bounded(a.velocity@, VEL_OUT_LIMIT as int)
                &&& bounded(a.position@, POS_OUT_LIMIT as int)
                &&& bounded(a.facing@, SCALE as int)
            },
{
    evaluate_all(w);
    integrate(w, dt);
}

/// Hard-wrap boundary handling for one coordinate: a coordinate that
/// exceeds a bound is reset to the opposite extreme (periodic topology).
pub open spec fn wrap_coord(p: int, hw: int) -> int {
    if p > hw {
        -hw
    } else if p < -hw {
        hw
    } else {
        p
    }
}

/// Hard-reflect boundary handling for one velocity coordinate: at or
/// beyond a bound and still heading outward, the sign flips inward.
pub open spec fn reflect_vel_coord(p: int, v: int, hw: int) -> int {
    if p >= hw && v > 0 {
        -v
    } else if p <= -hw && v < 0 {
        -v
    } else {
        v
    }
}

/// Wrapping lands every coordinate inside the bounds, and teleports
/// exactly the coordinates that exceeded them.
pub proof fn lemma_wrap_in_bounds(p: int, hw: int)
    requires
        hw >= 1,
        -hw <= p <= hw || p > hw || p < -hw,
    ensures
        -hw <= wrap_coord(p, hw) <= hw,
        p > hw ==> wrap_coord(p, hw) == -hw,
        p < -hw ==> wrap_coord(p, hw) == hw,
        -hw <= p <= hw ==> wrap_coord(p, hw) == p,
{
}

/// Reflection changes only signs, so it preserves the speed exactly.
pub proof fn lemma_reflect_preserves_speed(p: Iv3, v: Iv3, hw: Iv3)
    ensures
        norm_sq(
            (
                reflect_vel_coord(p.0, v.0, hw.0),
                reflect_vel_coord(p.1, v.1, hw.1),
                reflect_vel_coord(p.2, v.2, hw.2),
            ),
        ) == norm_sq(v),
{
    assert((-v.0) * (-v.0) == v.0 * v.0) by (nonlinear_arith);
    assert((-v.1) * (-v.1) == v.1 * v.1) by (nonlinear_arith);
    assert((-v.2) * (-v.2) == v.2 * v.2) by (nonlinear_arith);
}

/// The hard-wrap alternate boundary policy, run after a tick in place of
/// relying on the soft boundary force: positions wrap to the opposite
/// extreme, and nothing else changes.
#[verifier::loop_isolation(false)]
pub fn apply_wrap(w: &mut World)
    requires
        old(w).config.wf(),
    ensures
        final(w).config == old(w).config,
        final(w).agents@.len() == old(w).agents@.len(),
        forall|i: int|
            0 <= i < old(w).agents@.len() ==> {
                let a = #[trigger] final(w).agents@[i];
                let b = old(w).agents@[i];
                &&& a.velocity == b.velocity
                &&& a.acceleration == b.acceleration
                &&& a.facing == b.facing
                &&& a.position@ == (
                    wrap_coord(b.position@.0, old(w).config.half_width_x as int),
                    wrap_coord(b.position@.1, old(w).config.half_width_y as int),
                    wrap_coord(b.position@.2, old(w).config.half_width_z as int),
                )
            },
{
    let n = w.agents.len();
    let mut out: Vec<Agent> = Vec::new();
    let mut i: usize = 0;
    while i < n
        invariant
            i <= n,
            out@.len() == i as int,
            w.config == old(w).config,
            w.agents@ == old(w).agents@,
            forall|k: int|
                0 <= k < i as int ==> {
                    let a = #[trigger] out@[k];
                    let b = old(w).agents@[k];
                    &&& a.velocity == b.velocity
                    &&& a.acceleration == b.acceleration
                    &&& a.facing == b.facing
                    &&& a.position@ == (
                        wrap_coord(b.position@.0, old(w).config.half_width_x as int),
                        wrap_coord(b.position@.1, old(w).config.half_width_y as int),
                        wrap_coord(b.position@.2, old(w).config.half_width_z as int),
                    )
                },
        decreases n - i,
    {
        let a = w.agents[i];
        let x: i64 = if a.position.x > w.config.half_width_x {
            -w.config.half_width_x
        } else if a.position.x < -w.config.half_width_x {
            w.config.half_width_x
        } else {
            a.position.x
        };
        let y: i64 = if a.position.y > w.config.half_width_y {
            -w.config.half_width_y
        } else if a.position.y < -w.config.half_width_y {
            w.config.half_width_y
        } else {
            a.position.y
        };
        let z: i64 = if a.position.z > w.config.half_width_z {
            -w.config.half_width_z
        } else if a.position.z < -w.config.half_width_z {
            w.config.half_width_z
        } else {
            a.position.z
        };
        out.push(Agent { position: V3 { x, y, z }, ..a });
        i = i + 1;
    }
    w.agents = out;
}

/// The hard-reflect alternate boundary policy, run after a tick in place
/// of relying on the soft boundary force: a velocity component still
/// heading outward at or beyond a bound flips inward, and nothing else
/// changes.
#[verifier::loop_isolation(false)]
pub fn apply_reflect(w: &mut World)
    requires
        old(w).config.wf(),
        forall|i: int|
            0 <= i < old(w).agents@.len() ==> bounded(
                (#[trigger] old(w).agents@[i]).velocity@,
                VEL_OUT_LIMIT as int,
            ),
    ensures
        final(w).config == old(w).config,
        final(w).agents@.len() == old(w).agents@.len(),
        forall|i: int|
            0 <= i < old(w).agents@.len() ==> {
                let a = #[trigger] final(w).agents@[i];
                let b = old(w).agents@[i];
                &&& a.position == b.position
                &&& a.acceleration == b.acceleration
                &&& a.facing == b.facing
                &&& a.velocity@ == (
                    reflect_vel_coord(
                        b.position@.0,
                        b.velocity@.0,
                        old(w).config.half_width_x as int,
                    ),
                    reflect_vel_coord(
                        b.position@.1,
                        b.velocity@.1,
                        old(w).config.half_width_y as int,
                    ),
                    reflect_vel_coord(
                        b.position@.2,
                        b.velocity@.2,
                        old(w).config.half_width_z as int,
                    ),
                )
            },
{
    let n = w.agents.len();
    let mut out: Vec<Agent> = Vec::new();
    let mut i: usize = 0;
    while i < n
        invariant
            i <= n,
            out@.len() == i as int,
            w.config == old(w).config,
            w.agents@ == old(w).agents@,
            forall|k: int|
                0 <= k < i as int ==> {
                    let a = #[trigger] out@[k];
                    let b = old(w).agents@[k];
                    &&& a.position == b.position
                    &&& a.acceleration == b.acceleration
                    &&& a.facing == b.facing
                    &&& a.velocity@ == (
                        reflect_vel_coord(
                            b.position@.0,
                            b.velocity@.0,
                            old(w).config.half_width_x as int,
                        ),
                        reflect_vel_coord(
                            b.position@.1,
                            b.velocity@.1,
                            old(w).config.half_width_y as int,
                        ),
                        reflect_vel_coord(
                            b.position@.2,
                            b.velocity@.2,
                            old(w).config.half_width_z as int,
                        ),
                    )
                },
        decreases n - i,
    {
        let a = w.agents[i];
        let x: i64 = if a.position.x >= w.config.half_width_x && a.velocity.x > 0 {
            -a.velocity.x
        } else if a.position.x <= -w.config.half_width_x && a.velocity.x < 0 {
            -a.velocity.x
        } else {
            a.velocity.x
        };
        let y: i64 = if a.position.y >= w.config.half_width_y && a.velocity.y > 0 {
            -a.velocity.y
        } else if a.position.y <= -w.config.half_width_y && a.velocity.y < 0 {
            -a.velocity.y
        } else {
            a.velocity.y
        };
        let z: i64 = if a.position.z >= w.config.half_width_z && a.velocity.z > 0 {
            -a.velocity.z
        } else if a.position.z <= -w.config.half_width_z && a.velocity.z < 0 {
            -a.velocity.z
        } else {
            a.velocity.z
        };
        out.push(Agent { velocity: V3 { x, y, z }, ..a });
        i = i + 1;
    }
    w.agents = out;
}

/// Decide executably whether a world satisfies its invariant, so a host
/// loop can re-establish `tick`'s precondition before every call.
#[verifier::loop_isolation(false)]
pub fn world_wf_check(w: &World) -> (b: bool)
    ensures
        b == w.wf(),
{
    let c = &w.config;
    let cfg_ok = 1 <= c.half_width_x && c.half_width_x <= COORD_LIMIT && 1 <= c.half_width_y
        && c.half_width_y <= COORD_LIMIT && 1 <= c.half_width_z && c.half_width_z <= COORD_LIMIT
        && 0 <= c.personal_space && c.personal_space <= c.vision_range && c.vision_range
        <= COORD_LIMIT && 0 <= c.w_separation && c.w_separation <= WEIGHT_LIMIT && 0
        <= c.w_alignment && c.w_alignment <= WEIGHT_LIMIT && 0 <= c.w_cohesion && c.w_cohesion
        <= WEIGHT_LIMIT && 0 <= c.w_boundary && c.w_boundary <= WEIGHT_LIMIT && 0 <= c.w_drag
        && c.w_drag <= WEIGHT_LIMIT && 0 <= c.speed_soft_cap && c.speed_soft_cap <= COORD_LIMIT && 0
        <= c.max_acceleration && c.max_acceleration <= COORD_LIMIT;
    if !cfg_ok {
        return false;
    }
    let n = w.agents.len();
    if n > COUNT_LIMIT {
        return false;
    }
    let mut i: usize = 0;
    while i < n
        invariant
            i <= n,
            forall|k: int| 0 <= k < i as int ==> (#[trigger] w.agents@[k]).wf(),
        decreases n - i,
    {
        let a = &w.agents[i];
        let ok = -COORD_LIMIT <= a.position.x && a.position.x <= COORD_LIMIT && -COORD_LIMIT
            <= a.position.y && a.position.y <= COORD_LIMIT && -COORD_LIMIT <= a.position.z
            && a.position.z <= COORD_LIMIT && -COORD_LIMIT <= a.velocity.x && a.velocity.x
            <= COORD_LIMIT && -COORD_LIMIT <= a.velocity.y && a.velocity.y <= COORD_LIMIT
            && -COORD_LIMIT <= a.velocity.z && a.velocity.z <= COORD_LIMIT && -ACCEL_LIMIT
            <= a.acceleration.x && a.acceleration.x <= ACCEL_LIMIT && -ACCEL_LIMIT
            <= a.acceleration.y && a.acceleration.y <= ACCEL_LIMIT && -ACCEL_LIMIT
            <= a.acceleration.z && a.acceleration.z <= ACCEL_LIMIT && -SCALE <= a.facing.x
            && a.facing.x <= SCALE && -SCALE <= a.facing.y && a.facing.y <= SCALE && -SCALE
            <= a.facing.z && a.facing.z <= SCALE;
        if !ok {
            return false;
        }
        i = i + 1;
    }
    true
}

} // verus!
