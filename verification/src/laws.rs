//! Global laws of the simulation, each stated over the spec model and
//! proved once and for all.

use vstd::prelude::*;
use crate::flock::{
    accel_spec, alignment_spec, boundary_spec, close_count, close_pos_sum, cohesion_spec,
    drag_spec, flock_count, flock_head_sum, flock_pos_sum, in_flock, separation_spec, tick_facing,
    tick_pos, tick_vel, too_close, Agent, Config,
};
use crate::math::{
    dist_sq, dot, iabs, lemma_dist_sq_sym, lemma_div_t_one, lemma_drag_term_neg,
    lemma_drag_term_nonpos, lemma_principal_component, lemma_sqrt_floor_bounds,
    lemma_sqrt_floor_ge, lemma_sqrt_floor_le, lemma_vnorm_points_along, norm_sq, sqrt_floor, vadd,
    vdiv, vlen, vnorm, vscale, vsub, vzero, Iv3, SCALE,
};

verus! {

proof fn lemma_counts_zero_upto(cfg: Config, agents: Seq<Agent>, i: int, k: int)
    requires
        cfg.wf(),
        0 <= i < agents.len(),
        k <= agents.len(),
        forall|j: int|
            0 <= j < agents.len() && j != i ==> dist_sq(
                agents[i].position@,
                (#[trigger] agents[j]).position@,
            ) >= (cfg.vision_range as int) * (cfg.vision_range as int),
    ensures
        close_count(cfg, agents, i, k) == 0,
        flock_count(cfg, agents, i, k) == 0,
        close_pos_sum(cfg, agents, i, k) == vzero(),
        flock_pos_sum(cfg, agents, i, k) == vzero(),
        flock_head_sum(cfg, agents, i, k) == vzero(),
    decreases k,
{
    if k > 0 {
        lemma_counts_zero_upto(cfg, agents, i, k - 1);
        assert((cfg.personal_space as int) * (cfg.personal_space as int) <= (
        cfg.vision_range as int) * (cfg.vision_range as int)) by (nonlinear_arith)
            requires
                0 <= cfg.personal_space as int <= cfg.vision_range as int,
        ;
        if k - 1 != i {
            assert(!too_close(cfg, agents, i, k - 1));
            assert(!in_flock(cfg, agents, i, k - 1));
        }
    }
}

/// Zero-neighbor stability: an agent with every other agent at or beyond
/// its vision range feels zero separation, alignment and cohesion; only
/// the boundary and drag terms can steer it.
pub proof fn lemma_isolated_agent_neutral(cfg: Config, agents: Seq<Agent>, i: int)
    requires
        cfg.wf(),
        0 <= i < agents.len(),
        forall|j: int|
            0 <= j < agents.len() && j != i ==> dist_sq(
                agents[i].position@,
                (#[trigger] agents[j]).position@,
            ) >= (cfg.vision_range as int) * (cfg.vision_range as int),
    ensures
        separation_spec(cfg, agents, i) == vzero(),
        alignment_spec(cfg, agents, i) == vzero(),
        cohesion_spec(cfg, agents, i) == vzero(),
{
    lemma_counts_zero_upto(cfg, agents, i, agents.len() as int);
}

/// Symmetry of separation: when exactly two agents stand apart but
/// strictly inside each other's personal space, each one's separation
/// force pushes strictly away from the other, never toward it.
pub proof fn lemma_separation_pushes_apart(cfg: Config, agents: Seq<Agent>)
    requires
        cfg.wf(),
        agents.len() == 2,
        agents[0].position@ != agents[1].position@,
        dist_sq(agents[0].position@, agents[1].position@) < (cfg.personal_space as int) * (
        cfg.personal_space as int),
    ensures
        dot(separation_spec(cfg, agents, 0), vsub(agents[0].position@, agents[1].position@)) > 0,
        dot(separation_spec(cfg, agents, 1), vsub(agents[1].position@, agents[0].position@)) > 0,
{
    let p0 = agents[0].position@;
    let p1 = agents[1].position@;
    lemma_dist_sq_sym(p0, p1);
    assert(too_close(cfg, agents, 0, 1));
    assert(!too_close(cfg, agents, 0, 0));
    assert(too_close(cfg, agents, 1, 0));
    assert(!too_close(cfg, agents, 1, 1));
    assert(close_count(cfg, agents, 0, 0) == 0);
    assert(close_count(cfg, agents, 0, 1) == 0);
    assert(close_count(cfg, agents, 0, 2) == 1);
    assert(close_count(cfg, agents, 1, 0) == 0);
    assert(close_count(cfg, agents, 1, 1) == 1);
    assert(close_count(cfg, agents, 1, 2) == 1);
    assert(close_pos_sum(cfg, agents, 0, 0) == vzero());
    assert(close_pos_sum(cfg, agents, 0, 1) == vzero());
    assert(close_pos_sum(cfg, agents, 0, 2) == vadd(vzero(), p1));
    assert(vadd(vzero(), p1) == p1);
    assert(close_pos_sum(cfg, agents, 1, 0) == vzero());
    assert(close_pos_sum(cfg, agents, 1, 1) == vadd(vzero(), p0));
    assert(close_pos_sum(cfg, agents, 1, 2) == vadd(vadd(vzero(), p0), vzero()));
    assert(close_pos_sum(cfg, agents, 1, 2) == p0);
    lemma_div_t_one(p0.0);
    lemma_div_t_one(p0.1);
    lemma_div_t_one(p0.2);
    lemma_div_t_one(p1.0);
    lemma_div_t_one(p1.1);
    lemma_div_t_one(p1.2);
    assert(vdiv(close_pos_sum(cfg, agents, 0, 2), 1) == p1);
    assert(vdiv(close_pos_sum(cfg, agents, 1, 2), 1) == p0);
    let d0 = vsub(p0, p1);
    let d1 = vsub(p1, p0);
    assert(d0 != vzero());
    assert(d1 != vzero());
    lemma_vnorm_points_along(d0);
    lemma_vnorm_points_along(d1);
    assert(separation_spec(cfg, agents, 0) == vscale(1, vnorm(d0)));
    assert(vscale(1, vnorm(d0)) == vnorm(d0));
    assert(separation_spec(cfg, agents, 1) == vscale(1, vnorm(d1)));
    assert(vscale(1, vnorm(d1)) == vnorm(d1));
}

/// Speed discipline, keeping part: an agent with no neighbor stimulus,
/// strictly inside the bounds, and at or below the soft cap keeps its
/// velocity exactly unchanged through a tick of any allowed duration.
pub proof fn lemma_subcap_speed_kept(cfg: Config, agents: Seq<Agent>, i: int, dt: int)
    requires
        cfg.wf(),
        0 <= i < agents.len(),
        forall|j: int|
            0 <= j < agents.len() && j != i ==> dist_sq(
                agents[i].position@,
                (#[trigger] agents[j]).position@,
            ) >= (cfg.vision_range as int) * (cfg.vision_range as int),
        -(cfg.half_width_x as int) < agents[i].position@.0 < cfg.half_width_x as int,
        -(cfg.half_width_y as int) < agents[i].position@.1 < cfg.half_width_y as int,
        -(cfg.half_width_z as int) < agents[i].position@.2 < cfg.half_width_z as int,
        norm_sq(agents[i].velocity@) <= (cfg.speed_soft_cap as int) * (cfg.speed_soft_cap as int),
        0 <= dt,
    ensures
        tick_vel(cfg, agents, i, dt) == agents[i].velocity@,
{
    lemma_isolated_agent_neutral(cfg, agents, i);
    let v = agents[i].velocity@;
    assert(norm_sq(v) >= 0) by (nonlinear_arith);
    lemma_sqrt_floor_le(norm_sq(v), cfg.speed_soft_cap as int);
    assert(drag_spec(cfg, v) == vzero());
    assert(boundary_spec(cfg, agents[i].position@) == vzero());
    assert(accel_spec(cfg, agents, i) == vzero()) by {
        assert(norm_sq(vzero()) == 0);
        assert(sqrt_floor(0) == 0);
        crate::math::lemma_div_bounds(0, SCALE as int);
    };
    crate::math::lemma_div_bounds(0, SCALE as int);
    assert(tick_vel(cfg, agents, i, dt) == v);
}

/// Speed discipline, slowing part: the drag force never pushes along the
/// velocity, and once the speed exceeds the soft cap by at least one
/// whole fixed-point unit it pushes strictly against it.
pub proof fn lemma_drag_opposes_motion(cfg: Config, v: Iv3)
    requires
        cfg.wf(),
    ensures
        dot(drag_spec(cfg, v), v) <= 0,
        norm_sq(v) >= ((cfg.speed_soft_cap + SCALE) as int) * ((cfg.speed_soft_cap + SCALE) as int)
            ==> dot(drag_spec(cfg, v), v) < 0,
{
    let cap = cfg.speed_soft_cap as int;
    let ns = norm_sq(v);
    assert(v.0 * v.0 >= 0 && v.1 * v.1 >= 0 && v.2 * v.2 >= 0) by (nonlinear_arith);
    lemma_sqrt_floor_bounds(ns);
    let l = sqrt_floor(ns);
    if l > cap {
        let e = cap - l;
        lemma_drag_term_nonpos(v.0, l, e);
        lemma_drag_term_nonpos(v.1, l, e);
        lemma_drag_term_nonpos(v.2, l, e);
        assert(dot(drag_spec(cfg, v), v) <= 0);
        if ns >= (cap + SCALE as int) * (cap + SCALE as int) {
            lemma_sqrt_floor_ge(ns, cap + SCALE as int);
            assert(e <= -(SCALE as int));
            assert(v != vzero()) by {
                if v == vzero() {
                    assert(ns == 0);
                    assert((cap + SCALE as int) * (cap + SCALE as int) >= SCALE as int * (
                    SCALE as int)) by (nonlinear_arith)
                        requires
                            cap >= 0,
                            SCALE as int > 0,
                    ;
                }
            };
            lemma_principal_component(v);
            if v.0 != 0 && 2 * iabs(v.0) >= vlen(v) {
                lemma_drag_term_neg(v.0, l, e);
                assert(dot(drag_spec(cfg, v), v) <= -1);
            } else if v.1 != 0 && 2 * iabs(v.1) >= vlen(v) {
                lemma_drag_term_neg(v.1, l, e);
                assert(dot(drag_spec(cfg, v), v) <= -1);
            } else {
                lemma_drag_term_neg(v.2, l, e);
                assert(dot(drag_spec(cfg, v), v) <= -1);
            }
        }
    } else {
        assert(drag_spec(cfg, v) == vzero());
        assert(dot(drag_spec(cfg, v), v) == 0);
        if ns >= (cap + SCALE as int) * (cap + SCALE as int) {
            lemma_sqrt_floor_ge(ns, cap + SCALE as int);
            assert(false);
        }
    }
}

/// Boundary containment: on every axis the boundary force is a full unit
/// push back toward the volume whenever the coordinate is at or beyond
/// the half-width, and vanishes strictly inside the bounds.
pub proof fn lemma_boundary_force_restoring(cfg: Config, p: Iv3)
    requires
        cfg.wf(),
    ensures
        p.0 >= cfg.half_width_x ==> boundary_spec(cfg, p).0 == -(SCALE as int),
        p.0 <= -(cfg.half_width_x as int) ==> boundary_spec(cfg, p).0 == SCALE as int,
        -(cfg.half_width_x as int) < p.0 < cfg.half_width_x ==> boundary_spec(cfg, p).0 == 0,
        p.1 >= cfg.half_width_y ==> boundary_spec(cfg, p).1 == -(SCALE as int),
        p.1 <= -(cfg.half_width_y as int) ==> boundary_spec(cfg, p).1 == SCALE as int,
        -(cfg.half_width_y as int) < p.1 < cfg.half_width_y ==> boundary_spec(cfg, p).1 == 0,
        p.2 >= cfg.half_width_z ==> boundary_spec(cfg, p).2 == -(SCALE as int),
        p.2 <= -(cfg.half_width_z as int) ==> boundary_spec(cfg, p).2 == SCALE as int,
        -(cfg.half_width_z as int) < p.2 < cfg.half_width_z ==> boundary_spec(cfg, p).2 == 0,
{
}

/// Determinism: one whole tick is a pure function of the configuration,
/// the agent snapshot and the tick duration; equal inputs give equal
/// accelerations, velocities, positions and facings, independent of any
/// evaluation order.
pub proof fn lemma_tick_deterministic(
    cfg1: Config,
    agents1: Seq<Agent>,
    cfg2: Config,
    agents2: Seq<Agent>,
    i: int,
    dt1: int,
    dt2: int,
)
    requires
        cfg1 == cfg2,
        agents1 == agents2,
        dt1 == dt2,
    ensures
        accel_spec(cfg1, agents1, i) == accel_spec(cfg2, agents2, i),
        tick_vel(cfg1, agents1, i, dt1) == tick_vel(cfg2, agents2, i, dt2),
        tick_pos(cfg1, agents1, i, dt1) == tick_pos(cfg2, agents2, i, dt2),
        tick_facing(cfg1, agents1, i, dt1) == tick_facing(cfg2, agents2, i, dt2),
{
}

/// Two snapshots agree on every agent's motion state: position and
/// velocity, the only fields the evaluator may read.
pub open spec fn same_motion_state(a1: Seq<Agent>, a2: Seq<Agent>) -> bool {
    &&& a1.len() == a2.len()
    &&& forall|i: int|
        0 <= i < a1.len() ==> (#[trigger] a1[i]).position == a2[i].position && a1[i].velocity
            == a2[i].velocity
}

proof fn lemma_folds_read_only_motion_state(
    cfg: Config,
    a1: Seq<Agent>,
    a2: Seq<Agent>,
    i: int,
    k: int,
)
    requires
        same_motion_state(a1, a2),
        0 <= i < a1.len(),
        k <= a1.len(),
    ensures
        close_count(cfg, a1, i, k) == close_count(cfg, a2, i, k),
        close_pos_sum(cfg, a1, i, k) == close_pos_sum(cfg, a2, i, k),
        flock_count(cfg, a1, i, k) == flock_count(cfg, a2, i, k),
        flock_pos_sum(cfg, a1, i, k) == flock_pos_sum(cfg, a2, i, k),
        flock_head_sum(cfg, a1, i, k) == flock_head_sum(cfg, a2, i, k),
    decreases k,
{
    if k > 0 {
        lemma_folds_read_only_motion_state(cfg, a1, a2, i, k - 1);
        assert(a1[k - 1].position == a2[k - 1].position);
        assert(a1[k - 1].velocity == a2[k - 1].velocity);
        assert(too_close(cfg, a1, i, k - 1) == too_close(cfg, a2, i, k - 1));
        assert(in_flock(cfg, a1, i, k - 1) == in_flock(cfg, a2, i, k - 1));
    }
}

/// Snapshot discipline: the evaluator is a function of the agents'
/// positions and velocities alone. Stored accelerations and facings —
/// in particular any accelerations already written for other agents —
/// can never leak into a neighbor scan, so evaluation order is
/// immaterial.
pub proof fn lemma_evaluator_reads_only_motion_state(
    cfg: Config,
    a1: Seq<Agent>,
    a2: Seq<Agent>,
    i: int,
)
    requires
        same_motion_state(a1, a2),
        0 <= i < a1.len(),
    ensures
        separation_spec(cfg, a1, i) == separation_spec(cfg, a2, i),
        alignment_spec(cfg, a1, i) == alignment_spec(cfg, a2, i),
        cohesion_spec(cfg, a1, i) == cohesion_spec(cfg, a2, i),
        accel_spec(cfg, a1, i) == accel_spec(cfg, a2, i),
{
    lemma_folds_read_only_motion_state(cfg, a1, a2, i, a1.len() as int);
    assert(a1[i].position == a2[i].position);
    assert(a1[i].velocity == a2[i].velocity);
}

/// Idempotent no-op: a tick with `dt == 0` recomputes accelerations but
/// leaves every position and velocity exactly unchanged.
pub proof fn lemma_zero_dt_tick(cfg: Config, agents: Seq<Agent>, i: int)
    requires
        0 <= i < agents.len(),
    ensures
        tick_vel(cfg, agents, i, 0) == agents[i].velocity@,
        tick_pos(cfg, agents, i, 0) == agents[i].position@,
{
    crate::math::lemma_div_bounds(0, SCALE as int);
    let a = accel_spec(cfg, agents, i);
    assert(vscale(0, a) == vzero());
    let v = agents[i].velocity@;
    assert(tick_vel(cfg, agents, i, 0) == vadd(v, vdiv(vzero(), SCALE as int)));
    assert(vdiv(vzero(), SCALE as int) == vzero());
    assert(vscale(0, tick_vel(cfg, agents, i, 0)) == vzero());
}

} // verus!