//! The force steps of a simulation step. Each one reads the world's rods,
//! constraints and coefficients and acts on the joints; `World::update`
//! runs them in a fixed order. Each step's effect is stated exactly, as a
//! fold over the rods, constraints or gusts it visits, in the order it
//! visits them.
use vstd::prelude::*;
use crate::scalar::{Scalar, ratio};
use crate::vector::Vector2;
use super::{
    Angle, Bounds, InnerWorld, Joint, Rod, WindConfig, WorldConfig, angle_within, forces_only,
    motion_only, pull_force, pulled, push_force, pushed, rod_within,
};

verus! {

/// Spring and damper along each rod.
pub struct RodDistance;

/// Restoring torque of each angular constraint.
pub struct RodAngle;

/// Weight of each rod, half of it pulling each of its ends.
pub struct Gravity;

/// Drag of the wind gusts on the rods they blow across.
pub struct Wind;

/// Viscous drag on every joint.
pub struct Damping;

/// Clears the forces on fixed joints.
pub struct FixPoint;

/// Keeps every joint inside every bounds rectangle.
pub struct Bounding;

pub proof fn lemma_forces_only_trans<S>(a: Seq<Joint<S>>, b: Seq<Joint<S>>, c: Seq<Joint<S>>)
    requires
        forces_only(a, b),
        forces_only(b, c),
    ensures
        forces_only(a, c),
{
    assert forall|i: int| 0 <= i < a.len() implies (#[trigger] c[i]) == (Joint { forces: c[i].forces, ..a[i] }) by {
        assert(b[i] == (Joint { forces: b[i].forces, ..a[i] }));
        assert(c[i] == (Joint { forces: c[i].forces, ..b[i] }));
    }
}

proof fn lemma_forces_only_refl<S>(a: Seq<Joint<S>>)
    ensures
        forces_only(a, a),
{
    assert forall|i: int| 0 <= i < a.len() implies (#[trigger] a[i]) == (Joint { forces: a[i].forces, ..a[i] }) by {}
}

/// The spring and damper force of `rod` on its first end (its second end
/// takes the opposite).
pub closed spec fn rod_force<S: Scalar>(js: Seq<Joint<S>>, rod: Rod<S>, cfg: WorldConfig<S>) -> Vector2<S> {
    let (a, b) = (rod.ends[0] as int, rod.ends[1] as int);
    let dir = js[b].position.spec_sub(js[a].position);
    let unit = dir.spec_normalized();
    let speed = js[b].velocity.spec_sub(js[a].velocity).spec_dot(unit);
    let spring = unit.spec_scale(cfg.rod_stiffness.spec_mul(dir.spec_length().spec_sub(rod.dist)));
    let damping = unit.spec_scale(cfg.rod_damping.spec_mul(speed));
    spring.spec_add(damping)
}

/// `js` after the spring and damper of each of `rods`, in order.
pub closed spec fn rods_applied<S: Scalar>(js: Seq<Joint<S>>, rods: Seq<Rod<S>>, cfg: WorldConfig<S>) -> Seq<Joint<S>>
    decreases rods.len(),
{
    if rods.len() == 0 {
        js
    } else {
        let prev = rods_applied(js, rods.drop_last(), cfg);
        let rod = rods.last();
        let f = rod_force(prev, rod, cfg);
        pulled(pushed(prev, rod.ends[0] as int, f), rod.ends[1] as int, f)
    }
}

impl RodDistance {
    pub(super) fn apply<S: Scalar>(&self, joints: &mut Vec<Joint<S>>, data: &InnerWorld<S>)
        requires
            data.refs_within(old(joints)@.len()),
        ensures
            forces_only(old(joints)@, final(joints)@),
            final(joints)@ == rods_applied(old(joints)@, data.rods@, data.config),
    {
        proof { lemma_forces_only_refl(joints@); }
        let mut i: usize = 0;
        while i < data.rods.len()
            invariant
                i <= data.rods@.len(),
                forces_only(old(joints)@, joints@),
                joints@ == rods_applied(old(joints)@, data.rods@.subrange(0, i as int), data.config),
                data.refs_within(old(joints)@.len()),
            decreases data.rods.len() - i,
        {
            let rod = &data.rods[i];
            assert(rod_within(data.rods@[i as int], old(joints)@.len()));
            let (a, b) = (rod.ends[0], rod.ends[1]);

            let dir = joints[b].position.sub(joints[a].position);
            let unit = dir.normalized();
            let speed = joints[b].velocity.sub(joints[a].velocity).dot(unit);

            let spring = unit.scale(data.config.rod_stiffness.mul(dir.length().sub(rod.dist)));
            let damping = unit.scale(data.config.rod_damping.mul(speed));

            let force = spring.add(damping);
            let ghost j0 = joints@;
            push_force(joints, a, force);
            let ghost j1 = joints@;
            pull_force(joints, b, force);
            proof {
                lemma_forces_only_trans(old(joints)@, j0, j1);
                lemma_forces_only_trans(old(joints)@, j1, joints@);
                assert(data.rods@.subrange(0, i + 1).drop_last() =~= data.rods@.subrange(0, i as int));
            }
            i += 1;
        }
        assert(data.rods@.subrange(0, data.rods@.len() as int) =~= data.rods@);
    }
}

/// How many turns the angular error may be shifted by. A difference of two
/// angles in `(-pi, pi]` needs one turn at most; the bound keeps a value that
/// a turn does not change (an infinite or enormous one) from looping forever.
pub const WRAP_TURNS: u32 = 64;

/// `x` raised by whole turns while it is at most `-pi`, at most `turns` times.
pub open spec fn wrap_up<S: Scalar>(x: S, turns: nat) -> S
    decreases turns,
{
    let pi = S::spec_pi();
    if turns == 0 || !x.spec_le(pi.spec_neg()) {
        x
    } else {
        wrap_up(x.spec_add(pi.spec_add(pi)), (turns - 1) as nat)
    }
}

/// `x` lowered by whole turns while it is above `pi`, at most `turns` times.
pub open spec fn wrap_down<S: Scalar>(x: S, turns: nat) -> S
    decreases turns,
{
    let pi = S::spec_pi();
    if turns == 0 || !pi.spec_lt(x) {
        x
    } else {
        wrap_down(x.spec_sub(pi.spec_add(pi)), (turns - 1) as nat)
    }
}

/// `x` shifted by whole turns into `(-pi, pi]`, as far as `WRAP_TURNS`
/// shifts each way reach.
pub open spec fn wrapped<S: Scalar>(x: S) -> S {
    wrap_down(wrap_up(x, WRAP_TURNS as nat), WRAP_TURNS as nat)
}

fn wrap_angle<S: Scalar>(x0: S) -> (r: S)
    ensures
        r == wrapped(x0),
{
    let pi = S::pi();
    let neg_pi = pi.neg();
    let turn = pi.add(pi);
    let mut x = x0;
    let mut turns: u32 = WRAP_TURNS;
    while turns > 0 && x.le(neg_pi)
        invariant
            wrap_up(x, turns as nat) == wrap_up(x0, WRAP_TURNS as nat),
            neg_pi == S::spec_pi().spec_neg(),
            turn == S::spec_pi().spec_add(S::spec_pi()),
        decreases turns,
    {
        x = x.add(turn);
        turns -= 1;
    }
    let ghost up = x;
    turns = WRAP_TURNS;
    while turns > 0 && pi.lt(x)
        invariant
            wrap_down(x, turns as nat) == wrap_down(up, WRAP_TURNS as nat),
            pi == S::spec_pi(),
            turn == S::spec_pi().spec_add(S::spec_pi()),
        decreases turns,
    {
        x = x.sub(turn);
        turns -= 1;
    }
    x
}

/// `js` after the restoring torque of `c`: the error of the angle at the
/// pivot, wrapped into `(-pi, pi]`, times the angle stiffness, pushes each
/// outer joint across its arm and the pivot by the opposite of their sum.
pub closed spec fn angle_applied<S: Scalar>(js: Seq<Joint<S>>, c: Angle<S>, cfg: WorldConfig<S>) -> Seq<Joint<S>> {
    let (a, pivot, b) = (c.joints[0] as int, c.joints[1] as int, c.joints[2] as int);
    let dir_a = js[a].position.spec_sub(js[pivot].position).spec_normalized();
    let dir_b = js[b].position.spec_sub(js[pivot].position).spec_normalized();
    let angle = dir_a.spec_det(dir_b).spec_atan2(dir_a.spec_dot(dir_b));
    let force = wrapped(angle.spec_sub(c.angle)).spec_mul(cfg.angle_stiffness);
    let vec_a = dir_a.spec_perp().spec_scale(force);
    let vec_b = dir_b.spec_perp_cw().spec_scale(force);
    pulled(pushed(pushed(js, a, vec_a), b, vec_b), pivot, vec_a.spec_add(vec_b))
}

/// `js` after the torque of each of `angles`, in order.
pub closed spec fn angles_applied<S: Scalar>(js: Seq<Joint<S>>, angles: Seq<Angle<S>>, cfg: WorldConfig<S>) -> Seq<Joint<S>>
    decreases angles.len(),
{
    if angles.len() == 0 {
        js
    } else {
        angle_applied(angles_applied(js, angles.drop_last(), cfg), angles.last(), cfg)
    }
}

impl RodAngle {
    pub(super) fn apply<S: Scalar>(&self, joints: &mut Vec<Joint<S>>, data: &InnerWorld<S>)
        requires
            data.refs_within(old(joints)@.len()),
        ensures
            forces_only(old(joints)@, final(joints)@),
            final(joints)@ == angles_applied(old(joints)@, data.angles@, data.config),
    {
        proof { lemma_forces_only_refl(joints@); }
        let mut i: usize = 0;
        while i < data.angles.len()
            invariant
                i <= data.angles@.len(),
                forces_only(old(joints)@, joints@),
                joints@ == angles_applied(old(joints)@, data.angles@.subrange(0, i as int), data.config),
                data.refs_within(old(joints)@.len()),
            decreases data.angles.len() - i,
        {
            let constraint = &data.angles[i];
            assert(angle_within(data.angles@[i as int], old(joints)@.len()));
            let (a, pivot, b) = (constraint.joints[0], constraint.joints[1], constraint.joints[2]);

            let dir_a = joints[a].position.sub(joints[pivot].position).normalized();
            let dir_b = joints[b].position.sub(joints[pivot].position).normalized();
            let angle = dir_a.det(dir_b).atan2(dir_a.dot(dir_b));

            let angle_dif = wrap_angle(angle.sub(constraint.angle));
            let force = angle_dif.mul(data.config.angle_stiffness);

            let vec_a = dir_a.perp().scale(force);
            let vec_b = dir_b.perp_cw().scale(force);

            let ghost j0 = joints@;
            push_force(joints, a, vec_a);
            let ghost j1 = joints@;
            push_force(joints, b, vec_b);
            let ghost j2 = joints@;
            pull_force(joints, pivot, vec_a.add(vec_b));
            proof {
                lemma_forces_only_trans(old(joints)@, j0, j1);
                lemma_forces_only_trans(old(joints)@, j1, j2);
                lemma_forces_only_trans(old(joints)@, j2, joints@);
                assert(data.angles@.subrange(0, i + 1).drop_last() =~= data.angles@.subrange(0, i as int));
            }
            i += 1;
        }
        assert(data.angles@.subrange(0, data.angles@.len() as int) =~= data.angles@);
    }
}

/// The pull of gravity `g` on each end of `rod`: half of `g` times its
/// weight, along `+y`.
pub open spec fn rod_gravity<S: Scalar>(rod: Rod<S>, g: S) -> Vector2<S> {
    Vector2 { x: S::spec_zero(), y: g.spec_mul(rod.spec_weight()).spec_div(S::spec_from_int(2)) }
}

/// `js` after the weight of each of `rods`, in order.
pub closed spec fn weights_applied<S: Scalar>(js: Seq<Joint<S>>, rods: Seq<Rod<S>>, g: S) -> Seq<Joint<S>>
    decreases rods.len(),
{
    if rods.len() == 0 {
        js
    } else {
        let prev = weights_applied(js, rods.drop_last(), g);
        let rod = rods.last();
        pushed(pushed(prev, rod.ends[0] as int, rod_gravity(rod, g)), rod.ends[1] as int, rod_gravity(rod, g))
    }
}

impl Gravity {
    pub(super) fn apply<S: Scalar>(&self, joints: &mut Vec<Joint<S>>, data: &InnerWorld<S>)
        requires
            data.refs_within(old(joints)@.len()),
        ensures
            forces_only(old(joints)@, final(joints)@),
            final(joints)@ == weights_applied(old(joints)@, data.rods@, data.config.gravity),
    {
        proof { lemma_forces_only_refl(joints@); }
        let mut i: usize = 0;
        while i < data.rods.len()
            invariant
                i <= data.rods@.len(),
                forces_only(old(joints)@, joints@),
                joints@ == weights_applied(old(joints)@, data.rods@.subrange(0, i as int), data.config.gravity),
                data.refs_within(old(joints)@.len()),
            decreases data.rods.len() - i,
        {
            let rod = &data.rods[i];
            assert(rod_within(data.rods@[i as int], old(joints)@.len()));
            let gravity = Vector2::new(S::zero(), data.config.gravity.mul(rod.weight).div(S::from_int(2)));
            let ghost j0 = joints@;
            push_force(joints, rod.ends[0], gravity);
            let ghost j1 = joints@;
            push_force(joints, rod.ends[1], gravity);
            proof {
                lemma_forces_only_trans(old(joints)@, j0, j1);
                lemma_forces_only_trans(old(joints)@, j1, joints@);
                assert(data.rods@.subrange(0, i + 1).drop_last() =~= data.rods@.subrange(0, i as int));
            }
            i += 1;
        }
        assert(data.rods@.subrange(0, data.rods@.len() as int) =~= data.rods@);
    }
}

/// Whether `gust` blows at `pos` at time `time`: along the gust's
/// direction, less the distance it has travelled, the position taken modulo
/// `low + high` lies in the gust part `[low, low + high)`. Never, if that
/// period is not positive.
pub open spec fn wind_blows<S: Scalar>(gust: WindConfig<S>, time: S, pos: Vector2<S>) -> bool {
    let zero = S::spec_zero();
    let period = gust.low.spec_add(gust.high);
    if !zero.spec_lt(period) {
        false
    } else {
        let d = gust.dir.spec_dot(pos).spec_sub(gust.speed.spec_mul(time)).spec_rem(period);
        let phase = if d.spec_lt(zero) { d.spec_add(period) } else { d };
        gust.low.spec_le(phase)
    }
}

/// `js` after the drag of `gust` across `rod` at time `time`: where the
/// gust blows at the rod's midpoint, each end is pushed along the rod's
/// normal by the cross product of its velocity relative to the wind with the
/// rod's direction, times the viscosity.
pub closed spec fn gust_on_rod<S: Scalar>(js: Seq<Joint<S>>, gust: WindConfig<S>, rod: Rod<S>, time: S) -> Seq<Joint<S>> {
    let (a, b) = (rod.ends[0] as int, rod.ends[1] as int);
    let half = S::spec_from_int(1).spec_div(S::spec_from_int(2));
    let pos = js[a].position.spec_add(js[b].position).spec_scale(half);
    if !wind_blows(gust, time, pos) {
        js
    } else {
        let rod_dir = js[b].position.spec_sub(js[a].position);
        let normal = rod_dir.spec_perp();
        let unit = rod_dir.spec_normalized();
        let wind_velocity = gust.dir.spec_scale(gust.speed);
        let push_a = wind_velocity.spec_sub(js[a].velocity).spec_det(unit).spec_mul(gust.viscosity);
        let push_b = wind_velocity.spec_sub(js[b].velocity).spec_det(unit).spec_mul(gust.viscosity);
        pulled(pulled(js, a, normal.spec_scale(push_a)), b, normal.spec_scale(push_b))
    }
}

/// `js` after the drag of `gust` across each of `rods`, in order.
pub closed spec fn gust_applied<S: Scalar>(js: Seq<Joint<S>>, gust: WindConfig<S>, rods: Seq<Rod<S>>, time: S) -> Seq<Joint<S>>
    decreases rods.len(),
{
    if rods.len() == 0 {
        js
    } else {
        gust_on_rod(gust_applied(js, gust, rods.drop_last(), time), gust, rods.last(), time)
    }
}

/// `js` after each of `gusts`, in order, across all of `rods`.
pub closed spec fn winds_applied<S: Scalar>(js: Seq<Joint<S>>, gusts: Seq<WindConfig<S>>, rods: Seq<Rod<S>>, time: S) -> Seq<Joint<S>>
    decreases gusts.len(),
{
    if gusts.len() == 0 {
        js
    } else {
        gust_applied(winds_applied(js, gusts.drop_last(), rods, time), gusts.last(), rods, time)
    }
}

impl Wind {
    /// Whether `gust` blows at `position` at the world's present time. Along
    /// the gust's direction the field repeats every `low + high`: a calm
    /// stretch of `low`, then a gust of `high`, the whole pattern moving at
    /// the gust's speed. A gust whose period is not positive never blows.
    pub fn is_blowing_at<S: Scalar>(&self, gust: &WindConfig<S>, data: &InnerWorld<S>, position: Vector2<S>) -> (r: bool)
        ensures
            r == wind_blows(*gust, data.time_view(), position),
    {
        let zero = S::zero();
        let period = gust.low.add(gust.high);
        if !zero.lt(period) {
            return false;
        }
        let distance = gust.dir.dot(position);
        let mut distance = distance.sub(gust.speed.mul(data.time)).rem(period);
        if distance.lt(zero) {
            distance = distance.add(period);
        }
        gust.low.le(distance)
    }

    pub(super) fn apply<S: Scalar>(&self, joints: &mut Vec<Joint<S>>, data: &InnerWorld<S>)
        requires
            data.refs_within(old(joints)@.len()),
        ensures
            forces_only(old(joints)@, final(joints)@),
            final(joints)@ == winds_applied(old(joints)@, data.config.wind@, data.rods@, data.time),
            data.config.wind@.len() == 0 ==> final(joints)@ == old(joints)@,
    {
        proof { lemma_forces_only_refl(joints@); }
        let half = ratio::<S>(1, 2);
        let mut g: usize = 0;
        while g < data.config.wind.len()
            invariant
                g <= data.config.wind@.len(),
                forces_only(old(joints)@, joints@),
                joints@ == winds_applied(old(joints)@, data.config.wind@.subrange(0, g as int), data.rods@, data.time),
                data.refs_within(old(joints)@.len()),
                half == S::spec_from_int(1).spec_div(S::spec_from_int(2)),
            decreases data.config.wind.len() - g,
        {
            let gust = &data.config.wind[g];
            let wind_velocity = gust.dir.scale(gust.speed);
            let ghost start = joints@;
            let mut i: usize = 0;
            while i < data.rods.len()
                invariant
                    i <= data.rods@.len(),
                    forces_only(old(joints)@, joints@),
                    joints@ == gust_applied(start, *gust, data.rods@.subrange(0, i as int), data.time),
                    data.refs_within(old(joints)@.len()),
                    half == S::spec_from_int(1).spec_div(S::spec_from_int(2)),
                    wind_velocity == gust.dir.spec_scale(gust.speed),
                decreases data.rods.len() - i,
            {
                let rod = &data.rods[i];
                assert(rod_within(data.rods@[i as int], old(joints)@.len()));
                let (a, b) = (rod.ends[0], rod.ends[1]);
                let pos = joints[a].position.add(joints[b].position).scale(half);

                if self.is_blowing_at(gust, data, pos) {
                    let rod_dir = joints[b].position.sub(joints[a].position);
                    let normal = rod_dir.perp();
                    let unit = rod_dir.normalized();

                    let push_a = wind_velocity.sub(joints[a].velocity).det(unit).mul(gust.viscosity);
                    let push_b = wind_velocity.sub(joints[b].velocity).det(unit).mul(gust.viscosity);
                    let ghost j0 = joints@;
                    pull_force(joints, a, normal.scale(push_a));
                    let ghost j1 = joints@;
                    pull_force(joints, b, normal.scale(push_b));
                    proof {
                        lemma_forces_only_trans(old(joints)@, j0, j1);
                        lemma_forces_only_trans(old(joints)@, j1, joints@);
                    }
                }
                proof {
                    assert(data.rods@.subrange(0, i + 1).drop_last() =~= data.rods@.subrange(0, i as int));
                }
                i += 1;
            }
            proof {
                assert(data.rods@.subrange(0, data.rods@.len() as int) =~= data.rods@);
                assert(data.config.wind@.subrange(0, g + 1).drop_last() =~= data.config.wind@.subrange(0, g as int));
            }
            g += 1;
        }
        assert(data.config.wind@.subrange(0, data.config.wind@.len() as int) =~= data.config.wind@);
    }
}

/// `j` with its forces less its velocity times `c`.
pub closed spec fn damped<S: Scalar>(j: Joint<S>, c: S) -> Joint<S> {
    Joint { forces: j.forces.spec_sub(j.velocity.spec_scale(c)), ..j }
}

impl Damping {
    pub(super) fn apply<S: Scalar>(&self, joints: &mut Vec<Joint<S>>, data: &InnerWorld<S>)
        ensures
            forces_only(old(joints)@, final(joints)@),
            final(joints)@ == old(joints)@.map_values(|j: Joint<S>| damped(j, data.config.general_damping)),
    {
        let mut i: usize = 0;
        while i < joints.len()
            invariant
                i <= joints@.len(),
                joints@.len() == old(joints)@.len(),
                forall|k: int| 0 <= k < joints@.len() ==> (#[trigger] joints@[k]) == (Joint { forces: joints@[k].forces, ..old(joints)@[k] }),
                forall|k: int| 0 <= k < i ==> #[trigger] joints@[k] == damped(old(joints)@[k], data.config.general_damping),
                forall|k: int| i <= k < joints@.len() ==> #[trigger] joints@[k] == old(joints)@[k],
            decreases joints@.len() - i,
        {
            let mut j = joints[i];
            j.forces = j.forces.sub(j.velocity.scale(data.config.general_damping));
            joints.set(i, j);
            i += 1;
        }
        assert(joints@ =~= old(joints)@.map_values(|j: Joint<S>| damped(j, data.config.general_damping)));
    }
}

/// `j` with its forces cleared if it is fixed.
pub closed spec fn unforced<S: Scalar>(j: Joint<S>) -> Joint<S> {
    if j.fix { Joint { forces: Vector2::spec_zero(), ..j } } else { j }
}

impl FixPoint {
    /// A fixed joint's forces become the zero vector; a free joint keeps its
    /// forces.
    pub(super) fn apply<S: Scalar>(&self, joints: &mut Vec<Joint<S>>, data: &InnerWorld<S>)
        ensures
            forces_only(old(joints)@, final(joints)@),
            final(joints)@ == old(joints)@.map_values(|j: Joint<S>| unforced(j)),
            forall|k: int| 0 <= k < old(joints)@.len() && !old(joints)@[k].fix ==> #[trigger] final(joints)@[k] == old(joints)@[k],
            forall|k: int| 0 <= k < old(joints)@.len() && old(joints)@[k].fix ==> (#[trigger] final(joints)@[k]).forces == Vector2::<S>::spec_zero(),
    {
        let zero = Vector2::zero();
        let mut i: usize = 0;
        while i < joints.len()
            invariant
                i <= joints@.len(),
                joints@.len() == old(joints)@.len(),
                zero == Vector2::<S>::spec_zero(),
                forall|k: int| 0 <= k < joints@.len() ==> (#[trigger] joints@[k]) == (Joint { forces: joints@[k].forces, ..old(joints)@[k] }),
                forall|k: int| 0 <= k < i ==> #[trigger] joints@[k] == unforced(old(joints)@[k]),
                forall|k: int| i <= k < joints@.len() ==> #[trigger] joints@[k] == old(joints)@[k],
            decreases joints@.len() - i,
        {
            let mut j = joints[i];
            if j.fix {
                j.forces = zero;
                joints.set(i, j);
            }
            i += 1;
        }
        assert(joints@ =~= old(joints)@.map_values(|j: Joint<S>| unforced(j)));
    }
}

/// `j` kept inside `b`: each coordinate below the rectangle's minimum or
/// above its maximum is set to that bound, and the velocity along that axis
/// to zero.
pub open spec fn clamp_in<S: Scalar>(j: Joint<S>, b: Bounds<S>) -> Joint<S> {
    let (p, v, zero) = (j.spec_position(), j.spec_velocity(), S::spec_zero());
    let (px, vx) = if p.x.spec_lt(b.min.x) {
        (b.min.x, zero)
    } else if b.max.x.spec_lt(p.x) {
        (b.max.x, zero)
    } else {
        (p.x, v.x)
    };
    let (py, vy) = if p.y.spec_lt(b.min.y) {
        (b.min.y, zero)
    } else if b.max.y.spec_lt(p.y) {
        (b.max.y, zero)
    } else {
        (p.y, v.y)
    };
    j.with_motion(Vector2 { x: px, y: py }, Vector2 { x: vx, y: vy })
}

/// `j` kept inside each of `bounds`, in order.
pub open spec fn clamped<S: Scalar>(j: Joint<S>, bounds: Seq<Bounds<S>>) -> Joint<S>
    decreases bounds.len(),
{
    if bounds.len() == 0 {
        j
    } else {
        clamp_in(clamped(j, bounds.drop_last()), bounds.last())
    }
}

impl Bounding {
    pub(super) fn apply<S: Scalar>(&self, joints: &mut Vec<Joint<S>>, data: &InnerWorld<S>)
        ensures
            motion_only(old(joints)@, final(joints)@),
            final(joints)@ == old(joints)@.map_values(|j: Joint<S>| clamped(j, data.bounds@)),
    {
        let zero = S::zero();
        let mut i: usize = 0;
        while i < joints.len()
            invariant
                i <= joints@.len(),
                joints@.len() == old(joints)@.len(),
                zero == S::spec_zero(),
                forall|k: int| 0 <= k < joints@.len() ==> (#[trigger] joints@[k]) == (Joint { position: joints@[k].position, velocity: joints@[k].velocity, ..old(joints)@[k] }),
                forall|k: int| 0 <= k < i ==> #[trigger] joints@[k] == clamped(old(joints)@[k], data.bounds@),
                forall|k: int| i <= k < joints@.len() ==> #[trigger] joints@[k] == old(joints)@[k],
            decreases joints@.len() - i,
        {
            let mut j = joints[i];
            let mut k: usize = 0;
            while k < data.bounds.len()
                invariant
                    k <= data.bounds@.len(),
                    zero == S::spec_zero(),
                    j == (Joint { position: j.position, velocity: j.velocity, ..old(joints)@[i as int] }),
                    j == clamped(old(joints)@[i as int], data.bounds@.subrange(0, k as int)),
                    i < joints@.len(),
                    joints@.len() == old(joints)@.len(),
                decreases data.bounds.len() - k,
            {
                let b = &data.bounds[k];
                if j.position.x.lt(b.min.x) {
                    j.position.x = b.min.x;
                    j.velocity.x = zero;
                } else if b.max.x.lt(j.position.x) {
                    j.position.x = b.max.x;
                    j.velocity.x = zero;
                }
                if j.position.y.lt(b.min.y) {
                    j.position.y = b.min.y;
                    j.velocity.y = zero;
                } else if b.max.y.lt(j.position.y) {
                    j.position.y = b.max.y;
                    j.velocity.y = zero;
                }
                proof {
                    assert(data.bounds@.subrange(0, k + 1).drop_last() =~= data.bounds@.subrange(0, k as int));
                }
                k += 1;
            }
            assert(data.bounds@.subrange(0, data.bounds@.len() as int) =~= data.bounds@);
            joints.set(i, j);
            i += 1;
        }
        assert(joints@ =~= old(joints)@.map_values(|j: Joint<S>| clamped(j, data.bounds@)));
    }
}

} // verus!
