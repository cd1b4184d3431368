//! The entity store and the simulation step.
use vstd::prelude::*;
use crate::scalar::Scalar;
use crate::vector::Vector2;
use forces::{
    Bounding, Damping, FixPoint, Gravity, RodAngle, RodDistance, Wind, angles_applied, clamped, damped,
    lemma_forces_only_trans, rods_applied, unforced, weights_applied, winds_applied,
};

pub mod forces;

verus! {

/// Index of a joint in its world; stable for the world's lifetime.
pub type JointId = usize;

/// Index of a rod in its world; stable for the world's lifetime.
pub type RodId = usize;

/// A point mass.
#[derive(Clone, Copy)]
pub struct Joint<S> {
    pub position: Vector2<S>,
    velocity: Vector2<S>,
    forces: Vector2<S>,
    weight: S,
    fix: bool,
}

impl<S: Scalar> Joint<S> {
    /// A free joint at rest at `position`, with no mass yet.
    fn from_pos(position: Vector2<S>) -> (r: Self)
        ensures
            r == (Joint { position, velocity: Vector2::spec_zero(), forces: Vector2::spec_zero(), weight: S::spec_zero(), fix: false }),
    {
        Joint {
            position,
            velocity: Vector2::zero(),
            forces: Vector2::zero(),
            weight: S::zero(),
            fix: false,
        }
    }

    pub fn position(&self) -> (r: Vector2<S>)
        ensures
            r == self.spec_position(),
    {
        self.position
    }

    pub fn velocity(&self) -> (r: Vector2<S>)
        ensures
            r == self.spec_velocity(),
    {
        self.velocity
    }

    /// The forces gathered in the last step.
    pub fn forces(&self) -> (r: Vector2<S>)
        ensures
            r == self.spec_forces(),
    {
        self.forces
    }

    /// The mass gathered from the rods that end here.
    pub fn weight(&self) -> (r: S)
        ensures
            r == self.spec_weight(),
    {
        self.weight
    }

    pub fn is_fixed(&self) -> (r: bool)
        ensures
            r == self.spec_fixed(),
    {
        self.fix
    }

    pub closed spec fn spec_fixed(&self) -> bool {
        self.fix
    }

    pub closed spec fn spec_position(&self) -> Vector2<S> {
        self.position
    }

    pub closed spec fn spec_velocity(&self) -> Vector2<S> {
        self.velocity
    }

    pub closed spec fn spec_forces(&self) -> Vector2<S> {
        self.forces
    }

    /// This joint moved to `position` with `velocity`.
    pub closed spec fn with_motion(self, position: Vector2<S>, velocity: Vector2<S>) -> Self {
        Joint { position, velocity, ..self }
    }

    pub closed spec fn spec_weight(&self) -> S {
        self.weight
    }
}

/// A spring-damper between two joints.
#[derive(Clone, Copy)]
pub struct Rod<S> {
    pub ends: [JointId; 2],
    dist: S,
    weight: S,
}

impl<S: Scalar> Rod<S> {
    /// The length that the rod pulls its ends towards, fixed at creation.
    pub fn rest_distance(&self) -> (r: S)
        ensures
            r == self.spec_rest_distance(),
    {
        self.dist
    }

    /// The mass that the rod carries, half of it at each end.
    pub fn weight(&self) -> (r: S)
        ensures
            r == self.spec_weight(),
    {
        self.weight
    }

    pub closed spec fn spec_ends(&self) -> [JointId; 2] {
        self.ends
    }

    pub closed spec fn spec_rest_distance(&self) -> S {
        self.dist
    }

    pub closed spec fn spec_weight(&self) -> S {
        self.weight
    }
}

/// An angular constraint: joints `[a, pivot, b]` and the angle at the pivot
/// from `a` to `b` that it restores.
#[derive(Clone, Copy)]
pub struct Angle<S> {
    joints: [JointId; 3],
    angle: S,
}

impl<S: Scalar> Angle<S> {
    pub fn joints(&self) -> (r: [JointId; 3])
        ensures
            r == self.spec_joints(),
    {
        self.joints
    }

    /// The angle captured at creation, in `(-pi, pi]`.
    pub fn target_angle(&self) -> (r: S)
        ensures
            r == self.spec_target_angle(),
    {
        self.angle
    }

    pub closed spec fn spec_joints(&self) -> [JointId; 3] {
        self.joints
    }

    pub closed spec fn spec_target_angle(&self) -> S {
        self.angle
    }
}

/// An axis-aligned rectangle that joints are kept inside.
#[derive(Clone, Copy)]
pub struct Bounds<S> {
    pub min: Vector2<S>,
    pub max: Vector2<S>,
}

/// A wind field: gusts of length `high` separated by calm stretches of
/// length `low`, measured along `dir` and moving at `speed`.
#[derive(Clone, Copy)]
pub struct WindConfig<S> {
    /// Direction of the moving wind: a unit vector.
    pub dir: Vector2<S>,
    pub speed: S,
    /// Viscosity of the gas: how strongly it drags a rod.
    pub viscosity: S,
    /// Length of the calm stretch between two gusts.
    pub low: S,
    /// Length of one gust.
    pub high: S,
}

/// The coefficients of a world.
#[derive(Clone)]
pub struct WorldConfig<S> {
    pub rod_stiffness: S,
    pub rod_damping: S,
    pub angle_stiffness: S,
    pub general_damping: S,
    /// Downward pull per unit of rod weight, along `+y`.
    pub gravity: S,
    pub wind: Vec<WindConfig<S>>,
    /// Multiplies every time step when present.
    pub time_scale: Option<S>,
}

impl<S: Scalar> WorldConfig<S> {
    /// All coefficients zero, no wind, no time scale.
    pub fn new() -> (r: Self)
        ensures
            r.rod_stiffness == S::spec_zero(),
            r.rod_damping == S::spec_zero(),
            r.angle_stiffness == S::spec_zero(),
            r.general_damping == S::spec_zero(),
            r.gravity == S::spec_zero(),
            r.wind@.len() == 0,
            r.time_scale.is_none(),
    {
        let z = S::zero();
        WorldConfig {
            rod_stiffness: z,
            rod_damping: z,
            angle_stiffness: z,
            general_damping: z,
            gravity: z,
            wind: Vec::new(),
            time_scale: None,
        }
    }
}

/// Everything of a world but its joints: what the force steps read.
pub struct InnerWorld<S> {
    pub rods: Vec<Rod<S>>,
    angles: Vec<Angle<S>>,
    bounds: Vec<Bounds<S>>,
    dt: S,
    time: S,
    config: WorldConfig<S>,
}

impl<S: Scalar> InnerWorld<S> {
    /// Every rod and angular constraint names joints below `n`.
    pub closed spec fn refs_within(&self, n: nat) -> bool {
        &&& forall|i: int| 0 <= i < self.rods@.len() ==> #[trigger] rod_within(self.rods@[i], n)
        &&& forall|i: int| 0 <= i < self.angles@.len() ==> #[trigger] angle_within(self.angles@[i], n)
    }

    pub closed spec fn time_view(&self) -> S {
        self.time
    }

    pub closed spec fn config_view(&self) -> WorldConfig<S> {
        self.config
    }

    pub fn config(&self) -> (r: &WorldConfig<S>)
        ensures
            *r == self.config_view(),
    {
        &self.config
    }

    /// Simulated time so far.
    pub fn time(&self) -> (r: S)
        ensures
            r == self.time_view(),
    {
        self.time
    }
}

pub closed spec fn rod_within<S>(r: Rod<S>, n: nat) -> bool {
    r.ends[0] < n && r.ends[1] < n
}

pub closed spec fn angle_within<S>(a: Angle<S>, n: nat) -> bool {
    a.joints[0] < n && a.joints[1] < n && a.joints[2] < n
}

/// Two joint sequences of the same length whose joints agree in mass and in
/// being fixed: what a simulation step keeps.
pub closed spec fn same_bodies<S>(a: Seq<Joint<S>>, b: Seq<Joint<S>>) -> bool {
    &&& a.len() == b.len()
    &&& forall|i: int| 0 <= i < a.len() ==> (#[trigger] a[i]).weight == b[i].weight && a[i].fix == b[i].fix
}

/// A world: joints in an append-only arena, and the rods, angular
/// constraints and bounds between them.
///
/// Joints are named by their index, which never changes: nothing is ever
/// removed. A joint index handed to `add_rod`, `keep_angle` or `fix` must be
/// one that this world handed out; that is a precondition of those methods,
/// not an error they report, so a caller that cannot prove it checks it
/// against `joints().len()` first.
pub struct World<S> {
    joints: Vec<Joint<S>>,
    inner: InnerWorld<S>,
}

/// `b` is `a` with, at most, other forces: a force step changes nothing
/// else of a joint.
pub closed spec fn forces_only<S>(a: Seq<Joint<S>>, b: Seq<Joint<S>>) -> bool {
    &&& a.len() == b.len()
    &&& forall|i: int| 0 <= i < a.len() ==> (#[trigger] b[i]) == (Joint { forces: b[i].forces, ..a[i] })
}

proof fn lemma_forces_only_same_bodies<S>(a: Seq<Joint<S>>, b: Seq<Joint<S>>)
    requires
        forces_only(a, b),
    ensures
        same_bodies(a, b),
{
    assert forall|i: int| 0 <= i < a.len() implies (#[trigger] a[i]).weight == b[i].weight && a[i].fix == b[i].fix by {
        assert(b[i] == (Joint { forces: b[i].forces, ..a[i] }));
    }
}

/// `b` is `a` with, at most, joints elsewhere or moving otherwise.
pub closed spec fn motion_only<S>(a: Seq<Joint<S>>, b: Seq<Joint<S>>) -> bool {
    &&& a.len() == b.len()
    &&& forall|i: int| 0 <= i < a.len() ==> (#[trigger] b[i]) == (Joint { position: b[i].position, velocity: b[i].velocity, ..a[i] })
}

proof fn lemma_motion_only_same_bodies<S>(a: Seq<Joint<S>>, b: Seq<Joint<S>>)
    requires
        motion_only(a, b),
    ensures
        same_bodies(a, b),
{
    assert forall|i: int| 0 <= i < a.len() implies (#[trigger] a[i]).weight == b[i].weight && a[i].fix == b[i].fix by {
        assert(b[i] == (Joint { position: b[i].position, velocity: b[i].velocity, ..a[i] }));
    }
}

/// No rectangle of `bounds` would move a joint at `p`: `p` lies inside each.
pub open spec fn inside<S: Scalar>(p: Vector2<S>, bounds: Seq<Bounds<S>>) -> bool {
    forall|k: int| 0 <= k < bounds.len() ==> {
        let b = #[trigger] bounds[k];
        &&& !p.x.spec_lt(b.min.x)
        &&& !b.max.x.spec_lt(p.x)
        &&& !p.y.spec_lt(b.min.y)
        &&& !b.max.y.spec_lt(p.y)
    }
}

/// Every fixed joint of `a` that lies inside `bounds` stands in `b` where
/// it stood, just as still.
pub closed spec fn pinned_kept<S: Scalar>(a: Seq<Joint<S>>, b: Seq<Joint<S>>, bounds: Seq<Bounds<S>>) -> bool {
    forall|i: int| 0 <= i < a.len() && (#[trigger] a[i]).fix && inside(a[i].position, bounds)
        ==> b[i].position == a[i].position && b[i].velocity == a[i].velocity
}

/// A joint inside every rectangle is not moved by the clamp.
proof fn lemma_clamped_inside<S: Scalar>(j: Joint<S>, bounds: Seq<Bounds<S>>)
    requires
        inside(j.position, bounds),
    ensures
        clamped(j, bounds) == j,
    decreases bounds.len(),
{
    if bounds.len() > 0 {
        let rest = bounds.drop_last();
        assert(inside(j.position, rest)) by {
            assert forall|k: int| 0 <= k < rest.len() implies {
                let b = #[trigger] rest[k];
                &&& !j.position.x.spec_lt(b.min.x)
                &&& !b.max.x.spec_lt(j.position.x)
                &&& !j.position.y.spec_lt(b.min.y)
                &&& !b.max.y.spec_lt(j.position.y)
            } by {
                assert(rest[k] == bounds[k]);
            }
        }
        lemma_clamped_inside(j, rest);
        let last = bounds.last();
        assert(last == bounds[bounds.len() - 1]);
        assert(j.with_motion(j.position, j.velocity) == j);
        assert(Vector2 { x: j.position.x, y: j.position.y } == j.position);
        assert(Vector2 { x: j.velocity.x, y: j.velocity.y } == j.velocity);
    }
}

proof fn lemma_same_bodies_trans<S>(a: Seq<Joint<S>>, b: Seq<Joint<S>>, c: Seq<Joint<S>>)
    requires
        same_bodies(a, b),
        same_bodies(b, c),
    ensures
        same_bodies(a, c),
{
    assert forall|i: int| 0 <= i < a.len() implies (#[trigger] a[i]).weight == c[i].weight && a[i].fix == c[i].fix by {
        assert(b[i].weight == c[i].weight && b[i].fix == c[i].fix);
    }
}

/// `js` with `f` added to the forces on joint `i`.
pub closed spec fn pushed<S: Scalar>(js: Seq<Joint<S>>, i: int, f: Vector2<S>) -> Seq<Joint<S>> {
    js.update(i, Joint { forces: js[i].forces.spec_add(f), ..js[i] })
}

/// `js` with `f` subtracted from the forces on joint `i`.
pub closed spec fn pulled<S: Scalar>(js: Seq<Joint<S>>, i: int, f: Vector2<S>) -> Seq<Joint<S>> {
    js.update(i, Joint { forces: js[i].forces.spec_sub(f), ..js[i] })
}

/// Adds `f` to the forces on joint `i`.
fn push_force<S: Scalar>(joints: &mut Vec<Joint<S>>, i: JointId, f: Vector2<S>)
    requires
        i < old(joints)@.len(),
    ensures
        forces_only(old(joints)@, final(joints)@),
        final(joints)@ == pushed(old(joints)@, i as int, f),
{
    let mut j = joints[i];
    j.forces = j.forces.add(f);
    joints.set(i, j);
}

/// Subtracts `f` from the forces on joint `i`.
fn pull_force<S: Scalar>(joints: &mut Vec<Joint<S>>, i: JointId, f: Vector2<S>)
    requires
        i < old(joints)@.len(),
    ensures
        forces_only(old(joints)@, final(joints)@),
        final(joints)@ == pulled(old(joints)@, i as int, f),
{
    let mut j = joints[i];
    j.forces = j.forces.sub(f);
    joints.set(i, j);
}

/// Adds `w` to the mass of joint `i`.
fn add_weight<S: Scalar>(joints: &mut Vec<Joint<S>>, i: JointId, w: S)
    requires
        i < old(joints)@.len(),
    ensures
        final(joints)@.len() == old(joints)@.len(),
        forall|k: int| 0 <= k < old(joints)@.len() && k != i ==> final(joints)@[k] == old(joints)@[k],
        final(joints)@[i as int] == (Joint { weight: old(joints)@[i as int].weight.spec_add(w), ..old(joints)@[i as int] }),
{
    let mut j = joints[i];
    j.weight = j.weight.add(w);
    joints.set(i, j);
}

/// `j` with no forces.
pub closed spec fn cleared<S: Scalar>(j: Joint<S>) -> Joint<S> {
    Joint { forces: Vector2::spec_zero(), ..j }
}

/// Sets every joint's forces to zero.
fn clear_forces<S: Scalar>(joints: &mut Vec<Joint<S>>)
    ensures
        forces_only(old(joints)@, final(joints)@),
        final(joints)@ == old(joints)@.map_values(|j: Joint<S>| cleared(j)),
{
    let zero = Vector2::zero();
    let mut i: usize = 0;
    while i < joints.len()
        invariant
            i <= joints@.len(),
            joints@.len() == old(joints)@.len(),
            zero == Vector2::<S>::spec_zero(),
            forall|k: int| 0 <= k < i ==> #[trigger] joints@[k] == cleared(old(joints)@[k]),
            forall|k: int| i <= k < joints@.len() ==> #[trigger] joints@[k] == old(joints)@[k],
        decreases joints@.len() - i,
    {
        let mut j = joints[i];
        j.forces = zero;
        joints.set(i, j);
        i += 1;
    }
    assert(joints@ =~= old(joints)@.map_values(|j: Joint<S>| cleared(j)));
}

/// `j` after one semi-implicit Euler step of `dt`: its velocity takes its
/// forces over its mass times `dt`, and then its position takes the new
/// velocity times `dt`. A joint without positive mass is not accelerated; a
/// fixed joint is not moved at all.
pub closed spec fn integrated<S: Scalar>(j: Joint<S>, dt: S) -> Joint<S> {
    if j.fix {
        j
    } else {
        let v = if S::spec_zero().spec_lt(j.weight) {
            j.velocity.spec_add(j.forces.spec_unscale(j.weight).spec_scale(dt))
        } else {
            j.velocity
        };
        Joint { position: j.position.spec_add(v.spec_scale(dt)), velocity: v, ..j }
    }
}

/// One semi-implicit Euler step of every joint.
fn integrate<S: Scalar>(joints: &mut Vec<Joint<S>>, dt: S)
    ensures
        motion_only(old(joints)@, final(joints)@),
        final(joints)@ == old(joints)@.map_values(|j: Joint<S>| integrated(j, dt)),
{
    let zero = S::zero();
    let mut i: usize = 0;
    while i < joints.len()
        invariant
            i <= joints@.len(),
            joints@.len() == old(joints)@.len(),
            zero == S::spec_zero(),
            forall|k: int| 0 <= k < i ==> #[trigger] joints@[k] == integrated(old(joints)@[k], dt),
            forall|k: int| i <= k < joints@.len() ==> #[trigger] joints@[k] == old(joints)@[k],
        decreases joints@.len() - i,
    {
        let mut j = joints[i];
        if !j.fix {
            if zero.lt(j.weight) {
                j.velocity = j.velocity.add(j.forces.unscale(j.weight).scale(dt));
            }
            j.position = j.position.add(j.velocity.scale(dt));
            joints.set(i, j);
        }
        i += 1;
    }
    assert(joints@ =~= old(joints)@.map_values(|j: Joint<S>| integrated(j, dt)));
    assert forall|k: int| 0 <= k < joints@.len() implies (#[trigger] joints@[k]) == (Joint { position: joints@[k].position, velocity: joints@[k].velocity, ..old(joints)@[k] }) by {}
}

/// The signed angle at `b` from the direction of `a` to that of `c`: the
/// `atan2` of the cross and dot products of the two unit directions.
pub open spec fn spec_angle_between<S: Scalar>(a: Vector2<S>, b: Vector2<S>, c: Vector2<S>) -> S {
    let dir_0 = a.spec_sub(b).spec_normalized();
    let dir_1 = c.spec_sub(b).spec_normalized();
    dir_0.spec_det(dir_1).spec_atan2(dir_0.spec_dot(dir_1))
}

/// The signed angle at `b` from the direction of `a` to that of `c`.
fn angle_between<S: Scalar>(a: Vector2<S>, b: Vector2<S>, c: Vector2<S>) -> (r: S)
    ensures
        r == spec_angle_between(a, b, c),
{
    let dir_0 = a.sub(b).normalized();
    let dir_1 = c.sub(b).normalized();
    dir_0.det(dir_1).atan2(dir_0.dot(dir_1))
}

impl<S: Scalar> World<S> {
    pub closed spec fn joints_view(&self) -> Seq<Joint<S>> {
        self.joints@
    }

    pub closed spec fn rods_view(&self) -> Seq<Rod<S>> {
        self.inner.rods@
    }

    pub closed spec fn angles_view(&self) -> Seq<Angle<S>> {
        self.inner.angles@
    }

    pub closed spec fn bounds_view(&self) -> Seq<Bounds<S>> {
        self.inner.bounds@
    }

    pub closed spec fn config_view(&self) -> WorldConfig<S> {
        self.inner.config
    }

    /// Every rod and angular constraint names joints of this world.
    pub closed spec fn wf(&self) -> bool {
        self.inner.refs_within(self.joints@.len())
    }

    /// `next` is what one simulation step may make of `self`: the same
    /// joints (in number, mass and being fixed), the same rods, angular
    /// constraints, bounds and coefficients, and every fixed joint that no
    /// rectangle would clamp where it was, just as still.
    pub open spec fn is_step(&self, next: &World<S>) -> bool {
        &&& next.rods_view() == self.rods_view()
        &&& next.angles_view() == self.angles_view()
        &&& next.bounds_view() == self.bounds_view()
        &&& next.config_view() == self.config_view()
        &&& same_bodies(self.joints_view(), next.joints_view())
        &&& pinned_kept(self.joints_view(), next.joints_view(), self.bounds_view())
    }

    pub closed spec fn time_view(&self) -> S {
        self.inner.time
    }

    pub closed spec fn dt_view(&self) -> S {
        self.inner.dt
    }

    /// The step that `update(dt)` takes: `dt` times the time scale, if any.
    pub open spec fn scaled_step(&self, dt: S) -> S {
        match self.config_view().time_scale {
            Some(scale) => dt.spec_mul(scale),
            None => dt,
        }
    }

    /// The joints after a step of `h`: forces cleared; then gathered from
    /// the rods, the angular constraints, gravity and the wind (at the time
    /// advanced by `h`); less the general damping; cleared on fixed joints;
    /// then every joint integrated over `h` and clamped into the bounds.
    pub closed spec fn stepped(&self, h: S) -> Seq<Joint<S>> {
        let cfg = self.inner.config;
        let time = self.inner.time.spec_add(h);
        let js0 = self.joints@.map_values(|j: Joint<S>| cleared(j));
        let js1 = rods_applied(js0, self.inner.rods@, cfg);
        let js2 = angles_applied(js1, self.inner.angles@, cfg);
        let js3 = weights_applied(js2, self.inner.rods@, cfg.gravity);
        let js4 = winds_applied(js3, cfg.wind@, self.inner.rods@, time);
        let js5 = js4.map_values(|j: Joint<S>| damped(j, cfg.general_damping));
        let js6 = js5.map_values(|j: Joint<S>| unforced(j));
        let js7 = js6.map_values(|j: Joint<S>| integrated(j, h));
        js7.map_values(|j: Joint<S>| clamped(j, self.inner.bounds@))
    }

    /// Advances the world by one step of `dt`, scaled by the configured
    /// time scale: clears the forces, gathers them in the order rods,
    /// angular constraints, gravity, wind, general damping, fixed joints,
    /// moves every joint by a semi-implicit Euler step, and then clamps the
    /// joints into the bounds.
    ///
    /// A step moves joints and nothing else: rods (with their rest
    /// distances), angular constraints (with their target angles), bounds,
    /// coefficients, and each joint's mass and being fixed stay as they are.
    pub fn update(&mut self, dt: S)
        requires
            old(self).wf(),
        ensures
            final(self).wf(),
            old(self).is_step(&*final(self)),
            final(self).dt_view() == old(self).scaled_step(dt),
            final(self).time_view() == old(self).time_view().spec_add(old(self).scaled_step(dt)),
            final(self).joints_view() == old(self).stepped(old(self).scaled_step(dt)),
            final(self).joints_view().len() == old(self).joints_view().len(),
            forall|i: int| 0 <= i < old(self).joints_view().len() ==> {
                &&& (#[trigger] final(self).joints_view()[i]).spec_weight() == old(self).joints_view()[i].spec_weight()
                &&& final(self).joints_view()[i].spec_fixed() == old(self).joints_view()[i].spec_fixed()
            },
    {
        let mut dt = dt;
        if let Some(scale) = self.inner.config.time_scale {
            dt = dt.mul(scale);
        }
        self.inner.dt = dt;
        self.inner.time = self.inner.time.add(dt);

        let ghost j0 = self.joints@;
        clear_forces(&mut self.joints);
        let ghost jc = self.joints@;
        RodDistance.apply(&mut self.joints, &self.inner);
        let ghost j1 = self.joints@;
        RodAngle.apply(&mut self.joints, &self.inner);
        let ghost j2 = self.joints@;
        Gravity.apply(&mut self.joints, &self.inner);
        let ghost j3 = self.joints@;
        Wind.apply(&mut self.joints, &self.inner);
        let ghost j4 = self.joints@;
        Damping.apply(&mut self.joints, &self.inner);
        let ghost j5 = self.joints@;
        FixPoint.apply(&mut self.joints, &self.inner);
        let ghost j6 = self.joints@;
        integrate(&mut self.joints, dt);
        let ghost j7 = self.joints@;
        Bounding.apply(&mut self.joints, &self.inner);
        proof {
            lemma_forces_only_trans(j0, jc, j1);
            lemma_forces_only_trans(j0, j1, j2);
            lemma_forces_only_trans(j0, j2, j3);
            lemma_forces_only_trans(j0, j3, j4);
            lemma_forces_only_trans(j0, j4, j5);
            lemma_forces_only_trans(j0, j5, j6);
            lemma_forces_only_same_bodies(j0, j6);
            lemma_motion_only_same_bodies(j6, j7);
            lemma_motion_only_same_bodies(j7, self.joints@);
            lemma_same_bodies_trans(j0, j6, j7);
            lemma_same_bodies_trans(j0, j7, self.joints@);
            let bounds = self.inner.bounds@;
            assert forall|i: int| 0 <= i < j0.len() && (#[trigger] j0[i]).fix && inside(j0[i].position, bounds) implies
                self.joints@[i].position == j0[i].position && self.joints@[i].velocity == j0[i].velocity by {
                assert(j6[i] == (Joint { forces: j6[i].forces, ..j0[i] }));
                assert(j7[i] == integrated(j6[i], dt));
                lemma_clamped_inside(j7[i], bounds);
            }
            assert forall|i: int| 0 <= i < self.inner.rods@.len() implies #[trigger] rod_within(self.inner.rods@[i], self.joints@.len()) by {
                assert(rod_within(self.inner.rods@[i], old(self).joints@.len()));
            }
            assert forall|i: int| 0 <= i < self.inner.angles@.len() implies #[trigger] angle_within(self.inner.angles@[i], self.joints@.len()) by {
                assert(angle_within(self.inner.angles@[i], old(self).joints@.len()));
            }
            assert forall|i: int| 0 <= i < old(self).joints@.len() implies {
                &&& (#[trigger] self.joints@[i]).weight == old(self).joints@[i].weight
                &&& self.joints@[i].fix == old(self).joints@[i].fix
            } by {
                assert(old(self).joints@[i].weight == self.joints@[i].weight);
            }
        }
    }

    /// An empty world with the coefficients of `config`.
    pub fn from_config(config: WorldConfig<S>) -> (r: Self)
        ensures
            r.wf(),
            r.joints_view().len() == 0,
            r.rods_view().len() == 0,
            r.angles_view().len() == 0,
            r.bounds_view().len() == 0,
            r.config_view() == config,
            r.time_view() == S::spec_zero(),
            r.dt_view() == S::spec_zero(),
    {
        let z = S::zero();
        World {
            joints: Vec::new(),
            inner: InnerWorld {
                rods: Vec::new(),
                angles: Vec::new(),
                bounds: Vec::new(),
                dt: z,
                time: z,
                config,
            },
        }
    }

    /// Appends a free joint at rest at `pos` and returns its index.
    pub fn add_joint(&mut self, pos: Vector2<S>) -> (r: JointId)
        requires
            old(self).wf(),
        ensures
            final(self).wf(),
            r == old(self).joints_view().len(),
            final(self).joints_view().len() == r + 1,
            final(self).joints_view().subrange(0, r as int) == old(self).joints_view(),
            final(self).joints_view()[r as int].spec_position() == pos,
            !final(self).joints_view()[r as int].spec_fixed(),
            final(self).joints_view()[r as int].spec_velocity() == Vector2::<S>::spec_zero(),
            final(self).joints_view()[r as int].spec_forces() == Vector2::<S>::spec_zero(),
            final(self).joints_view()[r as int].spec_weight() == S::spec_zero(),
            final(self).time_view() == old(self).time_view(),
            final(self).dt_view() == old(self).dt_view(),
            final(self).rods_view() == old(self).rods_view(),
            final(self).angles_view() == old(self).angles_view(),
            final(self).bounds_view() == old(self).bounds_view(),
            final(self).config_view() == old(self).config_view(),
    {
        self.joints.push(Joint::from_pos(pos));
        proof {
            assert(self.joints@.subrange(0, self.joints@.len() - 1) =~= old(self).joints@);
            assert forall|i: int| 0 <= i < self.inner.rods@.len() implies #[trigger] rod_within(self.inner.rods@[i], self.joints@.len()) by {
                assert(rod_within(self.inner.rods@[i], old(self).joints@.len()));
            }
            assert forall|i: int| 0 <= i < self.inner.angles@.len() implies #[trigger] angle_within(self.inner.angles@[i], self.joints@.len()) by {
                assert(angle_within(self.inner.angles@[i], old(self).joints@.len()));
            }
        }
        self.joints.len() - 1
    }

    /// Appends a rod between the two joints of `ends` that carries `weight`,
    /// half of it added to the mass of each end, and whose rest distance is
    /// the joints' present distance. Returns its index.
    pub fn add_rod(&mut self, ends: [JointId; 2], weight: S) -> (r: RodId)
        requires
            old(self).wf(),
            ends[0] < old(self).joints_view().len(),
            ends[1] < old(self).joints_view().len(),
        ensures
            final(self).wf(),
            r == old(self).rods_view().len(),
            final(self).rods_view().len() == r + 1,
            final(self).rods_view().subrange(0, r as int) == old(self).rods_view(),
            final(self).rods_view()[r as int].spec_ends() == ends,
            final(self).rods_view()[r as int].spec_weight() == weight,
            final(self).rods_view()[r as int].spec_rest_distance()
                == old(self).joints_view()[ends[0] as int].spec_position().spec_sub(old(self).joints_view()[ends[1] as int].spec_position()).spec_length(),
            final(self).joints_view().len() == old(self).joints_view().len(),
            forall|i: int| 0 <= i < old(self).joints_view().len() ==> {
                &&& (#[trigger] final(self).joints_view()[i]).spec_position() == old(self).joints_view()[i].spec_position()
                &&& final(self).joints_view()[i].spec_velocity() == old(self).joints_view()[i].spec_velocity()
                &&& final(self).joints_view()[i].spec_forces() == old(self).joints_view()[i].spec_forces()
                &&& final(self).joints_view()[i].spec_fixed() == old(self).joints_view()[i].spec_fixed()
            },
            ends[0] != ends[1] ==> {
                let half = weight.spec_div(S::spec_from_int(2));
                &&& final(self).joints_view()[ends[0] as int].spec_weight() == old(self).joints_view()[ends[0] as int].spec_weight().spec_add(half)
                &&& final(self).joints_view()[ends[1] as int].spec_weight() == old(self).joints_view()[ends[1] as int].spec_weight().spec_add(half)
            },
            ends[0] == ends[1] ==> {
                let half = weight.spec_div(S::spec_from_int(2));
                final(self).joints_view()[ends[0] as int].spec_weight() == old(self).joints_view()[ends[0] as int].spec_weight().spec_add(half).spec_add(half)
            },
            final(self).time_view() == old(self).time_view(),
            final(self).dt_view() == old(self).dt_view(),

            forall|i: int| 0 <= i < old(self).joints_view().len() && i != ends[0] && i != ends[1]
                ==> #[trigger] final(self).joints_view()[i] == old(self).joints_view()[i],
            final(self).angles_view() == old(self).angles_view(),
            final(self).bounds_view() == old(self).bounds_view(),
            final(self).config_view() == old(self).config_view(),
    {
        let dist = self.joints[ends[0]].position.sub(self.joints[ends[1]].position).length();
        let half = weight.div(S::from_int(2));
        add_weight(&mut self.joints, ends[0], half);
        add_weight(&mut self.joints, ends[1], half);
        let ghost rods0 = self.inner.rods@;
        self.inner.rods.push(Rod { ends, dist, weight });
        proof {
            assert(self.inner.rods@.subrange(0, rods0.len() as int) =~= rods0);
            assert forall|i: int| 0 <= i < old(self).joints@.len() implies {
                &&& (#[trigger] self.joints@[i]).position == old(self).joints@[i].position
                &&& self.joints@[i].velocity == old(self).joints@[i].velocity
                &&& self.joints@[i].forces == old(self).joints@[i].forces
                &&& self.joints@[i].fix == old(self).joints@[i].fix
            } by {
                assert(self.joints@[i] == (Joint { weight: self.joints@[i].weight, ..old(self).joints@[i] }));
            }
            assert forall|i: int| 0 <= i < self.inner.rods@.len() implies #[trigger] rod_within(self.inner.rods@[i], self.joints@.len()) by {
                if i < rods0.len() {
                    assert(rod_within(rods0[i], old(self).joints@.len()));
                }
            }
            assert forall|i: int| 0 <= i < self.inner.angles@.len() implies #[trigger] angle_within(self.inner.angles@[i], self.joints@.len()) by {
                assert(angle_within(self.inner.angles@[i], old(self).joints@.len()));
            }
        }
        self.inner.rods.len() - 1
    }

    /// Appends an angular constraint on `[a, pivot, b]` that restores the
    /// angle at the pivot as it stands now.
    pub fn keep_angle(&mut self, joints: [JointId; 3])
        requires
            old(self).wf(),
            joints[0] < old(self).joints_view().len(),
            joints[1] < old(self).joints_view().len(),
            joints[2] < old(self).joints_view().len(),
        ensures
            final(self).wf(),
            final(self).angles_view().len() == old(self).angles_view().len() + 1,
            final(self).angles_view().subrange(0, old(self).angles_view().len() as int) == old(self).angles_view(),
            final(self).angles_view().last().spec_joints() == joints,
            final(self).angles_view().last().spec_target_angle() == spec_angle_between(
                old(self).joints_view()[joints[0] as int].spec_position(),
                old(self).joints_view()[joints[1] as int].spec_position(),
                old(self).joints_view()[joints[2] as int].spec_position(),
            ),
            final(self).time_view() == old(self).time_view(),
            final(self).dt_view() == old(self).dt_view(),
            final(self).joints_view() == old(self).joints_view(),
            final(self).rods_view() == old(self).rods_view(),
            final(self).bounds_view() == old(self).bounds_view(),
            final(self).config_view() == old(self).config_view(),
    {
        let angle = angle_between(
            self.joints[joints[0]].position,
            self.joints[joints[1]].position,
            self.joints[joints[2]].position,
        );
        let ghost angles0 = self.inner.angles@;
        self.inner.angles.push(Angle { joints, angle });
        proof {
            assert(self.inner.angles@.subrange(0, angles0.len() as int) =~= angles0);
            assert forall|i: int| 0 <= i < self.inner.angles@.len() implies #[trigger] angle_within(self.inner.angles@[i], self.joints@.len()) by {
                if i < angles0.len() {
                    assert(angle_within(angles0[i], self.joints@.len()));
                }
            }
            assert forall|i: int| 0 <= i < self.inner.rods@.len() implies #[trigger] rod_within(self.inner.rods@[i], self.joints@.len()) by {
                assert(rod_within(self.inner.rods@[i], old(self).joints@.len()));
            }
        }
    }

    /// Pins `joint`: from now on the forces on it are cleared before they
    /// could move it.
    pub fn fix(&mut self, joint: JointId)
        requires
            old(self).wf(),
            joint < old(self).joints_view().len(),
        ensures
            final(self).wf(),
            final(self).joints_view().len() == old(self).joints_view().len(),
            final(self).joints_view()[joint as int].spec_fixed(),
            final(self).joints_view()[joint as int].spec_position() == old(self).joints_view()[joint as int].spec_position(),
            final(self).joints_view()[joint as int].spec_velocity() == old(self).joints_view()[joint as int].spec_velocity(),
            final(self).joints_view()[joint as int].spec_forces() == old(self).joints_view()[joint as int].spec_forces(),
            final(self).joints_view()[joint as int].spec_weight() == old(self).joints_view()[joint as int].spec_weight(),
            final(self).time_view() == old(self).time_view(),
            final(self).dt_view() == old(self).dt_view(),
            forall|i: int| 0 <= i < old(self).joints_view().len() && i != joint
                ==> #[trigger] final(self).joints_view()[i] == old(self).joints_view()[i],
            final(self).rods_view() == old(self).rods_view(),
            final(self).angles_view() == old(self).angles_view(),
            final(self).bounds_view() == old(self).bounds_view(),
            final(self).config_view() == old(self).config_view(),
    {
        let mut j = self.joints[joint];
        j.fix = true;
        self.joints.set(joint, j);
        proof {
            assert forall|i: int| 0 <= i < self.inner.rods@.len() implies #[trigger] rod_within(self.inner.rods@[i], self.joints@.len()) by {
                assert(rod_within(self.inner.rods@[i], old(self).joints@.len()));
            }
            assert forall|i: int| 0 <= i < self.inner.angles@.len() implies #[trigger] angle_within(self.inner.angles@[i], self.joints@.len()) by {
                assert(angle_within(self.inner.angles@[i], old(self).joints@.len()));
            }
        }
    }

    /// Appends a rectangle that every joint is kept inside.
    pub fn add_bounds(&mut self, bound: Bounds<S>)
        requires
            old(self).wf(),
        ensures
            final(self).wf(),
            final(self).bounds_view() == old(self).bounds_view().push(bound),
            final(self).time_view() == old(self).time_view(),
            final(self).dt_view() == old(self).dt_view(),
            final(self).joints_view() == old(self).joints_view(),
            final(self).rods_view() == old(self).rods_view(),
            final(self).angles_view() == old(self).angles_view(),
            final(self).config_view() == old(self).config_view(),
    {
        self.inner.bounds.push(bound);
    }

    pub fn joints(&self) -> (r: &Vec<Joint<S>>)
        ensures
            r@ == self.joints_view(),
    {
        &self.joints
    }

    pub fn rods(&self) -> (r: &Vec<Rod<S>>)
        ensures
            r@ == self.rods_view(),
    {
        &self.inner.rods
    }

    pub fn angles(&self) -> (r: &Vec<Angle<S>>)
        ensures
            r@ == self.angles_view(),
    {
        &self.inner.angles
    }

    pub fn bounds(&self) -> (r: &Vec<Bounds<S>>)
        ensures
            r@ == self.bounds_view(),
    {
        &self.inner.bounds
    }

    pub fn config(&self) -> (r: &WorldConfig<S>)
        ensures
            *r == self.config_view(),
    {
        &self.inner.config
    }

    /// The rods, constraints, bounds and coefficients: what the force steps
    /// read.
    pub fn inner(&self) -> &InnerWorld<S> {
        &self.inner
    }

    /// Simulated time so far.
    pub fn time(&self) -> (r: S)
        ensures
            r == self.time_view(),
    {
        self.inner.time
    }

    /// The last time step, after scaling.
    pub fn dt(&self) -> (r: S)
        ensures
            r == self.dt_view(),
    {
        self.inner.dt
    }
}

/// Along any run of simulation steps, every rod keeps the rest distance it
/// was created with: the target length never drifts, however far the
/// joints move.
pub proof fn lemma_rest_distance_persists<S: Scalar>(run: Seq<World<S>>, t: int, k: int)
    requires
        forall|u: int| 0 <= u < run.len() - 1 ==> #[trigger] run[u].is_step(&run[u + 1]),
        0 <= t < run.len(),
        0 <= k < run[0].rods_view().len(),
    ensures
        run[t].rods_view().len() == run[0].rods_view().len(),
        run[t].rods_view()[k].spec_rest_distance() == run[0].rods_view()[k].spec_rest_distance(),
    decreases t,
{
    if t > 0 {
        lemma_rest_distance_persists(run, t - 1, k);
        let u = t - 1;
        assert(run[u].is_step(&run[u + 1]));
    }
}

/// Along any run of simulation steps, every angular constraint keeps the
/// target angle captured when it was created, and its three joints.
pub proof fn lemma_target_angle_persists<S: Scalar>(run: Seq<World<S>>, t: int, k: int)
    requires
        forall|u: int| 0 <= u < run.len() - 1 ==> #[trigger] run[u].is_step(&run[u + 1]),
        0 <= t < run.len(),
        0 <= k < run[0].angles_view().len(),
    ensures
        run[t].angles_view().len() == run[0].angles_view().len(),
        run[t].angles_view()[k].spec_target_angle() == run[0].angles_view()[k].spec_target_angle(),
        run[t].angles_view()[k].spec_joints() == run[0].angles_view()[k].spec_joints(),
    decreases t,
{
    if t > 0 {
        lemma_target_angle_persists(run, t - 1, k);
        let u = t - 1;
        assert(run[u].is_step(&run[u + 1]));
    }
}

/// Along any run of simulation steps, a fixed joint that lies inside every
/// bounds rectangle stays exactly where it is: no force, spring, damper or
/// clamp moves it.
pub proof fn lemma_fixed_joint_stays<S: Scalar>(run: Seq<World<S>>, t: int, i: int)
    requires
        forall|u: int| 0 <= u < run.len() - 1 ==> #[trigger] run[u].is_step(&run[u + 1]),
        0 <= t < run.len(),
        0 <= i < run[0].joints_view().len(),
        run[0].joints_view()[i].spec_fixed(),
        inside(run[0].joints_view()[i].spec_position(), run[0].bounds_view()),
    ensures
        run[t].joints_view().len() == run[0].joints_view().len(),
        run[t].bounds_view() == run[0].bounds_view(),
        run[t].joints_view()[i].spec_fixed(),
        run[t].joints_view()[i].spec_position() == run[0].joints_view()[i].spec_position(),
        run[t].joints_view()[i].spec_velocity() == run[0].joints_view()[i].spec_velocity(),
    decreases t,
{
    if t > 0 {
        lemma_fixed_joint_stays(run, t - 1, i);
        let u = t - 1;
        assert(run[u].is_step(&run[u + 1]));
        let (a, b) = (run[u].joints_view(), run[t].joints_view());
        assert(a[i].fix && inside(a[i].position, run[u].bounds_view()));
        assert(b[i].position == a[i].position && b[i].velocity == a[i].velocity && b[i].fix);
    }
}

} // verus!
