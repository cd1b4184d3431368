use armature::physics::forces::Wind;
use armature::physics::{Bounds, WindConfig, World, WorldConfig};
use armature::scalar::Scalar;
use armature::scenario::circle_gen;
use armature::vector::Vector2;

#[derive(Clone, Copy, Debug, PartialEq)]
struct F(f32);

impl Scalar for F {
    fn spec_zero() -> Self {
        Self::zero()
    }
    fn spec_from_int(n: i64) -> Self {
        Self::from_int(n)
    }
    fn spec_pi() -> Self {
        Self::pi()
    }
    fn spec_add(self, o: Self) -> Self {
        self.add(o)
    }
    fn spec_sub(self, o: Self) -> Self {
        self.sub(o)
    }
    fn spec_mul(self, o: Self) -> Self {
        self.mul(o)
    }
    fn spec_div(self, o: Self) -> Self {
        self.div(o)
    }
    fn spec_neg(self) -> Self {
        self.neg()
    }
    fn spec_rem(self, o: Self) -> Self {
        self.rem(o)
    }
    fn spec_lt(self, o: Self) -> bool {
        self.lt(o)
    }
    fn spec_le(self, o: Self) -> bool {
        self.le(o)
    }
    fn spec_sqrt(self) -> Self {
        self.sqrt()
    }
    fn spec_sin(self) -> Self {
        self.sin()
    }
    fn spec_cos(self) -> Self {
        self.cos()
    }
    fn spec_atan2(self, x: Self) -> Self {
        self.atan2(x)
    }
    fn spec_trunc_int(self) -> i64 {
        self.trunc_int()
    }
    fn zero() -> Self {
        F(0.0)
    }
    fn from_int(n: i64) -> Self {
        F(n as f32)
    }
    fn pi() -> Self {
        F(std::f32::consts::PI)
    }
    fn add(self, o: Self) -> Self {
        F(self.0 + o.0)
    }
    fn sub(self, o: Self) -> Self {
        F(self.0 - o.0)
    }
    fn mul(self, o: Self) -> Self {
        F(self.0 * o.0)
    }
    fn div(self, o: Self) -> Self {
        F(self.0 / o.0)
    }
    fn neg(self) -> Self {
        F(-self.0)
    }
    fn rem(self, o: Self) -> Self {
        F(self.0 % o.0)
    }
    fn lt(self, o: Self) -> bool {
        self.0 < o.0
    }
    fn le(self, o: Self) -> bool {
        self.0 <= o.0
    }
    fn sqrt(self) -> Self {
        F(self.0.sqrt())
    }
    fn sin(self) -> Self {
        F(self.0.sin())
    }
    fn cos(self) -> Self {
        F(self.0.cos())
    }
    fn atan2(self, x: Self) -> Self {
        F(self.0.atan2(x.0))
    }
    fn trunc_int(self) -> i64 {
        self.0 as i64
    }
}

fn v(x: f32, y: f32) -> Vector2<F> {
    Vector2 { x: F(x), y: F(y) }
}

fn config() -> WorldConfig<F> {
    WorldConfig::new()
}

fn finite(world: &World<F>) -> bool {
    world.joints().iter().all(|j| {
        let (p, q) = (j.position(), j.velocity());
        p.x.0.is_finite() && p.y.0.is_finite() && q.x.0.is_finite() && q.y.0.is_finite()
    })
}

fn gap(world: &World<F>, a: usize, b: usize) -> f32 {
    let (p, q) = (world.joints()[a].position(), world.joints()[b].position());
    ((p.x.0 - q.x.0).powi(2) + (p.y.0 - q.y.0).powi(2)).sqrt()
}

#[test]
fn joints_get_consecutive_ids() {
    let mut world = World::from_config(config());
    assert_eq!(world.add_joint(v(0.0, 0.0)), 0);
    assert_eq!(world.add_joint(v(1.0, 0.0)), 1);
    assert_eq!(world.add_joint(v(2.0, 0.0)), 2);
    assert_eq!(world.joints().len(), 3);
    assert!(!world.joints()[1].is_fixed());
    assert_eq!(world.joints()[2].position().x.0, 2.0);
}

#[test]
fn rod_takes_present_distance_and_splits_weight() {
    let mut world = World::from_config(config());
    let a = world.add_joint(v(0.0, 0.0));
    let b = world.add_joint(v(3.0, 4.0));
    let c = world.add_joint(v(3.0, 0.0));
    assert_eq!(world.add_rod([a, b], F(2.0)), 0);
    assert_eq!(world.add_rod([b, c], F(1.0)), 1);
    assert_eq!(world.rods()[0].rest_distance().0, 5.0);
    assert_eq!(world.rods()[1].rest_distance().0, 4.0);
    assert_eq!(world.rods()[0].ends, [a, b]);
    assert_eq!(world.rods()[0].weight().0, 2.0);
    assert_eq!(world.joints()[a].weight().0, 1.0);
    assert_eq!(world.joints()[b].weight().0, 1.5);
    assert_eq!(world.joints()[c].weight().0, 0.5);
}

#[test]
fn keep_angle_captures_signed_angle() {
    let mut world = World::from_config(config());
    let pivot = world.add_joint(v(1.0, 1.0));
    let a = world.add_joint(v(3.0, 1.0));
    let b = world.add_joint(v(1.0, 4.0));
    world.keep_angle([a, pivot, b]);
    world.keep_angle([b, pivot, a]);
    let half_pi = std::f32::consts::FRAC_PI_2;
    assert!((world.angles()[0].target_angle().0 - half_pi).abs() < 1e-6);
    assert!((world.angles()[1].target_angle().0 + half_pi).abs() < 1e-6);
    assert_eq!(world.angles()[0].joints(), [a, pivot, b]);
}

#[test]
fn rest_distance_does_not_drift() {
    let mut c = config();
    c.rod_stiffness = F(300.0);
    c.rod_damping = F(1.0);
    c.gravity = F(40.0);
    let mut world = World::from_config(c);
    let a = world.add_joint(v(100.0, 100.0));
    let b = world.add_joint(v(110.0, 100.0));
    world.fix(a);
    world.add_rod([a, b], F(1.0));
    for _ in 0..1000 {
        world.update(F(0.001));
    }
    assert_eq!(world.rods()[0].rest_distance().0, 10.0);
    assert!(gap(&world, a, b) != 10.0);
}

#[test]
fn target_angle_does_not_change() {
    let mut c = config();
    c.rod_stiffness = F(1000.0);
    c.angle_stiffness = F(100.0);
    c.gravity = F(40.0);
    let mut world = World::from_config(c);
    let a = world.add_joint(v(0.0, 0.0));
    let p = world.add_joint(v(10.0, 0.0));
    let b = world.add_joint(v(20.0, 0.0));
    world.fix(a);
    world.fix(p);
    world.add_rod([a, p], F(1.0));
    world.add_rod([p, b], F(1.0));
    world.keep_angle([a, p, b]);
    let target = world.angles()[0].target_angle();
    for _ in 0..1000 {
        world.update(F(0.001));
    }
    assert_eq!(world.angles()[0].target_angle(), target);
    assert!(world.joints()[b].position().y.0 > 0.0);
}

#[test]
fn slack_rod_exerts_no_force() {
    let mut world = World::from_config(config());
    let a = world.add_joint(v(0.0, 0.0));
    let b = world.add_joint(v(7.0, 1.0));
    world.add_rod([a, b], F(1.0));
    let before = gap(&world, a, b);
    for _ in 0..500 {
        world.update(F(0.01));
    }
    assert!((gap(&world, a, b) - before).abs() < 1e-4);
}

#[test]
fn fixed_joint_stays_put() {
    let mut c = config();
    c.gravity = F(40.0);
    c.general_damping = F(0.1);
    let mut world = World::from_config(c);
    let a = world.add_joint(v(12.5, 33.25));
    let b = world.add_joint(v(20.0, 33.25));
    world.fix(a);
    world.add_rod([a, b], F(1.0));
    let start = world.joints()[a].position();
    for _ in 0..2000 {
        world.update(F(0.001));
    }
    let end = world.joints()[a].position();
    assert_eq!(start.x.0.to_bits(), end.x.0.to_bits());
    assert_eq!(start.y.0.to_bits(), end.y.0.to_bits());
    assert!(world.joints()[b].position().y.0 > 33.25);
}

#[test]
fn stiff_damped_rod_stays_finite() {
    let mut c = config();
    c.rod_stiffness = F(300.0);
    c.rod_damping = F(100.0);
    let mut world = World::from_config(c);
    let a = world.add_joint(v(0.0, 0.0));
    let b = world.add_joint(v(10.0, 3.0));
    world.add_rod([a, b], F(1.0));
    for _ in 0..10_000 {
        world.update(F(0.001));
    }
    assert!(finite(&world));
}

#[test]
fn bounds_clamp_position_and_stop_velocity() {
    let mut c = config();
    c.gravity = F(1_000_000.0);
    let mut world = World::from_config(c);
    let a = world.add_joint(v(50.0, 99.0));
    let b = world.add_joint(v(60.0, 99.0));
    world.add_rod([a, b], F(1.0));
    world.add_bounds(Bounds { min: v(0.0, 0.0), max: v(100.0, 100.0) });
    world.update(F(0.01));
    for j in world.joints() {
        assert_eq!(j.position().y.0, 100.0);
        assert_eq!(j.velocity().y.0, 0.0);
        assert!(j.position().x.0 >= 0.0 && j.position().x.0 <= 100.0);
    }
}

#[test]
fn bounds_clamp_each_axis_on_its_own() {
    let mut c = config();
    c.gravity = F(-1_000_000.0);
    let mut world = World::from_config(c);
    let a = world.add_joint(v(-5.0, 1.0));
    let b = world.add_joint(v(5.0, 1.0));
    world.add_rod([a, b], F(1.0));
    world.add_bounds(Bounds { min: v(0.0, 0.0), max: v(100.0, 100.0) });
    world.update(F(0.01));
    let ja = world.joints()[a];
    assert_eq!(ja.position().x.0, 0.0);
    assert_eq!(ja.position().y.0, 0.0);
    assert_eq!(ja.velocity().y.0, 0.0);
    assert_eq!(ja.velocity().x.0, 0.0);
    assert_eq!(world.joints()[b].position().x.0, 5.0);
}

fn gust() -> WindConfig<F> {
    WindConfig { dir: v(1.0, 0.0), speed: F(250.0), viscosity: F(0.2), low: F(300.0), high: F(60.0) }
}

#[test]
fn wind_is_periodic_along_its_direction() {
    let world: World<F> = World::from_config(config());
    let g = gust();
    for i in 0..360 {
        let x = i as f32 + 0.5;
        let here = Wind.is_blowing_at(&g, world.inner(), v(x, 7.0));
        let next = Wind.is_blowing_at(&g, world.inner(), v(x + 360.0, -3.0));
        assert_eq!(here, next);
    }
}

#[test]
fn wind_blows_for_its_share_of_the_period() {
    let world: World<F> = World::from_config(config());
    let g = gust();
    let on = (0..3600)
        .filter(|i| Wind.is_blowing_at(&g, world.inner(), v(*i as f32 * 0.1 + 0.05, 0.0)))
        .count();
    assert_eq!(on, 600);
    assert!(!Wind.is_blowing_at(&g, world.inner(), v(299.5, 0.0)));
    assert!(Wind.is_blowing_at(&g, world.inner(), v(300.5, 0.0)));
    assert!(Wind.is_blowing_at(&g, world.inner(), v(-0.5, 0.0)));
}

#[test]
fn wind_moves_with_time() {
    let mut c = config();
    c.wind = vec![gust()];
    let mut world = World::from_config(c);
    world.update(F(0.5));
    assert_eq!(world.time().0, 0.5);
    let g = gust();
    assert!(Wind.is_blowing_at(&g, world.inner(), v(125.0 + 300.5, 0.0)));
    assert!(!Wind.is_blowing_at(&g, world.inner(), v(125.0 + 299.5, 0.0)));
}

#[test]
fn wind_without_period_never_blows() {
    let world: World<F> = World::from_config(config());
    let g = WindConfig { low: F(0.0), high: F(0.0), ..gust() };
    assert!(!Wind.is_blowing_at(&g, world.inner(), v(1.0, 1.0)));
}

#[test]
fn circle_is_a_closed_loop() {
    let world: World<F> = circle_gen(12, 1, 2);
    assert_eq!(world.joints().len(), 12);
    assert_eq!(world.rods().len(), 12);
    for (i, rod) in world.rods().iter().enumerate() {
        assert_eq!(rod.ends, [i, (i + 1) % 12]);
    }
    assert_eq!(world.angles()[11].joints(), [11, 1, 0]);
    assert_eq!(world.bounds().len(), 1);
}

#[test]
fn pendulum_swings_down_and_stays_bounded() {
    let mut c = config();
    c.rod_stiffness = F(10_000.0);
    c.rod_damping = F(1.0);
    c.gravity = F(-10.0);
    let mut world = World::from_config(c);
    let a = world.add_joint(v(0.0, 0.0));
    let b = world.add_joint(v(1.0, 0.0));
    world.fix(a);
    world.add_rod([a, b], F(1.0));
    world.add_bounds(Bounds { min: v(-2.0, -2.0), max: v(2.0, 2.0) });
    let mut ys = Vec::new();
    for _ in 0..1000 {
        world.update(F(0.001));
        ys.push(world.joints()[b].position().y.0);
    }
    assert!(ys[..100].windows(2).all(|w| w[1] <= w[0] + 1e-4));
    assert!(ys.iter().cloned().fold(f32::INFINITY, f32::min) < -0.9);
    assert!(finite(&world));
    for y in ys {
        assert!((-1.1..=1.1).contains(&y));
    }
    let p = world.joints()[a].position();
    assert_eq!((p.x.0, p.y.0), (0.0, 0.0));
}

#[test]
fn time_scale_multiplies_the_step() {
    let mut c = config();
    c.time_scale = Some(F(1.5));
    let mut world = World::from_config(c);
    world.update(F(2.0));
    world.update(F(2.0));
    assert_eq!(world.dt().0, 3.0);
    assert_eq!(world.time().0, 6.0);
}

#[test]
fn joints_on_top_of_each_other_stay_finite() {
    let mut c = config();
    c.rod_stiffness = F(100.0);
    c.rod_damping = F(10.0);
    c.angle_stiffness = F(100.0);
    c.wind = vec![gust()];
    let mut world = World::from_config(c);
    let a = world.add_joint(v(5.0, 5.0));
    let b = world.add_joint(v(5.0, 5.0));
    let p = world.add_joint(v(5.0, 5.0));
    world.add_rod([a, b], F(1.0));
    world.keep_angle([a, p, b]);
    for _ in 0..100 {
        world.update(F(0.01));
    }
    assert!(finite(&world));
}

#[test]
fn massless_joint_is_not_accelerated() {
    let mut c = config();
    c.rod_stiffness = F(100.0);
    c.angle_stiffness = F(1000.0);
    let mut world = World::from_config(c);
    let a = world.add_joint(v(0.0, 0.0));
    let p = world.add_joint(v(1.0, 0.0));
    let b = world.add_joint(v(1.0, 1.0));
    world.keep_angle([a, p, b]);
    world.update(F(0.01));
    assert_eq!(world.joints()[p].velocity().x.0, 0.0);
    assert_eq!(world.joints()[p].position().x.0, 1.0);
}

#[test]
fn fixing_a_moving_joint_pins_it() {
    let mut c = config();
    c.gravity = F(40.0);
    let mut world = World::from_config(c);
    let a = world.add_joint(v(0.0, 0.0));
    let b = world.add_joint(v(4.0, 0.0));
    world.add_rod([a, b], F(1.0));
    for _ in 0..10 {
        world.update(F(0.01));
    }
    assert!(world.joints()[a].velocity().y.0 > 0.0);
    world.fix(a);
    let pinned = world.joints()[a].position();
    for _ in 0..10 {
        world.update(F(0.01));
    }
    assert_eq!(world.joints()[a].position(), pinned);
    assert!(world.joints()[a].is_fixed());
    assert!(!world.joints()[b].is_fixed());
}

#[test]
fn update_keeps_the_topology() {
    let mut c = config();
    c.rod_stiffness = F(50.0);
    c.angle_stiffness = F(20.0);
    c.gravity = F(9.0);
    let mut world = World::from_config(c);
    for i in 0..5 {
        world.add_joint(v(i as f32 * 3.0, 1.0));
    }
    for i in 0..4 {
        world.add_rod([i, i + 1], F(1.0));
    }
    for i in 1..4 {
        world.keep_angle([i - 1, i, i + 1]);
    }
    world.add_bounds(Bounds { min: v(-50.0, -50.0), max: v(50.0, 50.0) });
    let weights: Vec<f32> = world.joints().iter().map(|j| j.weight().0).collect();
    assert_eq!(weights, [0.5, 1.0, 1.0, 1.0, 0.5]);
    for _ in 0..300 {
        world.update(F(0.005));
    }
    assert_eq!(world.joints().len(), 5);
    assert_eq!(world.rods().len(), 4);
    assert_eq!(world.angles().len(), 3);
    assert_eq!(world.bounds().len(), 1);
    for (i, rod) in world.rods().iter().enumerate() {
        assert_eq!(rod.ends, [i, i + 1]);
        assert_eq!(rod.rest_distance().0, 3.0);
    }
    let after: Vec<f32> = world.joints().iter().map(|j| j.weight().0).collect();
    assert_eq!(after, weights);
    assert!(finite(&world));
}

#[test]
fn gravity_is_split_between_the_ends() {
    let mut c = config();
    c.gravity = F(10.0);
    let mut world = World::from_config(c);
    let a = world.add_joint(v(0.0, 0.0));
    let b = world.add_joint(v(4.0, 0.0));
    world.add_rod([a, b], F(3.0));
    world.update(F(0.1));
    assert_eq!(world.joints()[a].forces(), v(0.0, 15.0));
    assert_eq!(world.joints()[b].forces(), v(0.0, 15.0));
    assert_eq!(world.joints()[a].velocity().y.0, 15.0 / 1.5 * 0.1);
}

#[test]
fn fixed_joint_inside_bounds_stays_put() {
    let mut c = config();
    c.gravity = F(40.0);
    c.rod_stiffness = F(200.0);
    let mut world = World::from_config(c);
    let a = world.add_joint(v(30.5, 40.25));
    let b = world.add_joint(v(38.0, 40.25));
    world.fix(a);
    world.add_rod([a, b], F(1.0));
    world.add_bounds(Bounds { min: v(0.0, 0.0), max: v(100.0, 100.0) });
    for _ in 0..1000 {
        world.update(F(0.001));
    }
    let p = world.joints()[a].position();
    assert_eq!((p.x.0.to_bits(), p.y.0.to_bits()), (30.5f32.to_bits(), 40.25f32.to_bits()));
    assert_eq!(world.joints()[a].velocity(), v(0.0, 0.0));
}

#[test]
fn fixed_joints_have_no_forces_after_a_step() {
    let mut c = config();
    c.gravity = F(40.0);
    c.general_damping = F(0.5);
    let mut world = World::from_config(c);
    let a = world.add_joint(v(0.0, 0.0));
    let b = world.add_joint(v(1.0, 0.0));
    world.fix(a);
    world.add_rod([a, b], F(1.0));
    world.update(F(0.01));
    assert_eq!(world.joints()[a].forces(), v(0.0, 0.0));
    assert_eq!(world.joints()[b].forces(), v(0.0, 20.0));
    let vb = world.joints()[b].velocity().y.0;
    world.update(F(0.01));
    assert!((world.joints()[b].forces().y.0 - (20.0 - 0.5 * vb)).abs() < 1e-5);
}

#[test]
fn rod_on_one_joint_adds_its_whole_weight() {
    let mut world = World::from_config(config());
    let a = world.add_joint(v(2.0, 2.0));
    world.add_rod([a, a], F(3.0));
    assert_eq!(world.joints()[a].weight().0, 3.0);
    assert_eq!(world.rods()[0].rest_distance().0, 0.0);
}

#[test]
fn new_config_is_all_zero() {
    let c: WorldConfig<F> = WorldConfig::new();
    assert_eq!(
        (c.rod_stiffness.0, c.rod_damping.0, c.angle_stiffness.0, c.general_damping.0, c.gravity.0),
        (0.0, 0.0, 0.0, 0.0, 0.0)
    );
    assert!(c.wind.is_empty() && c.time_scale.is_none());
    let world = World::from_config(c);
    assert_eq!((world.time().0, world.dt().0), (0.0, 0.0));
}
