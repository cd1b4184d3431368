use armature::scalar::Scalar;
use armature::scenario::{jitter_channel, scenarios, wrap_add, Generated, Rgba, Scenario};
use armature::vector::Vector2;
use rand::rngs::StdRng;
use rand::SeedableRng;

#[derive(Clone, Copy, Debug, PartialEq)]
struct F(f32);

impl Scalar for F {
    fn spec_zero() -> Self {
        Self::zero()
    }
    fn spec_from_int(n: i64) -> Self {
        Self::from_int(n)
    }
    fn spec_pi() -> Self {
        Self::pi()
    }
    fn spec_add(self, o: Self) -> Self {
        self.add(o)
    }
    fn spec_sub(self, o: Self) -> Self {
        self.sub(o)
    }
    fn spec_mul(self, o: Self) -> Self {
        self.mul(o)
    }
    fn spec_div(self, o: Self) -> Self {
        self.div(o)
    }
    fn spec_neg(self) -> Self {
        self.neg()
    }
    fn spec_rem(self, o: Self) -> Self {
        self.rem(o)
    }
    fn spec_lt(self, o: Self) -> bool {
        self.lt(o)
    }
    fn spec_le(self, o: Self) -> bool {
        self.le(o)
    }
    fn spec_sqrt(self) -> Self {
        self.sqrt()
    }
    fn spec_sin(self) -> Self {
        self.sin()
    }
    fn spec_cos(self) -> Self {
        self.cos()
    }
    fn spec_atan2(self, x: Self) -> Self {
        self.atan2(x)
    }
    fn spec_trunc_int(self) -> i64 {
        self.trunc_int()
    }
    fn zero() -> Self {
        F(0.0)
    }
    fn from_int(n: i64) -> Self {
        F(n as f32)
    }
    fn pi() -> Self {
        F(std::f32::consts::PI)
    }
    fn add(self, o: Self) -> Self {
        F(self.0 + o.0)
    }
    fn sub(self, o: Self) -> Self {
        F(self.0 - o.0)
    }
    fn mul(self, o: Self) -> Self {
        F(self.0 * o.0)
    }
    fn div(self, o: Self) -> Self {
        F(self.0 / o.0)
    }
    fn neg(self) -> Self {
        F(-self.0)
    }
    fn rem(self, o: Self) -> Self {
        F(self.0 % o.0)
    }
    fn lt(self, o: Self) -> bool {
        self.0 < o.0
    }
    fn le(self, o: Self) -> bool {
        self.0 <= o.0
    }
    fn sqrt(self) -> Self {
        F(self.0.sqrt())
    }
    fn sin(self) -> Self {
        F(self.0.sin())
    }
    fn cos(self) -> Self {
        F(self.0.cos())
    }
    fn atan2(self, x: Self) -> Self {
        F(self.0.atan2(x.0))
    }
    fn trunc_int(self) -> i64 {
        self.0 as i64
    }
}

fn v(x: f32, y: f32) -> Vector2<F> {
    Vector2 { x: F(x), y: F(y) }
}

fn build(s: Scenario, seed: u64) -> Generated<F> {
    s.build(&mut StdRng::seed_from_u64(seed))
}

#[test]
fn scenarios_are_listed_by_name() {
    let names: Vec<&str> = scenarios().iter().map(|(n, _)| *n).collect();
    assert_eq!(names, ["pendulum", "elastic_rod", "tree", "stable_circle", "soft_circle", "weird_circle"]);
    for (name, s) in scenarios() {
        assert_eq!(name, s.name());
    }
}

#[test]
fn pendulum_is_a_fixed_chain() {
    let (mut world, painting) = build(Scenario::Pendulum, 1);
    assert!(painting.is_none());
    assert_eq!(world.joints().len(), 51);
    assert_eq!(world.rods().len(), 50);
    assert_eq!(world.angles().len(), 49);
    assert_eq!(world.bounds().len(), 1);
    assert_eq!(world.config().wind.len(), 1);
    assert!(world.joints()[0].is_fixed());
    assert!(world.joints()[1..].iter().all(|j| !j.is_fixed()));
    for (i, rod) in world.rods().iter().enumerate() {
        assert_eq!(rod.ends, [i, i + 1]);
        assert!((rod.rest_distance().0 - 5.0).abs() < 1e-4);
    }
    assert_eq!(world.angles()[48].joints(), [48, 49, 50]);
    for _ in 0..200 {
        world.update(F(0.001));
    }
    let p = world.joints()[0].position();
    assert_eq!((p.x.0, p.y.0), (320.0, 200.0));
    assert!(world.joints()[50].position().y.0 > 200.0);
}

#[test]
fn elastic_rod_stands_on_two_fixed_joints() {
    let (world, painting) = build(Scenario::ElasticRod, 1);
    assert!(painting.is_none());
    assert_eq!(world.joints().len(), 21);
    assert_eq!(world.rods().len(), 20);
    assert_eq!(world.angles().len(), 19);
    assert!(world.joints()[0].is_fixed() && world.joints()[1].is_fixed());
    assert!(!world.joints()[2].is_fixed());
    assert!(world.joints()[20].position().y.0 < 440.0);
    assert!((world.rods()[7].rest_distance().0 - 20.0).abs() < 1e-3);
}

#[test]
fn circles_have_their_sizes() {
    for (s, n) in [(Scenario::StableCircle, 300), (Scenario::SoftCircle, 1000), (Scenario::WeirdCircle, 1000)] {
        let (world, painting) = build(s, 1);
        assert!(painting.is_none());
        assert_eq!(world.joints().len(), n);
        assert_eq!(world.rods().len(), n);
        assert_eq!(world.angles().len(), n);
        assert_eq!(world.rods()[n - 1].ends, [n - 1, 0]);
    }
    let (world, _) = build(Scenario::WeirdCircle, 1);
    assert_eq!(world.angles()[999].joints(), [999, 1, 3]);
}

#[test]
fn tree_is_reproducible_from_its_seed() {
    let (a, pa) = build(Scenario::Tree, 42);
    let (b, pb) = build(Scenario::Tree, 42);
    assert_eq!(a.joints().len(), b.joints().len());
    assert_eq!(a.rods().len(), b.rods().len());
    for (x, y) in a.joints().iter().zip(b.joints()) {
        assert_eq!(x.position(), y.position());
    }
    let (pa, pb) = (pa.unwrap(), pb.unwrap());
    assert_eq!(pa.squares.len(), pb.squares.len());
    assert_eq!(pa.background, Rgba { r: 0xa1, g: 0xd9, b: 0xe8, a: 0xff });
}

#[test]
fn tree_squares_follow_its_rods() {
    for seed in 0..4 {
        let (mut world, painting) = build(Scenario::Tree, seed);
        let painting = painting.unwrap();
        assert!(world.joints()[0].is_fixed() && world.joints()[1].is_fixed());
        assert_eq!(world.rods()[0].ends, [0, 1]);
        assert!(world.rods().len() > 20);
        assert!(painting.squares.len() >= 60 * world.rods().len() - 60);
        assert!(painting.squares.iter().all(|s| s.rod < world.rods().len()));
        assert_eq!(world.config().wind.len(), 2);
        for _ in 0..20 {
            world.update(F(0.0005));
        }
        assert!(world.joints().iter().all(|j| j.position().x.0.is_finite() && j.position().y.0.is_finite()));
    }
}

#[test]
fn jitter_moves_channels_with_room() {
    assert_eq!(jitter_channel(100, 47), 102);
    assert_eq!(jitter_channel(239, 29), 253);
    assert_eq!(jitter_channel(16, 0), 1);
    assert_eq!(jitter_channel(10, 200), 10);
    assert_eq!(jitter_channel(15, 3), 15);
    assert_eq!(jitter_channel(240, 5), 240);
}

#[test]
fn wrap_add_counts_round_the_loop() {
    assert_eq!(wrap_add(3, 5, 7), 1);
    assert_eq!(wrap_add(6, 1, 7), 0);
    assert_eq!(wrap_add(2, 1, 7), 3);
    assert_eq!(wrap_add(0, usize::MAX, 10), 5);
    assert_eq!(wrap_add(9, usize::MAX, 10), 4);
}

#[test]
fn vector_operations() {
    let a = v(3.0, 4.0);
    assert_eq!(a.length().0, 5.0);
    assert_eq!(a.dot(v(2.0, -1.0)).0, 2.0);
    assert_eq!(a.det(v(2.0, -1.0)).0, -11.0);
    assert_eq!(a.perp(), v(-4.0, 3.0));
    assert_eq!(a.perp_cw(), v(4.0, -3.0));
    assert_eq!(a.normalized(), v(0.6, 0.8));
    assert_eq!(v(0.0, 0.0).normalized(), v(0.0, 0.0));
    let r = v(1.0, 0.0).rotate(F(std::f32::consts::FRAC_PI_2));
    assert!(r.x.0.abs() < 1e-6 && (r.y.0 - 1.0).abs() < 1e-6);
}


#[test]
fn scenarios_are_found_in_any_case() {
    assert_eq!(Scenario::named("pendulum"), Some(Scenario::Pendulum));
    assert_eq!(Scenario::named("Elastic_Rod"), Some(Scenario::ElasticRod));
    assert_eq!(Scenario::named("TREE"), Some(Scenario::Tree));
    assert_eq!(Scenario::named("weird_CIRCLE"), Some(Scenario::WeirdCircle));
    assert_eq!(Scenario::named("circle"), None);
    assert_eq!(Scenario::named(""), None);
}

#[test]
fn lowered_names_match_exactly() {
    assert_eq!(Scenario::named_lowered(&"soft_circle".to_string()), Some(Scenario::SoftCircle));
    assert_eq!(Scenario::named_lowered(&"stable_circle".to_string()), Some(Scenario::StableCircle));
    assert_eq!(Scenario::named_lowered(&"Tree".to_string()), None);
    assert_eq!(Scenario::named_lowered(&"tree ".to_string()), None);
}
