//! Builders of demonstration worlds: a hanging chain, an elastic rod,
//! closed loops and a branching tree.
use vstd::prelude::*;
use rand::rngs::StdRng;
use crate::physics::{Bounds, JointId, RodId, WindConfig, World, WorldConfig};
use crate::rng::{below, between, byte, unit};
use crate::scalar::{Scalar, ratio};
use crate::vector::Vector2;

verus! {

/// `(i + off) % n`, without overflow.
pub fn wrap_add(i: usize, off: usize, n: usize) -> (r: usize)
    requires
        i < n,
    ensures
        r == (i + off) % (n as int),
{
    let k = off % n;
    proof {
        vstd::arithmetic::div_mod::lemma_add_mod_noop(i as int, off as int, n as int);
        vstd::arithmetic::div_mod::lemma_small_mod(i as nat, n as nat);
    }
    if i >= n - k {
        let r = i - (n - k);
        proof {
            vstd::arithmetic::div_mod::lemma_mod_sub_multiples_vanish((i + k) as int, n as int);
            vstd::arithmetic::div_mod::lemma_small_mod(r as nat, n as nat);
        }
        r
    } else {
        proof {
            vstd::arithmetic::div_mod::lemma_small_mod((i + k) as nat, n as nat);
        }
        i + k
    }
}

/// A colour, one byte a channel.
#[derive(Clone, Copy, Debug, PartialEq, Eq, Structural)]
pub struct Rgba {
    pub r: u8,
    pub g: u8,
    pub b: u8,
    pub a: u8,
}

/// A painted square that follows a rod: `pos.x` runs along the rod from its
/// first end (0) to its second (1), `pos.y` across it, in rod lengths.
#[derive(Clone, Copy)]
pub struct Square<S> {
    pub rod: RodId,
    pub pos: Vector2<S>,
    pub size: S,
    pub col: Rgba,
}

/// What a scenario paints beside the simulation.
pub struct Painting<S> {
    pub background: Rgba,
    pub squares: Vec<Square<S>>,
}

/// Every square follows a rod below `n`.
pub open spec fn squares_on<S>(squares: Seq<Square<S>>, n: nat) -> bool {
    forall|i: int| 0 <= i < squares.len() ==> (#[trigger] squares[i]).rod < n
}

/// A built scenario: the world, and what to paint beside it.
pub type Generated<S> = (World<S>, Option<Painting<S>>);

/// A built scenario is well formed, and what it paints follows its rods.
pub open spec fn generated_wf<S: Scalar>(g: Generated<S>) -> bool {
    &&& g.0.wf()
    &&& match g.1 {
        Some(p) => squares_on(p.squares@, g.0.rods_view().len()),
        None => true,
    }
}

/// How far a colour channel is moved each way by `jitter_channel`.
pub const JITTER: u8 = 15;

/// Channel `c` moved by `draw % 30 - 15`, when it has room for that on both
/// sides; otherwise `c`.
pub fn jitter_channel(c: u8, draw: u8) -> (r: u8)
    ensures
        r == if JITTER < c && c < 255 - JITTER { c - JITTER + draw % 30 } else { c as int },
{
    if JITTER < c && c < 255 - JITTER {
        c - JITTER + draw % (2 * JITTER)
    } else {
        c
    }
}

/// Channel `c` moved at random by up to `JITTER` each way; a draw is made
/// only for a channel with room for it.
fn jitter(c: u8, rng: &mut StdRng) -> (r: u8)
    ensures
        JITTER < c && c < 255 - JITTER ==> c - JITTER <= r < c + JITTER,
        !(JITTER < c && c < 255 - JITTER) ==> r == c,
{
    if JITTER < c && c < 255 - JITTER {
        jitter_channel(c, byte(rng))
    } else {
        c
    }
}

/// `col` with each colour channel jittered.
fn col_gen(col: Rgba, rng: &mut StdRng) -> (r: Rgba)
    ensures
        r.a == col.a,
{
    let r = jitter(col.r, rng);
    let g = jitter(col.g, rng);
    let b = jitter(col.b, rng);
    Rgba { r, g, b, a: col.a }
}

/// Channel `c` times `k`, truncated and saturated to a byte.
fn shade<S: Scalar>(c: u8, k: S) -> u8 {
    let v = S::from_int(c as i64).mul(k).trunc_int();
    if v < 0 {
        0
    } else if v > 255 {
        255
    } else {
        v as u8
    }
}

/// A vector of integer components.
fn at<S: Scalar>(x: i64, y: i64) -> Vector2<S> {
    Vector2::new(S::from_int(x), S::from_int(y))
}

/// A closed loop of `circle_len` joints on a circle: rod `i` joins joint
/// `i` to joint `i + 1` (the last one to the first), and angular constraint
/// `i` holds joints `i`, `i + off_2` and `i + off_1` (counted round the
/// loop) at the angle they start with. One bounds rectangle keeps it on
/// screen.
pub fn circle_gen<S: Scalar>(circle_len: usize, off_1: usize, off_2: usize) -> (r: World<S>)
    ensures
        r.wf(),
        r.joints_view().len() == circle_len,
        r.rods_view().len() == circle_len,
        r.angles_view().len() == circle_len,
        r.bounds_view().len() == 1,
        forall|i: int| 0 <= i < circle_len ==> !(#[trigger] r.joints_view()[i]).spec_fixed(),
        r.config_view().wind@.len() == 0,
        r.config_view().time_scale.is_none(),
        forall|i: int| 0 <= i < circle_len ==> {
            &&& (#[trigger] r.rods_view()[i]).spec_ends()[0] == i
            &&& r.rods_view()[i].spec_ends()[1] == (i + 1) % (circle_len as int)
        },
        forall|i: int| 0 <= i < circle_len ==> {
            &&& (#[trigger] r.angles_view()[i]).spec_joints()[0] == i
            &&& r.angles_view()[i].spec_joints()[1] == (i + off_2) % (circle_len as int)
            &&& r.angles_view()[i].spec_joints()[2] == (i + off_1) % (circle_len as int)
        },
{
    let mut config = WorldConfig::new();
    config.rod_stiffness = S::from_int(300);
    config.rod_damping = S::from_int(100);
    config.general_damping = S::zero();
    config.angle_stiffness = S::from_int(80_000);
    config.gravity = S::from_int(80);

    let mut world = World::from_config(config);
    let n = S::from_int(circle_len as i64);
    let two_pi = S::from_int(2).mul(S::pi());

    let mut i: usize = 0;
    while i < circle_len
        invariant
            world.wf(),
            i <= circle_len,
            world.joints_view().len() == i,
            world.rods_view().len() == 0,
            world.angles_view().len() == 0,
            world.bounds_view().len() == 0,
            forall|k: int| 0 <= k < i ==> !(#[trigger] world.joints_view()[k]).spec_fixed(),
            world.config_view().wind@.len() == 0,
            world.config_view().time_scale.is_none(),
        decreases circle_len - i,
    {
        let angle = S::from_int(i as i64).div(n).mul(two_pi);
        let dir = at::<S>(0, 150).rotate(angle);
        let pos = at::<S>(300, 200).add(dir);
        let ghost js0 = world.joints_view();
        world.add_joint(pos);
        assert forall|k: int| 0 <= k <= i implies !(#[trigger] world.joints_view()[k]).spec_fixed() by {
            if k < i {
                assert(world.joints_view().subrange(0, i as int)[k] == world.joints_view()[k]);
                assert(!js0[k].spec_fixed());
            }
        }
        i += 1;
    }

    let mut i: usize = 0;
    while i < circle_len
        invariant
            world.wf(),
            i <= circle_len,
            world.joints_view().len() == circle_len,
            world.rods_view().len() == i,
            world.angles_view().len() == i,
            world.bounds_view().len() == 0,
            forall|k: int| 0 <= k < circle_len ==> !(#[trigger] world.joints_view()[k]).spec_fixed(),
            world.config_view().wind@.len() == 0,
            world.config_view().time_scale.is_none(),
            forall|k: int| 0 <= k < i ==> {
                &&& (#[trigger] world.rods_view()[k]).spec_ends()[0] == k
                &&& world.rods_view()[k].spec_ends()[1] == (k + 1) % (circle_len as int)
            },
            forall|k: int| 0 <= k < i ==> {
                &&& (#[trigger] world.angles_view()[k]).spec_joints()[0] == k
                &&& world.angles_view()[k].spec_joints()[1] == (k + off_2) % (circle_len as int)
                &&& world.angles_view()[k].spec_joints()[2] == (k + off_1) % (circle_len as int)
            },
        decreases circle_len - i,
    {
        let ghost rods0 = world.rods_view();
        let ends = [i, wrap_add(i, 1, circle_len)];
        assert(ends[0] == i);
        world.add_rod(ends, S::from_int(1));
        let ghost rods1 = world.rods_view();
        let ghost angles0 = world.angles_view();
        let ids = [i, wrap_add(i, off_2, circle_len), wrap_add(i, off_1, circle_len)];
        assert(ids[0] == i);
        world.keep_angle(ids);
        proof {
            assert forall|k: int| 0 <= k <= i implies {
                &&& (#[trigger] world.rods_view()[k]).spec_ends()[0] == k
                &&& world.rods_view()[k].spec_ends()[1] == (k + 1) % (circle_len as int)
            } by {
                assert(world.rods_view() == rods1);
                if k < i {
                    assert(rods1[k] == rods0[k]);
                }
            }
            assert forall|k: int| 0 <= k <= i implies {
                &&& (#[trigger] world.angles_view()[k]).spec_joints()[0] == k
                &&& world.angles_view()[k].spec_joints()[1] == (k + off_2) % (circle_len as int)
                &&& world.angles_view()[k].spec_joints()[2] == (k + off_1) % (circle_len as int)
            } by {
                if k < i {
                    assert(world.angles_view()[k] == angles0[k]);
                }
            }
        }
        i += 1;
    }

    world.add_bounds(Bounds { min: at(10, 10), max: at(630, 470) });
    world
}

impl Rgba {
    /// The opaque colour `0xRRGGBB`.
    pub fn opaque(r: u8, g: u8, b: u8) -> (c: Rgba)
        ensures
            c == (Rgba { r, g, b, a: 0xff }),
    {
        Rgba { r, g, b, a: 0xff }
    }
}

/// `b` is `a` with joints, rods and angular constraints appended: the old
/// ones kept (and the old joints as fixed or free as they were), the bounds
/// and coefficients the same.
pub open spec fn grows<S: Scalar>(a: World<S>, b: World<S>) -> bool {
    &&& a.joints_view().len() <= b.joints_view().len()
    &&& forall|i: int| 0 <= i < a.joints_view().len() ==> #[trigger] b.joints_view()[i].spec_fixed() == a.joints_view()[i].spec_fixed()
    &&& a.rods_view().len() <= b.rods_view().len()
    &&& forall|i: int| 0 <= i < a.rods_view().len() ==> #[trigger] b.rods_view()[i] == a.rods_view()[i]
    &&& a.angles_view().len() <= b.angles_view().len()
    &&& forall|i: int| 0 <= i < a.angles_view().len() ==> #[trigger] b.angles_view()[i] == a.angles_view()[i]
    &&& b.bounds_view() == a.bounds_view()
    &&& b.config_view() == a.config_view()
}

proof fn lemma_grows_trans<S: Scalar>(a: World<S>, b: World<S>, c: World<S>)
    requires
        grows(a, b),
        grows(b, c),
    ensures
        grows(a, c),
{
    assert forall|i: int| 0 <= i < a.joints_view().len() implies #[trigger] c.joints_view()[i].spec_fixed() == a.joints_view()[i].spec_fixed() by {
        assert(b.joints_view()[i].spec_fixed() == a.joints_view()[i].spec_fixed());
    }
    assert forall|i: int| 0 <= i < a.rods_view().len() implies #[trigger] c.rods_view()[i] == a.rods_view()[i] by {
        assert(b.rods_view()[i] == a.rods_view()[i]);
    }
    assert forall|i: int| 0 <= i < a.angles_view().len() implies #[trigger] c.angles_view()[i] == a.angles_view()[i] by {
        assert(b.angles_view()[i] == a.angles_view()[i]);
    }
}

/// Appending to each sequence of a world is growing it.
proof fn lemma_grows_by_prefixes<S: Scalar>(a: World<S>, b: World<S>)
    requires
        a.joints_view().len() <= b.joints_view().len(),
        b.joints_view().subrange(0, a.joints_view().len() as int) =~= a.joints_view()
            || forall|i: int| 0 <= i < a.joints_view().len() ==> #[trigger] b.joints_view()[i].spec_fixed() =~= a.joints_view()[i].spec_fixed(),
        a.rods_view().len() <= b.rods_view().len(),
        b.rods_view().subrange(0, a.rods_view().len() as int) =~= a.rods_view(),
        a.angles_view().len() <= b.angles_view().len(),
        b.angles_view().subrange(0, a.angles_view().len() as int) =~= a.angles_view(),
        b.bounds_view() == a.bounds_view(),
        b.config_view() == a.config_view(),
    ensures
        grows(a, b),
{
    assert forall|i: int| 0 <= i < a.joints_view().len() implies #[trigger] b.joints_view()[i].spec_fixed() == a.joints_view()[i].spec_fixed() by {
        if b.joints_view().subrange(0, a.joints_view().len() as int) =~= a.joints_view() {
            assert(b.joints_view().subrange(0, a.joints_view().len() as int)[i] == b.joints_view()[i]);
        }
    }
    assert forall|i: int| 0 <= i < a.rods_view().len() implies #[trigger] b.rods_view()[i] == a.rods_view()[i] by {
        assert(b.rods_view().subrange(0, a.rods_view().len() as int)[i] == b.rods_view()[i]);
    }
    assert forall|i: int| 0 <= i < a.angles_view().len() implies #[trigger] b.angles_view()[i] == a.angles_view()[i] by {
        assert(b.angles_view().subrange(0, a.angles_view().len() as int)[i] == b.angles_view()[i]);
    }
}

/// Appends a rod of `weight` from `from` to `to`, with the bark that paints
/// it and, on a thin branch, the leaves around it. Returns the rod.
fn add_branch<S: Scalar>(
    world: &mut World<S>,
    from: JointId,
    to: JointId,
    weight: S,
    squares: &mut Vec<Square<S>>,
    rng: &mut StdRng,
) -> (r: RodId)
    requires
        old(world).wf(),
        from < old(world).joints_view().len(),
        to < old(world).joints_view().len(),
        squares_on(old(squares)@, old(world).rods_view().len()),
    ensures
        final(world).wf(),
        grows(*old(world), *final(world)),
        final(world).joints_view().len() == old(world).joints_view().len(),
        final(world).rods_view().len() == old(world).rods_view().len() + 1,
        final(world).angles_view().len() == old(world).angles_view().len(),
        r == old(world).rods_view().len(),
        squares_on(final(squares)@, final(world).rods_view().len()),
        final(squares)@.subrange(0, old(squares)@.len() as int) == old(squares)@,
        final(squares)@.len() == old(squares)@.len() + 60 || final(squares)@.len() == old(squares)@.len() + 160,
        forall|i: int| old(squares)@.len() <= i < final(squares)@.len() ==> (#[trigger] final(squares)@[i]).rod == r,
{
    let ghost w0 = *world;
    let rod = world.add_rod([from, to], weight);
    proof {
        lemma_grows_by_prefixes(w0, *world);
    }
    let ghost start = squares@;

    let steps: i64 = 60;
    let mut i: i64 = 0;
    while i < steps
        invariant
            squares_on(squares@, world.rods_view().len()),
            rod < world.rods_view().len(),
            steps == 60,
            0 <= i <= steps,
            squares@.len() == start.len() + i,
            squares@.subrange(0, start.len() as int) == start,
            forall|k: int| start.len() <= k < squares@.len() ==> (#[trigger] squares@[k]).rod == rod,
        decreases steps - i,
    {
        let x = S::from_int(i).div(S::from_int(steps));
        let pos = Vector2::new(x, between(rng, ratio(-3, 10), ratio(3, 10)));
        let mut col = col_gen(Rgba::opaque(0x88, 0x5e, 0x48), rng);

        if pos.y.lt(ratio(-1, 10)) {
            let sub = S::from_int(1).sub(S::from_int(3).mul(ratio::<S>(-1, 10).sub(pos.y)));
            col.r = shade(col.r, sub);
            col.g = shade(col.g, sub);
            col.b = shade(col.b, sub);
        }

        squares.push(Square { rod, pos, col, size: weight.mul(S::from_int(20)) });
        i += 1;
    }

    if weight.lt(ratio(15, 100)) {
        let side = S::from_int(4);
        let mut i: u32 = 0;
        while i < 100
            invariant
                squares_on(squares@, world.rods_view().len()),
                rod < world.rods_view().len(),
                i <= 100,
                squares@.len() == start.len() + 60 + i,
                squares@.subrange(0, start.len() as int) == start,
                forall|k: int| start.len() <= k < squares@.len() ==> (#[trigger] squares@[k]).rod == rod,
            decreases 100 - i,
        {
            let pos = Vector2::new(between(rng, S::zero(), S::from_int(1)), between(rng, side.neg(), side));
            let mut col = col_gen(Rgba::opaque(0xe2, 0x2a, 0x00), rng);
            col.a = shade(255, unit::<S>(rng));
            squares.push(Square { rod, pos, col, size: between(rng, S::from_int(3), S::from_int(10)) });
            i += 1;
        }
    }
    rod
}

/// Grows a branch from `knot` along `dir`, held straight to `prev` by an
/// angular constraint, with bark of `weight`. Returns its new end.
fn sprout<S: Scalar>(
    world: &mut World<S>,
    prev: JointId,
    knot: JointId,
    dir: Vector2<S>,
    weight: S,
    squares: &mut Vec<Square<S>>,
    rng: &mut StdRng,
) -> (r: JointId)
    requires
        old(world).wf(),
        prev < old(world).joints_view().len(),
        knot < old(world).joints_view().len(),
        squares_on(old(squares)@, old(world).rods_view().len()),
    ensures
        final(world).wf(),
        grows(*old(world), *final(world)),
        r == old(world).joints_view().len(),
        final(world).joints_view().len() == old(world).joints_view().len() + 1,
        final(world).rods_view().len() == old(world).rods_view().len() + 1,
        final(world).angles_view().len() == old(world).angles_view().len() + 1,
        squares_on(final(squares)@, final(world).rods_view().len()),
        final(squares)@.len() >= old(squares)@.len() + 60,
{
    let ghost w0 = *world;
    let child = world.add_joint(world.joints()[knot].position().add(dir));
    let ghost w1 = *world;
    world.keep_angle([prev, knot, child]);
    let ghost w2 = *world;
    add_branch(world, knot, child, weight, squares, rng);
    proof {
        lemma_grows_by_prefixes(w0, w1);
        lemma_grows_by_prefixes(w1, w2);
        lemma_grows_trans(w0, w1, w2);
        lemma_grows_trans(w0, w2, *world);
    }
    child
}

/// Grows a limb of four segments from `knot` (whose parent is `prev`) along
/// `dir`, and, while `depth` lasts, two child limbs at its tip and, at
/// random, one more on the way.
fn generate_tree<S: Scalar>(
    depth: usize,
    world: &mut World<S>,
    prev: JointId,
    knot: JointId,
    dir: Vector2<S>,
    squares: &mut Vec<Square<S>>,
    rng: &mut StdRng,
)
    requires
        old(world).wf(),
        prev < old(world).joints_view().len(),
        knot < old(world).joints_view().len(),
        squares_on(old(squares)@, old(world).rods_view().len()),
    ensures
        final(world).wf(),
        grows(*old(world), *final(world)),
        final(world).joints_view().len() >= old(world).joints_view().len() + 4,
        final(world).rods_view().len() >= old(world).rods_view().len() + 4,
        final(world).angles_view().len() >= old(world).angles_view().len() + 4,
        depth == 0 ==> final(world).joints_view().len() == old(world).joints_view().len() + 4,
        depth == 0 ==> final(world).rods_view().len() == old(world).rods_view().len() + 4,
        depth == 0 ==> final(world).angles_view().len() == old(world).angles_view().len() + 4,
        squares_on(final(squares)@, final(world).rods_view().len()),
        final(squares)@.len() + 60 * old(world).rods_view().len() >= old(squares)@.len() + 60 * final(world).rods_view().len(),
    decreases depth,
{
    let ghost w_start = *world;
    proof {
        lemma_grows_by_prefixes(w_start, w_start);
    }
    let weight = dir.length().mul(ratio(1, 100));
    let mut dir = dir.scale(between(rng, ratio(7, 10), ratio(9, 10)));

    let mut early_branch: Option<u32> = None;
    if unit::<S>(rng).lt(ratio(6, 10)) && depth > 0 {
        early_branch = Some(below(rng, 3));
    }

    let ldir = dir.rotate(between::<S>(rng, S::zero(), ratio(8, 10)).neg());
    let rdir = dir.rotate(between(rng, S::zero(), ratio(8, 10)));

    let bend = between(rng, ratio(-1, 10), ratio(1, 10));
    let ghost sq0 = squares@.len();
    let mut prev = prev;
    let mut knot = knot;
    let mut i: u32 = 0;
    while i < 4
        invariant
            i <= 4,
            world.wf(),
            grows(w_start, *world),
            prev < world.joints_view().len(),
            knot < world.joints_view().len(),
            world.joints_view().len() >= w_start.joints_view().len() + i,
            world.rods_view().len() >= w_start.rods_view().len() + i,
            world.angles_view().len() >= w_start.angles_view().len() + i,
            depth == 0 ==> world.joints_view().len() == w_start.joints_view().len() + i,
            depth == 0 ==> world.rods_view().len() == w_start.rods_view().len() + i,
            depth == 0 ==> world.angles_view().len() == w_start.angles_view().len() + i,
            squares_on(squares@, world.rods_view().len()),
            squares@.len() + 60 * w_start.rods_view().len() >= sq0 + 60 * world.rods_view().len(),
            early_branch.is_some() ==> depth > 0,
        decreases 4 - i,
    {
        let branch_here = match early_branch {
            Some(e) => e == i,
            None => false,
        };
        if branch_here {
            let side = dir.rotate(between(rng, ratio(-8, 10), ratio(8, 10)));
            let ghost w0 = *world;
            let child = sprout(world, prev, knot, side, weight, squares, rng);
            let ghost w1 = *world;
            generate_tree(depth - 1, world, knot, child, side, squares, rng);
            proof {
                lemma_grows_trans(w0, w1, *world);
                lemma_grows_trans(w_start, w0, *world);
            }
        }

        let ghost w0 = *world;
        let new = world.add_joint(world.joints()[knot].position().add(dir));
        let ghost w1 = *world;
        add_branch(world, knot, new, weight, squares, rng);
        let ghost w2 = *world;
        world.keep_angle([prev, knot, new]);
        proof {
            lemma_grows_by_prefixes(w0, w1);
            lemma_grows_by_prefixes(w2, *world);
            lemma_grows_trans(w0, w1, w2);
            lemma_grows_trans(w0, w2, *world);
            lemma_grows_trans(w_start, w0, *world);
        }
        prev = knot;
        knot = new;
        dir = dir.rotate(bend);
        i += 1;
    }

    if depth == 0 {
        return;
    }

    let ghost w0 = *world;
    let child = sprout(world, prev, knot, ldir, weight, squares, rng);
    let ghost w1 = *world;
    generate_tree(depth - 1, world, knot, child, ldir, squares, rng);
    let ghost w2 = *world;
    let child = sprout(world, prev, knot, rdir, weight, squares, rng);
    let ghost w3 = *world;
    generate_tree(depth - 1, world, knot, child, rdir, squares, rng);
    proof {
        lemma_grows_trans(w0, w1, w2);
        lemma_grows_trans(w0, w2, w3);
        lemma_grows_trans(w0, w3, *world);
        lemma_grows_trans(w_start, w0, *world);
    }
}

/// A tree of four levels of branching limbs on a fixed root, in two winds,
/// painted with bark and leaves.
pub fn tree<S: Scalar>(rng: &mut StdRng) -> (r: Generated<S>)
    ensures
        generated_wf(r),
        r.0.joints_view().len() >= 6,
        r.0.joints_view()[0].spec_fixed(),
        r.0.joints_view()[1].spec_fixed(),
        r.0.rods_view().len() >= 5,
        r.0.rods_view()[0].spec_ends()[0] == 0,
        r.0.rods_view()[0].spec_ends()[1] == 1,
        r.0.angles_view().len() >= 4,
        r.0.bounds_view().len() == 1,
        r.0.config_view().wind@.len() == 2,
        r.0.config_view().time_scale.is_some(),
        match r.1 {
            Some(p) => p.squares@.len() >= 60 * (r.0.rods_view().len() - 1),
            None => false,
        },
{
    let wind = WindConfig {
        dir: at(1, 0),
        speed: S::from_int(50),
        viscosity: ratio(1, 100),
        low: S::from_int(300),
        high: S::from_int(60),
    };
    let other_wind = WindConfig { low: S::from_int(567), speed: S::from_int(93), ..wind };
    let mut config = WorldConfig::new();
    config.angle_stiffness = S::from_int(500_000);
    config.rod_stiffness = S::from_int(10_000);
    config.rod_damping = S::from_int(50);
    config.general_damping = ratio(2, 1000);
    config.gravity = S::from_int(80);
    config.wind = vec![wind, other_wind];
    config.time_scale = Some(ratio(15, 10));
    let mut world = World::from_config(config);

    let root = world.add_joint(at(320, 479));
    let origin = world.add_joint(at(320, 478));
    world.fix(root);
    world.fix(origin);

    let ends = [root, origin];
    assert(ends[0] == 0 && ends[1] == 1);
    world.add_rod(ends, S::from_int(1));

    let mut squares = Vec::new();
    let ghost w0 = world;
    generate_tree(4, &mut world, root, origin, at(0, -30), &mut squares, rng);
    assert(world.rods_view()[0] == w0.rods_view()[0]);
    assert(world.joints_view()[0].spec_fixed() == w0.joints_view()[0].spec_fixed());
    assert(world.joints_view()[1].spec_fixed() == w0.joints_view()[1].spec_fixed());

    world.add_bounds(Bounds { min: at(10, 10), max: at(630, 480) });

    (world, Some(Painting { background: Rgba::opaque(0xa1, 0xd9, 0xe8), squares }))
}

/// A chain of fifty rods hanging from a fixed joint, held straight by
/// angular constraints, in a wind.
pub fn pendulum<S: Scalar>() -> (r: Generated<S>)
    ensures
        generated_wf(r),
        r.1.is_none(),
        r.0.joints_view().len() == 51,
        r.0.joints_view()[0].spec_fixed(),
        r.0.rods_view().len() == 50,
        forall|i: int| 0 <= i < 50 ==> {
            &&& (#[trigger] r.0.rods_view()[i]).spec_ends()[0] == i
            &&& r.0.rods_view()[i].spec_ends()[1] == i + 1
        },
        r.0.angles_view().len() == 49,
        forall|i: int| 0 <= i < 49 ==> {
            &&& (#[trigger] r.0.angles_view()[i]).spec_joints()[0] == i
            &&& r.0.angles_view()[i].spec_joints()[1] == i + 1
            &&& r.0.angles_view()[i].spec_joints()[2] == i + 2
        },
        r.0.bounds_view().len() == 1,
{
    let wind = WindConfig {
        dir: at(1, 0),
        speed: S::from_int(250),
        viscosity: ratio(2, 10),
        low: S::from_int(300),
        high: S::from_int(60),
    };
    let mut config = WorldConfig::new();
    config.rod_stiffness = S::from_int(10_000);
    config.angle_stiffness = S::from_int(200);
    config.general_damping = ratio(2, 100);
    config.rod_damping = S::from_int(1);
    config.gravity = S::from_int(80);
    config.wind = vec![wind];

    let mut world = World::from_config(config);

    let origin = at::<S>(320, 200);
    let n: usize = 50;

    let mut point = world.add_joint(origin);
    world.fix(point);

    let distance: i64 = 5;

    let mut i: usize = 1;
    while i <= n
        invariant
            n == 50,
            distance == 5,
            1 <= i <= n + 1,
            world.wf(),
            point == i - 1,
            world.joints_view().len() == i,
            world.joints_view()[0].spec_fixed(),
            world.rods_view().len() == i - 1,
            world.angles_view().len() == 0,
            world.bounds_view().len() == 0,
            forall|k: int| 0 <= k < i - 1 ==> {
                &&& (#[trigger] world.rods_view()[k]).spec_ends()[0] == k
                &&& world.rods_view()[k].spec_ends()[1] == k + 1
            },
        decreases n + 1 - i,
    {
        let new_point = world.add_joint(origin.add(at(i as i64 * distance, 0)));
        let ends = [point, new_point];
        assert(ends[0] == point);
        let ghost rods0 = world.rods_view();
        world.add_rod(ends, S::from_int(1));
        proof {
            assert forall|k: int| 0 <= k < i implies {
                &&& (#[trigger] world.rods_view()[k]).spec_ends()[0] == k
                &&& world.rods_view()[k].spec_ends()[1] == k + 1
            } by {
                if k < i - 1 {
                    assert(world.rods_view()[k] == rods0[k]);
                }
            }
        }
        point = new_point;
        i += 1;
    }

    let mut i: usize = 1;
    while i < n
        invariant
            n == 50,
            1 <= i <= n,
            world.wf(),
            world.joints_view().len() == n + 1,
            world.joints_view()[0].spec_fixed(),
            world.rods_view().len() == n,
            world.angles_view().len() == i - 1,
            world.bounds_view().len() == 0,
            forall|k: int| 0 <= k < i - 1 ==> {
                &&& (#[trigger] world.angles_view()[k]).spec_joints()[0] == k
                &&& world.angles_view()[k].spec_joints()[1] == k + 1
                &&& world.angles_view()[k].spec_joints()[2] == k + 2
            },
            forall|k: int| 0 <= k < n ==> {
                &&& (#[trigger] world.rods_view()[k]).spec_ends()[0] == k
                &&& world.rods_view()[k].spec_ends()[1] == k + 1
            },
        decreases n - i,
    {
        let ids = [i - 1, i, i + 1];
        assert(ids[0] == i - 1 && ids[1] == i && ids[2] == i + 1);
        let ghost angles0 = world.angles_view();
        world.keep_angle(ids);
        proof {
            assert forall|k: int| 0 <= k < i implies {
                &&& (#[trigger] world.angles_view()[k]).spec_joints()[0] == k
                &&& world.angles_view()[k].spec_joints()[1] == k + 1
                &&& world.angles_view()[k].spec_joints()[2] == k + 2
            } by {
                if k < i - 1 {
                    assert(world.angles_view()[k] == world.angles_view().subrange(0, angles0.len() as int)[k]);
                }
            }
        }
        i += 1;
    }

    world.add_bounds(Bounds { min: at(10, 10), max: at(630, 470) });

    (world, None)
}

/// A rod of twenty segments standing at a slant from two fixed joints, kept
/// straight by stiff angular constraints.
pub fn elastic_rod<S: Scalar>() -> (r: Generated<S>)
    ensures
        generated_wf(r),
        r.1.is_none(),
        r.0.joints_view().len() == 21,
        r.0.joints_view()[0].spec_fixed(),
        r.0.joints_view()[1].spec_fixed(),
        r.0.rods_view().len() == 20,
        forall|i: int| 0 <= i < 20 ==> {
            &&& (#[trigger] r.0.rods_view()[i]).spec_ends()[0] == i
            &&& r.0.rods_view()[i].spec_ends()[1] == i + 1
        },
        r.0.angles_view().len() == 19,
        forall|i: int| 0 <= i < 19 ==> {
            &&& (#[trigger] r.0.angles_view()[i]).spec_joints()[0] == i
            &&& r.0.angles_view()[i].spec_joints()[1] == i + 1
            &&& r.0.angles_view()[i].spec_joints()[2] == i + 2
        },
        r.0.bounds_view().len() == 0,
{
    let n: usize = 20;
    let mut config = WorldConfig::new();
    config.rod_stiffness = S::from_int(300);
    config.rod_damping = S::from_int(1);
    config.general_damping = ratio(3, 100);
    config.angle_stiffness = S::from_int(5000);
    config.gravity = S::from_int(80);

    let mut world = World::from_config(config);
    let origin = at::<S>(40, 440);
    let distance: i64 = 20;
    let slant = ratio::<S>(-12, 10);

    let mut i: usize = 0;
    while i <= n
        invariant
            n == 20,
            distance == 20,
            i <= n + 1,
            world.wf(),
            world.joints_view().len() == i,
            world.rods_view().len() == 0,
            world.angles_view().len() == 0,
            world.bounds_view().len() == 0,
        decreases n + 1 - i,
    {
        world.add_joint(origin.add(at::<S>(distance * i as i64, 0).rotate(slant)));
        i += 1;
    }
    let mut i: usize = 0;
    while i < n
        invariant
            n == 20,
            i <= n,
            world.wf(),
            world.joints_view().len() == n + 1,
            world.rods_view().len() == i,
            world.angles_view().len() == 0,
            world.bounds_view().len() == 0,
            forall|k: int| 0 <= k < i ==> {
                &&& (#[trigger] world.rods_view()[k]).spec_ends()[0] == k
                &&& world.rods_view()[k].spec_ends()[1] == k + 1
            },
        decreases n - i,
    {
        let ends = [i, i + 1];
        assert(ends[0] == i);
        let ghost rods0 = world.rods_view();
        world.add_rod(ends, S::from_int(1));
        proof {
            assert forall|k: int| 0 <= k <= i implies {
                &&& (#[trigger] world.rods_view()[k]).spec_ends()[0] == k
                &&& world.rods_view()[k].spec_ends()[1] == k + 1
            } by {
                if k < i {
                    assert(world.rods_view()[k] == rods0[k]);
                }
            }
        }
        i += 1;
    }
    let mut i: usize = 1;
    while i < n
        invariant
            n == 20,
            1 <= i <= n,
            world.wf(),
            world.joints_view().len() == n + 1,
            world.rods_view().len() == n,
            world.angles_view().len() == i - 1,
            world.bounds_view().len() == 0,
            forall|k: int| 0 <= k < i - 1 ==> {
                &&& (#[trigger] world.angles_view()[k]).spec_joints()[0] == k
                &&& world.angles_view()[k].spec_joints()[1] == k + 1
                &&& world.angles_view()[k].spec_joints()[2] == k + 2
            },
            forall|k: int| 0 <= k < n ==> {
                &&& (#[trigger] world.rods_view()[k]).spec_ends()[0] == k
                &&& world.rods_view()[k].spec_ends()[1] == k + 1
            },
        decreases n - i,
    {
        let ids = [i - 1, i, i + 1];
        assert(ids[0] == i - 1 && ids[1] == i && ids[2] == i + 1);
        let ghost angles0 = world.angles_view();
        world.keep_angle(ids);
        proof {
            assert forall|k: int| 0 <= k < i implies {
                &&& (#[trigger] world.angles_view()[k]).spec_joints()[0] == k
                &&& world.angles_view()[k].spec_joints()[1] == k + 1
                &&& world.angles_view()[k].spec_joints()[2] == k + 2
            } by {
                if k < i - 1 {
                    assert(world.angles_view()[k] == world.angles_view().subrange(0, angles0.len() as int)[k]);
                }
            }
        }
        i += 1;
    }
    world.fix(0);
    world.fix(1);

    (world, None)
}

/// The demonstrations, by name.
#[derive(Clone, Copy, Debug, PartialEq, Eq, Structural)]
pub enum Scenario {
    Pendulum,
    ElasticRod,
    Tree,
    StableCircle,
    SoftCircle,
    WeirdCircle,
}

impl Scenario {
    pub open spec fn spec_name(&self) -> &'static str {
        match self {
            Scenario::Pendulum => "pendulum",
            Scenario::ElasticRod => "elastic_rod",
            Scenario::Tree => "tree",
            Scenario::StableCircle => "stable_circle",
            Scenario::SoftCircle => "soft_circle",
            Scenario::WeirdCircle => "weird_circle",
        }
    }

    #[verifier::when_used_as_spec(spec_name)]
    pub fn name(&self) -> (r: &'static str)
        ensures
            r == self.spec_name(),
    {
        match self {
            Scenario::Pendulum => "pendulum",
            Scenario::ElasticRod => "elastic_rod",
            Scenario::Tree => "tree",
            Scenario::StableCircle => "stable_circle",
            Scenario::SoftCircle => "soft_circle",
            Scenario::WeirdCircle => "weird_circle",
        }
    }

    /// A fresh world of this scenario; the tree draws its shape from `rng`.
    pub fn build<S: Scalar>(&self, rng: &mut StdRng) -> (r: Generated<S>)
        ensures
            generated_wf(r),
            *self == Scenario::Pendulum ==> {
                &&& r.0.joints_view().len() == 51
                &&& r.0.rods_view().len() == 50
                &&& r.0.angles_view().len() == 49
                &&& r.0.joints_view()[0].spec_fixed()
                &&& r.1.is_none()
            },
            *self == Scenario::ElasticRod ==> {
                &&& r.0.joints_view().len() == 21
                &&& r.0.rods_view().len() == 20
                &&& r.0.angles_view().len() == 19
                &&& r.0.joints_view()[0].spec_fixed()
                &&& r.0.joints_view()[1].spec_fixed()
                &&& r.1.is_none()
            },
            *self == Scenario::Tree ==> {
                &&& r.0.joints_view().len() >= 6
                &&& r.0.rods_view().len() >= 5
                &&& r.0.joints_view()[0].spec_fixed()
                &&& r.0.joints_view()[1].spec_fixed()
                &&& r.1.is_some()
            },
            *self == Scenario::StableCircle ==> {
                &&& r.0.joints_view().len() == 300
                &&& r.0.rods_view().len() == 300
                &&& r.0.angles_view().len() == 300
                &&& r.1.is_none()
            },
            *self == Scenario::SoftCircle ==> {
                &&& r.0.joints_view().len() == 1000
                &&& r.0.rods_view().len() == 1000
                &&& r.0.angles_view().len() == 1000
                &&& r.1.is_none()
            },
            *self == Scenario::WeirdCircle ==> {
                &&& r.0.joints_view().len() == 1000
                &&& r.0.rods_view().len() == 1000
                &&& r.0.angles_view().len() == 1000
                &&& r.1.is_none()
            },
    {
        match self {
            Scenario::Pendulum => pendulum(),
            Scenario::ElasticRod => elastic_rod(),
            Scenario::Tree => tree(rng),
            Scenario::StableCircle => (circle_gen(300, 2, 1), None),
            Scenario::SoftCircle => (circle_gen(1000, 2, 1), None),
            Scenario::WeirdCircle => (circle_gen(1000, 4, 2), None),
        }
    }
}

/// What `str::to_lowercase` makes of a text.
pub uninterp spec fn lower_of(s: Seq<char>) -> Seq<char>;

/// Relies on `str::to_lowercase`: the text in lower case, which depends on
/// the characters alone.
#[verifier::external_body]
fn lowercase(s: &str) -> (r: String)
    ensures
        r@ == lower_of(s@),
{
    s.to_lowercase()
}

/// The first scenario, in the order of `scenarios`, whose name is `q`.
pub open spec fn scenario_named(q: Seq<char>) -> Option<Scenario> {
    if q == Scenario::Pendulum.spec_name()@ {
        Some(Scenario::Pendulum)
    } else if q == Scenario::ElasticRod.spec_name()@ {
        Some(Scenario::ElasticRod)
    } else if q == Scenario::Tree.spec_name()@ {
        Some(Scenario::Tree)
    } else if q == Scenario::StableCircle.spec_name()@ {
        Some(Scenario::StableCircle)
    } else if q == Scenario::SoftCircle.spec_name()@ {
        Some(Scenario::SoftCircle)
    } else if q == Scenario::WeirdCircle.spec_name()@ {
        Some(Scenario::WeirdCircle)
    } else {
        None
    }
}

impl Scenario {
    /// Whether `q` is this scenario's name.
    fn is_named(&self, q: &String) -> (b: bool)
        ensures
            b == (q@ == self.spec_name()@),
    {
        let name = self.name().to_owned();
        q.eq(&name)
    }

    /// The scenario whose name is `q`, already in lower case.
    pub fn named_lowered(q: &String) -> (r: Option<Scenario>)
        ensures
            r == scenario_named(q@),
    {
        let all = [
            Scenario::Pendulum,
            Scenario::ElasticRod,
            Scenario::Tree,
            Scenario::StableCircle,
            Scenario::SoftCircle,
            Scenario::WeirdCircle,
        ];
        let mut i: usize = 0;
        while i < 6
            invariant
                forall|k: int| 0 <= k < 6 ==> #[trigger] all[k] == all@[k],
                all@ == seq![
                    Scenario::Pendulum,
                    Scenario::ElasticRod,
                    Scenario::Tree,
                    Scenario::StableCircle,
                    Scenario::SoftCircle,
                    Scenario::WeirdCircle,
                ],
                i <= 6,
                forall|k: int| 0 <= k < i ==> q@ != (#[trigger] all@[k]).spec_name()@,
            decreases 6 - i,
        {
            if all[i].is_named(q) {
                return Some(all[i]);
            }
            i += 1;
        }
        None
    }

    /// The scenario whose name is `name`, in any case.
    pub fn named(name: &str) -> (r: Option<Scenario>)
        ensures
            r == scenario_named(lower_of(name@)),
    {
        Scenario::named_lowered(&lowercase(name))
    }
}

/// Every scenario with its name, in a fixed order.
pub fn scenarios() -> (r: Vec<(&'static str, Scenario)>)
    ensures
        r@.len() == 6,
        forall|i: int| 0 <= i < 6 ==> (#[trigger] r@[i]).0 == r@[i].1.name(),
        r@[0].1 == Scenario::Pendulum,
        r@[1].1 == Scenario::ElasticRod,
        r@[2].1 == Scenario::Tree,
        r@[3].1 == Scenario::StableCircle,
        r@[4].1 == Scenario::SoftCircle,
        r@[5].1 == Scenario::WeirdCircle,
{
    let all = [
        Scenario::Pendulum,
        Scenario::ElasticRod,
        Scenario::Tree,
        Scenario::StableCircle,
        Scenario::SoftCircle,
        Scenario::WeirdCircle,
    ];
    let mut r: Vec<(&'static str, Scenario)> = Vec::new();
    let mut i: usize = 0;
    while i < 6
        invariant
            i <= 6,
            r@.len() == i,
            forall|k: int| 0 <= k < i ==> (#[trigger] r@[k]).0 == r@[k].1.name(),
            forall|k: int| 0 <= k < i ==> (#[trigger] r@[k]).1 == all@[k],
            all@ == seq![
                Scenario::Pendulum,
                Scenario::ElasticRod,
                Scenario::Tree,
                Scenario::StableCircle,
                Scenario::SoftCircle,
                Scenario::WeirdCircle,
            ],
        decreases 6 - i,
    {
        r.push((all[i].name(), all[i]));
        i += 1;
    }
    r
}

} // verus!
