//! The scene of metal spheres over a chequered floor, and the decisions of a ray cast.
//!
//! The scene is described in whole world units. What a ray hits first, whether a path may
//! bounce once more, and which square of the floor a point lies on are decided here; the
//! numbers that go in (hit times, truncated coordinates) are worked out by the caller.

use vstd::prelude::*;
use crate::scalar::Scalar;

verus! {

/// Height of the floor of the standard scene.
pub const FLOOR_HEIGHT: i32 = -20;

/// The most bounces a path may take. A path that hits something after that many
/// bounces ends there and contributes nothing.
pub const MAX_BOUNCES: u32 = 50;

/// A position in whole world units.
#[derive(Clone, Copy, Debug, PartialEq, Eq, Structural)]
pub struct Point {
    pub x: i32,
    pub y: i32,
    pub z: i32,
}

/// A sphere, held by its centre and the square of its radius.
#[derive(Clone, Copy, Debug, PartialEq, Eq, Structural)]
pub struct Sphere {
    position: Point,
    radius_squared: i64,
}

impl Sphere {
    /// The centre.
    pub closed spec fn spec_position(self) -> Point {
        self.position
    }

    /// The square of the radius.
    pub closed spec fn spec_radius_squared(self) -> int {
        self.radius_squared as int
    }

    /// The sphere around `position` with the given radius.
    pub fn new(position: Point, radius: i32) -> (s: Sphere)
        ensures
            s.spec_position() == position,
            s.spec_radius_squared() == radius * radius,
    {
        let wide: i64 = radius as i64;
        assert(-0x4000_0000_0000_0000 <= wide * wide <= 0x4000_0000_0000_0000)
            by (nonlinear_arith)
            requires
                -0x8000_0000 <= wide <= 0x8000_0000,
        ;
        Sphere { position, radius_squared: wide * wide }
    }

    /// The centre.
    #[verifier::when_used_as_spec(spec_position)]
    pub fn position(self) -> (p: Point)
        ensures
            p == self.spec_position(),
    {
        self.position
    }

    /// The square of the radius.
    pub fn radius_squared(self) -> (r2: i64)
        ensures
            r2 == self.spec_radius_squared(),
    {
        self.radius_squared
    }

    /// The sphere test. A ray comes closest to the centre of a sphere at `closest_time`,
    /// and the square of its distance from the centre is then `approach_squared`. It
    /// hits the sphere when that point lies ahead of the origin and no further from the
    /// centre than the radius, whose square is `radius_squared`.
    pub open spec fn is_struck(
        closest_time: Scalar,
        approach_squared: Scalar,
        radius_squared: Scalar,
    ) -> bool {
        closest_time.is_above_zero() && approach_squared.le(radius_squared)
    }

    /// Whether a ray hits a sphere, from the three numbers of the sphere test.
    pub fn struck(closest_time: Scalar, approach_squared: Scalar, radius_squared: Scalar) -> (yes:
        bool)
        ensures
            yes == Self::is_struck(closest_time, approach_squared, radius_squared),
    {
        closest_time.above_zero() && approach_squared.at_most(radius_squared)
    }
}

/// A sphere is never hit by a ray that points away from its centre or passes it by:
/// when the closest approach lies at or behind the origin, or further out than the
/// radius, the test fails. So does it when a number of the test is a NaN.
pub proof fn lemma_sphere_missed(
    closest_time: Scalar,
    approach_squared: Scalar,
    radius_squared: Scalar,
)
    requires
        closest_time.le(Scalar { bits: 0 }) || radius_squared.lt(approach_squared)
            || closest_time.is_nan() || approach_squared.is_nan() || radius_squared.is_nan(),
    ensures
        !Sphere::is_struck(closest_time, approach_squared, radius_squared),
{
}

/// The endless horizontal plane below the spheres.
#[derive(Clone, Copy, Debug, PartialEq, Eq, Structural)]
pub struct Floor {
    pub height: i32,
}

impl Floor {
    /// The floor test. A ray whose direction has the vertical part `direction_y` is level
    /// with the floor at `collision_time`. It hits the floor then when it points down and
    /// that time is not negative.
    pub open spec fn hit_time_of(collision_time: Scalar, direction_y: Scalar) -> Option<Scalar> {
        if direction_y.is_below_zero() && (Scalar { bits: 0 }).le(collision_time) {
            Some(collision_time)
        } else {
            None
        }
    }

    /// The time at which a ray hits the floor, if it does, from the two numbers of the
    /// floor test.
    pub fn hit_time(collision_time: Scalar, direction_y: Scalar) -> (time: Option<Scalar>)
        ensures
            time == Self::hit_time_of(collision_time, direction_y),
    {
        if direction_y.below_zero() && !collision_time.below_zero()
            && !collision_time.not_a_number() {
            Some(collision_time)
        } else {
            None
        }
    }
}

/// A ray that points down and is level with the floor at a time that is not negative
/// hits it at that time; a ray that points up or runs level never hits it, and no hit
/// lies at a negative time.
pub proof fn lemma_floor_hit(collision_time: Scalar, direction_y: Scalar)
    ensures
        direction_y.is_below_zero() && (Scalar { bits: 0 }).le(collision_time)
            ==> Floor::hit_time_of(collision_time, direction_y) == Some(collision_time),
        !direction_y.is_below_zero() ==> Floor::hit_time_of(collision_time, direction_y) is None,
        Floor::hit_time_of(collision_time, direction_y) matches Some(t) ==> !t.is_below_zero()
            && !t.is_nan(),
{
}

/// What a ray can hit: one of the scene's spheres, by its place in the list, or the floor.
#[derive(Clone, Copy, Debug, PartialEq, Eq, Structural)]
pub enum Primitive {
    Sphere(usize),
    Floor,
}

/// The first thing a ray hits, and when.
#[derive(Clone, Copy, Debug, PartialEq, Eq, Structural)]
pub struct Hit {
    pub time: Scalar,
    pub primitive: Primitive,
}

/// The hit times of one ray, in the order in which the primitives are tried: the spheres
/// as listed, then the floor. `None` stands for a primitive that the ray misses.
pub open spec fn candidates(
    sphere_times: Seq<Option<Scalar>>,
    floor_time: Option<Scalar>,
) -> Seq<Option<Scalar>> {
    sphere_times.push(floor_time)
}

/// The place of a primitive among the candidates of a scene of `spheres` spheres.
pub open spec fn candidate_index(primitive: Primitive, spheres: nat) -> int {
    match primitive {
        Primitive::Sphere(i) => i as int,
        Primitive::Floor => spheres as int,
    }
}

/// A candidate that counts: the ray meets the primitive, at a time below infinity.
pub open spec fn is_hit(candidate: Option<Scalar>) -> bool {
    candidate matches Some(t) && t.is_below_infinity()
}

/// Candidate `i` is the nearest hit: it counts, it is strictly earlier than every hit
/// tried before it and no later than any hit tried after it.
pub open spec fn is_nearest(cands: Seq<Option<Scalar>>, i: int) -> bool {
    &&& 0 <= i < cands.len()
    &&& is_hit(cands[i])
    &&& forall|j: int|
        0 <= j < cands.len() && is_hit(#[trigger] cands[j]) ==> if j < i {
            cands[i]->0.rank() < cands[j]->0.rank()
        } else {
            cands[i]->0.rank() <= cands[j]->0.rank()
        }
}

/// At most one candidate is the nearest hit.
pub proof fn lemma_nearest_is_unique(cands: Seq<Option<Scalar>>, i: int, j: int)
    requires
        is_nearest(cands, i),
        is_nearest(cands, j),
    ensures
        i == j,
{
}

/// The spheres and the floor that rays are traced against.
#[derive(Debug)]
pub struct Scene {
    spheres: Vec<Sphere>,
    floor: Option<Floor>,
}

impl Scene {
    /// The spheres, in the order in which rays try them.
    pub closed spec fn spec_spheres(&self) -> Seq<Sphere> {
        self.spheres@
    }

    /// The floor, if the scene has one.
    pub closed spec fn spec_floor(&self) -> Option<Floor> {
        self.floor
    }

    /// The standard scene: three spheres above a floor at `FLOOR_HEIGHT`.
    pub fn new() -> (scene: Scene)
        ensures
            scene.spec_spheres().len() == 3,
            scene.spec_spheres()[0].spec_position() == (Point { x: 0, y: -8i32, z: 80 }),
            scene.spec_spheres()[0].spec_radius_squared() == 12 * 12,
            scene.spec_spheres()[1].spec_position() == (Point { x: 13, y: -15i32, z: 65 }),
            scene.spec_spheres()[1].spec_radius_squared() == 5 * 5,
            scene.spec_spheres()[2].spec_position() == (Point { x: 40, y: 16, z: 90 }),
            scene.spec_spheres()[2].spec_radius_squared() == 33 * 33,
            scene.spec_floor() == Some(Floor { height: FLOOR_HEIGHT }),
    {
        let mut spheres: Vec<Sphere> = Vec::new();
        spheres.push(Sphere::new(Point { x: 0, y: -8, z: 80 }, 12));
        spheres.push(Sphere::new(Point { x: 13, y: -15, z: 65 }, 5));
        spheres.push(Sphere::new(Point { x: 40, y: 16, z: 90 }, 33));
        Scene { spheres, floor: Some(Floor { height: FLOOR_HEIGHT }) }
    }

    /// A scene of the given spheres, with or without a floor.
    pub fn with_parts(spheres: Vec<Sphere>, floor: Option<Floor>) -> (scene: Scene)
        ensures
            scene.spec_spheres() == spheres@,
            scene.spec_floor() == floor,
    {
        Scene { spheres, floor }
    }

    /// The spheres, in the order in which rays try them.
    pub fn spheres(&self) -> (spheres: &Vec<Sphere>)
        ensures
            spheres@ == self.spec_spheres(),
    {
        &self.spheres
    }

    /// The floor, if the scene has one.
    pub fn floor(&self) -> (floor: Option<Floor>)
        ensures
            floor == self.spec_floor(),
    {
        self.floor
    }

    /// The candidates of a ray in this scene: a scene without a floor never counts
    /// `floor_time`.
    pub open spec fn candidates_of(
        &self,
        sphere_times: Seq<Option<Scalar>>,
        floor_time: Option<Scalar>,
    ) -> Seq<Option<Scalar>> {
        candidates(
            sphere_times,
            if self.spec_floor() is Some {
                floor_time
            } else {
                None
            },
        )
    }

    /// Picks the first thing that a ray hits. `sphere_times` holds, for each sphere in
    /// order, the time at which the ray meets it, and `floor_time` the time at which it
    /// meets the floor. The earliest hit below infinity wins; of hits at equal times the
    /// one tried first does.
    pub fn nearest(&self, sphere_times: &[Option<Scalar>], floor_time: Option<Scalar>) -> (hit:
        Option<Hit>)
        ensures
            match hit {
                Some(h) => {
                    let i = candidate_index(h.primitive, sphere_times@.len());
                    &&& is_nearest(self.candidates_of(sphere_times@, floor_time), i)
                    &&& self.candidates_of(sphere_times@, floor_time)[i] == Some(h.time)
                    &&& h.primitive matches Primitive::Sphere(s) ==> s < sphere_times@.len()
                },
                None => forall|j: int|
                    0 <= j <= sphere_times@.len() ==> !is_hit(
                        #[trigger] self.candidates_of(sphere_times@, floor_time)[j],
                    ),
            },
    {
        let ghost cands = self.candidates_of(sphere_times@, floor_time);
        let count: usize = sphere_times.len();
        let mut best: Option<Hit> = None;
        let mut i: usize = 0;
        while i < count
            invariant
                i <= count,
                count == sphere_times@.len(),
                cands == self.candidates_of(sphere_times@, floor_time),
                best_of_prefix(cands, i as int, best),
            decreases count - i,
        {
            if let Some(time) = sphere_times[i] {
                if improves(time, &best) {
                    best = Some(Hit { time, primitive: Primitive::Sphere(i) });
                }
            }
            i = i + 1;
        }
        if self.floor.is_some() {
            if let Some(time) = floor_time {
                if improves(time, &best) {
                    best = Some(Hit { time, primitive: Primitive::Floor });
                }
            }
        }
        assert(cands.take(count + 1) == cands);
        best
    }
}

/// `best` is the answer for the first `n` candidates alone.
spec fn best_of_prefix(cands: Seq<Option<Scalar>>, n: int, best: Option<Hit>) -> bool {
    match best {
        Some(h) => {
            let i = candidate_index(h.primitive, (cands.len() - 1) as nat);
            &&& i < n
            &&& is_nearest(cands.take(n), i)
            &&& cands[i] == Some(h.time)
            &&& h.primitive matches Primitive::Sphere(s) ==> s < cands.len() - 1
        },
        None => forall|j: int| 0 <= j < n ==> !is_hit(#[trigger] cands[j]),
    }
}

/// Whether a hit at `time` replaces the best hit found so far.
fn improves(time: Scalar, best: &Option<Hit>) -> (yes: bool)
    ensures
        yes == match *best {
            Some(h) => time.lt(h.time),
            None => time.is_below_infinity(),
        },
{
    match best {
        Some(h) => time.less_than(h.time),
        None => time.below_infinity(),
    }
}

/// What becomes of a path after one cast.
#[derive(Clone, Copy, Debug, PartialEq, Eq, Structural)]
pub enum Step {
    /// The ray hit nothing: the path ends with the light of the sky.
    Escape,
    /// The ray hit the sphere with this index: the path goes on along the mirrored ray.
    Reflect(usize),
    /// The ray hit the floor: the path goes on in a scattered direction.
    Scatter,
    /// The ray hit something, but the path has no bounce left: it ends and adds nothing.
    Absorb,
}

/// The rule for one cast of a path that has taken `bounces` bounces so far: the step to
/// take for what the ray hit, and the number of bounces after it.
pub open spec fn step_of(bounces: u32, hit: Option<Primitive>) -> (Step, u32) {
    match hit {
        None => (Step::Escape, bounces),
        Some(primitive) => if bounces >= MAX_BOUNCES {
            (Step::Absorb, bounces)
        } else {
            (
                match primitive {
                    Primitive::Sphere(i) => Step::Reflect(i),
                    Primitive::Floor => Step::Scatter,
                },
                (bounces + 1) as u32,
            )
        },
    }
}

/// A light path, by the number of bounces that it has taken.
#[derive(Clone, Copy, Debug)]
pub struct Path {
    bounces: u32,
}

impl Path {
    /// The number of bounces taken so far.
    pub closed spec fn spec_bounces(self) -> u32 {
        self.bounces
    }

    /// The path has not used more bounces than it may.
    #[verifier::type_invariant]
    pub closed spec fn wf(self) -> bool {
        self.bounces <= MAX_BOUNCES
    }

    /// A path that starts at the camera.
    pub fn new() -> (path: Path)
        ensures
            path.spec_bounces() == 0,
    {
        Path { bounces: 0 }
    }

    /// The number of bounces taken so far.
    #[verifier::when_used_as_spec(spec_bounces)]
    pub fn bounces(self) -> (n: u32)
        ensures
            n == self.spec_bounces(),
    {
        self.bounces
    }

    /// Decides what follows a cast that hit `hit`, and counts the bounce if there is one.
    pub fn advance(&mut self, hit: Option<Primitive>) -> (step: Step)
        ensures
            (step, final(self).spec_bounces()) == step_of(old(self).spec_bounces(), hit),
            final(self).spec_bounces() <= MAX_BOUNCES,
    {
        proof {
            use_type_invariant(&*self);
        }
        match hit {
            None => Step::Escape,
            Some(primitive) => {
                if self.bounces >= MAX_BOUNCES {
                    Step::Absorb
                } else {
                    self.bounces = self.bounces + 1;
                    match primitive {
                        Primitive::Sphere(i) => Step::Reflect(i),
                        Primitive::Floor => Step::Scatter,
                    }
                }
            },
        }
    }
}

/// The number of bounces of a path after the casts whose hits are `hits`, in order.
pub open spec fn bounces_after(hits: Seq<Option<Primitive>>) -> u32
    decreases hits.len(),
{
    if hits.len() == 0 {
        0
    } else {
        step_of(bounces_after(hits.drop_last()), hits.last()).1
    }
}

/// However the casts of a path turn out, it never takes more than `MAX_BOUNCES` bounces,
/// and from the cast after the last of them on it only escapes or is absorbed.
pub proof fn lemma_path_is_bounded(hits: Seq<Option<Primitive>>)
    ensures
        bounces_after(hits) <= MAX_BOUNCES,
        bounces_after(hits) <= hits.len(),
        bounces_after(hits) == MAX_BOUNCES ==> forall|hit: Option<Primitive>|
            (#[trigger] step_of(bounces_after(hits), hit)).0 == Step::Escape || step_of(
                bounces_after(hits),
                hit,
            ).0 == Step::Absorb,
    decreases hits.len(),
{
    if hits.len() > 0 {
        lemma_path_is_bounded(hits.drop_last());
    }
}

/// The square of the floor's pattern that holds a point, from the point's scaled `x` and
/// `z` cut down to whole numbers: the low eight bits of their exclusive or.
pub open spec fn checkerboard_of(x: i32, z: i32) -> u8 {
    ((x ^ z) & 0xff) as u8
}

/// The pattern value, from 0 to 255, of the floor square that holds a point.
pub fn checkerboard_cell(x: i32, z: i32) -> (cell: u8)
    ensures
        cell == checkerboard_of(x, z),
{
    let low: i32 = (x ^ z) & 0xff;
    assert(0 <= low < 256) by (bit_vector)
        requires
            low == (x ^ z) & 0xff,
    ;
    low as u8
}

} // verus!
