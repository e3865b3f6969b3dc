//! The body store and the passes of one simulation sub-step: gravity, the
//! arena constraint, pairwise collision resolution and Verlet integration.
use vstd::prelude::*;
use crate::vector::{
    Vec2, clamp_i32, div_trunc, norm2, saturate, div_toward_zero,
    lemma_norm2_bound, lemma_mul_bound, LENGTH_SCALE, fine_length, fine_length_of,
};
use crate::object::{VerletObject, Rgba, integrated, accelerated, spawned};

verus! {

/// The region that bodies are held inside.
#[derive(Clone, Copy, Debug, PartialEq, Eq, Structural)]
pub enum Arena {
    /// A disc: a body's center stays within `radius - body.radius` of `center`.
    Circle { center: Vec2, radius: u32 },
    /// The rectangle `[0, width] x [0, height]`: each coordinate of a body's
    /// center stays within `[body.radius, dimension - body.radius]`.
    Rect { width: u32, height: u32 },
}

/// Per-call configuration of a step.
///
/// With `gravity_center` unset, the solver's gravity vector is added to each
/// body's acceleration. With it set, each body's position is moved directly,
/// by `strength` units toward `center`, and its acceleration is left alone.
#[derive(Clone, Copy, Debug, PartialEq, Eq, Structural)]
pub struct Options {
    pub gravity_center: bool,
    pub center: Vec2,
    pub strength: u32,
    pub arena: Arena,
}

/// The body store, in insertion order, and the uniform gravity vector.
pub struct Solver {
    pub objects: Vec<VerletObject>,
    pub gravity: Vec2,
}

/// The body moved `strength` units toward `center` along the direction from
/// its position (each coordinate of the move `strength * d / |d|` for the
/// offset `d`, with `|d|` taken in parts of `1 / LENGTH_SCALE`, rounded
/// toward zero); a body exactly at `center` stays where it is.
pub open spec fn pulled(o: VerletObject, center: Vec2, strength: int) -> VerletObject {
    let dx = center.x - o.current_position.x;
    let dy = center.y - o.current_position.y;
    let len = fine_length(dx, dy);
    if len == 0 {
        o
    } else {
        VerletObject {
            current_position: Vec2 {
                x: clamp_i32(o.current_position.x + div_trunc(dx * strength * LENGTH_SCALE, len)),
                y: clamp_i32(o.current_position.y + div_trunc(dy * strength * LENGTH_SCALE, len)),
            },
            ..o
        }
    }
}

/// The gravity model: uniform mode acts on the acceleration, center-seeking
/// mode on the position.
pub open spec fn gravitated(
    o: VerletObject,
    gravity: Vec2,
    gravity_center: bool,
    center: Vec2,
    strength: int,
) -> VerletObject {
    if gravity_center {
        pulled(o, center, strength)
    } else {
        accelerated(o, gravity)
    }
}

/// One coordinate held to `[r, dim - r]`, the lower end checked first.
pub open spec fn clamp_axis(v: int, r: int, dim: int) -> i32 {
    if v < r {
        clamp_i32(r)
    } else if v > dim - r {
        clamp_i32(dim - r)
    } else {
        clamp_i32(v)
    }
}

/// The greatest distance from the arena's center that a body of radius `r`
/// may have.
pub open spec fn circle_limit(arena_radius: int, r: int) -> int {
    arena_radius - r
}

/// Whether the body's center lies within its allowed distance of `center`.
pub open spec fn inside_circle(o: VerletObject, center: Vec2, arena_radius: int) -> bool {
    let limit = circle_limit(arena_radius, o.radius as int);
    limit >= 0 && norm2(
        o.current_position.x - center.x,
        o.current_position.y - center.y,
    ) <= limit * limit
}

/// The body moved onto the boundary of the disc along the ray from `center`
/// through its position, if it lay beyond it.
pub open spec fn circle_clamped(o: VerletObject, center: Vec2, arena_radius: int) -> VerletObject {
    if inside_circle(o, center, arena_radius) {
        o
    } else {
        let dx = o.current_position.x - center.x;
        let dy = o.current_position.y - center.y;
        let limit = circle_limit(arena_radius, o.radius as int);
        let len = fine_length(dx, dy);
        VerletObject {
            current_position: if len == 0 {
                center
            } else {
                Vec2 {
                    x: clamp_i32(center.x + div_trunc(dx * LENGTH_SCALE * limit, len)),
                    y: clamp_i32(center.y + div_trunc(dy * LENGTH_SCALE * limit, len)),
                }
            },
            ..o
        }
    }
}

/// The boundary constraint on one body.
pub open spec fn constrained(o: VerletObject, arena: Arena) -> VerletObject {
    match arena {
        Arena::Circle { center, radius } => circle_clamped(o, center, radius as int),
        Arena::Rect { width, height } => VerletObject {
            current_position: Vec2 {
                x: clamp_axis(o.current_position.x as int, o.radius as int, width as int),
                y: clamp_axis(o.current_position.y as int, o.radius as int, height as int),
            },
            ..o
        },
    }
}

/// Two bodies overlap when the distance of their centers is below the sum of
/// their radii.
pub open spec fn overlapping(a: VerletObject, b: VerletObject) -> bool {
    let reach = a.radius + b.radius;
    reach > 0 && norm2(
        a.current_position.x - b.current_position.x,
        a.current_position.y - b.current_position.y,
    ) < reach * reach
}

/// The displacement that `a` receives from an overlap with `b` (and `b` its
/// negation): half the penetration depth along the axis from `b` to `a`, the
/// x axis when the two centers coincide. Distance and depth are taken in
/// parts of `1 / LENGTH_SCALE`; the result is rounded toward zero.
pub open spec fn separation(a: VerletObject, b: VerletObject) -> (int, int) {
    let dx = a.current_position.x - b.current_position.x;
    let dy = a.current_position.y - b.current_position.y;
    let len = fine_length(dx, dy);
    let reach = a.radius + b.radius;
    if len == 0 {
        (div_trunc(reach, 2), 0)
    } else {
        let delta = reach * LENGTH_SCALE - len;
        (div_trunc(delta * dx, 2 * len), div_trunc(delta * dy, 2 * len))
    }
}

/// The body with its position displaced by `(px, py)`, saturating.
pub open spec fn moved(o: VerletObject, px: int, py: int) -> VerletObject {
    VerletObject {
        current_position: Vec2 {
            x: clamp_i32(o.current_position.x + px),
            y: clamp_i32(o.current_position.y + py),
        },
        ..o
    }
}

/// The pair after overlap correction: pushed apart symmetrically if they
/// overlap, untouched otherwise.
pub open spec fn collided(a: VerletObject, b: VerletObject) -> (VerletObject, VerletObject) {
    if overlapping(a, b) {
        let (px, py) = separation(a, b);
        (moved(a, px, py), moved(b, -px, -py))
    } else {
        (a, b)
    }
}

/// The gravity model applied to every body.
pub open spec fn gravity_pass(
    s: Seq<VerletObject>,
    gravity: Vec2,
    gravity_center: bool,
    center: Vec2,
    strength: int,
) -> Seq<VerletObject> {
    s.map_values(|o: VerletObject| gravitated(o, gravity, gravity_center, center, strength))
}

/// The boundary constraint applied to every body.
pub open spec fn constraint_pass(s: Seq<VerletObject>, arena: Arena) -> Seq<VerletObject> {
    s.map_values(|o: VerletObject| constrained(o, arena))
}

/// One Verlet step applied to every body.
pub open spec fn integrate_pass(s: Seq<VerletObject>, dt: int) -> Seq<VerletObject> {
    s.map_values(|o: VerletObject| integrated(o, dt))
}

/// The store after resolving the pair `(i, j)`.
pub open spec fn resolve_pair(s: Seq<VerletObject>, i: int, j: int) -> Seq<VerletObject> {
    let (a, b) = collided(s[i], s[j]);
    s.update(i, a).update(j, b)
}

/// The store after resolving the pairs `(i, i + 1)`, ..., `(i, j - 1)` in turn.
pub open spec fn resolve_row(s: Seq<VerletObject>, i: int, j: int) -> Seq<VerletObject>
    decreases j - i,
{
    if j <= i + 1 {
        s
    } else {
        resolve_pair(resolve_row(s, i, j - 1), i, j - 1)
    }
}

/// The store after resolving every pair whose first index is below `i`, in
/// ascending order of first, then second index.
pub open spec fn resolve_rows(s: Seq<VerletObject>, i: int) -> Seq<VerletObject>
    decreases i,
{
    if i <= 0 {
        s
    } else {
        resolve_row(resolve_rows(s, i - 1), i - 1, s.len() as int)
    }
}

/// The collision resolver: every unordered pair once, in nested index order.
pub open spec fn collision_pass(s: Seq<VerletObject>) -> Seq<VerletObject> {
    resolve_rows(s, s.len() as int)
}

/// One sub-step: gravity, then the constraint, then collisions, then
/// integration.
pub open spec fn step(s: Seq<VerletObject>, gravity: Vec2, dt: int, opts: Options) -> Seq<
    VerletObject,
> {
    integrate_pass(
        collision_pass(
            constraint_pass(
                gravity_pass(s, gravity, opts.gravity_center, opts.center, opts.strength as int),
                opts.arena,
            ),
        ),
        dt,
    )
}

/// `n` sub-steps in a row.
pub open spec fn run(s: Seq<VerletObject>, gravity: Vec2, dt: int, opts: Options, n: nat) -> Seq<
    VerletObject,
>
    decreases n,
{
    if n == 0 {
        s
    } else {
        step(run(s, gravity, dt, opts, (n - 1) as nat), gravity, dt, opts)
    }
}

fn pull(o: VerletObject, center: Vec2, strength: u32) -> (r: VerletObject)
    ensures
        r == pulled(o, center, strength as int),
{
    let dx: i128 = center.x as i128 - o.current_position.x as i128;
    let dy: i128 = center.y as i128 - o.current_position.y as i128;
    let len = fine_length_of(dx, dy);
    if len == 0 {
        return o;
    }
    let s: i128 = strength as i128;
    proof {
        lemma_mul_bound(dx as int, s as int, 0x1_0000_0000, 0x1_0000_0000);
        lemma_mul_bound(dy as int, s as int, 0x1_0000_0000, 0x1_0000_0000);
        lemma_mul_bound(dx * s, LENGTH_SCALE as int, 0x1_0000_0000_0000_0000, 0x8000_0000);
        lemma_mul_bound(dy * s, LENGTH_SCALE as int, 0x1_0000_0000_0000_0000, 0x8000_0000);
    }
    let ox = div_toward_zero(dx * s * LENGTH_SCALE, len);
    let oy = div_toward_zero(dy * s * LENGTH_SCALE, len);
    assert(-0x80_0000_0000_0000_0000_0000_0000 <= ox <= 0x80_0000_0000_0000_0000_0000_0000);
    assert(-0x80_0000_0000_0000_0000_0000_0000 <= oy <= 0x80_0000_0000_0000_0000_0000_0000);
    VerletObject {
        current_position: Vec2 {
            x: saturate(o.current_position.x as i128 + ox),
            y: saturate(o.current_position.y as i128 + oy),
        },
        ..o
    }
}

fn clamp_circle(o: VerletObject, center: Vec2, arena_radius: u32) -> (r: VerletObject)
    ensures
        r == circle_clamped(o, center, arena_radius as int),
{
    let dx: i128 = o.current_position.x as i128 - center.x as i128;
    let dy: i128 = o.current_position.y as i128 - center.y as i128;
    proof {
        lemma_norm2_bound(dx as int, dy as int);
    }
    let n2: i128 = dx * dx + dy * dy;
    let limit: i128 = arena_radius as i128 - o.radius as i128;
    proof {
        lemma_mul_bound(limit as int, limit as int, 0x2_0000_0000, 0x2_0000_0000);
    }
    if limit >= 0 && n2 <= limit * limit {
        return o;
    }
    let len = fine_length_of(dx, dy);
    let pos = if len == 0 {
        center
    } else {
        proof {
            lemma_mul_bound(dx as int, LENGTH_SCALE as int, 0x1_0000_0000, 0x8000_0000);
            lemma_mul_bound(dy as int, LENGTH_SCALE as int, 0x1_0000_0000, 0x8000_0000);
            lemma_mul_bound(dx * LENGTH_SCALE, limit as int, 0x80_0000_0000_0000_0000, 0x2_0000_0000);
            lemma_mul_bound(dy * LENGTH_SCALE, limit as int, 0x80_0000_0000_0000_0000, 0x2_0000_0000);
        }
        let ox = div_toward_zero(dx * LENGTH_SCALE * limit, len);
        let oy = div_toward_zero(dy * LENGTH_SCALE * limit, len);
        Vec2 { x: saturate(center.x as i128 + ox), y: saturate(center.y as i128 + oy) }
    };
    VerletObject { current_position: pos, ..o }
}

fn clamp_coord(v: i32, r: i32, dim: u32) -> (c: i32)
    ensures
        c == clamp_axis(v as int, r as int, dim as int),
{
    if (v as i64) < r as i64 {
        saturate(r as i128)
    } else if v as i64 > dim as i64 - r as i64 {
        saturate(dim as i128 - r as i128)
    } else {
        saturate(v as i128)
    }
}

fn constrain(o: VerletObject, arena: Arena) -> (r: VerletObject)
    ensures
        r == constrained(o, arena),
{
    match arena {
        Arena::Circle { center, radius } => clamp_circle(o, center, radius),
        Arena::Rect { width, height } => VerletObject {
            current_position: Vec2 {
                x: clamp_coord(o.current_position.x, o.radius, width),
                y: clamp_coord(o.current_position.y, o.radius, height),
            },
            ..o
        },
    }
}

fn collide(a: VerletObject, b: VerletObject) -> (r: (VerletObject, VerletObject))
    ensures
        r == collided(a, b),
{
    let dx: i128 = a.current_position.x as i128 - b.current_position.x as i128;
    let dy: i128 = a.current_position.y as i128 - b.current_position.y as i128;
    proof {
        lemma_norm2_bound(dx as int, dy as int);
    }
    let n2: i128 = dx * dx + dy * dy;
    let reach: i128 = a.radius as i128 + b.radius as i128;
    proof {
        lemma_mul_bound(reach as int, reach as int, 0x1_0000_0000, 0x1_0000_0000);
    }
    if reach <= 0 || n2 >= reach * reach {
        return (a, b);
    }
    let len = fine_length_of(dx, dy);
    let (px, py) = if len == 0 {
        (div_toward_zero(reach, 2), 0i128)
    } else {
        let delta: i128 = reach * LENGTH_SCALE - len;
        proof {
            lemma_mul_bound(delta as int, dx as int, 0x4_0000_0000_0000_0000, 0x1_0000_0000);
            lemma_mul_bound(delta as int, dy as int, 0x4_0000_0000_0000_0000, 0x1_0000_0000);
        }
        (div_toward_zero(delta * dx, 2 * len), div_toward_zero(delta * dy, 2 * len))
    };
    let na = VerletObject {
        current_position: Vec2 {
            x: saturate(a.current_position.x as i128 + px),
            y: saturate(a.current_position.y as i128 + py),
        },
        ..a
    };
    let nb = VerletObject {
        current_position: Vec2 {
            x: saturate(b.current_position.x as i128 - px),
            y: saturate(b.current_position.y as i128 - py),
        },
        ..b
    };
    (na, nb)
}

pub proof fn lemma_resolve_row_len(s: Seq<VerletObject>, i: int, j: int)
    requires
        0 <= i < j <= s.len(),
    ensures
        resolve_row(s, i, j).len() == s.len(),
    decreases j - i,
{
    if j > i + 1 {
        lemma_resolve_row_len(s, i, j - 1);
    }
}

pub proof fn lemma_resolve_rows_len(s: Seq<VerletObject>, i: int)
    requires
        0 <= i <= s.len(),
    ensures
        resolve_rows(s, i).len() == s.len(),
    decreases i,
{
    if i > 0 {
        lemma_resolve_rows_len(s, i - 1);
        lemma_resolve_row_len(resolve_rows(s, i - 1), i - 1, s.len() as int);
    }
}

/// Both stores hold the same number of bodies, with the same radius and colour
/// at each index.
pub open spec fn same_bodies(a: Seq<VerletObject>, b: Seq<VerletObject>) -> bool {
    &&& a.len() == b.len()
    &&& forall|k: int|
        0 <= k < a.len() ==> (#[trigger] a[k]).radius == b[k].radius && a[k].colour == b[k].colour
}

proof fn lemma_resolve_row_bodies(s: Seq<VerletObject>, i: int, j: int)
    requires
        0 <= i < j <= s.len(),
    ensures
        same_bodies(s, resolve_row(s, i, j)),
    decreases j - i,
{
    if j > i + 1 {
        lemma_resolve_row_bodies(s, i, j - 1);
    }
}

proof fn lemma_resolve_rows_bodies(s: Seq<VerletObject>, i: int)
    requires
        0 <= i <= s.len(),
    ensures
        same_bodies(s, resolve_rows(s, i)),
    decreases i,
{
    if i > 0 {
        lemma_resolve_rows_bodies(s, i - 1);
        lemma_resolve_row_bodies(resolve_rows(s, i - 1), i - 1, s.len() as int);
    }
}

/// Sub-steps move bodies but never change their number, radii or colours.
pub proof fn lemma_run_keeps_bodies(s: Seq<VerletObject>, gravity: Vec2, dt: int, opts: Options, n: nat)
    ensures
        same_bodies(s, run(s, gravity, dt, opts, n)),
    decreases n,
{
    if n > 0 {
        lemma_run_keeps_bodies(s, gravity, dt, opts, (n - 1) as nat);
        let r = run(s, gravity, dt, opts, (n - 1) as nat);
        let m = constraint_pass(
            gravity_pass(r, gravity, opts.gravity_center, opts.center, opts.strength as int),
            opts.arena,
        );
        let g = gravity_pass(r, gravity, opts.gravity_center, opts.center, opts.strength as int);
        let c = collision_pass(m);
        let t = run(s, gravity, dt, opts, n);
        lemma_resolve_rows_bodies(m, m.len() as int);
        assert(t == integrate_pass(c, dt));
        assert forall|k: int| 0 <= k < s.len() implies (#[trigger] s[k]).radius == t[k].radius
            && s[k].colour == t[k].colour by {
            assert(r[k].radius == g[k].radius && r[k].colour == g[k].colour);
            assert(g[k].radius == m[k].radius && g[k].colour == m[k].colour);
            assert(m[k].radius == c[k].radius && m[k].colour == c[k].colour);
            assert(c[k].radius == t[k].radius && c[k].colour == t[k].colour);
        }
    }
}

impl Solver {
    /// Every body has a positive radius.
    pub open spec fn wf(&self) -> bool {
        forall|k: int| 0 <= k < self.objects@.len() ==> self.objects@[k].radius > 0
    }

    /// An empty store under the given uniform gravity.
    pub fn new(gravity: Vec2) -> (r: Solver)
        ensures
            r.objects@ == Seq::<VerletObject>::empty(),
            r.gravity == gravity,
            r.wf(),
    {
        Solver { objects: Vec::new(), gravity }
    }

    /// The number of bodies in the store.
    pub fn count(&self) -> (r: usize)
        ensures
            r == self.objects@.len(),
    {
        self.objects.len()
    }

    /// Appends a body at rest at `position`.
    pub fn spawn(&mut self, position: Vec2, radius: i32, colour: Rgba)
        requires
            radius > 0,
            old(self).wf(),
        ensures
            final(self).objects@ == old(self).objects@.push(spawned(position, radius, colour)),
            final(self).gravity == old(self).gravity,
            final(self).wf(),
    {
        self.objects.push(VerletObject::new(position, radius, colour));
    }

    /// The gravity model over every body: in center-seeking mode each position
    /// moves `gravity_strength` units toward `center`; otherwise the solver's
    /// gravity is added to each acceleration.
    pub fn apply_gravity(&mut self, gravity_center: bool, center: Vec2, gravity_strength: u32)
        ensures
            final(self).objects@ == gravity_pass(
                old(self).objects@,
                old(self).gravity,
                gravity_center,
                center,
                gravity_strength as int,
            ),
            final(self).gravity == old(self).gravity,
    {
        let n = self.objects.len();
        let mut i: usize = 0;
        while i < n
            invariant
                n == self.objects.len(),
                n == old(self).objects.len(),
                i <= n,
                self.gravity == old(self).gravity,
                forall|k: int|
                    0 <= k < i ==> self.objects@[k] == gravitated(
                        old(self).objects@[k],
                        old(self).gravity,
                        gravity_center,
                        center,
                        gravity_strength as int,
                    ),
                forall|k: int| i <= k < n ==> self.objects@[k] == old(self).objects@[k],
            decreases n - i,
        {
            let mut o = self.objects[i];
            if gravity_center {
                o = pull(o, center, gravity_strength);
            } else {
                o.accelerate(self.gravity);
            }
            self.objects.set(i, o);
            i += 1;
        }
        assert(self.objects@ =~= gravity_pass(
            old(self).objects@,
            old(self).gravity,
            gravity_center,
            center,
            gravity_strength as int,
        ));
    }

    /// The boundary constraint over every body.
    pub fn apply_constraint(&mut self, arena: Arena)
        ensures
            final(self).objects@ == constraint_pass(old(self).objects@, arena),
            final(self).gravity == old(self).gravity,
    {
        let n = self.objects.len();
        let mut i: usize = 0;
        while i < n
            invariant
                n == self.objects.len(),
                n == old(self).objects.len(),
                i <= n,
                self.gravity == old(self).gravity,
                forall|k: int|
                    0 <= k < i ==> self.objects@[k] == constrained(old(self).objects@[k], arena),
                forall|k: int| i <= k < n ==> self.objects@[k] == old(self).objects@[k],
            decreases n - i,
        {
            let o = constrain(self.objects[i], arena);
            self.objects.set(i, o);
            i += 1;
        }
        assert(self.objects@ =~= constraint_pass(old(self).objects@, arena));
    }

    /// One Verlet step of length `dt` for every body.
    pub fn update_all_pos(&mut self, dt: u32)
        ensures
            final(self).objects@ == integrate_pass(old(self).objects@, dt as int),
            final(self).gravity == old(self).gravity,
    {
        let n = self.objects.len();
        let mut i: usize = 0;
        while i < n
            invariant
                n == self.objects.len(),
                n == old(self).objects.len(),
                i <= n,
                self.gravity == old(self).gravity,
                forall|k: int|
                    0 <= k < i ==> self.objects@[k] == integrated(old(self).objects@[k], dt as int),
                forall|k: int| i <= k < n ==> self.objects@[k] == old(self).objects@[k],
            decreases n - i,
        {
            let mut o = self.objects[i];
            o.update_pos(dt);
            self.objects.set(i, o);
            i += 1;
        }
        assert(self.objects@ =~= integrate_pass(old(self).objects@, dt as int));
    }

    /// Resolves every overlapping pair `(i, j)`, `i < j`, in ascending order of
    /// `i`, then `j`.
    pub fn solve_collisions(&mut self)
        ensures
            final(self).objects@ == collision_pass(old(self).objects@),
            final(self).gravity == old(self).gravity,
    {
        let n = self.objects.len();
        let ghost orig = self.objects@;
        let mut i: usize = 0;
        while i < n
            invariant
                n == self.objects.len(),
                n == orig.len(),
                orig == old(self).objects@,
                i <= n,
                self.gravity == old(self).gravity,
                self.objects@ == resolve_rows(orig, i as int),
            decreases n - i,
        {
            let ghost row_start = self.objects@;
            let mut j: usize = i + 1;
            while j < n
                invariant
                    n == self.objects.len(),
                    n == orig.len(),
                    i < j <= n,
                    self.gravity == old(self).gravity,
                    row_start == resolve_rows(orig, i as int),
                    self.objects@ == resolve_row(row_start, i as int, j as int),
                decreases n - j,
            {
                let (a, b) = collide(self.objects[i], self.objects[j]);
                self.objects.set(i, a);
                self.objects.set(j, b);
                j += 1;
            }
            i += 1;
        }
    }

    /// Runs `steps` sub-steps of length `dt` (the caller's per-sub-step time,
    /// in the time unit that the gravity vector is expressed in), each
    /// applying gravity, the arena constraint, collision resolution and
    /// integration in that order. Bodies move; their number, radii and colours
    /// stay.
    pub fn update(&mut self, dt: u32, steps: u32, options: &Options)
        ensures
            final(self).objects@ == run(old(self).objects@, old(self).gravity, dt as int, *options, steps as nat),
            final(self).gravity == old(self).gravity,
            same_bodies(old(self).objects@, final(self).objects@),
            old(self).wf() ==> final(self).wf(),
    {
        let mut k: u32 = 0;
        while k < steps
            invariant
                k <= steps,
                self.gravity == old(self).gravity,
                self.objects@ == run(old(self).objects@, old(self).gravity, dt as int, *options, k as nat),
            decreases steps - k,
        {
            self.apply_gravity(options.gravity_center, options.center, options.strength);
            self.apply_constraint(options.arena);
            self.solve_collisions();
            self.update_all_pos(dt);
            k += 1;
        }
        proof {
            lemma_run_keeps_bodies(old(self).objects@, old(self).gravity, dt as int, *options, steps as nat);
            assert forall|k: int| 0 <= k < self.objects@.len() && old(self).wf() implies #[trigger] self.objects@[k].radius > 0 by {
                assert(old(self).objects@[k].radius == self.objects@[k].radius);
            }
        }
    }
}

} // verus!
