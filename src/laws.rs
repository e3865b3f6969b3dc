//! Properties of the simulation that relate several passes, calls or states,
//! each proved over the spec functions that the executable code is held to.
use vstd::prelude::*;
use crate::vector::{
    Vec2, zero_vec, norm2, div_trunc, lemma_ceil_sqrt, is_ceil_sqrt, fine_length,
    LENGTH_SCALE,
};
use crate::object::{VerletObject, Rgba, integrated, accelerated, spawned};
use crate::solver::{
    Arena, Options, constrained, inside_circle, collided, overlapping, gravity_pass,
    constraint_pass, integrate_pass, collision_pass, resolve_pair, resolve_row, resolve_rows, step,
    run, lemma_resolve_rows_len, separation, circle_limit, pulled, circle_clamped,
};

verus! {

/// The body has no implicit velocity and no pending acceleration.
pub open spec fn at_rest(o: VerletObject) -> bool {
    o.current_position == o.old_position && o.acceleration == zero_vec()
}

/// The body's center lies in the range the arena allows for its radius.
pub open spec fn inside_arena(o: VerletObject, arena: Arena) -> bool {
    match arena {
        Arena::Circle { center, radius } => inside_circle(o, center, radius as int),
        Arena::Rect { width, height } => {
            &&& o.radius <= o.current_position.x <= width - o.radius
            &&& o.radius <= o.current_position.y <= height - o.radius
        },
    }
}

/// A body inside the arena is left where it is by the constraint.
pub proof fn lemma_inside_unconstrained(o: VerletObject, arena: Arena)
    requires
        inside_arena(o, arena),
    ensures
        constrained(o, arena) == o,
{
}

/// Collision resolution leaves a store alone when no two bodies in it overlap.
pub proof fn lemma_collision_pass_identity(s: Seq<VerletObject>)
    requires
        forall|a: int, b: int| 0 <= a < b < s.len() ==> !overlapping(#[trigger] s[a], #[trigger] s[b]),
    ensures
        collision_pass(s) == s,
{
    lemma_rows_identity(s, s.len() as int);
}

proof fn lemma_row_identity(s: Seq<VerletObject>, i: int, j: int)
    requires
        0 <= i < j <= s.len(),
        forall|a: int, b: int| 0 <= a < b < s.len() ==> !overlapping(#[trigger] s[a], #[trigger] s[b]),
    ensures
        resolve_row(s, i, j) == s,
    decreases j - i,
{
    if j > i + 1 {
        lemma_row_identity(s, i, j - 1);
        assert(!overlapping(s[i], s[j - 1]));
        assert(resolve_pair(s, i, j - 1) =~= s);
    }
}

proof fn lemma_rows_identity(s: Seq<VerletObject>, i: int)
    requires
        0 <= i <= s.len(),
        forall|a: int, b: int| 0 <= a < b < s.len() ==> !overlapping(#[trigger] s[a], #[trigger] s[b]),
    ensures
        resolve_rows(s, i) == s,
    decreases i,
{
    if i > 0 {
        lemma_rows_identity(s, i - 1);
        lemma_row_identity(s, i - 1, s.len() as int);
    }
}

/// Rest is a fixed point: a single body at rest inside the arena, under zero
/// uniform gravity, is unchanged by any number of sub-steps.
pub proof fn law_rest_state(o: VerletObject, dt: int, opts: Options, n: nat)
    requires
        at_rest(o),
        !opts.gravity_center,
        inside_arena(o, opts.arena),
    ensures
        run(seq![o], zero_vec(), dt, opts, n) == seq![o],
    decreases n,
{
    if n > 0 {
        law_rest_state(o, dt, opts, (n - 1) as nat);
        let s = seq![o];
        let g = gravity_pass(s, zero_vec(), false, opts.center, opts.strength as int);
        assert(accelerated(o, zero_vec()) == o);
        assert(g =~= s);
        lemma_inside_unconstrained(o, opts.arena);
        assert(constraint_pass(g, opts.arena) =~= s);
        lemma_collision_pass_identity(s);
        assert(integrated(o, dt) == o);
        assert(integrate_pass(s, dt) =~= s);
    }
}

/// A request to add a body: position, radius, colour.
pub type SpawnRequest = (Vec2, i32, Rgba);

/// The store that spawning each request in turn builds from an empty one.
pub open spec fn spawned_store(reqs: Seq<SpawnRequest>) -> Seq<VerletObject>
    decreases reqs.len(),
{
    if reqs.len() == 0 {
        Seq::empty()
    } else {
        let r = reqs.last();
        spawned_store(reqs.drop_last()).push(spawned(r.0, r.1, r.2))
    }
}

/// Growth only: spawning `n` bodies gives a store of `n` bodies, each with its
/// spawn position both as current and as previous position; stepping never
/// changes the number of bodies.
pub proof fn law_spawn_growth(reqs: Seq<SpawnRequest>, gravity: Vec2, dt: int, opts: Options, n: nat)
    ensures
        spawned_store(reqs).len() == reqs.len(),
        forall|i: int|
            0 <= i < reqs.len() ==> {
                &&& (#[trigger] spawned_store(reqs)[i]).current_position == reqs[i].0
                &&& spawned_store(reqs)[i].old_position == reqs[i].0
            },
        run(spawned_store(reqs), gravity, dt, opts, n).len() == reqs.len(),
    decreases reqs.len(),
{
    if reqs.len() > 0 {
        law_spawn_growth(reqs.drop_last(), gravity, dt, opts, 0);
    }
    law_run_keeps_count(spawned_store(reqs), gravity, dt, opts, n);
}

/// Stepping keeps the number of bodies.
pub proof fn law_run_keeps_count(s: Seq<VerletObject>, gravity: Vec2, dt: int, opts: Options, n: nat)
    ensures
        run(s, gravity, dt, opts, n).len() == s.len(),
    decreases n,
{
    if n > 0 {
        law_run_keeps_count(s, gravity, dt, opts, (n - 1) as nat);
        let r = run(s, gravity, dt, opts, (n - 1) as nat);
        let m = constraint_pass(
            gravity_pass(r, gravity, opts.gravity_center, opts.center, opts.strength as int),
            opts.arena,
        );
        lemma_resolve_rows_len(m, m.len() as int);
    }
}

/// `perm` lists each index below `n` exactly once.
pub open spec fn is_permutation(perm: Seq<int>, n: int) -> bool {
    &&& perm.len() == n
    &&& forall|k: int| 0 <= k < n ==> 0 <= #[trigger] perm[k] < n
    &&& forall|a: int, b: int| 0 <= a < b < n ==> perm[a] != perm[b]
}

/// The store with body `k` taken from index `perm[k]`.
pub open spec fn reordered(s: Seq<VerletObject>, perm: Seq<int>) -> Seq<VerletObject> {
    Seq::new(perm.len(), |k: int| s[perm[k]])
}

/// Order independence without overlaps: when no two bodies overlap once
/// gravity and the constraint have acted, stepping a reordered store gives the
/// same bodies, reordered the same way.
pub proof fn law_order_independence(s: Seq<VerletObject>, perm: Seq<int>, gravity: Vec2, dt: int, opts: Options)
    requires
        is_permutation(perm, s.len() as int),
        forall|a: int, b: int|
            0 <= a < s.len() && 0 <= b < s.len() && a != b ==> !overlapping(
                #[trigger] constraint_pass(
                    gravity_pass(s, gravity, opts.gravity_center, opts.center, opts.strength as int),
                    opts.arena,
                )[a],
                #[trigger] constraint_pass(
                    gravity_pass(s, gravity, opts.gravity_center, opts.center, opts.strength as int),
                    opts.arena,
                )[b],
            ),
    ensures
        step(reordered(s, perm), gravity, dt, opts) == reordered(step(s, gravity, dt, opts), perm),
{
    let gs = gravity_pass(s, gravity, opts.gravity_center, opts.center, opts.strength as int);
    let ms = constraint_pass(gs, opts.arena);
    let t = reordered(s, perm);
    let gt = gravity_pass(t, gravity, opts.gravity_center, opts.center, opts.strength as int);
    let mt = constraint_pass(gt, opts.arena);
    assert(mt =~= reordered(ms, perm));
    assert forall|a: int, b: int| 0 <= a < b < mt.len() implies !overlapping(
        #[trigger] mt[a],
        #[trigger] mt[b],
    ) by {
        assert(perm[a] != perm[b]);
        assert(mt[a] == ms[perm[a]]);
        assert(mt[b] == ms[perm[b]]);
    }
    lemma_collision_pass_identity(mt);
    assert forall|a: int, b: int| 0 <= a < b < ms.len() implies !overlapping(
        #[trigger] ms[a],
        #[trigger] ms[b],
    ) by {
        assert(ms[a] == constraint_pass(gs, opts.arena)[a]);
    }
    lemma_collision_pass_identity(ms);
    assert(integrate_pass(mt, dt) =~= reordered(integrate_pass(ms, dt), perm));
}

/// `0 + 1 + ... + k`, that is `k * (k + 1) / 2`.
pub open spec fn tri(k: int) -> int
    decreases k,
{
    if k <= 0 {
        0
    } else {
        tri(k - 1) + k
    }
}

/// The closed-form Verlet trajectory of one coordinate after `k` sub-steps,
/// from position `p0` with velocity `v0` under the per-step increment `a`
/// (`acceleration * dt * dt`): `p0 + k * v0 + a * k * (k + 1) / 2`.
pub open spec fn free_coord(p0: int, v0: int, a: int, k: int) -> int {
    p0 + k * v0 + a * tri(k)
}

/// The body after `k` sub-steps of free fall under uniform gravity `g`.
pub open spec fn free_body(b: VerletObject, g: Vec2, dt: int, k: int) -> VerletObject {
    let vx = b.current_position.x - b.old_position.x;
    let vy = b.current_position.y - b.old_position.y;
    let ax = g.x * dt * dt;
    let ay = g.y * dt * dt;
    VerletObject {
        current_position: Vec2 {
            x: free_coord(b.current_position.x as int, vx, ax, k) as i32,
            y: free_coord(b.current_position.y as int, vy, ay, k) as i32,
        },
        old_position: Vec2 {
            x: free_coord(b.current_position.x as int, vx, ax, k - 1) as i32,
            y: free_coord(b.current_position.y as int, vy, ay, k - 1) as i32,
        },
        acceleration: zero_vec(),
        ..b
    }
}

/// The free-fall trajectory stays within the coordinate range up to step `k`.
pub open spec fn free_in_range(b: VerletObject, g: Vec2, dt: int, k: int) -> bool {
    let vx = b.current_position.x - b.old_position.x;
    let vy = b.current_position.y - b.old_position.y;
    forall|j: int|
        0 <= j <= k ==> {
            &&& i32::MIN <= #[trigger] free_coord(b.current_position.x as int, vx, g.x * dt * dt, j)
                <= i32::MAX
            &&& i32::MIN <= free_coord(b.current_position.y as int, vy, g.y * dt * dt, j)
                <= i32::MAX
        }
}

proof fn lemma_free_diff(p0: int, v0: int, a: int, k: int)
    requires
        k >= 0,
    ensures
        free_coord(p0, v0, a, k) == free_coord(p0, v0, a, k - 1) + v0 + a * k,
{
    let t1 = tri(k);
    let t0 = tri(k - 1);
    assert(t1 == t0 + k);
    assert(p0 + k * v0 + a * t1 == p0 + (k - 1) * v0 + a * t0 + v0 + a * k) by (nonlinear_arith)
        requires
            t1 == t0 + k,
    ;
}

proof fn lemma_free_start(p0: int, v0: int, a: int)
    ensures
        free_coord(p0, v0, a, -1) == p0 - v0,
        free_coord(p0, v0, a, 0) == p0,
{
    let t = tri(-1);
    assert(t == 0);
    assert(tri(0) == 0);
    assert(p0 + (-1) * v0 + a * t == p0 - v0) by (nonlinear_arith)
        requires
            t == 0,
    ;
    assert(p0 + 0 * v0 + a * 0 == p0) by (nonlinear_arith);
}

/// One free-fall sub-step: twice the current position, less the previous one,
/// plus the increment, is the next point of the trajectory.
proof fn lemma_free_step(p0: int, v0: int, a: int, k: int)
    requires
        k >= 1,
    ensures
        free_coord(p0, v0, a, k - 1) + (free_coord(p0, v0, a, k - 1) - free_coord(p0, v0, a, k - 2))
            + a == free_coord(p0, v0, a, k),
{
    lemma_free_diff(p0, v0, a, k);
    lemma_free_diff(p0, v0, a, k - 1);
    assert(a * (k - 1) + a == a * k) by (nonlinear_arith);
}

/// Momentum continuity: a single body under uniform gravity `g`, starting with
/// no pending acceleration, follows the closed-form Verlet trajectory for as
/// long as the arena does not act on it and its coordinates stay in range.
pub proof fn law_free_fall(b: VerletObject, g: Vec2, dt: int, opts: Options, k: nat)
    requires
        !opts.gravity_center,
        b.acceleration == zero_vec(),
        free_in_range(b, g, dt, k as int),
        forall|j: int| 0 <= j < k ==> inside_arena(#[trigger] free_body(b, g, dt, j), opts.arena),
    ensures
        run(seq![b], g, dt, opts, k) == seq![free_body(b, g, dt, k as int)],
    decreases k,
{
    let vx = b.current_position.x - b.old_position.x;
    let vy = b.current_position.y - b.old_position.y;
    let ax = g.x * dt * dt;
    let ay = g.y * dt * dt;
    if k == 0 {
        lemma_free_start(b.current_position.x as int, vx, ax);
        lemma_free_start(b.current_position.y as int, vy, ay);
        assert(free_body(b, g, dt, 0) == b);
    } else {
        let kk = k as int;
        law_free_fall(b, g, dt, opts, (k - 1) as nat);
        let f = free_body(b, g, dt, kk - 1);
        let s = seq![f];
        let fa = accelerated(f, g);
        assert(fa.acceleration == g);
        assert(gravity_pass(s, g, false, opts.center, opts.strength as int) =~= seq![fa]);
        assert(inside_arena(f, opts.arena));
        lemma_inside_unconstrained(fa, opts.arena);
        assert(constraint_pass(seq![fa], opts.arena) =~= seq![fa]);
        lemma_collision_pass_identity(seq![fa]);
        lemma_free_step(b.current_position.x as int, vx, ax, kk);
        lemma_free_step(b.current_position.y as int, vy, ay, kk);
        if kk >= 2 {
            assert(i32::MIN <= free_coord(b.current_position.x as int, vx, ax, kk - 2) <= i32::MAX);
            assert(i32::MIN <= free_coord(b.current_position.y as int, vy, ay, kk - 2) <= i32::MAX);
        }
        assert(i32::MIN <= free_coord(b.current_position.x as int, vx, ax, kk - 1) <= i32::MAX);
        assert(i32::MIN <= free_coord(b.current_position.y as int, vy, ay, kk - 1) <= i32::MAX);
        assert(i32::MIN <= free_coord(b.current_position.x as int, vx, ax, kk) <= i32::MAX);
        assert(i32::MIN <= free_coord(b.current_position.y as int, vy, ay, kk) <= i32::MAX);
        let p0x = b.current_position.x as int;
        let p0y = b.current_position.y as int;
        if kk == 1 {
            lemma_free_start(p0x, vx, ax);
            lemma_free_start(p0y, vy, ay);
        }
        assert(fa.current_position.x == free_coord(p0x, vx, ax, kk - 1));
        assert(fa.old_position.x == free_coord(p0x, vx, ax, kk - 2));
        assert(fa.current_position.y == free_coord(p0y, vy, ay, kk - 1));
        assert(fa.old_position.y == free_coord(p0y, vy, ay, kk - 2));
        assert(fa.acceleration.x * dt * dt == ax);
        assert(fa.acceleration.y * dt * dt == ay);
        let fi = integrated(fa, dt);
        assert(fi.current_position.x == free_coord(p0x, vx, ax, kk));
        assert(fi.current_position.y == free_coord(p0y, vy, ay, kk));
        assert(fi == free_body(b, g, dt, kk));
        assert(integrate_pass(seq![fa], dt) =~= seq![free_body(b, g, dt, kk)]);
    }
}

proof fn lemma_div_trunc_error(m: int, d: int)
    requires
        d > 0,
    ensures
        -d < div_trunc(m, d) * d - m < d,
{
    let a = if m >= 0 { m } else { -m };
    vstd::arithmetic::div_mod::lemma_fundamental_div_mod(a, d);
    let q = a / d;
    assert(a - d < q * d <= a) by (nonlinear_arith)
        requires
            a == d * q + a % d,
            0 <= a % d < d,
    ;
    if m < 0 {
        assert(div_trunc(m, d) * d == -(q * d)) by (nonlinear_arith)
            requires
                div_trunc(m, d) == -q,
        ;
    }
}

proof fn lemma_fine_length_positive(dx: int, dy: int)
    requires
        dx != 0 || dy != 0,
    ensures
        fine_length(dx, dy) > 0,
        is_ceil_sqrt(norm2(dx, dy) * LENGTH_SCALE * LENGTH_SCALE, fine_length(dx, dy)),
{
    let n = norm2(dx, dy) * LENGTH_SCALE * LENGTH_SCALE;
    assert(n > 0) by (nonlinear_arith)
        requires
            dx != 0 || dy != 0,
            n == (dx * dx + dy * dy) * LENGTH_SCALE * LENGTH_SCALE,
            LENGTH_SCALE == 0x8000_0000,
    ;
    lemma_ceil_sqrt(n);
    let len = fine_length(dx, dy);
    if len == 0 {
        assert(n <= len * len);
        assert(len * len == 0);
    }
}

/// Collision separation up to rounding: for two overlapping bodies with
/// distinct centers at distance `d`, with `len` the length `LENGTH_SCALE * d`
/// rounded up (so `LENGTH_SCALE * d <= len < LENGTH_SCALE * d + 1`),
/// resolution makes the axis between the centers `(r_i + r_j) *
/// LENGTH_SCALE / len` times the old one, to within less than two units in
/// each coordinate: the new axis points the same way and has length
/// `r_i + r_j`, up to that rounding and a relative error below
/// `1 / (LENGTH_SCALE * d)`. Requires the displaced positions to stay in the
/// coordinate range.
pub proof fn law_pair_contact_distance(a: VerletObject, b: VerletObject)
    requires
        overlapping(a, b),
        a.current_position != b.current_position,
        i32::MIN <= a.current_position.x + separation(a, b).0 <= i32::MAX,
        i32::MIN <= a.current_position.y + separation(a, b).1 <= i32::MAX,
        i32::MIN <= b.current_position.x - separation(a, b).0 <= i32::MAX,
        i32::MIN <= b.current_position.y - separation(a, b).1 <= i32::MAX,
    ensures
        ({
            let dx = a.current_position.x - b.current_position.x;
            let dy = a.current_position.y - b.current_position.y;
            let len = fine_length(dx, dy);
            let reach = a.radius + b.radius;
            let (na, nb) = collided(a, b);
            &&& len > 0
            &&& is_ceil_sqrt(norm2(dx, dy) * LENGTH_SCALE * LENGTH_SCALE, len)
            &&& -2 * len < len * (na.current_position.x - nb.current_position.x) - reach
                * LENGTH_SCALE * dx < 2 * len
            &&& -2 * len < len * (na.current_position.y - nb.current_position.y) - reach
                * LENGTH_SCALE * dy < 2 * len
        }),
{
    let dx = a.current_position.x - b.current_position.x;
    let dy = a.current_position.y - b.current_position.y;
    lemma_fine_length_positive(dx, dy);
    let len = fine_length(dx, dy);
    let reach = a.radius + b.radius;
    let delta = reach * LENGTH_SCALE - len;
    let (px, py) = separation(a, b);
    let (na, nb) = collided(a, b);
    lemma_div_trunc_error(delta * dx, 2 * len);
    lemma_div_trunc_error(delta * dy, 2 * len);
    assert(na.current_position.x - nb.current_position.x == dx + 2 * px);
    assert(na.current_position.y - nb.current_position.y == dy + 2 * py);
    assert(-2 * len < len * (dx + 2 * px) - reach * LENGTH_SCALE * dx < 2 * len) by (nonlinear_arith)
        requires
            -(2 * len) < px * (2 * len) - delta * dx < 2 * len,
            delta == reach * LENGTH_SCALE - len,
    ;
    assert(-2 * len < len * (dy + 2 * py) - reach * LENGTH_SCALE * dy < 2 * len) by (nonlinear_arith)
        requires
            -(2 * len) < py * (2 * len) - delta * dy < 2 * len,
            delta == reach * LENGTH_SCALE - len,
    ;
}

/// Center-seeking pull: a body not at the center, at offset `q` from it, moves
/// by `strength * q / |q|` up to less than one unit in each coordinate, with
/// `|q|` taken as `len / LENGTH_SCALE` (`len` the length `LENGTH_SCALE * |q|`
/// rounded up); its acceleration, history and radius are untouched. Requires
/// the moved position to stay in the coordinate range.
pub proof fn law_pull_toward_center(o: VerletObject, center: Vec2, strength: int)
    requires
        o.current_position != center,
        strength >= 0,
        ({
            let p = pulled(o, center, strength);
            let dx = center.x - o.current_position.x;
            let dy = center.y - o.current_position.y;
            let len = fine_length(dx, dy);
            &&& i32::MIN <= o.current_position.x + div_trunc(dx * strength * LENGTH_SCALE, len) <= i32::MAX
            &&& i32::MIN <= o.current_position.y + div_trunc(dy * strength * LENGTH_SCALE, len) <= i32::MAX
        }),
    ensures
        ({
            let p = pulled(o, center, strength);
            let dx = center.x - o.current_position.x;
            let dy = center.y - o.current_position.y;
            let len = fine_length(dx, dy);
            &&& len > 0
            &&& is_ceil_sqrt(norm2(dx, dy) * LENGTH_SCALE * LENGTH_SCALE, len)
            &&& -len < len * (p.current_position.x - o.current_position.x) - strength * LENGTH_SCALE * dx < len
            &&& -len < len * (p.current_position.y - o.current_position.y) - strength * LENGTH_SCALE * dy < len
            &&& p.acceleration == o.acceleration
            &&& p.old_position == o.old_position
            &&& p.radius == o.radius
        }),
{
    let dx = center.x - o.current_position.x;
    let dy = center.y - o.current_position.y;
    lemma_fine_length_positive(dx, dy);
    let len = fine_length(dx, dy);
    let mx = dx * strength * LENGTH_SCALE;
    let my = dy * strength * LENGTH_SCALE;
    lemma_div_trunc_error(mx, len);
    lemma_div_trunc_error(my, len);
    let qx = div_trunc(mx, len);
    let qy = div_trunc(my, len);
    let p = pulled(o, center, strength);
    assert(p.current_position.x - o.current_position.x == qx);
    assert(p.current_position.y - o.current_position.y == qy);
    assert(-len < len * qx - strength * LENGTH_SCALE * dx < len) by (nonlinear_arith)
        requires
            -len < qx * len - mx < len,
            mx == dx * strength * LENGTH_SCALE,
    ;
    assert(-len < len * qy - strength * LENGTH_SCALE * dy < len) by (nonlinear_arith)
        requires
            -len < qy * len - my < len,
            my == dy * strength * LENGTH_SCALE,
    ;
}

/// Collision symmetry: resolving an overlapping pair moves the two bodies by
/// equal and opposite displacements (their midpoint stays where it was), each
/// by half the penetration depth along the axis between their centers, and a
/// store of just these two bodies ends with exactly that pair. Requires the
/// displaced positions stay in the coordinate range.
pub proof fn law_pair_separation(a: VerletObject, b: VerletObject)
    requires
        overlapping(a, b),
        i32::MIN <= a.current_position.x + separation(a, b).0 <= i32::MAX,
        i32::MIN <= a.current_position.y + separation(a, b).1 <= i32::MAX,
        i32::MIN <= b.current_position.x - separation(a, b).0 <= i32::MAX,
        i32::MIN <= b.current_position.y - separation(a, b).1 <= i32::MAX,
    ensures
        collided(a, b).0.current_position.x - a.current_position.x == separation(a, b).0,
        collided(a, b).0.current_position.y - a.current_position.y == separation(a, b).1,
        collided(a, b).1.current_position.x - b.current_position.x == -separation(a, b).0,
        collided(a, b).1.current_position.y - b.current_position.y == -separation(a, b).1,
        collided(a, b).0.current_position.x + collided(a, b).1.current_position.x
            == a.current_position.x + b.current_position.x,
        collided(a, b).0.current_position.y + collided(a, b).1.current_position.y
            == a.current_position.y + b.current_position.y,
        collision_pass(seq![a, b]) == seq![collided(a, b).0, collided(a, b).1],
{
    let s = seq![a, b];
    assert(resolve_rows(s, 0) == s);
    assert(resolve_row(s, 0, 1) == s);
    assert(resolve_row(s, 0, 2) == resolve_pair(s, 0, 1));
    assert(resolve_pair(s, 0, 1) =~= seq![collided(a, b).0, collided(a, b).1]);
    assert(resolve_rows(s, 1) == resolve_row(s, 0, 2));
    let r = resolve_rows(s, 1);
    assert(resolve_row(r, 1, 2) == r);
    assert(resolve_rows(s, 2) == resolve_row(r, 1, 2));
}

/// The arena leaves the body room: its radius is at most half of each side
/// of the rectangle, or at most the disc's radius.
pub open spec fn fits_arena(o: VerletObject, arena: Arena) -> bool {
    match arena {
        Arena::Circle { center, radius } => 0 <= o.radius <= radius,
        Arena::Rect { width, height } => o.radius <= width - o.radius && o.radius <= height - o.radius,
    }
}

/// The disc lies inside the coordinate range.
pub open spec fn arena_in_range(arena: Arena) -> bool {
    match arena {
        Arena::Circle { center, radius } => {
            &&& i32::MIN <= center.x - radius
            &&& center.x + radius <= i32::MAX
            &&& i32::MIN <= center.y - radius
            &&& center.y + radius <= i32::MAX
        },
        Arena::Rect { .. } => true,
    }
}

proof fn lemma_div_trunc_square(a: int, b: int)
    requires
        b > 0,
    ensures
        (div_trunc(a, b) * b) * (div_trunc(a, b) * b) <= a * a,
{
    let m = if a >= 0 { a } else { -a };
    let q = m / b;
    vstd::arithmetic::div_mod::lemma_fundamental_div_mod(m, b);
    assert(0 <= q * b <= m) by (nonlinear_arith)
        requires
            m == b * q + m % b,
            0 <= m % b < b,
            m >= 0,
            b > 0,
            q == m / b,
    ;
    assert((q * b) * (q * b) <= m * m) by (nonlinear_arith)
        requires
            0 <= q * b <= m,
    ;
    let d = div_trunc(a, b);
    if a >= 0 {
        assert(d == q);
    } else {
        assert(d == -q);
        assert((d * b) * (d * b) == (q * b) * (q * b)) by (nonlinear_arith)
            requires
                d == -q,
        ;
        assert(m * m == a * a) by (nonlinear_arith)
            requires
                m == -a,
        ;
    }
}

/// A vector scaled by `limit / len`, where `len` is at least its length, is
/// no longer than `limit`.
proof fn lemma_scaled_within(dx: int, dy: int, limit: int, len: int)
    requires
        limit >= 0,
        len > 0,
        norm2(dx, dy) <= len * len,
    ensures
        norm2(div_trunc(dx * limit, len), div_trunc(dy * limit, len)) <= limit * limit,
        -limit <= div_trunc(dx * limit, len) <= limit,
        -limit <= div_trunc(dy * limit, len) <= limit,
{
    let ox = div_trunc(dx * limit, len);
    let oy = div_trunc(dy * limit, len);
    lemma_div_trunc_square(dx * limit, len);
    lemma_div_trunc_square(dy * limit, len);
    let l2 = len * len;
    let m2 = limit * limit;
    assert((ox * len) * (ox * len) == (ox * ox) * l2) by (nonlinear_arith)
        requires
            l2 == len * len,
    ;
    assert((oy * len) * (oy * len) == (oy * oy) * l2) by (nonlinear_arith)
        requires
            l2 == len * len,
    ;
    assert((dx * limit) * (dx * limit) == (dx * dx) * m2) by (nonlinear_arith)
        requires
            m2 == limit * limit,
    ;
    assert((dy * limit) * (dy * limit) == (dy * dy) * m2) by (nonlinear_arith)
        requires
            m2 == limit * limit,
    ;
    let n = ox * ox + oy * oy;
    let d = dx * dx + dy * dy;
    assert(n * l2 <= d * m2) by (nonlinear_arith)
        requires
            (ox * ox) * l2 <= (dx * dx) * m2,
            (oy * oy) * l2 <= (dy * dy) * m2,
            n == ox * ox + oy * oy,
            d == dx * dx + dy * dy,
    ;
    assert(m2 >= 0) by (nonlinear_arith)
        requires
            m2 == limit * limit,
    ;
    assert(d * m2 <= l2 * m2) by (nonlinear_arith)
        requires
            d <= l2,
            m2 >= 0,
    ;
    assert(l2 > 0) by (nonlinear_arith)
        requires
            l2 == len * len,
            len > 0,
    ;
    assert(n <= m2) by (nonlinear_arith)
        requires
            n * l2 <= l2 * m2,
            l2 > 0,
    ;
    assert(ox * ox <= m2 && oy * oy <= m2) by (nonlinear_arith)
        requires
            n == ox * ox + oy * oy,
            n <= m2,
    ;
    assert(-limit <= ox <= limit) by (nonlinear_arith)
        requires
            ox * ox <= limit * limit,
            limit >= 0,
    ;
    assert(-limit <= oy <= limit) by (nonlinear_arith)
        requires
            oy * oy <= limit * limit,
            limit >= 0,
    ;
}

proof fn lemma_constrained_inside(o: VerletObject, arena: Arena)
    requires
        fits_arena(o, arena),
        arena_in_range(arena),
    ensures
        inside_arena(constrained(o, arena), arena),
{
    match arena {
        Arena::Circle { center, radius } => {
            if !inside_circle(o, center, radius as int) {
                let dx = o.current_position.x - center.x;
                let dy = o.current_position.y - center.y;
                let limit = circle_limit(radius as int, o.radius as int);
                let len = fine_length(dx, dy);
                let c = constrained(o, arena);
                assert(limit * limit >= 0) by (nonlinear_arith);
                if len == 0 {
                    assert(c.current_position == center);
                    assert(norm2(0, 0) == 0);
                } else {
                    let sx = dx * LENGTH_SCALE;
                    let sy = dy * LENGTH_SCALE;
                    assert(norm2(dx, dy) * LENGTH_SCALE * LENGTH_SCALE >= 0) by (nonlinear_arith)
                        requires
                            LENGTH_SCALE == 0x8000_0000,
                    ;
                    lemma_ceil_sqrt(norm2(dx, dy) * LENGTH_SCALE * LENGTH_SCALE);
                    assert(norm2(sx, sy) == norm2(dx, dy) * LENGTH_SCALE * LENGTH_SCALE) by (nonlinear_arith)
                        requires
                            sx == dx * LENGTH_SCALE,
                            sy == dy * LENGTH_SCALE,
                    ;
                    lemma_scaled_within(sx, sy, limit, len);
                }
            }
        },
        Arena::Rect { .. } => {},
    }
}

/// Circular clamp landing point: a body beyond its allowed distance `limit =
/// radius - body.radius` from the center, at offset `q` from it, lands at
/// `center + limit * q / |q|` up to less than one unit in each coordinate, with
/// `|q|` taken as `len / LENGTH_SCALE` (`len` the length `LENGTH_SCALE * |q|`
/// rounded up).
pub proof fn law_circle_landing_point(o: VerletObject, center: Vec2, radius: u32)
    requires
        !inside_circle(o, center, radius as int),
        o.current_position != center,
        fits_arena(o, Arena::Circle { center, radius }),
        arena_in_range(Arena::Circle { center, radius }),
    ensures
        ({
            let c = circle_clamped(o, center, radius as int);
            let dx = o.current_position.x - center.x;
            let dy = o.current_position.y - center.y;
            let limit = circle_limit(radius as int, o.radius as int);
            let len = fine_length(dx, dy);
            &&& len > 0
            &&& -len < len * (c.current_position.x - center.x) - limit * LENGTH_SCALE * dx < len
            &&& -len < len * (c.current_position.y - center.y) - limit * LENGTH_SCALE * dy < len
        }),
{
    let dx = o.current_position.x - center.x;
    let dy = o.current_position.y - center.y;
    let limit = circle_limit(radius as int, o.radius as int);
    lemma_fine_length_positive(dx, dy);
    let len = fine_length(dx, dy);
    let sx = dx * LENGTH_SCALE;
    let sy = dy * LENGTH_SCALE;
    assert(norm2(sx, sy) == norm2(dx, dy) * LENGTH_SCALE * LENGTH_SCALE) by (nonlinear_arith)
        requires
            sx == dx * LENGTH_SCALE,
            sy == dy * LENGTH_SCALE,
    ;
    lemma_scaled_within(sx, sy, limit, len);
    let mx = sx * limit;
    let my = sy * limit;
    lemma_div_trunc_error(mx, len);
    lemma_div_trunc_error(my, len);
    let qx = div_trunc(mx, len);
    let qy = div_trunc(my, len);
    let c = circle_clamped(o, center, radius as int);
    assert(c.current_position.x - center.x == qx);
    assert(c.current_position.y - center.y == qy);
    assert(-len < len * qx - limit * LENGTH_SCALE * dx < len) by (nonlinear_arith)
        requires
            -len < qx * len - mx < len,
            mx == dx * LENGTH_SCALE * limit,
    ;
    assert(-len < len * qy - limit * LENGTH_SCALE * dy < len) by (nonlinear_arith)
        requires
            -len < qy * len - my < len,
            my == dy * LENGTH_SCALE * limit,
    ;
}

/// Boundary containment: after the constraint pass every body that the arena
/// leaves room for lies in its allowed range (within `radius - body.radius`
/// of a disc's center; within `[body.radius, dimension - body.radius]` on
/// each axis of a rectangle), and a body already there is not moved.
pub proof fn law_boundary_containment(s: Seq<VerletObject>, arena: Arena)
    requires
        arena_in_range(arena),
    ensures
        forall|k: int|
            0 <= k < s.len() && fits_arena(s[k], arena) ==> inside_arena(
                #[trigger] constraint_pass(s, arena)[k],
                arena,
            ),
        forall|k: int|
            0 <= k < s.len() && inside_arena(s[k], arena) ==> #[trigger] constraint_pass(s, arena)[k]
                == s[k],
{
    assert forall|k: int| 0 <= k < s.len() && fits_arena(s[k], arena) implies inside_arena(
        #[trigger] constraint_pass(s, arena)[k],
        arena,
    ) by {
        lemma_constrained_inside(s[k], arena);
    }
    assert forall|k: int| 0 <= k < s.len() && inside_arena(s[k], arena) implies #[trigger] constraint_pass(
        s,
        arena,
    )[k] == s[k] by {
        lemma_inside_unconstrained(s[k], arena);
    }
}

} // verus!
