//! Points, the pointer ray and axis-aligned boxes, in whole fixed-point units.

use vstd::prelude::*;

verus! {

/// A point of world space.
#[derive(Clone, Copy, Debug, PartialEq, Eq, Structural)]
pub struct Vector3 {
    pub x: i32,
    pub y: i32,
    pub z: i32,
}

/// The difference of two points. Each component needs one bit more than a
/// coordinate does, hence the wider fields.
#[derive(Clone, Copy, Debug, PartialEq, Eq, Structural)]
pub struct Direction3 {
    pub x: i64,
    pub y: i64,
    pub z: i64,
}

/// A pixel of the window or of the viewport.
#[derive(Clone, Copy, Debug, PartialEq, Eq, Structural)]
pub struct Pixel {
    pub x: i32,
    pub y: i32,
}

/// A pixel of the whole map's screen space: a pointer position moved by the
/// viewport's offset.
#[derive(Clone, Copy, Debug, PartialEq, Eq, Structural)]
pub struct ScreenPoint {
    pub x: i64,
    pub y: i64,
}

/// What the projector is asked for to build a ray: the pixel under the
/// pointer, and the elevation at which the ray starts.
#[derive(Clone, Copy, Debug, PartialEq, Eq, Structural)]
pub struct RayQuery {
    pub pixel: ScreenPoint,
    pub origin_elevation: i64,
}

/// The ray under the pointer: `world_coord` lies on the terrain, `origin`
/// above all terrain on the same screen-space line.
#[derive(Clone, Copy, Debug, PartialEq, Eq, Structural)]
pub struct MouseRay {
    pub world_coord: Vector3,
    pub origin: Vector3,
    pub direction: Direction3,
}

/// An axis-aligned box, given by two opposite corners.
#[derive(Clone, Copy, Debug, PartialEq, Eq, Structural)]
pub struct AABox {
    pub min: Vector3,
    pub max: Vector3,
}

/// `nalgebra`'s matrix type, carried as it is: nothing of its inside is
/// visible here.
#[verifier::external_type_specification]
#[verifier::external_body]
#[verifier::reject_recursive_types(T)]
#[verifier::reject_recursive_types(R)]
#[verifier::reject_recursive_types(C)]
#[verifier::reject_recursive_types(S)]
pub struct ExMatrix<T, R, C, S>(nalgebra::Matrix<T, R, C, S>);

/// `nalgebra`'s dimension that is known when the program is built.
#[verifier::external_type_specification]
#[verifier::external_body]
pub struct ExConst<const R: usize>(nalgebra::Const<R>);

/// `nalgebra`'s storage of a matrix whose two dimensions are known when the
/// program is built.
#[verifier::external_type_specification]
#[verifier::external_body]
#[verifier::reject_recursive_types(T)]
pub struct ExArrayStorage<T, const R: usize, const C: usize>(nalgebra::ArrayStorage<T, R, C>);

/// The components of a `nalgebra` vector of two integers, first to last.
pub uninterp spec fn vector2_components(v: nalgebra::Vector2<i32>) -> Seq<int>;

/// `nalgebra::Vector2::new`: the vector whose components are `x` and `y`, in
/// this order.
#[verifier::external_body]
fn vector2_new(x: i32, y: i32) -> (v: nalgebra::Vector2<i32>)
    ensures
        vector2_components(v) == seq![x as int, y as int],
{
    nalgebra::Vector2::new(x, y)
}

/// `to - from`, component by component.
pub open spec fn displacement(from: Vector3, to: Vector3) -> Direction3 {
    Direction3 {
        x: (to.x - from.x) as i64,
        y: (to.y - from.y) as i64,
        z: (to.z - from.z) as i64,
    }
}

/// The query that belongs to a pointer position, a viewport offset and the
/// highest elevation of the terrain.
pub open spec fn ray_query_of(pointer: Pixel, viewport: Pixel, max_elevation: i32) -> RayQuery {
    RayQuery {
        pixel: ScreenPoint {
            x: (pointer.x + viewport.x) as i64,
            y: (pointer.y + viewport.y) as i64,
        },
        origin_elevation: (2 * max_elevation) as i64,
    }
}

/// The ray from `origin` to the terrain point `world_coord`.
pub open spec fn ray_through(world_coord: Vector3, origin: Vector3) -> MouseRay {
    MouseRay { world_coord, origin, direction: displacement(origin, world_coord) }
}

impl MouseRay {
    /// The direction is the step from the origin to the terrain point.
    pub open spec fn wf(self) -> bool {
        self.direction == displacement(self.origin, self.world_coord)
    }

    /// Whether the direction is the step from the origin to the terrain
    /// point.
    pub fn is_wf(&self) -> (ok: bool)
        ensures
            ok == self.wf(),
    {
        self.direction.x == self.world_coord.x as i64 - self.origin.x as i64 && self.direction.y
            == self.world_coord.y as i64 - self.origin.y as i64 && self.direction.z
            == self.world_coord.z as i64 - self.origin.z as i64
    }

    /// The horizontal components of the terrain point.
    pub open spec fn ground_spec(self) -> Seq<int> {
        seq![self.world_coord.x as int, self.world_coord.y as int]
    }

    /// The terrain point reduced to its horizontal components: the point whose
    /// grid cell holds the candidates under the cursor.
    pub fn ground_point(&self) -> (p: nalgebra::Vector2<i32>)
        ensures
            vector2_components(p) == self.ground_spec(),
    {
        vector2_new(self.world_coord.x, self.world_coord.y)
    }
}

/// First half of the ray's construction: the pixel to unproject and the
/// elevation of the ray's origin, twice the terrain's highest, so that the
/// origin lies above all terrain.
pub fn ray_query(pointer: Pixel, viewport: Pixel, max_elevation: i32) -> (q: RayQuery)
    ensures
        q == ray_query_of(pointer, viewport, max_elevation),
{
    let x: i64 = pointer.x as i64 + viewport.x as i64;
    let y: i64 = pointer.y as i64 + viewport.y as i64;
    let origin_elevation: i64 = 2 * (max_elevation as i64);
    RayQuery { pixel: ScreenPoint { x, y }, origin_elevation }
}

/// Second half: the ray through the two unprojected points. `world_coord` is
/// the pixel unprojected onto the terrain, `origin` the same pixel unprojected
/// at the query's elevation.
pub fn calculate_mouse_ray(world_coord: Vector3, origin: Vector3) -> (ray: MouseRay)
    ensures
        ray == ray_through(world_coord, origin),
        ray.wf(),
{
    let direction = Direction3 {
        x: world_coord.x as i64 - origin.x as i64,
        y: world_coord.y as i64 - origin.y as i64,
        z: world_coord.z as i64 - origin.z as i64,
    };
    MouseRay { world_coord, origin, direction }
}

/// On one axis, the box spans `lo..=hi` and the ray runs `o + t * d`. The ray
/// is inside the slab from the parameter `enter_num / |d|` on.
pub open spec fn enter_num(lo: int, hi: int, o: int, d: int) -> int {
    if d >= 0 { lo - o } else { o - hi }
}

/// ... and up to the parameter `leave_num / |d|`.
pub open spec fn leave_num(lo: int, hi: int, o: int, d: int) -> int {
    if d >= 0 { hi - o } else { o - lo }
}

pub open spec fn magnitude(d: int) -> int {
    if d >= 0 { d } else { -d }
}

/// A ray that does not move along an axis must start inside that slab.
pub open spec fn still_inside(lo: int, hi: int, o: int, d: int) -> bool {
    d != 0 || (lo <= o && o <= hi)
}

/// `an / ad <= bn / bd`, for denominators that are not negative, written
/// without division. A zero denominator stands for an axis along which the ray
/// does not move.
pub open spec fn not_after(an: int, ad: int, bn: int, bd: int) -> bool {
    an * bd <= bn * ad
}

/// The bound `enter <= t` of one axis holds up to every bound `t <= leave`.
pub open spec fn enters_in_time(b: AABox, o: Vector3, d: Direction3, en: int, ed: int) -> bool {
    &&& not_after(en, ed, leave_num(b.min.x as int, b.max.x as int, o.x as int, d.x as int), magnitude(d.x as int))
    &&& not_after(en, ed, leave_num(b.min.y as int, b.max.y as int, o.y as int, d.y as int), magnitude(d.y as int))
    &&& not_after(en, ed, leave_num(b.min.z as int, b.max.z as int, o.z as int, d.z as int), magnitude(d.z as int))
}

/// The slab test: on no axis does the ray stand still outside the slab, and
/// the parameter intervals of the three slabs and of `t >= 0` have a point
/// in common, which is so when each lower end is at most each upper end.
pub open spec fn slabs_overlap(b: AABox, o: Vector3, d: Direction3) -> bool {
    &&& still_inside(b.min.x as int, b.max.x as int, o.x as int, d.x as int)
    &&& still_inside(b.min.y as int, b.max.y as int, o.y as int, d.y as int)
    &&& still_inside(b.min.z as int, b.max.z as int, o.z as int, d.z as int)
    &&& enters_in_time(b, o, d, 0, 1)
    &&& enters_in_time(b, o, d, enter_num(b.min.x as int, b.max.x as int, o.x as int, d.x as int), magnitude(d.x as int))
    &&& enters_in_time(b, o, d, enter_num(b.min.y as int, b.max.y as int, o.y as int, d.y as int), magnitude(d.y as int))
    &&& enters_in_time(b, o, d, enter_num(b.min.z as int, b.max.z as int, o.z as int, d.z as int), magnitude(d.z as int))
}

/// Bound of the numerators and denominators that a ray and a box give.
pub open spec fn small(v: int) -> bool {
    -0x2_0000_0000 <= v <= 0x2_0000_0000
}

proof fn product_small(a: int, b: int)
    requires
        small(a),
        small(b),
    ensures
        -0x4_0000_0000_0000_0000 <= a * b <= 0x4_0000_0000_0000_0000,
{
    assert(-0x4_0000_0000_0000_0000 <= a * b <= 0x4_0000_0000_0000_0000) by (nonlinear_arith)
        requires
            -0x2_0000_0000 <= a <= 0x2_0000_0000,
            -0x2_0000_0000 <= b <= 0x2_0000_0000,
    ;
}

fn fraction_not_after(an: i64, ad: i64, bn: i64, bd: i64) -> (r: bool)
    requires
        small(an as int),
        small(ad as int),
        small(bn as int),
        small(bd as int),
    ensures
        r == not_after(an as int, ad as int, bn as int, bd as int),
{
    proof {
        product_small(an as int, bd as int);
        product_small(bn as int, ad as int);
    }
    let left: i128 = (an as i128) * (bd as i128);
    let right: i128 = (bn as i128) * (ad as i128);
    left <= right
}

/// One axis of a ray against one slab of a box: the two numerators and the
/// denominator they share.
struct Slab {
    enter: i64,
    leave: i64,
    den: i64,
    inside: bool,
}

fn slab(lo: i32, hi: i32, o: i32, d: i64) -> (s: Slab)
    requires
        -0xffff_ffff <= d <= 0xffff_ffff,
    ensures
        s.enter == enter_num(lo as int, hi as int, o as int, d as int),
        s.leave == leave_num(lo as int, hi as int, o as int, d as int),
        s.den == magnitude(d as int),
        s.inside == still_inside(lo as int, hi as int, o as int, d as int),
        small(s.enter as int),
        small(s.leave as int),
        small(s.den as int),
{
    if d >= 0 {
        Slab {
            enter: lo as i64 - o as i64,
            leave: hi as i64 - o as i64,
            den: d,
            inside: d != 0 || (lo <= o && o <= hi),
        }
    } else {
        Slab { enter: o as i64 - hi as i64, leave: o as i64 - lo as i64, den: -d, inside: true }
    }
}

impl AABox {
    /// Whether the ray meets this box. Exact: no rounding takes place.
    pub fn intersects_ray(&self, ray: &MouseRay) -> (hit: bool)
        requires
            ray.wf(),
        ensures
            hit == ray_meets_box(*self, ray.origin, ray.direction),
    {
        proof {
            lemma_slabs_decide(*self, ray.origin, ray.direction);
        }
        let o = ray.origin;
        let d = ray.direction;
        let sx = slab(self.min.x, self.max.x, o.x, d.x);
        let sy = slab(self.min.y, self.max.y, o.y, d.y);
        let sz = slab(self.min.z, self.max.z, o.z, d.z);
        sx.inside && sy.inside && sz.inside
            && fraction_not_after(0, 1, sx.leave, sx.den)
            && fraction_not_after(0, 1, sy.leave, sy.den)
            && fraction_not_after(0, 1, sz.leave, sz.den)
            && fraction_not_after(sx.enter, sx.den, sx.leave, sx.den)
            && fraction_not_after(sx.enter, sx.den, sy.leave, sy.den)
            && fraction_not_after(sx.enter, sx.den, sz.leave, sz.den)
            && fraction_not_after(sy.enter, sy.den, sx.leave, sx.den)
            && fraction_not_after(sy.enter, sy.den, sy.leave, sy.den)
            && fraction_not_after(sy.enter, sy.den, sz.leave, sz.den)
            && fraction_not_after(sz.enter, sz.den, sx.leave, sx.den)
            && fraction_not_after(sz.enter, sz.den, sy.leave, sy.den)
            && fraction_not_after(sz.enter, sz.den, sz.leave, sz.den)
    }
}


/// The ray's point at the parameter `p / q` lies in the box: stated with
/// every coordinate multiplied by `q`, so that nothing is divided.
pub open spec fn reaches_inside(b: AABox, o: Vector3, d: Direction3, p: int, q: int) -> bool {
    &&& q > 0
    &&& p >= 0
    &&& b.min.x * q <= o.x * q + p * d.x <= b.max.x * q
    &&& b.min.y * q <= o.y * q + p * d.y <= b.max.y * q
    &&& b.min.z * q <= o.z * q + p * d.z <= b.max.z * q
}

/// Some point of the ray `o + t * d`, `t >= 0`, lies in the box. As ray and
/// box have whole coordinates, a ray that meets the box at all meets it at a
/// parameter that is a fraction.
pub open spec fn ray_meets_box(b: AABox, o: Vector3, d: Direction3) -> bool {
    exists|p: int, q: int| reaches_inside(b, o, d, p, q)
}

/// On one axis, a point of the ray lies in the slab exactly when its
/// parameter lies between the slab's two ends.
proof fn lemma_axis(lo: int, hi: int, o: int, d: int, p: int, q: int)
    ensures
        (lo * q <= o * q + p * d <= hi * q) <==> (enter_num(lo, hi, o, d) * q <= p * magnitude(d)
            && p * magnitude(d) <= leave_num(lo, hi, o, d) * q),
{
    assert((lo - o) * q == lo * q - o * q) by (nonlinear_arith);
    assert((hi - o) * q == hi * q - o * q) by (nonlinear_arith);
    assert((o - hi) * q == o * q - hi * q) by (nonlinear_arith);
    assert((o - lo) * q == o * q - lo * q) by (nonlinear_arith);
    assert(p * (-d) == -(p * d)) by (nonlinear_arith);
    if d >= 0 {
        assert(enter_num(lo, hi, o, d) * q == (lo - o) * q);
        assert(leave_num(lo, hi, o, d) * q == (hi - o) * q);
        assert(p * magnitude(d) == p * d);
    } else {
        assert(enter_num(lo, hi, o, d) * q == (o - hi) * q);
        assert(leave_num(lo, hi, o, d) * q == (o - lo) * q);
        assert(p * magnitude(d) == p * (-d));
    }
}

/// A ray that stands still on an axis and has a point in the slab starts in
/// the slab.
proof fn lemma_axis_still(lo: int, hi: int, o: int, d: int, p: int, q: int)
    requires
        q > 0,
        lo * q <= o * q + p * d <= hi * q,
    ensures
        still_inside(lo, hi, o, d),
{
    if d == 0 {
        assert(p * d == 0) by (nonlinear_arith)
            requires
                d == 0,
        ;
        assert(lo <= o) by (nonlinear_arith)
            requires
                lo * q <= o * q,
                q > 0,
        ;
        assert(o <= hi) by (nonlinear_arith)
            requires
                o * q <= hi * q,
                q > 0,
        ;
    }
}

/// A lower end that the parameter `p / q` has passed comes before an upper
/// end that it has not passed yet.
proof fn lemma_ends_in_order(en: int, ed: int, ln: int, ld: int, p: int, q: int)
    requires
        q > 0,
        ed >= 0,
        ld >= 0,
        en * q <= p * ed,
        p * ld <= ln * q,
    ensures
        not_after(en, ed, ln, ld),
{
    assert((en * ld) * q <= (p * ed) * ld) by (nonlinear_arith)
        requires
            en * q <= p * ed,
            ld >= 0,
    ;
    assert((p * ed) * ld <= (ln * ed) * q) by (nonlinear_arith)
        requires
            p * ld <= ln * q,
            ed >= 0,
    ;
    assert(en * ld <= ln * ed) by (nonlinear_arith)
        requires
            (en * ld) * q <= (ln * ed) * q,
            q > 0,
    ;
}

/// The later of two lower ends, the second of which counts only where the
/// ray moves along its axis.
spec fn later(an: int, ad: int, bn: int, bd: int) -> (int, int) {
    if bd > 0 && an * bd <= bn * ad {
        (bn, bd)
    } else {
        (an, ad)
    }
}

/// Fractions with positive denominators are ordered transitively.
proof fn lemma_order_chains(an: int, ad: int, bn: int, bd: int, cn: int, cd: int)
    requires
        ad > 0,
        bd > 0,
        cd > 0,
        an * bd <= bn * ad,
        bn * cd <= cn * bd,
    ensures
        an * cd <= cn * ad,
{
    assert((an * cd) * bd <= (bn * ad) * cd) by (nonlinear_arith)
        requires
            an * bd <= bn * ad,
            cd > 0,
    ;
    assert((bn * ad) * cd <= (cn * ad) * bd) by (nonlinear_arith)
        requires
            bn * cd <= cn * bd,
            ad > 0,
    ;
    assert(an * cd <= cn * ad) by (nonlinear_arith)
        requires
            (an * cd) * bd <= (cn * ad) * bd,
            bd > 0,
    ;
}

/// `later` gives one of its two arguments, and one that neither comes after.
proof fn lemma_later(an: int, ad: int, bn: int, bd: int)
    requires
        ad > 0,
        bd >= 0,
    ensures
        later(an, ad, bn, bd).1 > 0,
        later(an, ad, bn, bd) == (an, ad) || later(an, ad, bn, bd) == (bn, bd),
        an * later(an, ad, bn, bd).1 <= later(an, ad, bn, bd).0 * ad,
        bd > 0 ==> bn * later(an, ad, bn, bd).1 <= later(an, ad, bn, bd).0 * bd,
{
    assert(an * bd == bd * an && bn * ad == ad * bn) by (nonlinear_arith);
}

/// A ray with a point in the box passes the slab test.
proof fn lemma_reaching_ray_overlaps(b: AABox, o: Vector3, d: Direction3, p: int, q: int)
    requires
        reaches_inside(b, o, d, p, q),
    ensures
        slabs_overlap(b, o, d),
{
    let (ex, lx, mx) = (
        enter_num(b.min.x as int, b.max.x as int, o.x as int, d.x as int),
        leave_num(b.min.x as int, b.max.x as int, o.x as int, d.x as int),
        magnitude(d.x as int),
    );
    let (ey, ly, my) = (
        enter_num(b.min.y as int, b.max.y as int, o.y as int, d.y as int),
        leave_num(b.min.y as int, b.max.y as int, o.y as int, d.y as int),
        magnitude(d.y as int),
    );
    let (ez, lz, mz) = (
        enter_num(b.min.z as int, b.max.z as int, o.z as int, d.z as int),
        leave_num(b.min.z as int, b.max.z as int, o.z as int, d.z as int),
        magnitude(d.z as int),
    );
    lemma_axis(b.min.x as int, b.max.x as int, o.x as int, d.x as int, p, q);
    lemma_axis(b.min.y as int, b.max.y as int, o.y as int, d.y as int, p, q);
    lemma_axis(b.min.z as int, b.max.z as int, o.z as int, d.z as int, p, q);
    lemma_axis_still(b.min.x as int, b.max.x as int, o.x as int, d.x as int, p, q);
    lemma_axis_still(b.min.y as int, b.max.y as int, o.y as int, d.y as int, p, q);
    lemma_axis_still(b.min.z as int, b.max.z as int, o.z as int, d.z as int, p, q);
    assert(0 * q <= p * 1) by (nonlinear_arith)
        requires
            p >= 0,
    ;
    lemma_ends_in_order(0, 1, lx, mx, p, q);
    lemma_ends_in_order(0, 1, ly, my, p, q);
    lemma_ends_in_order(0, 1, lz, mz, p, q);
    lemma_ends_in_order(ex, mx, lx, mx, p, q);
    lemma_ends_in_order(ex, mx, ly, my, p, q);
    lemma_ends_in_order(ex, mx, lz, mz, p, q);
    lemma_ends_in_order(ey, my, lx, mx, p, q);
    lemma_ends_in_order(ey, my, ly, my, p, q);
    lemma_ends_in_order(ey, my, lz, mz, p, q);
    lemma_ends_in_order(ez, mz, lx, mx, p, q);
    lemma_ends_in_order(ez, mz, ly, my, p, q);
    lemma_ends_in_order(ez, mz, lz, mz, p, q);
}

/// On one axis, the parameter `p / q` lies between the slab's two ends: it
/// is one of the lower ends that count, so the slab test puts it before the
/// upper end, and no lower end that counts comes after it.
proof fn lemma_axis_reached(lo: int, hi: int, o: int, d: int, p: int, q: int)
    requires
        q > 0,
        still_inside(lo, hi, o, d),
        not_after(p, q, leave_num(lo, hi, o, d), magnitude(d)),
        magnitude(d) > 0 ==> enter_num(lo, hi, o, d) * q <= p * magnitude(d),
    ensures
        lo * q <= o * q + p * d <= hi * q,
{
    lemma_axis(lo, hi, o, d, p, q);
    let en = enter_num(lo, hi, o, d);
    let ln = leave_num(lo, hi, o, d);
    let m = magnitude(d);
    assert(p * m <= ln * q);
    if m == 0 {
        assert(p * m == 0) by (nonlinear_arith)
            requires
                m == 0,
        ;
        assert(en * q <= 0) by (nonlinear_arith)
            requires
                en <= 0,
                q > 0,
        ;
    }
}

/// A ray that passes the slab test has a point in the box: the latest of
/// the lower ends is a parameter at which it is inside.
proof fn lemma_overlapping_ray_reaches(b: AABox, o: Vector3, d: Direction3)
    requires
        slabs_overlap(b, o, d),
    ensures
        ray_meets_box(b, o, d),
{
    let (ex, mx) = (
        enter_num(b.min.x as int, b.max.x as int, o.x as int, d.x as int),
        magnitude(d.x as int),
    );
    let (ey, my) = (
        enter_num(b.min.y as int, b.max.y as int, o.y as int, d.y as int),
        magnitude(d.y as int),
    );
    let (ez, mz) = (
        enter_num(b.min.z as int, b.max.z as int, o.z as int, d.z as int),
        magnitude(d.z as int),
    );
    let t1 = later(0, 1, ex, mx);
    let t2 = later(t1.0, t1.1, ey, my);
    let t3 = later(t2.0, t2.1, ez, mz);
    lemma_later(0, 1, ex, mx);
    lemma_later(t1.0, t1.1, ey, my);
    lemma_later(t2.0, t2.1, ez, mz);
    let (p, q) = t3;
    // No lower end that counts comes after p / q.
    lemma_order_chains(0, 1, t1.0, t1.1, t2.0, t2.1);
    lemma_order_chains(0, 1, t2.0, t2.1, t3.0, t3.1);
    assert(0 * q <= p * 1);
    assert(p >= 0) by (nonlinear_arith)
        requires
            0 * q <= p * 1,
    ;
    if mx > 0 {
        lemma_order_chains(ex, mx, t1.0, t1.1, t2.0, t2.1);
        lemma_order_chains(ex, mx, t2.0, t2.1, t3.0, t3.1);
    }
    if my > 0 {
        lemma_order_chains(ey, my, t2.0, t2.1, t3.0, t3.1);
    }
    // It is one of the four lower ends, each of which the test puts before
    // every upper end.
    assert(t3 == (0int, 1int) || t3 == (ex, mx) || t3 == (ey, my) || t3 == (ez, mz));
    assert(enters_in_time(b, o, d, p, q));
    lemma_axis_reached(b.min.x as int, b.max.x as int, o.x as int, d.x as int, p, q);
    lemma_axis_reached(b.min.y as int, b.max.y as int, o.y as int, d.y as int, p, q);
    lemma_axis_reached(b.min.z as int, b.max.z as int, o.z as int, d.z as int, p, q);
    assert(reaches_inside(b, o, d, p, q));
}

/// The slab test decides whether the ray has a point in the box.
pub proof fn lemma_slabs_decide(b: AABox, o: Vector3, d: Direction3)
    ensures
        slabs_overlap(b, o, d) <==> ray_meets_box(b, o, d),
{
    if slabs_overlap(b, o, d) {
        lemma_overlapping_ray_reaches(b, o, d);
    }
    if ray_meets_box(b, o, d) {
        let (p, q) = choose|p: int, q: int| reaches_inside(b, o, d, p, q);
        lemma_reaching_ray_overlaps(b, o, d, p, q);
    }
}

} // verus!
