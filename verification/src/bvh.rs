//! The shape tree: composite shapes, transform wrappers, participating
//! media, the flat list and the bounding-volume hierarchy.
//!
//! Shapes with deterministic intersections carry the same canonical
//! candidate contract as the primitives (`scand`): their `hit` returns the
//! least candidate parameter in the queried window.  Because every candidate
//! places its hit point inside the shape's padded bounding box
//! (`lemma_cand_in_box`), a node whose slab test fails can prune its whole
//! subtree without losing a hit — which is exactly why the hierarchy returns
//! the same nearest hit as a linear scan of the same primitives
//! (`lemma_first_cand_unique` together with the `hit` contracts).
use vstd::prelude::*;
use vstd::seq_lib::group_to_multiset_ensures;
use crate::fx;
use crate::trig;
use crate::fx::{ONE, PAD, FX_MAX, fx_ok, coord_ok, clip, tdiv};
use crate::vec3::{Vec3, v_ok, v_add, raw_dot};
use crate::ray::{Ray, ray_ok, org_ok, ray_at, at_c, ORG_MAX};
use crate::aabb::{AABB, aabb_ok, contains_pad, contains_box, s_merge, BOX_MAX};
use crate::shapes::{
    Hitrec,
    hitrec_ok,
    Sphere,
    sphere_ok,
    sphere_box,
    sphere_cand,
    MovingSphere,
    msphere_ok,
    msphere_box,
    msphere_cand,
    XyRect,
    xy_ok,
    xy_box,
    xy_cand,
    XzRect,
    xz_ok,
    xz_box,
    xz_cand,
    YzRect,
    yz_ok,
    yz_box,
    yz_cand,
    LIT,
};
use crate::material::{Material, Neg, Isotropic, material_wf};
use crate::texture::{Texture, SolidColor, texture_wf, iclamp};

verus! {

/// Anything a ray can be tested against.
#[derive(Debug)]
pub enum Shape {
    Sphere(Sphere),
    Moving(MovingSphere),
    Xy(XyRect),
    Xz(XzRect),
    Yz(YzRect),
    Boxes(Boxes),
    Translate(Translate),
    Rotate(RotateY),
    Medium(ConstantMedium),
    Node(BvhNode),
    List(Hitlist),
}

/// An unordered flat collection, scanned linearly.
#[derive(Debug)]
pub struct Hitlist {
    pub shapes: Vec<Shape>,
}

/// A closed rectangular prism of six rectangles; the prism owns the surface
/// material, so its sides carry only placeholders.
#[derive(Debug)]
pub struct Boxes {
    pub box_min: Vec3,
    pub box_max: Vec3,
    pub sides: Hitlist,
    pub mat: Material,
}

/// A shape shifted by a fixed offset.
#[derive(Debug)]
pub struct Translate {
    pub shape: Box<Shape>,
    pub offset: Vec3,
}

/// A shape rotated about the y axis; the box is fixed at construction.
#[derive(Debug)]
pub struct RotateY {
    pub shape: Box<Shape>,
    pub sin_theta: i64,
    pub cos_theta: i64,
    pub hasbox: bool,
    pub bbox: AABB,
}

/// Homogeneous participating medium bounded by a convex shape.
#[derive(Debug)]
pub struct ConstantMedium {
    pub boundary: Box<Shape>,
    pub phase_function: Material,
    pub neg_inv_density: i64,
}

/// One interior node of the hierarchy; a single-primitive subtree has no
/// right child.
#[derive(Debug)]
pub struct BvhNode {
    pub left: Box<Shape>,
    pub right: Option<Box<Shape>>,
    pub curbox: AABB,
}

/// Does the shape have a bounding box?
pub open spec fn boxed(s: Shape) -> bool
    decreases s,
{
    match s {
        Shape::Sphere(_) => true,
        Shape::Moving(_) => true,
        Shape::Xy(_) => true,
        Shape::Xz(_) => true,
        Shape::Yz(_) => true,
        Shape::Boxes(_) => true,
        Shape::Translate(t) => boxed(*t.shape),
        Shape::Rotate(rt) => rt.hasbox,
        Shape::Medium(m) => boxed(*m.boundary),
        Shape::Node(_) => true,
        Shape::List(l) => l.shapes.len() > 0 && forall|i: int|
            0 <= i < l.shapes.len() ==> boxed(#[trigger] l.shapes[i]),
    }
}

/// The box of the first `n` members of a list, merged left to right.
pub open spec fn list_box_to(q: Seq<Shape>, n: int) -> AABB
    decreases q, n,
    when 1 <= n <= q.len()
{
    if n <= 1 {
        sbox(q[0])
    } else {
        s_merge(list_box_to(q, n - 1), sbox(q[n - 1]))
    }
}

pub open spec fn list_box(q: Seq<Shape>) -> AABB
    decreases q, q.len() as int + 1,
{
    list_box_to(q, q.len() as int)
}

/// The shape's bounding box; meaningful when `boxed` holds.  It does not
/// depend on the query interval: a moving sphere is boxed over its whole
/// declared motion.
pub open spec fn sbox(s: Shape) -> AABB
    decreases s, 0int,
{
    match s {
        Shape::Sphere(p) => sphere_box(p),
        Shape::Moving(p) => msphere_box(p),
        Shape::Xy(p) => xy_box(p),
        Shape::Xz(p) => xz_box(p),
        Shape::Yz(p) => yz_box(p),
        Shape::Boxes(b) => AABB { mini: b.box_min, maxi: b.box_max },
        Shape::Translate(t) => AABB {
            mini: v_add(sbox(*t.shape).mini, t.offset),
            maxi: v_add(sbox(*t.shape).maxi, t.offset),
        },
        Shape::Rotate(rt) => rt.bbox,
        Shape::Medium(m) => sbox(*m.boundary),
        Shape::Node(n) => n.curbox,
        Shape::List(l) => list_box(l.shapes@),
    }
}

pub open spec fn node_wf(n: BvhNode) -> bool
    decreases n,
{
    &&& shape_wf(*n.left)
    &&& boxed(*n.left)
    &&& contains_box(n.curbox, sbox(*n.left))
    &&& aabb_ok(n.curbox)
    &&& match n.right {
        Some(rt) => shape_wf(*rt) && boxed(*rt) && contains_box(n.curbox, sbox(*rt)),
        None => true,
    }
}

/// Structural well-formedness: coordinates bounded, boxes consistent.
pub open spec fn shape_wf(s: Shape) -> bool
    decreases s,
{
    match s {
        Shape::Sphere(p) => sphere_ok(p),
        Shape::Moving(p) => msphere_ok(p),
        Shape::Xy(p) => xy_ok(p),
        Shape::Xz(p) => xz_ok(p),
        Shape::Yz(p) => yz_ok(p),
        Shape::Boxes(b) => {
            &&& b.sides.shapes.len() > 0
            &&& forall|i: int|
                0 <= i < b.sides.shapes.len() ==> shape_wf(#[trigger] b.sides.shapes[i]) && boxed(
                    b.sides.shapes[i],
                )
            &&& material_wf(b.mat)
            &&& aabb_ok(AABB { mini: b.box_min, maxi: b.box_max })
            &&& contains_box(AABB { mini: b.box_min, maxi: b.box_max }, list_box(b.sides.shapes@))
        },
        Shape::Translate(t) => {
            &&& shape_wf(*t.shape)
            &&& coord_ok(t.offset.x as int) && coord_ok(t.offset.y as int) && coord_ok(
                t.offset.z as int,
            )
            &&& (boxed(*t.shape) ==> aabb_ok(
                AABB {
                    mini: v_add(sbox(*t.shape).mini, t.offset),
                    maxi: v_add(sbox(*t.shape).maxi, t.offset),
                },
            ))
        },
        Shape::Rotate(rt) => {
            &&& shape_wf(*rt.shape)
            &&& -ONE <= rt.sin_theta <= ONE
            &&& -ONE <= rt.cos_theta <= ONE
            &&& (rt.hasbox ==> aabb_ok(rt.bbox))
        },
        Shape::Medium(m) => {
            &&& shape_wf(*m.boundary)
            &&& material_wf(m.phase_function)
            &&& fx_ok(m.neg_inv_density as int)
        },
        Shape::Node(n) => node_wf(n),
        Shape::List(l) => forall|i: int|
            0 <= i < l.shapes.len() ==> shape_wf(#[trigger] l.shapes[i]),
    }
}

/// Shapes whose intersection is a deterministic function of the ray: the
/// rotation wrapper (whose rounded box cannot be related to its rounded
/// hits) and participating media (whose hits are sampled) are excluded.
pub open spec fn canonical(s: Shape) -> bool
    decreases s,
{
    match s {
        Shape::Sphere(_) => true,
        Shape::Moving(_) => true,
        Shape::Xy(_) => true,
        Shape::Xz(_) => true,
        Shape::Yz(_) => true,
        Shape::Boxes(b) => forall|i: int|
            0 <= i < b.sides.shapes.len() ==> canonical(#[trigger] b.sides.shapes[i]),
        Shape::Translate(t) => canonical(*t.shape),
        Shape::Rotate(_) => false,
        Shape::Medium(_) => false,
        Shape::Node(n) => canonical(*n.left) && match n.right {
            Some(rt) => canonical(*rt),
            None => true,
        },
        Shape::List(l) => forall|i: int|
            0 <= i < l.shapes.len() ==> canonical(#[trigger] l.shapes[i]),
    }
}

/// The ray as seen in a translated shape's local frame.
pub open spec fn shifted_ray(r: Ray, off: Vec3) -> Ray {
    Ray {
        org: Vec3 {
            x: (r.org.x - off.x) as i64,
            y: (r.org.y - off.y) as i64,
            z: (r.org.z - off.z) as i64,
        },
        dir: r.dir,
        tm: r.tm,
    }
}

/// The shifted origin stays representable as a ray origin.
pub open spec fn shift_ok(r: Ray, off: Vec3) -> bool {
    &&& -ORG_MAX <= r.org.x - off.x <= ORG_MAX
    &&& -ORG_MAX <= r.org.y - off.y <= ORG_MAX
    &&& -ORG_MAX <= r.org.z - off.z <= ORG_MAX
}

/// The canonical candidate parameters of a deterministic shape.
pub open spec fn scand(s: Shape, r: Ray, t: int) -> bool
    decreases s,
{
    match s {
        Shape::Sphere(p) => sphere_cand(p, r, t),
        Shape::Moving(p) => msphere_cand(p, r, t),
        Shape::Xy(p) => xy_cand(p, r, t),
        Shape::Xz(p) => xz_cand(p, r, t),
        Shape::Yz(p) => yz_cand(p, r, t),
        Shape::Boxes(b) => exists|i: int|
            0 <= i < b.sides.shapes.len() && scand(#[trigger] b.sides.shapes[i], r, t),
        Shape::Translate(tr) => shift_ok(r, tr.offset) && scand(
            *tr.shape,
            shifted_ray(r, tr.offset),
            t,
        ),
        Shape::Rotate(_) => false,
        Shape::Medium(_) => false,
        Shape::Node(n) => scand(*n.left, r, t) || match n.right {
            Some(rt) => scand(*rt, r, t),
            None => false,
        },
        Shape::List(l) => exists|i: int|
            0 <= i < l.shapes.len() && scand(#[trigger] l.shapes[i], r, t),
    }
}

/// A candidate among the members of a sequence of shapes.
pub open spec fn any_cand(q: Seq<Shape>, r: Ray, t: int) -> bool {
    exists|i: int| 0 <= i < q.len() && scand(#[trigger] q[i], r, t)
}

/// `res` is the least candidate of the set strictly inside the window, or
/// the statement that the window holds none.
pub open spec fn first_any_cand(q: Seq<Shape>, r: Ray, t_min: int, t_max: int, res: Option<
    int,
>) -> bool {
    match res {
        Some(t) => any_cand(q, r, t) && t_min < t < t_max && forall|t2: int|
            t_min < t2 < t ==> !any_cand(q, r, t2),
        None => forall|t2: int| t_min < t2 < t_max ==> !any_cand(q, r, t2),
    }
}

/// The least candidate of a set is unique: any two results that both
/// satisfy the first-candidate description agree.  With the `hit`
/// contracts this is the hierarchy/linear-scan equivalence: for one
/// candidate set, the hierarchy's answer and the flat scan's answer are the
/// same parameter, hit for hit.
pub proof fn lemma_first_cand_unique(
    q: Seq<Shape>,
    r: Ray,
    t_min: int,
    t_max: int,
    a: Option<int>,
    b: Option<int>,
)
    requires
        first_any_cand(q, r, t_min, t_max, a),
        first_any_cand(q, r, t_min, t_max, b),
    ensures
        a == b,
{
    match (a, b) {
        (Some(ta), Some(tb)) => {
            if ta < tb {
                assert(!any_cand(q, r, ta));
            } else if tb < ta {
                assert(!any_cand(q, r, tb));
            }
        },
        (Some(ta), None) => {
            assert(!any_cand(q, r, ta));
        },
        (None, Some(tb)) => {
            assert(!any_cand(q, r, tb));
        },
        (None, None) => {},
    }
}

/// Every member's box lies inside the fold of the first `n` boxes.
proof fn lemma_list_box_to_contains(q: Seq<Shape>, n: int, i: int)
    requires
        0 <= i < n <= q.len(),
    ensures
        contains_box(list_box_to(q, n), sbox(q[i])),
    decreases n,
{
    if n <= 1 {
    } else {
        crate::aabb::lemma_merge_contains(list_box_to(q, n - 1), sbox(q[n - 1]));
        if i < n - 1 {
            lemma_list_box_to_contains(q, n - 1, i);
            crate::aabb::lemma_contains_trans(
                list_box_to(q, n),
                list_box_to(q, n - 1),
                sbox(q[i]),
            );
        }
    }
}

/// A well-formed boxed shape has a well-formed box.
pub proof fn lemma_sbox_ok(s: Shape)
    requires
        shape_wf(s),
        boxed(s),
    ensures
        aabb_ok(sbox(s)),
    decreases s, 0int,
{
    match s {
        Shape::Sphere(p) => {
            assert(sbox(s) == sphere_box(p));
        },
        Shape::Moving(p) => {
            assert(sbox(s) == msphere_box(p));
        },
        Shape::Xy(p) => {
            assert(sbox(s) == xy_box(p));
        },
        Shape::Xz(p) => {
            assert(sbox(s) == xz_box(p));
        },
        Shape::Yz(p) => {
            assert(sbox(s) == yz_box(p));
        },
        Shape::Boxes(b) => {
            assert(sbox(s) == (AABB { mini: b.box_min, maxi: b.box_max }));
        },
        Shape::Translate(t) => {
            assert(sbox(s) == (AABB {
                mini: v_add(sbox(*t.shape).mini, t.offset),
                maxi: v_add(sbox(*t.shape).maxi, t.offset),
            }));
        },
        Shape::Rotate(rt) => {
            assert(sbox(s) == rt.bbox);
        },
        Shape::Medium(m) => {
            lemma_sbox_ok(*m.boundary);
            assert(sbox(s) == sbox(*m.boundary));
        },
        Shape::Node(n) => {
            assert(node_wf(n));
            assert(sbox(s) == n.curbox);
        },
        Shape::List(l) => {
            lemma_list_box_ok(l.shapes@, l.shapes@.len() as int);
            assert(sbox(s) == list_box(l.shapes@));
        },
    }
}

proof fn lemma_list_box_ok(q: Seq<Shape>, n: int)
    requires
        1 <= n <= q.len(),
        forall|i: int| 0 <= i < q.len() ==> shape_wf(#[trigger] q[i]) && boxed(q[i]),
    ensures
        aabb_ok(list_box_to(q, n)),
    decreases q, n,
{
    if n <= 1 {
        lemma_sbox_ok(q[0]);
    } else {
        lemma_list_box_ok(q, n - 1);
        lemma_sbox_ok(q[n - 1]);
        crate::aabb::lemma_merge_contains(list_box_to(q, n - 1), sbox(q[n - 1]));
    }
}

/// Conservativeness: a candidate hit of a deterministic shape lands inside
/// the shape's padded box, so pruning on the box never loses a candidate.
pub proof fn lemma_cand_in_box(s: Shape, r: Ray, t: int)
    requires
        shape_wf(s),
        boxed(s),
        canonical(s),
        ray_ok(r),
        scand(s, r, t),
    ensures
        ({
            let p = ray_at(r, t);
            contains_pad(sbox(s), p.x as int, p.y as int, p.z as int, PAD as int)
        }),
    decreases s,
{
    match s {
        Shape::Sphere(p) => {},
        Shape::Moving(p) => {},
        Shape::Xy(p) => {},
        Shape::Xz(p) => {},
        Shape::Yz(p) => {},
        Shape::Boxes(b) => {
            let i = choose|i: int|
                0 <= i < b.sides.shapes.len() && scand(#[trigger] b.sides.shapes[i], r, t);
            lemma_cand_in_box(b.sides.shapes[i], r, t);
            lemma_list_box_to_contains(b.sides.shapes@, b.sides.shapes@.len() as int, i);
            let p = ray_at(r, t);
            crate::aabb::lemma_contains_pad_mono(
                list_box(b.sides.shapes@),
                sbox(b.sides.shapes[i]),
                p.x as int,
                p.y as int,
                p.z as int,
                PAD as int,
            );
            crate::aabb::lemma_contains_pad_mono(
                AABB { mini: b.box_min, maxi: b.box_max },
                list_box(b.sides.shapes@),
                p.x as int,
                p.y as int,
                p.z as int,
                PAD as int,
            );
        },
        Shape::Translate(tr) => {
            let r2 = shifted_ray(r, tr.offset);
            lemma_cand_in_box(*tr.shape, r2, t);
            lemma_sbox_ok(*tr.shape);
            lemma_translate_shift(sbox(*tr.shape), tr.offset, r, t);
        },
        Shape::Rotate(_) => {},
        Shape::Medium(_) => {},
        Shape::Node(n) => {
            assert(node_wf(n));
            let p = ray_at(r, t);
            if scand(*n.left, r, t) {
                lemma_cand_in_box(*n.left, r, t);
                crate::aabb::lemma_contains_pad_mono(
                    n.curbox,
                    sbox(*n.left),
                    p.x as int,
                    p.y as int,
                    p.z as int,
                    PAD as int,
                );
            } else {
                let rt = n.right->Some_0;
                lemma_cand_in_box(*rt, r, t);
                crate::aabb::lemma_contains_pad_mono(
                    n.curbox,
                    sbox(*rt),
                    p.x as int,
                    p.y as int,
                    p.z as int,
                    PAD as int,
                );
            }
        },
        Shape::List(l) => {
            let i = choose|i: int|
                0 <= i < l.shapes.len() && scand(#[trigger] l.shapes[i], r, t);
            lemma_cand_in_box(l.shapes[i], r, t);
            lemma_list_box_to_contains(l.shapes@, l.shapes@.len() as int, i);
            let p = ray_at(r, t);
            crate::aabb::lemma_contains_pad_mono(
                list_box(l.shapes@),
                sbox(l.shapes[i]),
                p.x as int,
                p.y as int,
                p.z as int,
                PAD as int,
            );
        },
    }
}

/// Shifting the local-frame containment back into the world frame: the
/// coordinate budget rules out saturation in every step.
proof fn lemma_translate_shift(inner: AABB, off: Vec3, r: Ray, t: int)
    requires
        aabb_ok(inner),
        coord_ok(off.x as int),
        coord_ok(off.y as int),
        coord_ok(off.z as int),
        org_ok(r.org),
        shift_ok(r, off),
        aabb_ok(
            AABB { mini: v_add(inner.mini, off), maxi: v_add(inner.maxi, off) },
        ),
        ({
            let p2 = ray_at(shifted_ray(r, off), t);
            contains_pad(inner, p2.x as int, p2.y as int, p2.z as int, PAD as int)
        }),
    ensures
        ({
            let p = ray_at(r, t);
            contains_pad(
                AABB { mini: v_add(inner.mini, off), maxi: v_add(inner.maxi, off) },
                p.x as int,
                p.y as int,
                p.z as int,
                PAD as int,
            )
        }),
{
    lemma_translate_shift_c(
        inner.mini.x as int,
        inner.maxi.x as int,
        off.x as int,
        r.org.x as int,
        r.dir.x as int,
        t,
    );
    lemma_translate_shift_c(
        inner.mini.y as int,
        inner.maxi.y as int,
        off.y as int,
        r.org.y as int,
        r.dir.y as int,
        t,
    );
    lemma_translate_shift_c(
        inner.mini.z as int,
        inner.maxi.z as int,
        off.z as int,
        r.org.z as int,
        r.dir.z as int,
        t,
    );
}

proof fn lemma_translate_shift_c(im: int, ix: int, off: int, org: int, dir: int, t: int)
    requires
        -BOX_MAX <= im <= ix <= BOX_MAX,
        coord_ok(off),
        -ORG_MAX <= org <= ORG_MAX,
        -ORG_MAX <= org - off <= ORG_MAX,
        clip(im + off) == im + off,
        clip(ix + off) == ix + off,
        im - PAD <= at_c(org - off, dir, t) <= ix + PAD,
    ensures
        im + off - PAD <= at_c(org, dir, t) <= ix + off + PAD,
{
    let q = tdiv(t * dir, ONE as int);
    assert(at_c(org - off, dir, t) == clip((org - off) + q));
    assert(clip((org - off) + q) == (org - off) + q);
    assert(at_c(org, dir, t) == clip(org + q));
    assert(clip(org + q) == org + q);
}

impl Shape {
    /// The time-aware bounding box; `None` marks an unboundable shape.
    /// The result does not depend on the query interval.
    pub fn bebox(&self, t0: i64, t1: i64) -> (res: Option<AABB>)
        requires
            shape_wf(*self),
        ensures
            boxed(*self) ==> res == Some(sbox(*self)),
            !boxed(*self) ==> res is None,
        decreases self,
    {
        match self {
            Shape::Sphere(p) => Some(p.bebox(t0, t1)),
            Shape::Moving(p) => Some(p.bebox(t0, t1)),
            Shape::Xy(p) => Some(p.bebox(t0, t1)),
            Shape::Xz(p) => Some(p.bebox(t0, t1)),
            Shape::Yz(p) => Some(p.bebox(t0, t1)),
            Shape::Boxes(b) => Some(AABB::new(b.box_min, b.box_max)),
            Shape::Translate(t) => match t.shape.bebox(t0, t1) {
                Some(bx) => Some(AABB::new(bx.min().vadd(&t.offset), bx.max().vadd(&t.offset))),
                None => None,
            },
            Shape::Rotate(rt) => if rt.hasbox {
                Some(rt.bbox)
            } else {
                None
            },
            Shape::Medium(m) => m.boundary.bebox(t0, t1),
            Shape::Node(n) => Some(n.curbox),
            Shape::List(l) => l.bebox(t0, t1),
        }
    }
}

impl Hitlist {
    pub fn new() -> (l: Hitlist)
        ensures
            l.shapes@ == Seq::<Shape>::empty(),
    {
        Hitlist { shapes: Vec::new() }
    }

    pub fn clear(&mut self)
        ensures
            final (self).shapes@ == Seq::<Shape>::empty(),
    {
        self.shapes.clear();
    }

    pub fn add(&mut self, shape: Shape)
        ensures
            final (self).shapes@ == old(self).shapes@.push(shape),
    {
        self.shapes.push(shape);
    }

    /// The union of all members' boxes, or `None` for an empty list or one
    /// with an unboundable member.
    pub fn bebox(&self, t0: i64, t1: i64) -> (res: Option<AABB>)
        requires
            forall|i: int| 0 <= i < self.shapes.len() ==> shape_wf(#[trigger] self.shapes[i]),
        ensures
            boxed(Shape::List(*self)) ==> res == Some(list_box(self.shapes@)),
            !boxed(Shape::List(*self)) ==> res is None,
        decreases self,
    {
        if self.shapes.len() == 0 {
            proof {
                assert(!boxed(Shape::List(*self)));
            }
            return None;
        }
        let mut out_box: AABB = AABB::emnew();
        let mut i: usize = 0;
        while i < self.shapes.len()
            invariant
                0 <= i <= self.shapes.len(),
                self.shapes.len() > 0,
                forall|k: int| 0 <= k < self.shapes.len() ==> shape_wf(#[trigger] self.shapes[k]),
                forall|k: int| 0 <= k < i as int ==> boxed(#[trigger] self.shapes[k]),
                i > 0 ==> out_box == list_box_to(self.shapes@, i as int),
            decreases self.shapes.len() - i,
        {
            let sh: &Shape = &self.shapes[i];
            match sh.bebox(t0, t1) {
                Some(t_box) => {
                    if i == 0 {
                        out_box = t_box;
                    } else {
                        out_box = AABB::merge(out_box, t_box);
                    }
                },
                None => {
                    proof {
                        assert(!boxed(self.shapes[i as int]));
                        assert(!boxed(Shape::List(*self)));
                    }
                    return None;
                },
            }
            i = i + 1;
        }
        proof {
            assert(boxed(Shape::List(*self)));
        }
        Some(out_box)
    }
}

impl Boxes {
    /// Six rectangles forming a closed prism; the prism's own box is the
    /// union of its sides' boxes.
    pub fn new(p0: Vec3, p1: Vec3, mat: Material) -> (b: Boxes)
        requires
            (0 - BOX_MAX) + LIT <= p0.x < p1.x <= BOX_MAX - LIT,
            (0 - BOX_MAX) + LIT <= p0.y < p1.y <= BOX_MAX - LIT,
            (0 - BOX_MAX) + LIT <= p0.z < p1.z <= BOX_MAX - LIT,
            material_wf(mat),
        ensures
            shape_wf(Shape::Boxes(b)),
            boxed(Shape::Boxes(b)),
            canonical(Shape::Boxes(b)),
            b.mat == mat,
            b.sides.shapes.len() == 6,
            b.sides.shapes[0] == Shape::Xy(
                XyRect { x0: p0.x, x1: p1.x, y0: p0.y, y1: p1.y, k: p1.z, mat: Material::Neg(Neg {  }) },
            ),
            b.sides.shapes[1] == Shape::Xy(
                XyRect { x0: p0.x, x1: p1.x, y0: p0.y, y1: p1.y, k: p0.z, mat: Material::Neg(Neg {  }) },
            ),
            b.sides.shapes[2] == Shape::Xz(
                XzRect { x0: p0.x, x1: p1.x, z0: p0.z, z1: p1.z, k: p1.y, mat: Material::Neg(Neg {  }) },
            ),
            b.sides.shapes[3] == Shape::Xz(
                XzRect { x0: p0.x, x1: p1.x, z0: p0.z, z1: p1.z, k: p0.y, mat: Material::Neg(Neg {  }) },
            ),
            b.sides.shapes[4] == Shape::Yz(
                YzRect { y0: p0.y, y1: p1.y, z0: p0.z, z1: p1.z, k: p1.x, mat: Material::Neg(Neg {  }) },
            ),
            b.sides.shapes[5] == Shape::Yz(
                YzRect { y0: p0.y, y1: p1.y, z0: p0.z, z1: p1.z, k: p0.x, mat: Material::Neg(Neg {  }) },
            ),
            b.box_min == (Vec3 { x: (p0.x - LIT) as i64, y: (p0.y - LIT) as i64, z: (p0.z
                - LIT) as i64 }),
            b.box_max == (Vec3 { x: (p1.x + LIT) as i64, y: (p1.y + LIT) as i64, z: (p1.z
                + LIT) as i64 }),
    {
        let mut list: Hitlist = Hitlist::new();
        let s0: Shape = Shape::Xy(XyRect::new(p0.x, p1.x, p0.y, p1.y, p1.z, Material::Neg(Neg::new())));
        let s1: Shape = Shape::Xy(XyRect::new(p0.x, p1.x, p0.y, p1.y, p0.z, Material::Neg(Neg::new())));
        let s2: Shape = Shape::Xz(XzRect::new(p0.x, p1.x, p0.z, p1.z, p1.y, Material::Neg(Neg::new())));
        let s3: Shape = Shape::Xz(XzRect::new(p0.x, p1.x, p0.z, p1.z, p0.y, Material::Neg(Neg::new())));
        let s4: Shape = Shape::Yz(YzRect::new(p0.y, p1.y, p0.z, p1.z, p1.x, Material::Neg(Neg::new())));
        let s5: Shape = Shape::Yz(YzRect::new(p0.y, p1.y, p0.z, p1.z, p0.x, Material::Neg(Neg::new())));
        proof {
            assert(shape_wf(s0) && boxed(s0) && canonical(s0));
            assert(shape_wf(s1) && boxed(s1) && canonical(s1));
            assert(shape_wf(s2) && boxed(s2) && canonical(s2));
            assert(shape_wf(s3) && boxed(s3) && canonical(s3));
            assert(shape_wf(s4) && boxed(s4) && canonical(s4));
            assert(shape_wf(s5) && boxed(s5) && canonical(s5));
        }
        list.add(s0);
        list.add(s1);
        list.add(s2);
        list.add(s3);
        list.add(s4);
        list.add(s5);
        proof {
            let q = list.shapes@;
            assert(q.len() == 6);
            assert forall|i: int| 0 <= i < 6 implies shape_wf(#[trigger] q[i]) && boxed(q[i])
                && canonical(q[i]) by {
                assert(q[0] == s0 && q[1] == s1 && q[2] == s2 && q[3] == s3 && q[4] == s4 && q[5]
                    == s5);
            }
        }
        let bx: AABB = match list.bebox(0, 0) {
            Some(x) => x,
            None => {
                proof {
                    assert(boxed(Shape::List(list)));
                    assert(false);
                }
                AABB::emnew()
            },
        };
        proof {
            lemma_list_box_ok(list.shapes@, list.shapes@.len() as int);
            reveal_with_fuel(list_box_to, 8);
            assert(bx.mini == (Vec3 { x: (p0.x - LIT) as i64, y: (p0.y - LIT) as i64, z: (p0.z
                - LIT) as i64 }));
            assert(bx.maxi == (Vec3 { x: (p1.x + LIT) as i64, y: (p1.y + LIT) as i64, z: (p1.z
                + LIT) as i64 }));
        }
        Boxes { box_min: bx.min(), box_max: bx.max(), sides: list, mat }
    }
}

impl Translate {
    pub fn new(shape: Shape, offset: Vec3) -> (t: Translate)
        requires
            shape_wf(shape),
            coord_ok(offset.x as int),
            coord_ok(offset.y as int),
            coord_ok(offset.z as int),
            boxed(shape) ==> aabb_ok(
                AABB {
                    mini: v_add(sbox(shape).mini, offset),
                    maxi: v_add(sbox(shape).maxi, offset),
                },
            ),
        ensures
            *t.shape == shape,
            t.offset == offset,
            shape_wf(Shape::Translate(t)),
    {
        Translate { shape: Box::new(shape), offset }
    }

    pub fn offset(&self) -> (v: Vec3)
        ensures
            v == self.offset,
    {
        self.offset
    }
}

/// The radians a rotation of `angle` degrees turns through, as `dtr`
/// computes them.
pub open spec fn s_rot_rad(angle: int) -> int {
    trig::s_dtr(angle)
}

/// One clamped rotated corner of a box: corner `idx` of the box, turned by
/// the stored sine and cosine and clamped into the box-coordinate range.
pub open spec fn s_rot_corner(bx: AABB, sin: int, cos: int, idx: int) -> Vec3 {
    let cx = if idx >= 4 {
        bx.maxi.x as int
    } else {
        bx.mini.x as int
    };
    let cy = if (idx / 2) % 2 == 1 {
        bx.maxi.y as int
    } else {
        bx.mini.y as int
    };
    let cz = if idx % 2 == 1 {
        bx.maxi.z as int
    } else {
        bx.mini.z as int
    };
    let newx = fx::fx_add(fx::fx_mul(cos, cx), fx::fx_mul(sin, cz));
    let newz = fx::fx_add(fx::fx_neg(fx::fx_mul(sin, cx)), fx::fx_mul(cos, cz));
    Vec3 {
        x: iclamp(newx, -(BOX_MAX as int), BOX_MAX as int) as i64,
        y: iclamp(cy, -(BOX_MAX as int), BOX_MAX as int) as i64,
        z: iclamp(newz, -(BOX_MAX as int), BOX_MAX as int) as i64,
    }
}

/// The axis-aligned hull of the first `n` clamped rotated corners.
pub open spec fn s_rot_hull(bx: AABB, sin: int, cos: int, n: int) -> (Vec3, Vec3)
    decreases n,
{
    if n <= 0 {
        (
            Vec3 { x: BOX_MAX, y: BOX_MAX, z: BOX_MAX },
            Vec3 { x: (-BOX_MAX) as i64, y: (-BOX_MAX) as i64, z: (-BOX_MAX) as i64 },
        )
    } else {
        let prev = s_rot_hull(bx, sin, cos, n - 1);
        let c = s_rot_corner(bx, sin, cos, n - 1);
        (
            Vec3 {
                x: crate::aabb::imin(prev.0.x as int, c.x as int) as i64,
                y: crate::aabb::imin(prev.0.y as int, c.y as int) as i64,
                z: crate::aabb::imin(prev.0.z as int, c.z as int) as i64,
            },
            Vec3 {
                x: crate::aabb::imax(prev.1.x as int, c.x as int) as i64,
                y: crate::aabb::imax(prev.1.y as int, c.y as int) as i64,
                z: crate::aabb::imax(prev.1.z as int, c.z as int) as i64,
            },
        )
    }
}

/// The box the rotation wrapper stores: the hull of the eight rotated
/// corners of the child's box, or of the zero box for an unboxed child.
pub open spec fn s_rot_bbox(shape: Shape, sin: int, cos: int) -> AABB {
    let b0 = if boxed(shape) {
        sbox(shape)
    } else {
        AABB {
            mini: Vec3 { x: 0i64, y: 0i64, z: 0i64 },
            maxi: Vec3 { x: 0i64, y: 0i64, z: 0i64 },
        }
    };
    let h = s_rot_hull(b0, sin, cos, 8);
    AABB { mini: h.0, maxi: h.1 }
}

impl RotateY {
    /// Rotate a shape about the y axis; the box is the axis-aligned hull of
    /// the child's rotated corners, computed once here.
    pub fn new(shape: Shape, angle: i64) -> (rt: RotateY)
        requires
            shape_wf(shape),
        ensures
            shape_wf(Shape::Rotate(rt)),
            *rt.shape == shape,
            rt.hasbox == boxed(shape),
            rt.sin_theta as int == trig::s_fsin(s_rot_rad(angle as int)),
            rt.cos_theta as int == trig::s_fcos(s_rot_rad(angle as int)),
            rt.bbox == s_rot_bbox(shape, rt.sin_theta as int, rt.cos_theta as int),
    {
        let radians: i64 = trig::dtr(angle);
        let sin_t: i64 = trig::fsin(radians);
        let cos_t: i64 = trig::fcos(radians);
        let mut flag: bool = false;
        let mut bx: AABB = AABB::emnew();
        match shape.bebox(0, ONE) {
            Some(t_bx) => {
                bx = t_bx;
                flag = true;
            },
            None => {},
        }
        let mut mn: Vec3 = Vec3::new(BOX_MAX, BOX_MAX, BOX_MAX);
        let mut mx: Vec3 = Vec3::new(-BOX_MAX, -BOX_MAX, -BOX_MAX);
        let mut idx: usize = 0;
        while idx < 8
            invariant
                idx <= 8,
                -ONE <= sin_t <= ONE,
                -ONE <= cos_t <= ONE,
                (0 - BOX_MAX) <= mn.x <= BOX_MAX && (0 - BOX_MAX) <= mn.y <= BOX_MAX && (0
                    - BOX_MAX) <= mn.z <= BOX_MAX,
                (0 - BOX_MAX) <= mx.x <= BOX_MAX && (0 - BOX_MAX) <= mx.y <= BOX_MAX && (0
                    - BOX_MAX) <= mx.z <= BOX_MAX,
                idx > 0 ==> mn.x <= mx.x && mn.y <= mx.y && mn.z <= mx.z,
                mn == s_rot_hull(bx, sin_t as int, cos_t as int, idx as int).0,
                mx == s_rot_hull(bx, sin_t as int, cos_t as int, idx as int).1,
            decreases 8 - idx,
        {
            let cx: i64 = if idx >= 4 {
                bx.max().x
            } else {
                bx.min().x
            };
            let cy: i64 = if (idx / 2) % 2 == 1 {
                bx.max().y
            } else {
                bx.min().y
            };
            let cz: i64 = if idx % 2 == 1 {
                bx.max().z
            } else {
                bx.min().z
            };
            let newx: i64 = fx::fadd(fx::fmul(cos_t, cx), fx::fmul(sin_t, cz));
            let newz: i64 = fx::fadd(fx::fneg(fx::fmul(sin_t, cx)), fx::fmul(cos_t, cz));
            let tx: i64 = fx::clamp(newx, -BOX_MAX, BOX_MAX);
            let ty: i64 = fx::clamp(cy, -BOX_MAX, BOX_MAX);
            let tz: i64 = fx::clamp(newz, -BOX_MAX, BOX_MAX);
            if tx < mn.x {
                mn.x = tx;
            }
            if tx > mx.x {
                mx.x = tx;
            }
            if ty < mn.y {
                mn.y = ty;
            }
            if ty > mx.y {
                mx.y = ty;
            }
            if tz < mn.z {
                mn.z = tz;
            }
            if tz > mx.z {
                mx.z = tz;
            }
            proof {
                assert((Vec3 { x: tx, y: ty, z: tz }) == s_rot_corner(
                    bx,
                    sin_t as int,
                    cos_t as int,
                    idx as int,
                ));
            }
            idx = idx + 1;
        }
        RotateY { shape: Box::new(shape), sin_theta: sin_t, cos_theta: cos_t, hasbox: flag, bbox: AABB::new(mn, mx) }
    }
}

/// Mirror of the object-space ray the rotation wrapper intersects with:
/// origin and direction turned by the inverse rotation.
pub open spec fn s_rot_ray(r: Ray, sin: int, cos: int) -> Ray {
    Ray {
        org: Vec3 {
            x: fx::fx_sub(fx::fx_mul(cos, r.org.x as int), fx::fx_mul(sin, r.org.z as int)) as i64,
            y: r.org.y,
            z: fx::fx_add(fx::fx_mul(sin, r.org.x as int), fx::fx_mul(cos, r.org.z as int)) as i64,
        },
        dir: Vec3 {
            x: fx::fx_sub(fx::fx_mul(cos, r.dir.x as int), fx::fx_mul(sin, r.dir.z as int)) as i64,
            y: r.dir.y,
            z: fx::fx_add(fx::fx_mul(sin, r.dir.x as int), fx::fx_mul(cos, r.dir.z as int)) as i64,
        },
        tm: r.tm,
    }
}

/// The rotated origin stays representable as a ray origin.
pub open spec fn rot_org_ok(r: Ray, sin: int, cos: int) -> bool {
    let o = s_rot_ray(r, sin, cos).org;
    (0 - ORG_MAX) <= o.x <= ORG_MAX && (0 - ORG_MAX) <= o.z <= ORG_MAX
}

/// The scatter parameter of a medium for one drawn unit sample: the entry
/// parameter advanced by the sampled free-flight distance, or nothing when
/// the flight leaves the boundary crossing.
pub open spec fn s_flight(nid: int, u: int, ta: int, tb: int, ray_len: int) -> Option<int> {
    let dib = fx::fx_mul(fx::fx_sub(tb, ta), ray_len);
    let hd = fx::fx_mul(nid, trig::s_fln_unit(u));
    if hd > dib {
        None
    } else {
        let rl = if ray_len == 0 {
            1
        } else {
            ray_len
        };
        Some(fx::fx_add(ta, fx::fx_div(hd, rl)))
    }
}

impl ConstantMedium {
    /// A homogeneous medium inside a convex boundary, scattering
    /// isotropically with the given texture.
    pub fn new(b: Shape, d: i64, a: Texture) -> (m: ConstantMedium)
        requires
            shape_wf(b),
            d != 0,
            texture_wf(a),
        ensures
            shape_wf(Shape::Medium(m)),
            *m.boundary == b,
    {
        ConstantMedium {
            boundary: Box::new(b),
            phase_function: Material::Isotropic(Isotropic::new(a)),
            neg_inv_density: fx::fdiv(-ONE, d),
        }
    }

    /// The free-flight decision for one drawn unit sample against a
    /// boundary crossing `[ta, tb]` of optical length `(tb - ta) * ray_len`.
    pub fn flight(&self, u: i64, ta: i64, tb: i64, ray_len: i64) -> (res: Option<i64>)
        requires
            1 <= u <= ONE,
        ensures
            match res {
                Some(t) => Some(t as int) == s_flight(
                    self.neg_inv_density as int,
                    u as int,
                    ta as int,
                    tb as int,
                    ray_len as int,
                ),
                None => s_flight(
                    self.neg_inv_density as int,
                    u as int,
                    ta as int,
                    tb as int,
                    ray_len as int,
                ) is None,
            },
    {
        let dib: i64 = fx::fmul(fx::fsub(tb, ta), ray_len);
        let hit_dis: i64 = fx::fmul(self.neg_inv_density, trig::fln_unit(u));
        if hit_dis > dib {
            return None;
        }
        let rl: i64 = if ray_len == 0 {
            1
        } else {
            ray_len
        };
        Some(fx::fadd(ta, fx::fdiv(hit_dis, rl)))
    }

    /// As `new`, over a uniform color.
    pub fn cnew(b: Shape, d: i64, c: Vec3) -> (m: ConstantMedium)
        requires
            shape_wf(b),
            d != 0,
            v_ok(c),
        ensures
            shape_wf(Shape::Medium(m)),
            *m.boundary == b,
    {
        ConstantMedium {
            boundary: Box::new(b),
            phase_function: Material::Isotropic(Isotropic::cnew(c)),
            neg_inv_density: fx::fdiv(-ONE, d),
        }
    }
}


/// A candidate among the first `n` members of a sequence of shapes.
pub open spec fn prefix_cand(q: Seq<Shape>, n: int, r: Ray, t: int) -> bool {
    exists|j: int| 0 <= j < n && scand(#[trigger] q[j], r, t)
}

/// Candidates of one hierarchy node: those of its children.
pub open spec fn node_cand(n: BvhNode, r: Ray, t: int) -> bool {
    scand(*n.left, r, t) || match n.right {
        Some(rt) => scand(*rt, r, t),
        None => false,
    }
}

pub open spec fn node_canonical(n: BvhNode) -> bool {
    canonical(*n.left) && match n.right {
        Some(rt) => canonical(*rt),
        None => true,
    }
}

impl Translate {
    /// Intersect through the inverse shift: move the ray into the child's
    /// frame, delegate, and restate the hit in the world frame.
    pub fn hit<'a>(
        &'a self,
        r: Ray,
        t_min: i64,
        t_max: i64,
        rng: &mut rand::rngs::SmallRng,
    ) -> (res: Option<(Hitrec, &'a Material)>)
        requires
            shape_wf(Shape::Translate(*self)),
            ray_ok(r),
            fx_ok(t_min as int),
            fx_ok(t_max as int),
        ensures
            res matches Some(pr) ==> t_min < pr.0.t < t_max && hitrec_ok(pr.0) && material_wf(
                *pr.1,
            ),
            canonical(*self.shape) ==> match res {
                Some(pr) => scand(Shape::Translate(*self), r, pr.0.t as int) && t_min < pr.0.t
                    < t_max && pr.0.p == ray_at(r, pr.0.t as int) && (forall|t2: int|
                    t_min < t2 < pr.0.t ==> !scand(Shape::Translate(*self), r, t2)),
                None => forall|t2: int|
                    t_min < t2 < t_max ==> !scand(Shape::Translate(*self), r, t2),
            },
        decreases self,
    {
        let sx: i128 = (r.org.x as i128) - (self.offset.x as i128);
        let sy: i128 = (r.org.y as i128) - (self.offset.y as i128);
        let sz: i128 = (r.org.z as i128) - (self.offset.z as i128);
        if sx < -(ORG_MAX as i128) || sx > ORG_MAX as i128 || sy < -(ORG_MAX as i128) || sy
            > ORG_MAX as i128 || sz < -(ORG_MAX as i128) || sz > ORG_MAX as i128 {
            proof {
                assert(!shift_ok(r, self.offset));
                assert forall|t2: int| t_min < t2 < t_max implies !scand(
                    Shape::Translate(*self),
                    r,
                    t2,
                ) by {}
            }
            return None;
        }
        let moved_r: Ray = Ray::new(
            Vec3::new(r.org.x - self.offset.x, r.org.y - self.offset.y, r.org.z - self.offset.z),
            r.diraction(),
            r.time(),
        );
        proof {
            assert(shift_ok(r, self.offset));
            assert(moved_r == shifted_ray(r, self.offset));
        }
        match self.shape.hit(moved_r, t_min, t_max, rng) {
            Some((rec0, m)) => {
                let mut rec: Hitrec = rec0;
                let nfv: Vec3 = rec.nf();
                rec.set_face(moved_r, nfv);
                rec.p = r.at(rec.t);
                proof {
                    if canonical(*self.shape) {
                        assert(scand(Shape::Translate(*self), r, rec.t as int));
                        assert forall|t2: int| t_min < t2 < rec.t implies !scand(
                            Shape::Translate(*self),
                            r,
                            t2,
                        ) by {
                            if scand(Shape::Translate(*self), r, t2) {
                                assert(scand(*self.shape, shifted_ray(r, self.offset), t2));
                            }
                        }
                    }
                }
                Some((rec, m))
            },
            None => {
                proof {
                    if canonical(*self.shape) {
                        assert forall|t2: int| t_min < t2 < t_max implies !scand(
                            Shape::Translate(*self),
                            r,
                            t2,
                        ) by {
                            if scand(Shape::Translate(*self), r, t2) {
                                assert(scand(*self.shape, shifted_ray(r, self.offset), t2));
                            }
                        }
                    }
                }
                None
            },
        }
    }
}

impl RotateY {
    /// Intersect through the inverse rotation; hits are rotated back.
    pub fn hit<'a>(
        &'a self,
        r: Ray,
        t_min: i64,
        t_max: i64,
        rng: &mut rand::rngs::SmallRng,
    ) -> (res: Option<(Hitrec, &'a Material)>)
        requires
            shape_wf(Shape::Rotate(*self)),
            ray_ok(r),
            fx_ok(t_min as int),
            fx_ok(t_max as int),
        ensures
            res matches Some(pr) ==> t_min < pr.0.t < t_max && hitrec_ok(pr.0) && material_wf(
                *pr.1,
            ),
            canonical(*self.shape) ==> match res {
                Some(pr) => {
                    let ror = s_rot_ray(r, self.sin_theta as int, self.cos_theta as int);
                    let ip = ray_at(ror, pr.0.t as int);
                    &&& rot_org_ok(r, self.sin_theta as int, self.cos_theta as int)
                    &&& scand(*self.shape, ror, pr.0.t as int)
                    &&& t_min < pr.0.t < t_max
                    &&& (forall|t2: int|
                        t_min < t2 < pr.0.t ==> !scand(*self.shape, ror, t2))
                    &&& pr.0.p == (Vec3 {
                        x: fx::fx_add(
                            fx::fx_mul(self.cos_theta as int, ip.x as int),
                            fx::fx_mul(self.sin_theta as int, ip.z as int),
                        ) as i64,
                        y: ip.y,
                        z: fx::fx_add(
                            fx::fx_neg(fx::fx_mul(self.sin_theta as int, ip.x as int)),
                            fx::fx_mul(self.cos_theta as int, ip.z as int),
                        ) as i64,
                    })
                    &&& raw_dot(ror.dir, pr.0.nf) <= 0
                    &&& (pr.0.front_face ==> raw_dot(ror.dir, pr.0.nf) < 0)
                },
                None => !rot_org_ok(r, self.sin_theta as int, self.cos_theta as int) || (
                forall|t2: int|
                    t_min < t2 < t_max ==> !scand(
                        *self.shape,
                        s_rot_ray(r, self.sin_theta as int, self.cos_theta as int),
                        t2,
                    )),
            },
        decreases self,
    {
        let sin: i64 = self.sin_theta;
        let cos: i64 = self.cos_theta;
        let ox: i64 = fx::fsub(fx::fmul(cos, r.org.x), fx::fmul(sin, r.org.z));
        let oz: i64 = fx::fadd(fx::fmul(sin, r.org.x), fx::fmul(cos, r.org.z));
        if ox < -ORG_MAX || ox > ORG_MAX || oz < -ORG_MAX || oz > ORG_MAX {
            proof {
                assert(!rot_org_ok(r, sin as int, cos as int));
            }
            return None;
        }
        let dx: i64 = fx::fsub(fx::fmul(cos, r.dir.x), fx::fmul(sin, r.dir.z));
        let dz: i64 = fx::fadd(fx::fmul(sin, r.dir.x), fx::fmul(cos, r.dir.z));
        let ror: Ray = Ray::new(
            Vec3::new(ox, r.org.y, oz),
            Vec3::new(dx, r.dir.y, dz),
            r.time(),
        );
        proof {
            assert(ror == s_rot_ray(r, sin as int, cos as int));
        }
        match self.shape.hit(ror, t_min, t_max, rng) {
            Some((rec0, m)) => {
                let mut rec: Hitrec = rec0;
                let px: i64 = fx::fadd(fx::fmul(cos, rec.p.x), fx::fmul(sin, rec.p.z));
                let pz: i64 = fx::fadd(fx::fneg(fx::fmul(sin, rec.p.x)), fx::fmul(cos, rec.p.z));
                let nx: i64 = fx::fadd(fx::fmul(cos, rec.nf.x), fx::fmul(sin, rec.nf.z));
                let nz: i64 = fx::fadd(fx::fneg(fx::fmul(sin, rec.nf.x)), fx::fmul(cos, rec.nf.z));
                rec.p = Vec3::new(px, rec.p.y, pz);
                let nfv: Vec3 = Vec3::new(nx, rec.nf.y, nz);
                rec.set_face(ror, nfv);
                proof {
                    if canonical(*self.shape) {
                        crate::vec3::lemma_raw_dot_neg(ror.dir, nfv);
                    }
                }
                Some((rec, m))
            },
            None => None,
        }
    }
}

impl ConstantMedium {
    /// Sample a scattering event along the ray's passage through the
    /// boundary: the crossing interval is clamped to the query window and a
    /// free-flight distance drawn from the exponential distribution decides
    /// whether the ray scatters inside.
    pub fn hit<'a>(
        &'a self,
        r: Ray,
        t_min: i64,
        t_max: i64,
        rng: &mut rand::rngs::SmallRng,
    ) -> (res: Option<(Hitrec, &'a Material)>)
        requires
            shape_wf(Shape::Medium(*self)),
            ray_ok(r),
            fx_ok(t_min as int),
            fx_ok(t_max as int),
        ensures
            res matches Some(pr) ==> t_min < pr.0.t < t_max && hitrec_ok(pr.0) && material_wf(
                *pr.1,
            ),
            res matches Some(pr) ==> pr.0.p == ray_at(r, pr.0.t as int) && pr.0.nf == (Vec3 {
                x: ONE,
                y: 0i64,
                z: 0i64,
            }) && pr.0.front_face && *pr.1 == self.phase_function,
            canonical(*self.boundary) && (forall|t: int|
                (0 - FX_MAX) < t < FX_MAX ==> !scand(*self.boundary, r, t)) ==> res is None,
        decreases self,
    {
        let rec1: (Hitrec, &Material) = match self.boundary.hit(r, -FX_MAX, FX_MAX, rng) {
            Some(pr) => pr,
            None => {
                return None;
            },
        };
        let lo2: i64 = if rec1.0.t < FX_MAX {
            rec1.0.t + 1
        } else {
            rec1.0.t
        };
        let rec2: (Hitrec, &Material) = match self.boundary.hit(r, lo2, FX_MAX, rng) {
            Some(pr) => pr,
            None => {
                return None;
            },
        };
        let mut ta: i64 = rec1.0.t;
        let mut tb: i64 = rec2.0.t;
        if ta < t_min {
            ta = t_min;
        }
        if tb > t_max {
            tb = t_max;
        }
        if ta >= tb {
            return None;
        }
        if ta < 0 {
            ta = 0;
        }
        if ta >= tb {
            return None;
        }
        let ray_len: i64 = r.diraction().length();
        let u: i64 = crate::rng::randfx(rng, 1, ONE + 1);
        let t: i64 = match self.flight(u, ta, tb, ray_len) {
            Some(t) => t,
            None => {
                return None;
            },
        };
        if t <= t_min || t >= t_max {
            return None;
        }
        let mut rec: Hitrec = Hitrec::new();
        rec.t = t;
        rec.p = r.at(t);
        rec.nf = Vec3::new(ONE, 0, 0);
        rec.front_face = true;
        Some((rec, &self.phase_function))
    }
}

impl Hitlist {
    /// Linear scan keeping the closest hit found so far.
    pub fn hit<'a>(
        &'a self,
        r: Ray,
        t_min: i64,
        t_max: i64,
        rng: &mut rand::rngs::SmallRng,
    ) -> (res: Option<(Hitrec, &'a Material)>)
        requires
            forall|i: int| 0 <= i < self.shapes.len() ==> shape_wf(#[trigger] self.shapes[i]),
            ray_ok(r),
            fx_ok(t_min as int),
            fx_ok(t_max as int),
        ensures
            res matches Some(pr) ==> t_min < pr.0.t < t_max && hitrec_ok(pr.0) && material_wf(
                *pr.1,
            ),
            (forall|i: int| 0 <= i < self.shapes.len() ==> canonical(#[trigger] self.shapes[i]))
                ==> match res {
                Some(pr) => any_cand(self.shapes@, r, pr.0.t as int) && t_min < pr.0.t < t_max
                    && pr.0.p == ray_at(r, pr.0.t as int) && (forall|t2: int|
                    t_min < t2 < pr.0.t ==> !any_cand(self.shapes@, r, t2)),
                None => forall|t2: int| t_min < t2 < t_max ==> !any_cand(self.shapes@, r, t2),
            },
        decreases self,
    {
        let ghost allcan = forall|i: int|
            0 <= i < self.shapes.len() ==> canonical(#[trigger] self.shapes[i]);
        let mut rec: Option<(Hitrec, &Material)> = None;
        let mut closest: i64 = t_max;
        let mut i: usize = 0;
        while i < self.shapes.len()
            invariant
                0 <= i <= self.shapes.len(),
                forall|k: int| 0 <= k < self.shapes.len() ==> shape_wf(#[trigger] self.shapes[k]),
                ray_ok(r),
                fx_ok(t_min as int),
                fx_ok(t_max as int),
                fx_ok(closest as int),
                allcan == (forall|k: int|
                    0 <= k < self.shapes.len() ==> canonical(#[trigger] self.shapes[k])),
                match rec {
                    Some(pr) => t_min < pr.0.t < t_max && pr.0.t == closest && hitrec_ok(pr.0)
                        && material_wf(*pr.1),
                    None => closest == t_max,
                },
                allcan ==> match rec {
                    Some(pr) => prefix_cand(self.shapes@, i as int, r, pr.0.t as int) && pr.0.p
                        == ray_at(r, pr.0.t as int),
                    None => true,
                },
                allcan ==> forall|t2: int|
                    t_min < t2 < closest ==> !prefix_cand(self.shapes@, i as int, r, t2),
            decreases self.shapes.len() - i,
        {
            let sh: &Shape = &self.shapes[i];
            let prev: i64 = closest;
            match sh.hit(r, t_min, closest, rng) {
                Some((t_rec, m)) => {
                    closest = t_rec.t;
                    rec = Some((t_rec, m));
                },
                None => {},
            }
            proof {
                if allcan {
                    let ghost ni = i as int + 1;
                    assert(canonical(self.shapes[i as int]));
                    assert forall|t2: int| t_min < t2 < closest implies !prefix_cand(
                        self.shapes@,
                        ni,
                        r,
                        t2,
                    ) by {
                        assert(closest <= prev);
                        assert(!scand(self.shapes[i as int], r, t2));
                        assert(!prefix_cand(self.shapes@, i as int, r, t2));
                    }
                }
            }
            i = i + 1;
        }
        proof {
            if allcan {
                match rec {
                    Some(pr) => {
                        assert(prefix_cand(self.shapes@, self.shapes@.len() as int, r, pr.0.t as int));
                        assert(any_cand(self.shapes@, r, pr.0.t as int));
                        assert forall|t2: int| t_min < t2 < pr.0.t implies !any_cand(
                            self.shapes@,
                            r,
                            t2,
                        ) by {
                            assert(!prefix_cand(self.shapes@, self.shapes@.len() as int, r, t2));
                        }
                    },
                    None => {
                        assert forall|t2: int| t_min < t2 < t_max implies !any_cand(
                            self.shapes@,
                            r,
                            t2,
                        ) by {
                            assert(!prefix_cand(self.shapes@, self.shapes@.len() as int, r, t2));
                        }
                    },
                }
            }
        }
        rec
    }
}

impl BvhNode {
    /// Traversal: prune on the node box, then take the closer of the two
    /// children's hits, tightening the window for the second.
    pub fn hit<'a>(
        &'a self,
        r: Ray,
        t_min: i64,
        t_max: i64,
        rng: &mut rand::rngs::SmallRng,
    ) -> (res: Option<(Hitrec, &'a Material)>)
        requires
            node_wf(*self),
            ray_ok(r),
            fx_ok(t_min as int),
            fx_ok(t_max as int),
        ensures
            res matches Some(pr) ==> t_min < pr.0.t < t_max && hitrec_ok(pr.0) && material_wf(
                *pr.1,
            ),
            node_canonical(*self) ==> match res {
                Some(pr) => node_cand(*self, r, pr.0.t as int) && t_min < pr.0.t < t_max && pr.0.p
                    == ray_at(r, pr.0.t as int) && (forall|t2: int|
                    t_min < t2 < pr.0.t ==> !node_cand(*self, r, t2)),
                None => forall|t2: int| t_min < t2 < t_max ==> !node_cand(*self, r, t2),
            },
        decreases self,
    {
        if !self.curbox.hit(r, t_min, t_max) {
            proof {
                if node_canonical(*self) {
                    assert forall|t2: int| t_min < t2 < t_max implies !node_cand(*self, r, t2) by {
                        if node_cand(*self, r, t2) {
                            let p = ray_at(r, t2);
                            if scand(*self.left, r, t2) {
                                lemma_cand_in_box(*self.left, r, t2);
                                crate::aabb::lemma_contains_pad_mono(
                                    self.curbox,
                                    sbox(*self.left),
                                    p.x as int,
                                    p.y as int,
                                    p.z as int,
                                    PAD as int,
                                );
                            } else {
                                let rt = self.right->Some_0;
                                lemma_cand_in_box(*rt, r, t2);
                                crate::aabb::lemma_contains_pad_mono(
                                    self.curbox,
                                    sbox(*rt),
                                    p.x as int,
                                    p.y as int,
                                    p.z as int,
                                    PAD as int,
                                );
                            }
                        }
                    }
                }
            }
            return None;
        }
        match self.left.hit(r, t_min, t_max, rng) {
            Some((lrec, lm)) => match &self.right {
                Some(rt) => match rt.hit(r, t_min, lrec.t, rng) {
                    Some((rrec, rm)) => Some((rrec, rm)),
                    None => Some((lrec, lm)),
                },
                None => Some((lrec, lm)),
            },
            None => match &self.right {
                Some(rt) => rt.hit(r, t_min, t_max, rng),
                None => None,
            },
        }
    }
}

impl Shape {
    /// `hit(ray, t_min, t_max)`: the nearest intersection strictly inside
    /// the open window, with the material struck.  On deterministic shapes
    /// the result is exactly the least candidate of `scand`.
    pub fn hit<'a>(
        &'a self,
        r: Ray,
        t_min: i64,
        t_max: i64,
        rng: &mut rand::rngs::SmallRng,
    ) -> (res: Option<(Hitrec, &'a Material)>)
        requires
            shape_wf(*self),
            ray_ok(r),
            fx_ok(t_min as int),
            fx_ok(t_max as int),
        ensures
            res matches Some(pr) ==> t_min < pr.0.t < t_max && hitrec_ok(pr.0) && material_wf(
                *pr.1,
            ),
            canonical(*self) ==> match res {
                Some(pr) => scand(*self, r, pr.0.t as int) && t_min < pr.0.t < t_max && pr.0.p
                    == ray_at(r, pr.0.t as int) && (forall|t2: int|
                    t_min < t2 < pr.0.t ==> !scand(*self, r, t2)),
                None => forall|t2: int| t_min < t2 < t_max ==> !scand(*self, r, t2),
            },
        decreases self,
    {
        match self {
            Shape::Sphere(p) => {
                proof {
                    assert forall|t2: int| scand(*self, r, t2) == sphere_cand(*p, r, t2) by {}
                }
                match p.hit(r, t_min, t_max) {
                    Some(rec) => Some((rec, &p.mat)),
                    None => None,
                }
            },
            Shape::Moving(p) => {
                proof {
                    assert forall|t2: int| scand(*self, r, t2) == msphere_cand(*p, r, t2) by {}
                }
                match p.hit(r, t_min, t_max) {
                    Some(rec) => Some((rec, &p.mat)),
                    None => None,
                }
            },
            Shape::Xy(p) => {
                proof {
                    assert forall|t2: int| scand(*self, r, t2) == xy_cand(*p, r, t2) by {}
                }
                match p.hit(r, t_min, t_max) {
                    Some(rec) => Some((rec, &p.mat)),
                    None => None,
                }
            },
            Shape::Xz(p) => {
                proof {
                    assert forall|t2: int| scand(*self, r, t2) == xz_cand(*p, r, t2) by {}
                }
                match p.hit(r, t_min, t_max) {
                    Some(rec) => Some((rec, &p.mat)),
                    None => None,
                }
            },
            Shape::Yz(p) => {
                proof {
                    assert forall|t2: int| scand(*self, r, t2) == yz_cand(*p, r, t2) by {}
                }
                match p.hit(r, t_min, t_max) {
                    Some(rec) => Some((rec, &p.mat)),
                    None => None,
                }
            },
            Shape::Boxes(b) => {
                proof {
                    assert forall|t2: int| scand(*self, r, t2) == any_cand(
                        b.sides.shapes@,
                        r,
                        t2,
                    ) by {}
                    if canonical(*self) {
                        assert(forall|i: int|
                            0 <= i < b.sides.shapes.len() ==> canonical(
                                #[trigger] b.sides.shapes[i],
                            ));
                    }
                }
                match b.sides.hit(r, t_min, t_max, rng) {
                    Some((rec, _)) => Some((rec, &b.mat)),
                    None => None,
                }
            },
            Shape::Translate(t) => t.hit(r, t_min, t_max, rng),
            Shape::Rotate(rt) => {
                proof {
                    assert(!canonical(*self));
                }
                rt.hit(r, t_min, t_max, rng)
            },
            Shape::Medium(m) => {
                proof {
                    assert(!canonical(*self));
                }
                m.hit(r, t_min, t_max, rng)
            },
            Shape::Node(n) => {
                proof {
                    assert forall|t2: int| scand(*self, r, t2) == node_cand(*n, r, t2) by {}
                    assert(canonical(*self) == node_canonical(*n));
                }
                n.hit(r, t_min, t_max, rng)
            },
            Shape::List(l) => {
                proof {
                    assert forall|t2: int| scand(*self, r, t2) == any_cand(l.shapes@, r, t2) by {}
                    if canonical(*self) {
                        assert(forall|i: int|
                            0 <= i < l.shapes.len() ==> canonical(#[trigger] l.shapes[i]));
                    }
                }
                l.hit(r, t_min, t_max, rng)
            },
        }
    }
}


/// The sort key of a shape on one axis: its box's smaller coordinate.
pub open spec fn axis_key(s: Shape, axis: int) -> int {
    if axis == 0 {
        sbox(s).mini.x as int
    } else if axis == 1 {
        sbox(s).mini.y as int
    } else {
        sbox(s).mini.z as int
    }
}

/// Equal multisets have the same members, position for position found
/// somewhere in the other sequence.
proof fn lemma_multiset_member(q1: Seq<Shape>, q2: Seq<Shape>, i: int)
    requires
        q1.to_multiset() == q2.to_multiset(),
        0 <= i < q2.len(),
    ensures
        exists|j: int| 0 <= j < q1.len() && q1[j] == q2[i],
{
    broadcast use group_to_multiset_ensures;

    assert(q2.contains(q2[i]));
    assert(q2.to_multiset().count(q2[i]) > 0);
    assert(q1.contains(q2[i]));
    let j = choose|j: int| 0 <= j < q1.len() && q1[j] == q2[i];
    assert(0 <= j < q1.len() && q1[j] == q2[i]);
}

/// Shape lists with equal multisets have the same well-formedness, the
/// same boxes availability, the same determinism, and the same candidate
/// sets.
pub proof fn lemma_multiset_props(q1: Seq<Shape>, q2: Seq<Shape>)
    requires
        q1.to_multiset() == q2.to_multiset(),
        forall|i: int| 0 <= i < q1.len() ==> shape_wf(#[trigger] q1[i]) && boxed(q1[i]),
    ensures
        forall|i: int| 0 <= i < q2.len() ==> shape_wf(#[trigger] q2[i]) && boxed(q2[i]),
        (forall|i: int| 0 <= i < q1.len() ==> canonical(#[trigger] q1[i])) ==> (forall|i: int|
            0 <= i < q2.len() ==> canonical(#[trigger] q2[i])),
        forall|r: Ray, t: int| #[trigger] any_cand(q2, r, t) ==> any_cand(q1, r, t),
{
    assert forall|i: int| 0 <= i < q2.len() implies shape_wf(#[trigger] q2[i]) && boxed(
        q2[i],
    ) by {
        lemma_multiset_member(q1, q2, i);
    }
    if forall|i: int| 0 <= i < q1.len() ==> canonical(#[trigger] q1[i]) {
        assert forall|i: int| 0 <= i < q2.len() implies canonical(#[trigger] q2[i]) by {
            lemma_multiset_member(q1, q2, i);
        }
    }
    assert forall|r: Ray, t: int| #[trigger] any_cand(q2, r, t) implies any_cand(q1, r, t) by {
        let i = choose|i: int| 0 <= i < q2.len() && scand(#[trigger] q2[i], r, t);
        lemma_multiset_member(q1, q2, i);
    }
}

impl BvhNode {
    /// Three-way comparison of two scalars.
    pub fn fcmp(a: i64, b: i64) -> (o: core::cmp::Ordering)
        ensures
            o == core::cmp::Ordering::Less <==> a < b,
            o == core::cmp::Ordering::Greater <==> a > b,
            o == core::cmp::Ordering::Equal <==> a == b,
    {
        if a < b {
            return core::cmp::Ordering::Less;
        }
        if a > b {
            return core::cmp::Ordering::Greater;
        }
        core::cmp::Ordering::Equal
    }

    /// Compare two shapes by their boxes' smaller coordinate on an axis.
    pub fn box_cmp(a: &Shape, b: &Shape, axis: i32) -> (o: core::cmp::Ordering)
        requires
            shape_wf(*a),
            shape_wf(*b),
            boxed(*a),
            boxed(*b),
            0 <= axis <= 2,
        ensures
            o == core::cmp::Ordering::Less <==> axis_key(*a, axis as int) < axis_key(
                *b,
                axis as int,
            ),
            o == core::cmp::Ordering::Greater <==> axis_key(*a, axis as int) > axis_key(
                *b,
                axis as int,
            ),
            o == core::cmp::Ordering::Equal <==> axis_key(*a, axis as int) == axis_key(
                *b,
                axis as int,
            ),
    {
        let box_a: AABB = match a.bebox(0, 0) {
            Some(x) => x,
            None => {
                proof {
                    assert(false);
                }
                AABB::emnew()
            },
        };
        let box_b: AABB = match b.bebox(0, 0) {
            Some(x) => x,
            None => {
                proof {
                    assert(false);
                }
                AABB::emnew()
            },
        };
        if axis == 0 {
            BvhNode::fcmp(box_a.min().x, box_b.min().x)
        } else if axis == 1 {
            BvhNode::fcmp(box_a.min().y, box_b.min().y)
        } else {
            BvhNode::fcmp(box_a.min().z, box_b.min().z)
        }
    }

    /// Selection sort by the axis key; the result holds exactly the same
    /// shapes.
    fn sort_by_axis(v: Vec<Shape>, axis: i32) -> (r: Vec<Shape>)
        requires
            forall|i: int| 0 <= i < v.len() ==> shape_wf(#[trigger] v[i]) && boxed(v[i]),
            0 <= axis <= 2,
        ensures
            r.len() == v.len(),
            r@.to_multiset() == v@.to_multiset(),
            forall|i: int| 0 <= i < r.len() ==> shape_wf(#[trigger] r[i]) && boxed(r[i]),
    {
        broadcast use group_to_multiset_ensures;

        let mut src: Vec<Shape> = v;
        let mut out: Vec<Shape> = Vec::new();
        while src.len() > 0
            invariant
                out@.to_multiset().add(src@.to_multiset()) == v@.to_multiset(),
                out.len() + src.len() == v.len(),
                forall|i: int| 0 <= i < src.len() ==> shape_wf(#[trigger] src[i]) && boxed(src[i]),
                forall|i: int| 0 <= i < out.len() ==> shape_wf(#[trigger] out[i]) && boxed(out[i]),
                0 <= axis <= 2,
            decreases src.len(),
        {
            let mut mi: usize = 0;
            let mut j: usize = 1;
            while j < src.len()
                invariant
                    0 <= mi < src.len(),
                    mi < j,
                    forall|i: int|
                        0 <= i < src.len() ==> shape_wf(#[trigger] src[i]) && boxed(src[i]),
                    0 <= axis <= 2,
                    src.len() > 0,
                decreases src.len() - j,
            {
                let c: core::cmp::Ordering = BvhNode::box_cmp(&src[j], &src[mi], axis);
                if matches!(c, core::cmp::Ordering::Less) {
                    mi = j;
                }
                j = j + 1;
            }
            let ghost old_src = src@;
            let ghost old_out = out@;
            let x: Shape = src.remove(mi);
            out.push(x);
            proof {
                old_src.to_multiset_ensures();
                old_out.to_multiset_ensures();
                assert(src@ == old_src.remove(mi as int));
                assert(out@ == old_out.push(x));
                assert(old_src.remove(mi as int).to_multiset() =~= old_src.to_multiset().remove(
                    old_src[mi as int],
                ));
                assert(old_out.push(x).to_multiset() =~= old_out.to_multiset().insert(x));
                assert(old_src.to_multiset().count(x) > 0) by {
                    assert(old_src.contains(x));
                }
                assert(out@.to_multiset().add(src@.to_multiset()) =~= v@.to_multiset());
            }
        }
        out
    }

    /// Build the hierarchy over a set of boxed shapes, splitting at the
    /// median of a randomly chosen axis.  The tree's candidate set is
    /// exactly that of the input list.
    pub fn new(list: Vec<Shape>, tm0: i64, tm1: i64, rng: &mut rand::rngs::SmallRng) -> (n:
        BvhNode)
        requires
            list.len() >= 1,
            forall|i: int| 0 <= i < list.len() ==> shape_wf(#[trigger] list[i]) && boxed(list[i]),
        ensures
            node_wf(n),
            (forall|i: int| 0 <= i < list.len() ==> canonical(#[trigger] list[i]))
                ==> node_canonical(n),
            forall|r: Ray, t: int| #[trigger] node_cand(n, r, t) <==> any_cand(list@, r, t),
        decreases list.len(),
    {
        let ghost orig = list@;
        let axis: i32 = crate::rng::randi(rng, 0, 2);
        let mut v: Vec<Shape> = BvhNode::sort_by_axis(list, axis);
        proof {
            lemma_multiset_props(orig, v@);
            lemma_multiset_props(v@, orig);
        }
        let ghost vq = v@;
        if v.len() == 1 {
            let x: Shape = v.remove(0);
            let bx: AABB = match x.bebox(tm0, tm1) {
                Some(b) => b,
                None => {
                    proof {
                        assert(false);
                    }
                    AABB::emnew()
                },
            };
            proof {
                lemma_sbox_ok(x);
            }
            let n: BvhNode = BvhNode { left: Box::new(x), right: None, curbox: bx };
            proof {
                assert forall|r: Ray, t: int| #[trigger] node_cand(n, r, t) <==> any_cand(
                    orig,
                    r,
                    t,
                ) by {
                    assert(vq.len() == 1 && vq[0] == x);
                    if node_cand(n, r, t) {
                        assert(scand(vq[0], r, t));
                        assert(any_cand(vq, r, t));
                    }
                    if any_cand(orig, r, t) {
                        assert(any_cand(vq, r, t));
                        let i = choose|i: int| 0 <= i < vq.len() && scand(#[trigger] vq[i], r, t);
                        assert(scand(x, r, t));
                    }
                }
            }
            n
        } else if v.len() == 2 {
            let b: Shape = v.remove(1);
            let a: Shape = v.remove(0);
            let c: core::cmp::Ordering = BvhNode::box_cmp(&a, &b, axis);
            let (lft, rgt): (Shape, Shape) = if matches!(c, core::cmp::Ordering::Less) {
                (a, b)
            } else {
                (b, a)
            };
            let lbx: AABB = match lft.bebox(tm0, tm1) {
                Some(x) => x,
                None => {
                    proof {
                        assert(false);
                    }
                    AABB::emnew()
                },
            };
            let rbx: AABB = match rgt.bebox(tm0, tm1) {
                Some(x) => x,
                None => {
                    proof {
                        assert(false);
                    }
                    AABB::emnew()
                },
            };
            proof {
                crate::aabb::lemma_merge_contains(lbx, rbx);
                lemma_sbox_ok(lft);
                lemma_sbox_ok(rgt);
            }
            let n: BvhNode = BvhNode {
                left: Box::new(lft),
                right: Some(Box::new(rgt)),
                curbox: AABB::merge(lbx, rbx),
            };
            proof {
                assert(vq.len() == 2);
                assert(b == vq[1] && a == vq[0]);
                assert forall|r: Ray, t: int| #[trigger] node_cand(n, r, t) <==> any_cand(
                    orig,
                    r,
                    t,
                ) by {
                    if node_cand(n, r, t) {
                        assert(scand(vq[0], r, t) || scand(vq[1], r, t));
                        assert(any_cand(vq, r, t));
                    }
                    if any_cand(orig, r, t) {
                        assert(any_cand(vq, r, t));
                        let i = choose|i: int| 0 <= i < vq.len() && scand(#[trigger] vq[i], r, t);
                        assert(i == 0 || i == 1);
                        assert(scand(lft, r, t) || scand(rgt, r, t));
                    }
                }
            }
            n
        } else {
            let mid: usize = v.len() / 2;
            let ghost sorted = v@;
            let rest: Vec<Shape> = v.split_off(mid);
            proof {
                assert(v@ == sorted.subrange(0, mid as int));
                assert(rest@ == sorted.subrange(mid as int, sorted.len() as int));
            }
            let lnode: BvhNode = BvhNode::new(v, tm0, tm1, rng);
            let rnode: BvhNode = BvhNode::new(rest, tm0, tm1, rng);
            let curbox: AABB = AABB::merge(lnode.curbox, rnode.curbox);
            proof {
                crate::aabb::lemma_merge_contains(lnode.curbox, rnode.curbox);
            }
            let ghost lq = sorted.subrange(0, mid as int);
            let ghost rq = sorted.subrange(mid as int, sorted.len() as int);
            let n: BvhNode = BvhNode {
                left: Box::new(Shape::Node(lnode)),
                right: Some(Box::new(Shape::Node(rnode))),
                curbox,
            };
            proof {
                assert forall|r: Ray, t: int| #[trigger] node_cand(n, r, t) <==> any_cand(
                    orig,
                    r,
                    t,
                ) by {
                    assert(scand(Shape::Node(lnode), r, t) == node_cand(lnode, r, t));
                    assert(scand(Shape::Node(rnode), r, t) == node_cand(rnode, r, t));
                    if node_cand(n, r, t) {
                        if node_cand(lnode, r, t) {
                            assert(any_cand(lq, r, t));
                            let i = choose|i: int|
                                0 <= i < lq.len() && scand(#[trigger] lq[i], r, t);
                            assert(sorted[i] == lq[i]);
                            assert(any_cand(sorted, r, t));
                        } else {
                            assert(node_cand(rnode, r, t));
                            assert(any_cand(rq, r, t));
                            let i = choose|i: int|
                                0 <= i < rq.len() && scand(#[trigger] rq[i], r, t);
                            assert(sorted[mid as int + i] == rq[i]);
                            assert(any_cand(sorted, r, t));
                        }
                    }
                    if any_cand(orig, r, t) {
                        assert(any_cand(sorted, r, t));
                        let i = choose|i: int|
                            0 <= i < sorted.len() && scand(#[trigger] sorted[i], r, t);
                        if i < mid as int {
                            assert(lq[i] == sorted[i]);
                            assert(any_cand(lq, r, t));
                        } else {
                            assert(rq[i - mid as int] == sorted[i]);
                            assert(any_cand(rq, r, t));
                        }
                    }
                }
            }
            n
        }
    }

    /// Build the hierarchy over a whole list.
    pub fn fnew(list: Hitlist, tm0: i64, tm1: i64, rng: &mut rand::rngs::SmallRng) -> (n: BvhNode)
        requires
            list.shapes.len() >= 1,
            forall|i: int|
                0 <= i < list.shapes.len() ==> shape_wf(#[trigger] list.shapes[i]) && boxed(
                    list.shapes[i],
                ),
        ensures
            node_wf(n),
            (forall|i: int| 0 <= i < list.shapes.len() ==> canonical(#[trigger] list.shapes[i]))
                ==> node_canonical(n),
            forall|r: Ray, t: int| #[trigger] node_cand(n, r, t) <==> any_cand(list.shapes@, r, t),
    {
        BvhNode::new(list.shapes, tm0, tm1, rng)
    }
}

/// A hierarchy result that is the least candidate of its node is the least
/// candidate of any list with the same candidate set: the hierarchy and the
/// flat scan agree ray for ray.
pub proof fn lemma_node_matches_list(
    q: Seq<Shape>,
    n: BvhNode,
    r: Ray,
    t_min: int,
    t_max: int,
    res: Option<int>,
)
    requires
        forall|r2: Ray, t: int| #[trigger] node_cand(n, r2, t) <==> any_cand(q, r2, t),
        match res {
            Some(t) => node_cand(n, r, t) && t_min < t < t_max && forall|t2: int|
                t_min < t2 < t ==> !node_cand(n, r, t2),
            None => forall|t2: int| t_min < t2 < t_max ==> !node_cand(n, r, t2),
        },
    ensures
        first_any_cand(q, r, t_min, t_max, res),
{
    match res {
        Some(t) => {
            assert(any_cand(q, r, t));
            assert forall|t2: int| t_min < t2 < t implies !any_cand(q, r, t2) by {
                assert(!node_cand(n, r, t2));
            }
        },
        None => {
            assert forall|t2: int| t_min < t2 < t_max implies !any_cand(q, r, t2) by {
                assert(!node_cand(n, r, t2));
            }
        },
    }
}


} // verus!
