//! Triangulation of a simple polygon by ear clipping.
//!
//! The vertices form one cycle, `0 -> 1 -> ... -> n - 1 -> 0`. A vertex is
//! reflex when the boundary turns clockwise there; an ear is a convex vertex
//! whose triangle with its two remaining neighbours holds no reflex vertex.
//! Ears are clipped one by one, each giving a triangle, until three vertices
//! remain or no ear is left; the last three remaining vertices give the last
//! triangle. All arithmetic is exact on the raw fixed-point values.
use vstd::prelude::*;
use crate::fixed::{fits_i128, Point, SCALE};
use crate::names::EntityName;
use crate::polygon::Edge;

verus! {

/// Both coordinates of `p` lie strictly between -1 and 1.
pub open spec fn in_unit_range(p: Point) -> bool {
    -SCALE < p.sx() < SCALE && -SCALE < p.sy() < SCALE
}

/// Twice the signed area of the triangle `a, b, c`: positive when it turns
/// counterclockwise.
pub open spec fn sign_spec(ax: int, ay: int, bx: int, by: int, cx: int, cy: int) -> int {
    (ax - cx) * (by - cy) - (bx - cx) * (ay - cy)
}

/// `sign_spec` of three points.
pub open spec fn sign_of(a: Point, b: Point, c: Point) -> int {
    sign_spec(a.sx(), a.sy(), b.sx(), b.sy(), c.sx(), c.sy())
}

/// Whether `p` lies in the closed triangle `a, b, c` (of either orientation):
/// the three signs are not of mixed strict signs.
pub open spec fn in_triangle(p: Point, a: Point, b: Point, c: Point) -> bool {
    let s1 = sign_of(p, a, b);
    let s2 = sign_of(p, b, c);
    let s3 = sign_of(p, c, a);
    !((s1 < 0 || s2 < 0 || s3 < 0) && (s1 > 0 || s2 > 0 || s3 > 0))
}

proof fn lemma_product_bound(u: int, v: int)
    requires
        -2 * SCALE < u < 2 * SCALE,
        -2 * SCALE < v < 2 * SCALE,
    ensures
        -4 * SCALE * SCALE < u * v < 4 * SCALE * SCALE,
{
    assert(-4 * SCALE * SCALE < u * v < 4 * SCALE * SCALE) by (nonlinear_arith)
        requires
            -2 * SCALE < u < 2 * SCALE,
            -2 * SCALE < v < 2 * SCALE,
            SCALE > 0,
    ;
}

/// Whether `sign_of(a, b, c)` can be computed in `i128`: each difference, each
/// product and the final difference fit.
pub open spec fn sign_computable(a: Point, b: Point, c: Point) -> bool {
    &&& fits_i128(a.sx() - c.sx())
    &&& fits_i128(b.sy() - c.sy())
    &&& fits_i128(b.sx() - c.sx())
    &&& fits_i128(a.sy() - c.sy())
    &&& fits_i128((a.sx() - c.sx()) * (b.sy() - c.sy()))
    &&& fits_i128((b.sx() - c.sx()) * (a.sy() - c.sy()))
    &&& fits_i128(sign_of(a, b, c))
}

/// Points inside the unit square always give a computable sign.
pub proof fn lemma_unit_range_computable(a: Point, b: Point, c: Point)
    requires
        in_unit_range(a),
        in_unit_range(b),
        in_unit_range(c),
    ensures
        sign_computable(a, b, c),
{
    lemma_product_bound(a.sx() - c.sx(), b.sy() - c.sy());
    lemma_product_bound(b.sx() - c.sx(), a.sy() - c.sy());
}

/// `sign_spec` of three points, computed in `i128`; the computation must not
/// overflow.
pub fn triangle_sign(triangle: [&Point; 3]) -> (r: i128)
    requires
        sign_computable(*triangle[0], *triangle[1], *triangle[2]),
    ensures
        r == sign_of(*triangle[0], *triangle[1], *triangle[2]),
{
    let a = triangle[0];
    let b = triangle[1];
    let c = triangle[2];
    (a.x() - c.x()) * (b.y() - c.y()) - (b.x() - c.x()) * (a.y() - c.y())
}

/// Whether `point` lies in the closed triangle (see `in_triangle`).
pub fn is_point_in_triangle(point: &Point, triangle: &[&Point; 3]) -> (r: bool)
    requires
        sign_computable(*point, *triangle[0], *triangle[1]),
        sign_computable(*point, *triangle[1], *triangle[2]),
        sign_computable(*point, *triangle[2], *triangle[0]),
    ensures
        r == in_triangle(*point, *triangle[0], *triangle[1], *triangle[2]),
{
    let sign1 = triangle_sign([point, triangle[0], triangle[1]]);
    let sign2 = triangle_sign([point, triangle[1], triangle[2]]);
    let sign3 = triangle_sign([point, triangle[2], triangle[0]]);
    !(((sign1 < 0) || (sign2 < 0) || (sign3 < 0)) && ((sign1 > 0) || (sign2 > 0) || (sign3 > 0)))
}

/// `s` without the entries equal to `x`, in order.
pub open spec fn without(s: Seq<usize>, x: usize) -> Seq<usize>
    decreases s.len(),
{
    if s.len() == 0 {
        s
    } else {
        let a = without(s.drop_last(), x);
        if s.last() != x {
            a.push(s.last())
        } else {
            a
        }
    }
}

/// What `without` keeps and drops.
pub proof fn lemma_without(s: Seq<usize>, x: usize)
    ensures
        without(s, x).len() <= s.len(),
        !s.contains(x) ==> without(s, x) == s,
        s.contains(x) ==> without(s, x).len() < s.len(),
        s.no_duplicates() && s.contains(x) ==> without(s, x).len() == s.len() - 1,
        s.no_duplicates() ==> without(s, x).no_duplicates(),
        !without(s, x).contains(x),
        forall|y: usize| #[trigger] without(s, x).contains(y) <==> s.contains(y) && y != x,
    decreases s.len(),
{
    if s.len() > 0 {
        let d = s.drop_last();
        lemma_without(d, x);
        let a = without(d, x);
        assert forall|y: usize| s.contains(y) <==> d.contains(y) || y == s.last() by {
            if s.contains(y) {
                let i = choose|i: int| 0 <= i < s.len() && s[i] == y;
                if i < s.len() - 1 {
                    assert(d[i] == y);
                }
            }
            if d.contains(y) {
                let i = choose|i: int| 0 <= i < d.len() && d[i] == y;
                assert(s[i] == y);
            }
            if y == s.last() {
                assert(s[s.len() - 1] == y);
            }
        }
        if s.last() != x {
            let b = a.push(s.last());
            assert forall|y: usize| b.contains(y) <==> a.contains(y) || y == s.last() by {
                if b.contains(y) {
                    let i = choose|i: int| 0 <= i < b.len() && b[i] == y;
                    if i < a.len() {
                        assert(a[i] == y);
                    }
                }
                if a.contains(y) {
                    let i = choose|i: int| 0 <= i < a.len() && a[i] == y;
                    assert(b[i] == y);
                }
                if y == s.last() {
                    assert(b[b.len() - 1] == y);
                }
            }
            if s.no_duplicates() {
                assert(!d.contains(s.last())) by {
                    if d.contains(s.last()) {
                        let i = choose|i: int| 0 <= i < d.len() && d[i] == s.last();
                        assert(s[i] == s[s.len() - 1]);
                    }
                }
                assert(d.no_duplicates()) by {
                    assert forall|i: int, j: int|
                        0 <= i < d.len() && 0 <= j < d.len() && i != j implies d[i] != d[j] by {
                        assert(d[i] == s[i] && d[j] == s[j]);
                    }
                }
                assert(b.no_duplicates()) by {
                    assert forall|i: int, j: int|
                        0 <= i < b.len() && 0 <= j < b.len() && i != j implies b[i] != b[j] by {
                        if i < a.len() && j < a.len() {
                            assert(b[i] == a[i] && b[j] == a[j]);
                        } else if i < a.len() {
                            assert(b[i] == a[i] && a.contains(a[i]));
                        } else if j < a.len() {
                            assert(b[j] == a[j] && a.contains(a[j]));
                        }
                    }
                }
            }
            if !s.contains(x) {
                assert(!d.contains(x));
                assert(without(s, x) =~= s);
            }
        } else {
            assert(s.contains(x)) by {
                assert(s[s.len() - 1] == x);
            }
            if s.no_duplicates() {
                assert(!d.contains(x)) by {
                    if d.contains(x) {
                        let i = choose|i: int| 0 <= i < d.len() && d[i] == x;
                        assert(s[i] == s[s.len() - 1]);
                    }
                }
                assert(d.no_duplicates()) by {
                    assert forall|i: int, j: int|
                        0 <= i < d.len() && 0 <= j < d.len() && i != j implies d[i] != d[j] by {
                        assert(d[i] == s[i] && d[j] == s[j]);
                    }
                }
            }
        }
    }
}

/// Removes every entry equal to `x` from `v`, keeping the order of the rest.
pub fn remove_all(v: &mut Vec<usize>, x: usize)
    ensures
        final(v)@ == without(old(v)@, x),
{
    let mut kept: Vec<usize> = Vec::new();
    let mut k: usize = 0;
    assert(old(v)@.subrange(0, 0) =~= Seq::<usize>::empty());
    while k < v.len()
        invariant
            v@ == old(v)@,
            k <= v@.len(),
            kept@ == without(v@.subrange(0, k as int), x),
        decreases v@.len() - k,
    {
        assert(v@.subrange(0, k + 1).drop_last() =~= v@.subrange(0, k as int));
        if v[k] != x {
            kept.push(v[k]);
        }
        k = k + 1;
    }
    assert(v@.subrange(0, v@.len() as int) =~= v@);
    *v = kept;
}

/// How many entries of `ears` are not in `rem`.
pub open spec fn dead_count(ears: Seq<usize>, rem: Seq<usize>) -> nat
    decreases ears.len(),
{
    if ears.len() == 0 {
        0
    } else {
        dead_count(ears.drop_last(), rem) + if rem.contains(ears.last()) {
            0nat
        } else {
            1nat
        }
    }
}

/// Removing an entry that is in `rem` keeps the count of entries not in `rem`.
proof fn lemma_dead_count_without(ears: Seq<usize>, rem: Seq<usize>, v: usize)
    requires
        rem.contains(v),
    ensures
        dead_count(without(ears, v), rem) == dead_count(ears, rem),
    decreases ears.len(),
{
    if ears.len() > 0 {
        lemma_dead_count_without(ears.drop_last(), rem, v);
        let a = without(ears.drop_last(), v);
        if ears.last() != v {
            assert(a.push(ears.last()).drop_last() =~= a);
        }
    }
}

/// The vertex before `v` on the cycle of `n` vertices.
pub open spec fn pred(n: int, v: int) -> int {
    if v == 0 {
        n - 1
    } else {
        v - 1
    }
}

/// The vertex after `v` on the cycle of `n` vertices.
pub open spec fn succ(n: int, v: int) -> int {
    if v + 1 < n {
        v + 1
    } else {
        0
    }
}

/// The first vertex of `rem` met going back from `v`, within `fuel` further steps.
pub open spec fn back_from(rem: Seq<usize>, n: int, v: int, fuel: nat) -> int
    decreases fuel,
{
    let p = pred(n, v);
    if fuel == 0 || rem.contains(p as usize) {
        p
    } else {
        back_from(rem, n, p, (fuel - 1) as nat)
    }
}

/// The first vertex of `rem` met going forward from `v`, within `fuel` further steps.
pub open spec fn fwd_from(rem: Seq<usize>, n: int, v: int, fuel: nat) -> int
    decreases fuel,
{
    let p = succ(n, v);
    if fuel == 0 || rem.contains(p as usize) {
        p
    } else {
        fwd_from(rem, n, p, (fuel - 1) as nat)
    }
}

/// Steps from `x` back to `r` on the cycle.
pub open spec fn dist_back(n: int, x: int, r: int) -> int {
    if x >= r {
        x - r
    } else {
        x + n - r
    }
}

/// Steps from `x` forward to `r` on the cycle.
pub open spec fn dist_fwd(n: int, x: int, r: int) -> int {
    if r >= x {
        r - x
    } else {
        r + n - x
    }
}

/// Going back with enough fuel ends on a vertex of `rem`, and on the cycle.
proof fn lemma_back_found(rem: Seq<usize>, n: int, x: int, fuel: nat, r: int)
    requires
        0 <= r < n,
        0 <= x < n,
        rem.contains(r as usize),
        fuel >= dist_back(n, pred(n, x), r),
    ensures
        rem.contains(back_from(rem, n, x, fuel) as usize),
        0 <= back_from(rem, n, x, fuel) < n,
    decreases fuel,
{
    let p = pred(n, x);
    if !rem.contains(p as usize) {
        assert(p != r);
        lemma_back_found(rem, n, p, (fuel - 1) as nat, r);
    }
}

proof fn lemma_dist_step(n: int, p: int, y: int)
    requires
        0 <= p < n,
        0 <= y < n,
        y != p,
    ensures
        dist_back(n, p, y) == dist_back(n, pred(n, p), y) + 1,
        dist_fwd(n, p, y) == dist_fwd(n, succ(n, p), y) + 1,
{
}

/// Going back stops at the first vertex of `rem`: no farther than any other one.
proof fn lemma_back_first(rem: Seq<usize>, n: int, x: int, fuel: nat, r: int)
    requires
        0 <= r < n,
        0 <= x < n,
        rem.contains(r as usize),
        fuel >= dist_back(n, pred(n, x), r),
    ensures
        dist_back(n, pred(n, x), back_from(rem, n, x, fuel)) <= dist_back(n, pred(n, x), r),
    decreases fuel,
{
    let p = pred(n, x);
    if !rem.contains(p as usize) {
        assert(p != r);
        lemma_back_found(rem, n, p, (fuel - 1) as nat, r);
        lemma_back_first(rem, n, p, (fuel - 1) as nat, r);
        let b = back_from(rem, n, p, (fuel - 1) as nat);
        lemma_dist_step(n, p, r);
        lemma_dist_step(n, p, b);
    }
}

/// Going forward stops at the first vertex of `rem`: no farther than any other one.
proof fn lemma_fwd_first(rem: Seq<usize>, n: int, x: int, fuel: nat, r: int)
    requires
        0 <= r < n,
        0 <= x < n,
        rem.contains(r as usize),
        fuel >= dist_fwd(n, succ(n, x), r),
    ensures
        dist_fwd(n, succ(n, x), fwd_from(rem, n, x, fuel)) <= dist_fwd(n, succ(n, x), r),
    decreases fuel,
{
    let p = succ(n, x);
    if !rem.contains(p as usize) {
        assert(p != r);
        lemma_fwd_found(rem, n, p, (fuel - 1) as nat, r);
        lemma_fwd_first(rem, n, p, (fuel - 1) as nat, r);
        let b = fwd_from(rem, n, p, (fuel - 1) as nat);
        lemma_dist_step(n, p, r);
        lemma_dist_step(n, p, b);
    }
}

/// Going forward with enough fuel ends on a vertex of `rem`, and on the cycle.
proof fn lemma_fwd_found(rem: Seq<usize>, n: int, x: int, fuel: nat, r: int)
    requires
        0 <= r < n,
        0 <= x < n,
        rem.contains(r as usize),
        fuel >= dist_fwd(n, succ(n, x), r),
    ensures
        rem.contains(fwd_from(rem, n, x, fuel) as usize),
        0 <= fwd_from(rem, n, x, fuel) < n,
    decreases fuel,
{
    let p = succ(n, x);
    if !rem.contains(p as usize) {
        assert(p != r);
        lemma_fwd_found(rem, n, p, (fuel - 1) as nat, r);
    }
}

/// The remaining vertex before `v` (going back along the cycle of `pts`).
pub open spec fn back(pts: Seq<Point>, rem: Seq<usize>, v: int) -> int {
    back_from(rem, pts.len() as int, v, pts.len())
}

/// The remaining vertex after `v` (going forward along the cycle of `pts`).
pub open spec fn fwd(pts: Seq<Point>, rem: Seq<usize>, v: int) -> int {
    fwd_from(rem, pts.len() as int, v, pts.len())
}

/// How the boundary turns at `b` going from `a` through `b` to `c`: the cross
/// product of `b - a` and `c - b` (negative for a clockwise turn).
pub open spec fn turn(pts: Seq<Point>, a: int, b: int, c: int) -> int {
    (pts[b].sx() - pts[a].sx()) * (pts[c].sy() - pts[b].sy()) - (pts[b].sy() - pts[a].sy()) * (
    pts[c].sx() - pts[b].sx())
}

/// Whether the boundary through the remaining vertices turns clockwise at `v`.
pub open spec fn reflex_at(pts: Seq<Point>, rem: Seq<usize>, v: int) -> bool {
    turn(pts, back(pts, rem, v), v, fwd(pts, rem, v)) < 0
}

/// Whether no vertex of `reflex` other than `v` and its remaining neighbours
/// lies in the triangle of `v` with those neighbours.
pub open spec fn ear_at(pts: Seq<Point>, rem: Seq<usize>, reflex: Seq<usize>, v: int) -> bool {
    let i = back(pts, rem, v);
    let o = fwd(pts, rem, v);
    !exists|k: int|
        0 <= k < reflex.len() && #[trigger] reflex[k] != v && reflex[k] != i && reflex[k] != o
            && in_triangle(pts[reflex[k] as int], pts[i], pts[v], pts[o])
}

/// The reflex vertices among the first `k`, in order.
pub open spec fn reflex_list(pts: Seq<Point>, rem: Seq<usize>, k: nat) -> Seq<usize>
    decreases k,
{
    if k == 0 {
        Seq::empty()
    } else if reflex_at(pts, rem, k - 1) {
        reflex_list(pts, rem, (k - 1) as nat).push((k - 1) as usize)
    } else {
        reflex_list(pts, rem, (k - 1) as nat)
    }
}

/// The ears among the first `k` vertices that are not in `reflex`, in order.
pub open spec fn ear_list(pts: Seq<Point>, rem: Seq<usize>, reflex: Seq<usize>, k: nat) -> Seq<
    usize,
>
    decreases k,
{
    if k == 0 {
        Seq::empty()
    } else if !reflex.contains((k - 1) as usize) && ear_at(pts, rem, reflex, k - 1) {
        ear_list(pts, rem, reflex, (k - 1) as nat).push((k - 1) as usize)
    } else {
        ear_list(pts, rem, reflex, (k - 1) as nat)
    }
}

/// A triangle by the indices of its vertices.
pub type Triangle = (usize, usize, usize);

/// Every entry of `s` is below `n`.
pub open spec fn all_below(s: Seq<usize>, n: int) -> bool {
    forall|k: int| 0 <= k < s.len() ==> #[trigger] s[k] < n
}

/// Every triangle of `s` names vertices below `n`.
pub open spec fn tris_below(s: Seq<Triangle>, n: int) -> bool {
    forall|k: int| 0 <= k < s.len() ==> (#[trigger] s[k]).0 < n && s[k].1 < n && s[k].2 < n
}

proof fn lemma_push_below(s: Seq<usize>, x: usize, n: int)
    requires
        all_below(s, n),
        x < n,
    ensures
        all_below(s.push(x), n),
{
    assert forall|k: int| 0 <= k < s.push(x).len() implies #[trigger] s.push(x)[k] < n by {
        if k < s.len() {
            assert(s.push(x)[k] == s[k]);
        }
    }
}

/// The state of ear clipping: the remaining vertices, the ears still to clip
/// (the last one next), the reflex vertices, and the triangles cut so far.
pub struct ClipState {
    pub rem: Seq<usize>,
    pub ears: Seq<usize>,
    pub reflex: Seq<usize>,
    pub tris: Seq<Triangle>,
}

/// The state names vertices below `n` only, and some vertices remain, each once.
pub open spec fn clip_ok(n: int, st: ClipState) -> bool {
    &&& n <= usize::MAX
    &&& st.rem.len() >= 1
    &&& st.rem.no_duplicates()
    &&& all_below(st.rem, n)
    &&& all_below(st.ears, n)
    &&& all_below(st.reflex, n)
    &&& tris_below(st.tris, n)
}

/// `st` after looking again at vertex `v`: a reflex vertex that is still reflex
/// stays as it is; otherwise it is no longer reflex, and it is added to the ears
/// if it is an ear and taken out of them if not.
pub open spec fn update_at(pts: Seq<Point>, st: ClipState, v: int) -> ClipState {
    if st.reflex.contains(v as usize) && reflex_at(pts, st.rem, v) {
        st
    } else {
        let reflex = if st.reflex.contains(v as usize) {
            without(st.reflex, v as usize)
        } else {
            st.reflex
        };
        if ear_at(pts, st.rem, reflex, v) {
            ClipState { rem: st.rem, ears: st.ears.push(v as usize), reflex: reflex, tris: st.tris }
        } else {
            ClipState { rem: st.rem, ears: without(st.ears, v as usize), reflex: reflex, tris: st.tris }
        }
    }
}

/// One clip: the last ear `t` is taken off the ears, the triangle of `t` with its
/// remaining neighbours is cut, `t` leaves the remaining vertices, and both
/// neighbours are looked at again.
pub open spec fn clip_step(pts: Seq<Point>, st: ClipState) -> ClipState {
    let t = st.ears.last();
    let i = back(pts, st.rem, t as int);
    let o = fwd(pts, st.rem, t as int);
    let s1 = ClipState {
        rem: without(st.rem, t),
        ears: st.ears.drop_last(),
        reflex: st.reflex,
        tris: st.tris.push((i as usize, t, o as usize)),
    };
    update_at(pts, update_at(pts, s1, i), o)
}

/// Clipping stops once three vertices remain or no ear is left.
pub open spec fn clip_done(st: ClipState) -> bool {
    st.rem.len() <= 3 || st.ears.len() == 0
}

/// The state in which clipping stops, starting from `st`.
pub open spec fn clip_run(pts: Seq<Point>, st: ClipState) -> ClipState
    decreases st.rem.len(), dead_count(st.ears, st.rem),
    when clip_ok(pts.len() as int, st)
    via clip_run_decreases
{
    if clip_done(st) {
        st
    } else {
        clip_run(pts, clip_step(pts, st))
    }
}

#[via_fn]
proof fn clip_run_decreases(pts: Seq<Point>, st: ClipState) {
    if !clip_done(st) {
        lemma_step(pts, st);
    }
}

proof fn lemma_all_below_subset(a: Seq<usize>, b: Seq<usize>, n: int)
    requires
        all_below(b, n),
        forall|y: usize| a.contains(y) ==> b.contains(y),
    ensures
        all_below(a, n),
{
    assert forall|k: int| 0 <= k < a.len() implies #[trigger] a[k] < n by {
        assert(a.contains(a[k]));
        let j = choose|j: int| 0 <= j < b.len() && b[j] == a[k];
    }
}

proof fn lemma_drop_last_below(s: Seq<usize>, n: int)
    requires
        all_below(s, n),
        s.len() > 0,
    ensures
        all_below(s.drop_last(), n),
{
    assert forall|k: int| 0 <= k < s.drop_last().len() implies #[trigger] s.drop_last()[k] < n by {
        assert(s.drop_last()[k] == s[k]);
    }
}

/// Looking again at a remaining vertex keeps the state valid, changes neither the
/// remaining vertices nor the triangles, and adds no ear that is not remaining.
proof fn lemma_update(pts: Seq<Point>, st: ClipState, v: int)
    requires
        clip_ok(pts.len() as int, st),
        0 <= v < pts.len(),
        st.rem.contains(v as usize),
    ensures
        clip_ok(pts.len() as int, update_at(pts, st, v)),
        update_at(pts, st, v).rem == st.rem,
        update_at(pts, st, v).tris == st.tris,
        dead_count(update_at(pts, st, v).ears, st.rem) == dead_count(st.ears, st.rem),
{
    let n = pts.len() as int;
    let u = update_at(pts, st, v);
    lemma_without(st.reflex, v as usize);
    lemma_without(st.ears, v as usize);
    if !(st.reflex.contains(v as usize) && reflex_at(pts, st.rem, v)) {
        if st.reflex.contains(v as usize) {
            lemma_all_below_subset(without(st.reflex, v as usize), st.reflex, n);
        }
        if ear_at(pts, st.rem, u.reflex, v) {
            lemma_push_below(st.ears, v as usize, n);
            assert(st.ears.push(v as usize).drop_last() =~= st.ears);
        } else {
            lemma_all_below_subset(without(st.ears, v as usize), st.ears, n);
            lemma_dead_count_without(st.ears, st.rem, v as usize);
        }
    }
}

/// One clip keeps the state valid, loses at most one remaining vertex, and
/// either loses one or keeps them all and drops an ear that was not remaining.
proof fn lemma_step(pts: Seq<Point>, st: ClipState)
    requires
        clip_ok(pts.len() as int, st),
        !clip_done(st),
    ensures
        clip_ok(pts.len() as int, clip_step(pts, st)),
        clip_step(pts, st).rem.len() >= st.rem.len() - 1,
        clip_step(pts, st).rem == without(st.rem, st.ears.last()),
        clip_step(pts, st).tris == st.tris.push(
            (
                back(pts, st.rem, st.ears.last() as int) as usize,
                st.ears.last(),
                fwd(pts, st.rem, st.ears.last() as int) as usize,
            ),
        ),
        clip_step(pts, st).rem.len() < st.rem.len() || (clip_step(pts, st).rem.len()
            == st.rem.len() && dead_count(clip_step(pts, st).ears, clip_step(pts, st).rem)
            < dead_count(st.ears, st.rem)),
{
    let n = pts.len() as int;
    let t = st.ears.last();
    assert(st.ears[st.ears.len() - 1] < n);
    let r = st.rem[0] as int;
    assert(st.rem[0] < n);
    assert(st.rem.contains(st.rem[0]));
    lemma_back_found(st.rem, n, t as int, pts.len(), r);
    lemma_fwd_found(st.rem, n, t as int, pts.len(), r);
    let i = back(pts, st.rem, t as int);
    let o = fwd(pts, st.rem, t as int);
    lemma_without(st.rem, t);
    let rem1 = without(st.rem, t);
    lemma_all_below_subset(rem1, st.rem, n);
    lemma_drop_last_below(st.ears, n);
    let tris1 = st.tris.push((i as usize, t, o as usize));
    assert(tris_below(tris1, n)) by {
        assert forall|k: int| 0 <= k < tris1.len() implies (#[trigger] tris1[k]).0 < n && tris1[k].1
            < n && tris1[k].2 < n by {
            if k < st.tris.len() {
                assert(tris1[k] == st.tris[k]);
            }
        }
    }
    let s1 = ClipState { rem: rem1, ears: st.ears.drop_last(), reflex: st.reflex, tris: tris1 };
    assert(clip_ok(n, s1));
    if st.rem.contains(t) {
        assert(st.rem[0] != st.rem[1]);
        let r2: int = if st.rem[0] != t {
            st.rem[0] as int
        } else {
            st.rem[1] as int
        };
        assert(st.rem[1] < n);
        assert(st.rem.contains(st.rem[1]));
        lemma_back_found(st.rem, n, t as int, pts.len(), r2);
        lemma_fwd_found(st.rem, n, t as int, pts.len(), r2);
        lemma_back_first(st.rem, n, t as int, pts.len(), r2);
        lemma_fwd_first(st.rem, n, t as int, pts.len(), r2);
        assert(i != t as int);
        assert(o != t as int);
    }
    assert(st.rem.contains(i as usize));
    assert(0 <= i < n);
    assert((i as usize) != t);
    assert(st.rem.contains(o as usize) && (o as usize) != t);
    assert(rem1.contains(i as usize));
    assert(rem1.contains(o as usize));
    lemma_update(pts, s1, i);
    let s2 = update_at(pts, s1, i);
    lemma_update(pts, s2, o);
    if !st.rem.contains(t) {
        assert(dead_count(s1.ears, st.rem) + 1 == dead_count(st.ears, st.rem));
    }
}

/// Clipping from a valid state with at least three remaining vertices ends in a
/// valid state where three vertices remain or no ear is left; the vertices that
/// remain were remaining before, the triangles cut before are kept, and at least
/// one triangle is cut for every vertex clipped away.
pub proof fn law_clip_run(pts: Seq<Point>, st: ClipState)
    requires
        clip_ok(pts.len() as int, st),
        st.rem.len() >= 3,
    ensures
        clip_done(clip_run(pts, st)),
        clip_ok(pts.len() as int, clip_run(pts, st)),
        clip_run(pts, st).rem.len() >= 3,
        forall|x: usize| clip_run(pts, st).rem.contains(x) ==> st.rem.contains(x),
        clip_run(pts, st).tris.len() >= st.tris.len(),
        clip_run(pts, st).tris.subrange(0, st.tris.len() as int) == st.tris,
        clip_run(pts, st).tris.len() - st.tris.len() >= st.rem.len() - clip_run(pts, st).rem.len(),
    decreases st.rem.len(), dead_count(st.ears, st.rem),
{
    if !clip_done(st) {
        lemma_step(pts, st);
        let nx = clip_step(pts, st);
        lemma_without(st.rem, st.ears.last());
        law_clip_run(pts, nx);
        let fin = clip_run(pts, nx);
        assert(clip_run(pts, st) == fin);
        assert forall|x: usize| fin.rem.contains(x) implies st.rem.contains(x) by {
            assert(nx.rem.contains(x));
            assert(without(st.rem, st.ears.last()).contains(x));
        }
        assert forall|k: int| 0 <= k < st.tris.len() implies fin.tris[k] == st.tris[k] by {
            assert(fin.tris.subrange(0, nx.tris.len() as int)[k] == nx.tris[k]);
            assert(nx.tris[k] == st.tris[k]);
        }
        assert(fin.tris.subrange(0, st.tris.len() as int) =~= st.tris);
    } else {
        assert(st.tris.subrange(0, st.tris.len() as int) =~= st.tris);
    }
}

proof fn lemma_reflex_list_below(pts: Seq<Point>, rem: Seq<usize>, k: nat)
    requires
        k <= usize::MAX,
    ensures
        all_below(reflex_list(pts, rem, k), k as int),
    decreases k,
{
    if k > 0 {
        lemma_reflex_list_below(pts, rem, (k - 1) as nat);
        let a = reflex_list(pts, rem, (k - 1) as nat);
        assert(all_below(a, k as int));
        if reflex_at(pts, rem, k - 1) {
            lemma_push_below(a, (k - 1) as usize, k as int);
        }
    }
}

proof fn lemma_ear_list_below(pts: Seq<Point>, rem: Seq<usize>, reflex: Seq<usize>, k: nat)
    requires
        k <= usize::MAX,
    ensures
        all_below(ear_list(pts, rem, reflex, k), k as int),
    decreases k,
{
    if k > 0 {
        lemma_ear_list_below(pts, rem, reflex, (k - 1) as nat);
        let a = ear_list(pts, rem, reflex, (k - 1) as nat);
        assert(all_below(a, k as int));
        if !reflex.contains((k - 1) as usize) && ear_at(pts, rem, reflex, k - 1) {
            lemma_push_below(a, (k - 1) as usize, k as int);
        }
    }
}

/// Triangulating a polygon of `n >= 3` vertices cuts at least `n - 2` triangles
/// when it clips down to three vertices, and in any case at least one triangle
/// for every vertex clipped away plus the last one; every triangle names
/// vertices of the polygon, and at least three vertices remain.
pub proof fn law_triangulated(pts: Seq<Point>, rem: Seq<usize>)
    requires
        3 <= pts.len() <= usize::MAX,
    ensures
        clip_ok(pts.len() as int, triangulated(pts, rem)),
        triangulated(pts, rem).rem.len() >= 3,
        triangulated(pts, rem).tris.len() >= pts.len() - triangulated(pts, rem).rem.len() + 1,
        triangulated(pts, rem).rem.len() == 3 ==> triangulated(pts, rem).tris.len() >= pts.len() - 2,
        triangulated(pts, rem).rem.len() > 3 ==> triangulated(pts, rem).ears.len() == 0,
{
    let n = pts.len() as int;
    let st = start_state(pts, rem);
    lemma_reflex_list_below(pts, rem, pts.len());
    lemma_ear_list_below(pts, rem, reflex_list(pts, rem, pts.len()), pts.len());
    assert(all_below(st.rem, n));
    assert(st.rem.no_duplicates());
    assert(st.rem[0] == 0);
    assert(clip_ok(n, st));
    law_clip_run(pts, st);
    let fin = clip_run(pts, st);
    let t = triangulated(pts, rem);
    assert(tris_below(t.tris, n)) by {
        assert(fin.rem.contains(fin.rem[0]) && fin.rem.contains(fin.rem[1]) && fin.rem.contains(fin.rem[2]));
        assert(fin.rem[0] < n && fin.rem[1] < n && fin.rem[2] < n);
        assert forall|k: int| 0 <= k < t.tris.len() implies (#[trigger] t.tris[k]).0 < n && t.tris[k].1
            < n && t.tris[k].2 < n by {
            if k < fin.tris.len() {
                assert(t.tris[k] == fin.tris[k]);
            }
        }
    }
}

/// A simple polygon whose vertices form the cycle `0 -> 1 -> ... -> n - 1 -> 0`,
/// with the state of its triangulation.
pub struct Polygon {
    name: EntityName,
    vertices: Vec<Point>,
    edges: Vec<Edge>,
    triangles: Vec<Triangle>,
    ears: Vec<usize>,
    reflex: Vec<usize>,
    remaining_vertices: Vec<usize>,
}

impl Polygon {
    pub closed spec fn spec_name(&self) -> Seq<char> {
        self.name@
    }

    pub closed spec fn spec_vertices(&self) -> Seq<Point> {
        self.vertices@
    }

    pub closed spec fn spec_edges(&self) -> Seq<Edge> {
        self.edges@
    }

    /// The clipping state held by the polygon.
    pub closed spec fn state(&self) -> ClipState {
        ClipState {
            rem: self.remaining_vertices@,
            ears: self.ears@,
            reflex: self.reflex@,
            tris: self.triangles@,
        }
    }

    pub open spec fn n(&self) -> int {
        self.spec_vertices().len() as int
    }

    /// At least three vertices, all strictly inside the unit square, joined by the
    /// edges `i -> i + 1` and `n - 1 -> 0`.
    pub open spec fn shape_ok(&self) -> bool {
        &&& 3 <= self.n() <= usize::MAX
        &&& self.spec_edges().len() == self.n()
        &&& forall|i: int|
            0 <= i < self.n() ==> (#[trigger] self.spec_edges()[i]).start == i
                && self.spec_edges()[i].end == succ(self.n(), i)
        &&& forall|v: int| 0 <= v < self.n() ==> in_unit_range(#[trigger] self.spec_vertices()[v])
    }

    /// The state names existing vertices only, and some vertices remain, each once.
    pub open spec fn state_ok(&self, st: ClipState) -> bool {
        clip_ok(self.n(), st)
    }

    pub open spec fn well_formed(&self) -> bool {
        self.shape_ok() && self.state_ok(self.state())
    }

    /// The vertex before `v` on the cycle, found as the start of the edge into `v`.
    fn find_in_edge(&self, v: usize) -> (r: usize)
        requires
            self.shape_ok(),
            v < self.n(),
        ensures
            r == pred(self.n(), v as int),
    {
        let mut k: usize = 0;
        while k < self.edges.len()
            invariant
                self.shape_ok(),
                v < self.n(),
                k <= self.spec_edges().len(),
                forall|j: int| 0 <= j < k ==> (#[trigger] self.spec_edges()[j]).end != v,
            decreases self.spec_edges().len() - k,
        {
            assert(self.spec_edges()[k as int].start == k);
            if self.edges[k].end == v {
                return self.edges[k].start;
            }
            k = k + 1;
        }
        assert(self.spec_edges()[pred(self.n(), v as int)].end == v);
        0
    }

    /// The vertex after `v` on the cycle, found as the end of the edge out of `v`.
    fn find_out_edge(&self, v: usize) -> (r: usize)
        requires
            self.shape_ok(),
            v < self.n(),
        ensures
            r == succ(self.n(), v as int),
    {
        let mut k: usize = 0;
        while k < self.edges.len()
            invariant
                self.shape_ok(),
                v < self.n(),
                k <= self.spec_edges().len(),
                forall|j: int| 0 <= j < k ==> (#[trigger] self.spec_edges()[j]).start != v,
            decreases self.spec_edges().len() - k,
        {
            if self.edges[k].start == v {
                return self.edges[k].end;
            }
            k = k + 1;
        }
        assert(self.spec_edges()[v as int].start == v);
        0
    }

    /// The remaining vertices before and after `v` along the cycle.
    fn get_neighbour_vertices(&self, v: usize) -> (r: (usize, usize))
        requires
            self.well_formed(),
            v < self.n(),
        ensures
            r.0 == back(self.spec_vertices(), self.state().rem, v as int),
            r.1 == fwd(self.spec_vertices(), self.state().rem, v as int),
            self.state().rem.contains(r.0),
            self.state().rem.contains(r.1),
            r.0 < self.n(),
            r.1 < self.n(),
    {
        let ghost rem = self.remaining_vertices@;
        let ghost n = self.n();
        let ghost r = rem[0] as int;
        assert(rem.contains(rem[0]));
        let mut cur = v;
        let mut in_v = self.find_in_edge(v);
        let ghost mut fuel: nat = n as nat;
        while !contains_vertex(&self.remaining_vertices, in_v)
            invariant
                self.well_formed(),
                rem == self.remaining_vertices@,
                n == self.n(),
                0 <= r < n,
                rem.contains(r as usize),
                cur < n,
                in_v == pred(n, cur as int),
                back(self.spec_vertices(), rem, v as int) == back_from(rem, n, cur as int, fuel),
                fuel >= dist_back(n, in_v as int, r),
            decreases dist_back(n, in_v as int, r),
        {
            cur = in_v;
            in_v = self.find_in_edge(in_v);
            proof {
                fuel = (fuel - 1) as nat;
            }
        }
        let mut out_v = self.find_out_edge(v);
        cur = v;
        proof {
            fuel = n as nat;
        }
        while !contains_vertex(&self.remaining_vertices, out_v)
            invariant
                self.well_formed(),
                rem == self.remaining_vertices@,
                n == self.n(),
                0 <= r < n,
                rem.contains(r as usize),
                cur < n,
                out_v == succ(n, cur as int),
                fwd(self.spec_vertices(), rem, v as int) == fwd_from(rem, n, cur as int, fuel),
                fuel >= dist_fwd(n, out_v as int, r),
            decreases dist_fwd(n, out_v as int, r),
        {
            cur = out_v;
            out_v = self.find_out_edge(out_v);
            proof {
                fuel = (fuel - 1) as nat;
            }
        }
        (in_v, out_v)
    }
}

impl Polygon {
    /// `a` and `b` have the same name, vertices and edges.
    pub open spec fn same_shape(a: &Polygon, b: &Polygon) -> bool {
        &&& a.spec_name() == b.spec_name()
        &&& a.spec_vertices() == b.spec_vertices()
        &&& a.spec_edges() == b.spec_edges()
    }

    /// Whether the boundary through the remaining vertices turns clockwise at `v`.
    fn is_vertex_reflex(&self, v: usize) -> (r: bool)
        requires
            self.well_formed(),
            v < self.n(),
        ensures
            r == reflex_at(self.spec_vertices(), self.state().rem, v as int),
    {
        let (i, o) = self.get_neighbour_vertices(v);
        let vertex = &self.vertices[v];
        let in_vertex = &self.vertices[i];
        let out_vertex = &self.vertices[o];
        assert(in_unit_range(self.spec_vertices()[v as int]));
        assert(in_unit_range(self.spec_vertices()[i as int]));
        assert(in_unit_range(self.spec_vertices()[o as int]));
        let ax = vertex.x() - in_vertex.x();
        let ay = vertex.y() - in_vertex.y();
        let bx = out_vertex.x() - vertex.x();
        let by = out_vertex.y() - vertex.y();
        proof {
            lemma_product_bound(ax as int, by as int);
            lemma_product_bound(ay as int, bx as int);
        }
        ax * by - ay * bx < 0
    }

    /// Whether `v` is an ear: no reflex vertex other than `v` and its remaining
    /// neighbours lies in their triangle.
    fn is_vertex_ear(&self, v: usize) -> (r: bool)
        requires
            self.well_formed(),
            v < self.n(),
        ensures
            r == ear_at(self.spec_vertices(), self.state().rem, self.state().reflex, v as int),
    {
        let (i, o) = self.get_neighbour_vertices(v);
        assert(in_unit_range(self.spec_vertices()[v as int]));
        assert(in_unit_range(self.spec_vertices()[i as int]));
        assert(in_unit_range(self.spec_vertices()[o as int]));
        let triangle = [&self.vertices[i], &self.vertices[v], &self.vertices[o]];
        let ghost reflex = self.state().reflex;
        let mut k: usize = 0;
        while k < self.reflex.len()
            invariant
                self.well_formed(),
                v < self.n(),
                i == back(self.spec_vertices(), self.state().rem, v as int),
                o == fwd(self.spec_vertices(), self.state().rem, v as int),
                i < self.n(),
                o < self.n(),
                reflex == self.state().reflex,
                *triangle[0] == self.spec_vertices()[i as int],
                *triangle[1] == self.spec_vertices()[v as int],
                *triangle[2] == self.spec_vertices()[o as int],
                in_unit_range(*triangle[0]),
                in_unit_range(*triangle[1]),
                in_unit_range(*triangle[2]),
                k <= reflex.len(),
                forall|j: int|
                    0 <= j < k ==> !(#[trigger] reflex[j] != v && reflex[j] != i && reflex[j] != o
                        && in_triangle(
                        self.spec_vertices()[reflex[j] as int],
                        self.spec_vertices()[i as int],
                        self.spec_vertices()[v as int],
                        self.spec_vertices()[o as int],
                    )),
            decreases reflex.len() - k,
        {
            let r = self.reflex[k];
            assert(reflex[k as int] < self.n());
            assert(in_unit_range(self.spec_vertices()[r as int]));
            proof {
                let p = self.spec_vertices()[r as int];
                lemma_unit_range_computable(p, *triangle[0], *triangle[1]);
                lemma_unit_range_computable(p, *triangle[1], *triangle[2]);
                lemma_unit_range_computable(p, *triangle[2], *triangle[0]);
            }
            if r != v && r != i && r != o && is_point_in_triangle(&self.vertices[r], &triangle) {
                return false;
            }
            k = k + 1;
        }
        true
    }

    /// Collects the reflex vertices, in order.
    fn find_reflex_vertices(&mut self)
        requires
            old(self).well_formed(),
        ensures
            final(self).well_formed(),
            Self::same_shape(final(self), old(self)),
            final(self).state() == (ClipState {
                reflex: reflex_list(old(self).spec_vertices(), old(self).state().rem, old(self).n() as nat),
                ..old(self).state()
            }),
    {
        self.reflex.clear();
        let n = self.vertices.len();
        let mut v: usize = 0;
        while v < n
            invariant
                self.well_formed(),
                Self::same_shape(self, old(self)),
                n == self.n(),
                v <= n,
                self.state() == (ClipState {
                    reflex: reflex_list(old(self).spec_vertices(), old(self).state().rem, v as nat),
                    ..old(self).state()
                }),
            decreases n - v,
        {
            if self.is_vertex_reflex(v) {
                proof {
                    lemma_push_below(self.reflex@, v, self.n());
                }
                self.reflex.push(v);
            }
            v = v + 1;
        }
    }

    /// Collects the ears among the vertices that are not reflex, in order.
    fn find_ears(&mut self)
        requires
            old(self).well_formed(),
        ensures
            final(self).well_formed(),
            Self::same_shape(final(self), old(self)),
            final(self).state() == (ClipState {
                ears: ear_list(old(self).spec_vertices(), 
                    old(self).state().rem,
                    old(self).state().reflex,
                    old(self).n() as nat,
                ),
                ..old(self).state()
            }),
    {
        self.ears.clear();
        let n = self.vertices.len();
        let mut v: usize = 0;
        while v < n
            invariant
                self.well_formed(),
                Self::same_shape(self, old(self)),
                n == self.n(),
                v <= n,
                self.state() == (ClipState {
                    ears: ear_list(old(self).spec_vertices(), old(self).state().rem, old(self).state().reflex, v as nat),
                    ..old(self).state()
                }),
            decreases n - v,
        {
            if !contains_vertex(&self.reflex, v) {
                if self.is_vertex_ear(v) {
                    proof {
                        lemma_push_below(self.ears@, v, self.n());
                    }
                    self.ears.push(v);
                }
            }
            v = v + 1;
        }
    }

    /// Finds the reflex vertices and then the ears.
    fn prepare_polygon(&mut self)
        requires
            old(self).well_formed(),
        ensures
            final(self).well_formed(),
            Self::same_shape(final(self), old(self)),
            final(self).state() == (ClipState {
                reflex: reflex_list(old(self).spec_vertices(), old(self).state().rem, old(self).n() as nat),
                ears: ear_list(old(self).spec_vertices(), 
                    old(self).state().rem,
                    reflex_list(old(self).spec_vertices(), old(self).state().rem, old(self).n() as nat),
                    old(self).n() as nat,
                ),
                ..old(self).state()
            }),
    {
        self.find_reflex_vertices();
        self.find_ears();
    }
}

/// `st` with the last triangle cut: the one of the first three remaining vertices.
pub open spec fn close_off(st: ClipState) -> ClipState {
    ClipState { tris: st.tris.push((st.rem[0], st.rem[1], st.rem[2])), ..st }
}

/// The vertices `0, 1, ..., n - 1`.
pub open spec fn all_vertices(n: nat) -> Seq<usize> {
    Seq::new(n, |i: int| i as usize)
}

/// The state that triangulation starts from: all vertices remain, the reflex
/// vertices and the ears are those found with the remaining vertices `rem`
/// held before, and no triangle is cut.
pub open spec fn start_state(pts: Seq<Point>, rem: Seq<usize>) -> ClipState {
    let reflex = reflex_list(pts, rem, pts.len());
    ClipState {
        rem: all_vertices(pts.len()),
        ears: ear_list(pts, rem, reflex, pts.len()),
        reflex: reflex,
        tris: Seq::empty(),
    }
}

/// The outcome of triangulating: clipping runs from the start state, and the
/// three vertices that remain first give the last triangle.
pub open spec fn triangulated(pts: Seq<Point>, rem: Seq<usize>) -> ClipState {
    close_off(clip_run(pts, start_state(pts, rem)))
}

impl Polygon {
    /// Looks again at vertex `v` after a clip (see `update_at`).
    fn update_vertex(&mut self, v: usize)
        requires
            old(self).well_formed(),
            v < old(self).n(),
            old(self).state().rem.contains(v),
        ensures
            final(self).well_formed(),
            Self::same_shape(final(self), old(self)),
            final(self).state() == update_at(old(self).spec_vertices(), old(self).state(), v as int),
    {
        proof {
            lemma_update(self.spec_vertices(), self.state(), v as int);
            lemma_without(self.reflex@, v);
            lemma_all_below_subset(without(self.reflex@, v), self.reflex@, self.n());
        }
        if contains_vertex(&self.reflex, v) {
            if self.is_vertex_reflex(v) {
                return;
            }
            remove_all(&mut self.reflex, v);
        }
        if self.is_vertex_ear(v) {
            self.ears.push(v);
        } else {
            remove_all(&mut self.ears, v);
        }
    }

    /// Triangulates by ear clipping (see `triangulated`): finds the reflex vertices
    /// and the ears, then clips the last ear while more than three vertices remain
    /// and an ear is left, and closes off with the first three remaining vertices.
    fn triangulate(&mut self)
        requires
            old(self).well_formed(),
        ensures
            final(self).well_formed(),
            Self::same_shape(final(self), old(self)),
            final(self).state() == triangulated(old(self).spec_vertices(), old(self).state().rem),
    {
        let ghost pts = self.spec_vertices();
        self.prepare_polygon();
        self.triangles.clear();
        let n = self.vertices.len();
        let mut all: Vec<usize> = Vec::new();
        let mut v: usize = 0;
        while v < n
            invariant
                v <= n,
                all@ == all_vertices(v as nat),
            decreases n - v,
        {
            all.push(v);
            v = v + 1;
            assert(all@ =~= all_vertices(v as nat));
        }
        self.remaining_vertices = all;
        let ghost start = self.state();
        assert(start == start_state(pts, old(self).state().rem));
        assert(all_below(self.remaining_vertices@, self.n()));
        assert(self.remaining_vertices@.no_duplicates());
        assert(self.remaining_vertices@.len() >= 1) by {
            assert(self.remaining_vertices@[0] == 0);
        }
        assert(tris_below(self.triangles@, self.n()));
        while self.remaining_vertices.len() > 3 && self.ears.len() > 0
            invariant
                self.well_formed(),
                Self::same_shape(self, old(self)),
                pts == self.spec_vertices(),
                self.state().rem.len() >= 3,
                clip_run(pts, self.state()) == clip_run(pts, start),
            decreases self.remaining_vertices@.len(), dead_count(self.ears@, self.remaining_vertices@),
        {
            let ghost st = self.state();
            proof {
                lemma_step(pts, st);
            }
            let ear_index = match self.ears.pop() {
                Some(e) => e,
                None => 0,
            };
            assert(st.ears[st.ears.len() - 1] < self.n());
            assert(self.ears@ =~= st.ears.drop_last());
            let (in_v, out_v) = self.get_neighbour_vertices(ear_index);
            self.triangles.push((in_v, ear_index, out_v));
            remove_all(&mut self.remaining_vertices, ear_index);
            proof {
                lemma_without(st.rem, ear_index);
                lemma_all_below_subset(self.remaining_vertices@, st.rem, self.n());
                lemma_drop_last_below(st.ears, self.n());
                assert(tris_below(self.triangles@, self.n())) by {
                    assert forall|k: int| 0 <= k < self.triangles@.len() implies (
                    #[trigger] self.triangles@[k]).0 < self.n() && self.triangles@[k].1 < self.n()
                        && self.triangles@[k].2 < self.n() by {
                        if k < st.tris.len() {
                            assert(self.triangles@[k] == st.tris[k]);
                        }
                    }
                }
                if st.rem.contains(ear_index) {
                    assert(st.rem[0] != st.rem[1]);
                    let r2: int = if st.rem[0] != ear_index {
                        st.rem[0] as int
                    } else {
                        st.rem[1] as int
                    };
                    assert(st.rem.contains(st.rem[0]));
                    assert(st.rem.contains(st.rem[1]));
                    lemma_back_first(st.rem, self.n(), ear_index as int, pts.len(), r2);
                    lemma_fwd_first(st.rem, self.n(), ear_index as int, pts.len(), r2);
                }
            }
            self.update_vertex(in_v);
            self.update_vertex(out_v);
            assert(self.state() == clip_step(pts, st));
        }
        let first = self.remaining_vertices[0];
        let second = self.remaining_vertices[1];
        let third = self.remaining_vertices[2];
        self.triangles.push((first, second, third));
    }
}

impl Polygon {
    /// The polygon with these vertices joined in order into one cycle, triangulated
    /// (see `triangulated`, with all vertices remaining beforehand). `None` where
    /// there are fewer than three vertices or a coordinate is not strictly between
    /// -1 and 1.
    pub fn from_vertices(name: EntityName, vertices: Vec<Point>) -> (r: Option<Polygon>)
        ensures
            r is Some <==> vertices@.len() >= 3 && forall|v: int|
                0 <= v < vertices@.len() ==> in_unit_range(#[trigger] vertices@[v]),
            r matches Some(p) ==> p.well_formed() && p.spec_name() == name@ && p.spec_vertices()
                == vertices@ && p.state() == triangulated(vertices@, all_vertices(vertices@.len())),
    {
        let n = vertices.len();
        if n < 3 {
            return None;
        }
        let mut k: usize = 0;
        while k < n
            invariant
                n == vertices@.len(),
                k <= n,
                forall|v: int| 0 <= v < k ==> in_unit_range(#[trigger] vertices@[v]),
            decreases n - k,
        {
            let p = &vertices[k];
            if !(-SCALE < p.x() && p.x() < SCALE && -SCALE < p.y() && p.y() < SCALE) {
                assert(!in_unit_range(vertices@[k as int]));
                return None;
            }
            k = k + 1;
        }
        let mut edges: Vec<Edge> = Vec::new();
        let mut remaining: Vec<usize> = Vec::new();
        let mut i: usize = 0;
        while i < n
            invariant
                n == vertices@.len(),
                i <= n,
                edges@.len() == i,
                forall|j: int|
                    0 <= j < i ==> (#[trigger] edges@[j]).start == j && edges@[j].end == succ(
                        n as int,
                        j,
                    ),
                remaining@ == all_vertices(i as nat),
            decreases n - i,
        {
            let next = if i + 1 < n {
                i + 1
            } else {
                0
            };
            edges.push(Edge::new(i, next));
            remaining.push(i);
            i = i + 1;
            assert(remaining@ =~= all_vertices(i as nat));
        }
        let mut polygon = Polygon {
            name,
            vertices,
            edges,
            triangles: Vec::new(),
            ears: Vec::new(),
            reflex: Vec::new(),
            remaining_vertices: remaining,
        };
        assert(polygon.remaining_vertices@[0] == 0);
        assert(polygon.well_formed());
        polygon.triangulate();
        Some(polygon)
    }

    /// The triangles cut, by vertex indices.
    pub fn triangles(&self) -> (r: &Vec<Triangle>)
        ensures
            r@ == self.state().tris,
    {
        &self.triangles
    }

    pub fn vertices(&self) -> (r: &Vec<Point>)
        ensures
            r@ == self.spec_vertices(),
    {
        &self.vertices
    }

    pub fn edges(&self) -> (r: &Vec<Edge>)
        ensures
            r@ == self.spec_edges(),
    {
        &self.edges
    }

    pub fn name(&self) -> (r: &EntityName)
        ensures
            r@ == self.spec_name(),
    {
        &self.name
    }

    /// The vertices that were not clipped.
    pub fn remaining_vertices(&self) -> (r: &Vec<usize>)
        ensures
            r@ == self.state().rem,
    {
        &self.remaining_vertices
    }
}

/// Whether `v` holds `x`.
fn contains_vertex(v: &Vec<usize>, x: usize) -> (r: bool)
    ensures
        r == v@.contains(x),
{
    let mut k: usize = 0;
    while k < v.len()
        invariant
            k <= v@.len(),
            forall|m: int| 0 <= m < k ==> v@[m] != x,
        decreases v.len() - k,
    {
        if v[k] == x {
            assert(v@[k as int] == x);
            return true;
        }
        k = k + 1;
    }
    false
}

} // verus!
