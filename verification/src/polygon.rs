//! Horizontal cords of a polygon and the order in which cords and vertices
//! meet its boundary (the first steps of a visibility-map triangulation).
//!
//! From every vertex a horizontal cord is cast to the right and to the left;
//! it ends on the nearest edge it crosses. Ties between equal coordinates are
//! broken by the simulation-of-simplicity order of `fixed::coord_smaller`.
use vstd::prelude::*;
use crate::fixed::{
    checked_fx_add, checked_fx_div, checked_fx_mul, checked_fx_sub, coord_smaller, fits_i128,
    fx_add, fx_div, fx_mul, fx_sub, opt_add, opt_div, opt_mul, FixedNumber, Point, SCALE,
};
use crate::names::EntityName;

verus! {

/// An edge of a polygon, from one vertex index to another.
pub struct Edge {
    pub start: usize,
    pub end: usize,
}

impl Edge {
    pub fn new(start: usize, end: usize) -> (e: Edge)
        ensures
            e.start == start,
            e.end == end,
    {
        Edge { start, end }
    }
}

/// A cord: a horizontal segment cast from a vertex. `intersection` is the edge it
/// ends on and the point where it meets it; a cord whose vertex is a global
/// extremum meets its own vertex after wrapping around and has no intersection.
pub struct Cord {
    pub origin_vertex: usize,
    pub intersection: Option<(usize, Point)>,
    pub wrap_around: bool,
}

/// What a cord says: its vertex, the edge and point `(x, y)` it ends on, and whether it wraps.
pub type CordView = (int, Option<(int, int, int)>, bool);

/// The view of a cord.
pub open spec fn cord_view(c: Cord) -> CordView {
    (
        c.origin_vertex as int,
        match c.intersection {
            Some(hit) => Some((hit.0 as int, hit.1.sx(), hit.1.sy())),
            None => None,
        },
        c.wrap_around,
    )
}

/// A found hit as plain values: its edge and point.
pub open spec fn hit_view(h: Option<(usize, Point)>) -> Option<(int, int, int)> {
    match h {
        Some(hit) => Some((hit.0 as int, hit.1.sx(), hit.1.sy())),
        None => None,
    }
}

/// What each cord of `cs` says.
pub open spec fn cords_view_of(cs: Seq<Cord>) -> Seq<CordView> {
    cs.map_values(|c: Cord| cord_view(c))
}

/// A point on the doubled boundary: a vertex or the end of a cord.
#[derive(PartialEq, Eq, Structural, Debug, Clone, Copy)]
pub enum DoubleBoundaryPoint {
    Vertex(usize),
    CordEndpoint(usize),
}

/// Where a horizontal line through `(ox, oy)` meets the line through the edge
/// from `(sx, sy)` to `(ex, ey)`, as the fixed-point arithmetic computes it;
/// `None` where a step would overflow or divide by zero.
pub open spec fn intersection_spec(ox: int, oy: int, sx: int, sy: int, ex: int, ey: int) -> Option<
    (int, int),
> {
    match (fx_sub(ex, sx), fx_sub(ey, sy)) {
        (Some(dx), Some(dy)) => {
            if dx == 0 {
                Some((sx, oy))
            } else {
                match fx_sub(oy, sy) {
                    Some(a) => match fx_div(a, dy) {
                        Some(r) => match (fx_mul(dx, r), fx_mul(dy, r)) {
                            (Some(mx), Some(my)) => match (fx_add(sx, mx), fx_add(sy, my)) {
                                (Some(x), Some(y)) => Some((x, y)),
                                _ => None,
                            },
                            _ => None,
                        },
                        None => None,
                    },
                    None => None,
                }
            }
        },
        _ => None,
    }
}

/// On which side of the line through the edge from `(sx, sy)` to `(ex, ey)` the
/// point `(ox, oy)` lies, as the fixed-point arithmetic computes it: the parameter
/// at which the ray from the point along the edge's direction turned by 270 degrees
/// meets the line. A positive value means the point is left of the edge. `None`
/// where a step would overflow or divide by zero.
pub open spec fn side_t(ox: int, oy: int, sx: int, sy: int, ex: int, ey: int) -> Option<int> {
    match (fx_sub(ex, sx), fx_sub(ey, sy)) {
        (Some(dx), Some(dy)) => {
            if dx == 0 {
                opt_div(fx_sub(sx, ox), Some(dy))
            } else if dy == 0 {
                opt_div(fx_sub(oy, sy), Some(dx))
            } else {
                let v = opt_add(
                    opt_div(fx_sub(sx, ox), Some(dy)),
                    opt_div(opt_mul(fx_sub(oy, sy), Some(dx)), fx_mul(dy, dy)),
                );
                opt_div(v, opt_add(Some(SCALE as int), opt_div(fx_mul(dx, dx), fx_mul(dy, dy))))
            }
        },
        _ => None,
    }
}

/// The squared distance between two points given by raw values; `None` where a
/// step would overflow.
pub open spec fn dist2(ax: int, ay: int, bx: int, by: int) -> Option<int> {
    match (fx_sub(ax, bx), fx_sub(ay, by)) {
        (Some(a), Some(b)) => if fits_i128(a * a) && fits_i128(b * b) && fits_i128(a * a + b * b) {
            Some(a * a + b * b)
        } else {
            None
        },
        _ => None,
    }
}

/// A polygon given by its vertices and edges, with the cords cast from its vertices.
pub struct Polygon {
    name: EntityName,
    vertices: Vec<Point>,
    edges: Vec<Edge>,
    triangles: Vec<(usize, usize, usize)>,
    cords: Vec<Cord>,
}

impl Polygon {
    pub closed spec fn spec_vertices(&self) -> Seq<Point> {
        self.vertices@
    }

    pub closed spec fn spec_edges(&self) -> Seq<Edge> {
        self.edges@
    }

    pub closed spec fn spec_cords(&self) -> Seq<Cord> {
        self.cords@
    }

    pub closed spec fn spec_triangles(&self) -> Seq<(usize, usize, usize)> {
        self.triangles@
    }

    pub closed spec fn spec_name(&self) -> Seq<char> {
        self.name@
    }

    /// Every edge joins two existing vertices, and every coordinate sits on its own axis.
    pub open spec fn well_formed(&self) -> bool {
        &&& self.spec_edges().len() <= usize::MAX
        &&& self.spec_vertices().len() <= usize::MAX
        &&& forall|e: int|
            0 <= e < self.spec_edges().len() ==> #[trigger] self.spec_edges()[e].start
                < self.spec_vertices().len() && self.spec_edges()[e].end
                < self.spec_vertices().len()
        &&& forall|v: int|
            0 <= v < self.spec_vertices().len() ==> #[trigger] self.spec_vertices()[v].axes_ok()
    }

    /// Raw x of vertex `v`.
    pub open spec fn vx(&self, v: int) -> int {
        self.spec_vertices()[v].sx()
    }

    /// Raw y of vertex `v`.
    pub open spec fn vy(&self, v: int) -> int {
        self.spec_vertices()[v].sy()
    }

    /// The intersection of the horizontal line through vertex `o` with edge `e`.
    pub open spec fn cord_hit(&self, o: int, e: int) -> Option<(int, int)> {
        let ed = self.spec_edges()[e];
        intersection_spec(
            self.vx(o),
            self.vy(o),
            self.vx(ed.start as int),
            self.vy(ed.start as int),
            self.vx(ed.end as int),
            self.vy(ed.end as int),
        )
    }

    /// Whether vertex `j` lies on the given side of vertex `i` in the x order.
    pub open spec fn on_side(&self, i: int, j: int, right: bool) -> bool {
        j != i && (coord_smaller(
            self.vx(j),
            j,
            self.spec_vertices()[j].x.axis() as int,
            self.vx(i),
            i,
            self.spec_vertices()[i].x.axis() as int,
        ) != right)
    }

    /// Whether coordinate y of vertex `v` comes before the y coordinate `(ov, oa)` of vertex `i`.
    pub open spec fn below(&self, v: int, ov: int, oa: int, i: int) -> bool {
        coord_smaller(self.vy(v), v, self.spec_vertices()[v].y.axis() as int, ov, i, oa)
    }

    /// Whether edge `e` leaves vertex `j` toward a vertex other than `i` and has
    /// one end below and one end above the y coordinate `(ov, oa)` of vertex `i`.
    pub open spec fn qualifies(&self, ov: int, oa: int, i: int, j: int, e: int) -> bool {
        let s = self.spec_edges()[e].start as int;
        let t = self.spec_edges()[e].end as int;
        &&& ((s == j && t != i) || (t == j && s != i))
        &&& self.below(s, ov, oa, i) != self.below(t, ov, oa, i)
    }

    /// The edges among the first `k` that qualify at vertex `j`, appended to `acc`
    /// in index order where `acc` does not hold them yet.
    pub open spec fn scan_edges(
        &self,
        ov: int,
        oa: int,
        i: int,
        j: int,
        acc: Seq<usize>,
        k: nat,
    ) -> Seq<usize>
        decreases k,
    {
        if k == 0 {
            acc
        } else {
            let a = self.scan_edges(ov, oa, i, j, acc, (k - 1) as nat);
            if self.qualifies(ov, oa, i, j, k - 1) && !a.contains((k - 1) as usize) {
                a.push((k - 1) as usize)
            } else {
                a
            }
        }
    }

    /// The edges that qualify at the first `m` vertices on the given side of `i`,
    /// each once, in the order the vertices and then the edges are visited.
    pub open spec fn scan_vertices(&self, ov: int, oa: int, i: int, right: bool, m: nat) -> Seq<
        usize,
    >
        decreases m,
    {
        if m == 0 {
            Seq::empty()
        } else {
            let a = self.scan_vertices(ov, oa, i, right, (m - 1) as nat);
            if self.on_side(i, m - 1, right) {
                self.scan_edges(ov, oa, i, m - 1, a, self.spec_edges().len())
            } else {
                a
            }
        }
    }

    /// The edges that a horizontal cord through the y coordinate `(ov, oa)` of vertex
    /// `i` may cross, found from the vertices on the given side of `i`.
    pub open spec fn cord_candidates(&self, ov: int, oa: int, i: int, right: bool) -> Seq<usize> {
        self.scan_vertices(ov, oa, i, right, self.spec_vertices().len())
    }

    /// Whether edge `e` avoids vertex `i` and has one end below and one above its y.
    pub open spec fn crosses(&self, i: int, e: int) -> bool {
        let s = self.spec_edges()[e].start as int;
        let t = self.spec_edges()[e].end as int;
        &&& s != i
        &&& t != i
        &&& self.below(s, self.vy(i), 1, i) != self.below(t, self.vy(i), 1, i)
    }

    /// Every cord can be intersected with every edge it crosses without overflow or
    /// division by zero (a horizontal edge crossed in the coordinate order cannot).
    pub open spec fn cords_computable(&self) -> bool {
        forall|i: int, e: int|
            0 <= i < self.spec_vertices().len() && 0 <= e < self.spec_edges().len()
                && #[trigger] self.crosses(i, e) ==> (#[trigger] self.cord_hit(i, e)) is Some
    }

    /// The nearest hit to the right of vertex `i` among the first `k` candidates:
    /// the hit with the smallest x, taking only hits right of the vertex unless
    /// `wrapped` (a cord that wraps around meets the leftmost hit); the first one on
    /// ties; `None` when there is none.
    pub open spec fn nearest_right(&self, i: int, cands: Seq<usize>, wrapped: bool, k: nat) -> Option<
        (int, int, int),
    >
        decreases k,
    {
        if k == 0 {
            None
        } else {
            let acc = self.nearest_right(i, cands, wrapped, (k - 1) as nat);
            let e = cands[k - 1] as int;
            match self.cord_hit(i, e) {
                Some(p) => if (wrapped || p.0 > self.vx(i)) && (acc is None || p.0 < acc.unwrap().1) {
                    Some((e, p.0, p.1))
                } else {
                    acc
                },
                None => acc,
            }
        }
    }

    /// The nearest hit to the left of vertex `i` among the first `k` candidates:
    /// the hit with the largest x, taking only hits left of the vertex unless
    /// `wrapped` (a cord that wraps around meets the rightmost hit); the first one
    /// on ties; `None` when there is none.
    pub open spec fn nearest_left(&self, i: int, cands: Seq<usize>, wrapped: bool, k: nat) -> Option<
        (int, int, int),
    >
        decreases k,
    {
        if k == 0 {
            None
        } else {
            let acc = self.nearest_left(i, cands, wrapped, (k - 1) as nat);
            let e = cands[k - 1] as int;
            match self.cord_hit(i, e) {
                Some(p) => if (wrapped || p.0 < self.vx(i)) && (acc is None || p.0 > acc.unwrap().1) {
                    Some((e, p.0, p.1))
                } else {
                    acc
                },
                None => acc,
            }
        }
    }

    /// The right cord of vertex `i` over the crossed edges `pool`: the nearest hit
    /// right of the vertex, or, where there is none, the cord wraps around to the
    /// leftmost hit.
    pub open spec fn right_cord(&self, i: int, pool: Seq<usize>) -> (int, Option<(int, int, int)>, bool) {
        match self.nearest_right(i, pool, false, pool.len()) {
            Some(h) => (i, Some(h), false),
            None => (i, self.nearest_right(i, pool, true, pool.len()), true),
        }
    }

    /// The left cord of vertex `i` over the crossed edges `pool`: the nearest hit
    /// left of the vertex, or, where there is none, the cord wraps around to the
    /// rightmost hit.
    pub open spec fn left_cord(&self, i: int, pool: Seq<usize>) -> (int, Option<(int, int, int)>, bool) {
        match self.nearest_left(i, pool, false, pool.len()) {
            Some(h) => (i, Some(h), false),
            None => (i, self.nearest_left(i, pool, true, pool.len()), true),
        }
    }

    /// The cords cast from vertex `i` along its height. A vertex that no edge
    /// crosses there is a global extremum: it gets one cord that wraps around to
    /// itself and meets no edge. Any other vertex gets its right cord and then its
    /// left cord, each ending on the nearest edge on its side, or wrapping around
    /// to the far end of the crossed edges where no edge is met on that side.
    pub open spec fn cords_of(&self, i: int) -> Seq<(int, Option<(int, int, int)>, bool)> {
        let r0 = self.cord_candidates(self.vy(i), 1, i, true);
        let l0 = self.cord_candidates(self.vy(i), 1, i, false);
        if r0.len() == 0 && l0.len() == 0 {
            seq![(i, None, true)]
        } else {
            seq![self.right_cord(i, r0 + l0), self.left_cord(i, l0 + r0)]
        }
    }

    /// The cords of the first `m` vertices, vertex by vertex.
    pub open spec fn cords_upto(&self, m: nat) -> Seq<(int, Option<(int, int, int)>, bool)>
        decreases m,
    {
        if m == 0 {
            Seq::empty()
        } else {
            self.cords_upto((m - 1) as nat) + self.cords_of(m - 1)
        }
    }

    /// What the polygon's cords say (see `cord_view`).
    pub open spec fn cords_view(&self) -> Seq<CordView> {
        cords_view_of(self.spec_cords())
    }

    /// Whether cord `c` of `cs` ends on edge `e`.
    pub open spec fn on_edge(cs: Seq<CordView>, c: int, e: int) -> bool {
        match cs[c].1 {
            Some(hit) => hit.0 == e,
            None => false,
        }
    }

    /// The point a cord is seen from: its vertex, or for a wrapping cord the point
    /// at x = -1 or x = 1 (on the far side from its end) at the vertex's height.
    pub open spec fn cord_origin(&self, cs: Seq<CordView>, c: int) -> (int, int) {
        let o = cs[c].0;
        if cs[c].2 {
            match cs[c].1 {
                Some(hit) => (
                    (if self.vx(o) > hit.1 {
                        -1int
                    } else {
                        1int
                    }) * SCALE,
                    self.vy(o),
                ),
                None => (self.vx(o), self.vy(o)),
            }
        } else {
            (self.vx(o), self.vy(o))
        }
    }

    /// On which side of edge `e` cord `c` comes from (see `side_t`).
    pub open spec fn cord_side(&self, cs: Seq<CordView>, c: int, e: int) -> Option<int> {
        let o = self.cord_origin(cs, c);
        let ed = self.spec_edges()[e];
        side_t(
            o.0,
            o.1,
            self.vx(ed.start as int),
            self.vy(ed.start as int),
            self.vx(ed.end as int),
            self.vy(ed.end as int),
        )
    }

    /// The squared distance from the start of edge `e` to where cord `c` ends.
    pub open spec fn cord_dist(&self, cs: Seq<CordView>, c: int, e: int) -> Option<int> {
        match cs[c].1 {
            Some(hit) => dist2(
                hit.1,
                hit.2,
                self.vx(self.spec_edges()[e].start as int),
                self.vy(self.spec_edges()[e].start as int),
            ),
            None => None,
        }
    }

    /// There is a vertex, every cord of `cs` starts at a vertex, and for every cord
    /// ending on an edge its side and its distance can be computed without overflow.
    pub open spec fn boundary_computable_for(&self, cs: Seq<CordView>) -> bool {
        &&& self.spec_vertices().len() >= 1
        &&& cs.len() <= usize::MAX
        &&& forall|c: int| 0 <= c < cs.len() ==> 0 <= (#[trigger] cs[c]).0 < self.spec_vertices().len()
        &&& forall|c: int, e: int|
            0 <= c < cs.len() && 0 <= e < self.spec_edges().len() && #[trigger] Self::on_edge(
                cs,
                c,
                e,
            ) ==> self.cord_side(cs, c, e) is Some && self.cord_dist(cs, c, e) is Some
    }

    /// `boundary_computable_for` the polygon's own cords.
    pub open spec fn boundary_computable(&self) -> bool {
        self.boundary_computable_for(self.cords_view())
    }

    pub open spec fn side_of(&self, cs: Seq<CordView>, c: int, e: int) -> int {
        match self.cord_side(cs, c, e) {
            Some(t) => t,
            None => 0,
        }
    }

    pub open spec fn dist_of(&self, cs: Seq<CordView>, c: int, e: int) -> int {
        match self.cord_dist(cs, c, e) {
            Some(d) => d,
            None => 0,
        }
    }

    /// The cords among the first `k` of `cs` that end on edge `e` and come from its
    /// left side (`left`) or not, in cord order.
    pub open spec fn picks(&self, cs: Seq<CordView>, e: int, left: bool, k: nat) -> Seq<usize>
        decreases k,
    {
        if k == 0 {
            Seq::empty()
        } else {
            let a = self.picks(cs, e, left, (k - 1) as nat);
            if Self::on_edge(cs, k - 1, e) && (self.side_of(cs, k - 1, e) > 0) == left {
                a.push((k - 1) as usize)
            } else {
                a
            }
        }
    }

    /// Where a cord with distance `key` goes into `s`: after the first `m`
    /// entries that are not farther than it.
    pub open spec fn ins_pos(&self, cs: Seq<CordView>, e: int, s: Seq<usize>, key: int, m: nat) -> nat
        decreases m,
    {
        if m == 0 {
            0
        } else if self.dist_of(cs, s[m - 1] as int, e) > key {
            self.ins_pos(cs, e, s, key, (m - 1) as nat)
        } else {
            m
        }
    }

    /// The cords of `s` ordered by distance from the start of edge `e`, stably:
    /// each cord goes after those before it that are not farther.
    pub open spec fn sort_by_dist(&self, cs: Seq<CordView>, e: int, s: Seq<usize>) -> Seq<usize>
        decreases s.len(),
    {
        if s.len() == 0 {
            s
        } else {
            let t = self.sort_by_dist(cs, e, s.drop_last());
            let c = s.last();
            t.insert(self.ins_pos(cs, e, t, self.dist_of(cs, c as int, e), t.len()) as int, c)
        }
    }

    /// The ends of the cords on edge `e` from the given side, nearest to its start first.
    pub open spec fn endpoints(&self, cs: Seq<CordView>, e: int, left: bool) -> Seq<
        DoubleBoundaryPoint,
    > {
        self.sort_by_dist(cs, e, self.picks(cs, e, left, cs.len())).map_values(
            |c: usize| DoubleBoundaryPoint::CordEndpoint(c),
        )
    }

    /// Along the first `k` edges: each edge's start, then the ends of the cords
    /// on it from the given side.
    pub open spec fn walk(&self, cs: Seq<CordView>, left: bool, k: nat) -> Seq<DoubleBoundaryPoint>
        decreases k,
    {
        if k == 0 {
            Seq::empty()
        } else {
            self.walk(cs, left, (k - 1) as nat) + seq![
                DoubleBoundaryPoint::Vertex(self.spec_edges()[k - 1].start),
            ] + self.endpoints(cs, k - 1, left)
        }
    }

    /// The doubled boundary for the cords `cs`: forward along the edges with the
    /// cords from the left, the last vertex, then backward along the edges with the
    /// cords from the right.
    pub open spec fn boundary_order_for(&self, cs: Seq<CordView>) -> Seq<DoubleBoundaryPoint> {
        self.walk(cs, true, self.spec_edges().len()) + seq![
            DoubleBoundaryPoint::Vertex((self.spec_vertices().len() - 1) as usize),
        ] + self.walk(cs, false, self.spec_edges().len()).reverse()
    }

    /// The vertices, the edges, no triangles and no cords; `None` where an edge
    /// names a vertex that does not exist or a coordinate is not on its axis.
    pub fn from_parts(name: EntityName, vertices: Vec<Point>, edges: Vec<Edge>) -> (r: Option<
        Polygon,
    >)
        ensures
            r is Some <==> (forall|e: int|
                0 <= e < edges@.len() ==> #[trigger] edges@[e].start < vertices@.len()
                    && edges@[e].end < vertices@.len()) && (forall|v: int|
                0 <= v < vertices@.len() ==> #[trigger] vertices@[v].axes_ok()),
            r matches Some(p) ==> p.well_formed() && p.spec_vertices() == vertices@
                && p.spec_edges() == edges@ && p.spec_triangles().len() == 0
                && p.spec_cords().len() == 0 && p.spec_name() == name@,
    {
        let mut k: usize = 0;
        while k < edges.len()
            invariant
                k <= edges@.len(),
                forall|e: int|
                    0 <= e < k ==> #[trigger] edges@[e].start < vertices@.len() && edges@[e].end
                        < vertices@.len(),
            decreases edges.len() - k,
        {
            if edges[k].start >= vertices.len() || edges[k].end >= vertices.len() {
                assert(!(edges@[k as int].start < vertices@.len() && edges@[k as int].end
                    < vertices@.len()));
                return None;
            }
            k = k + 1;
        }
        let mut v: usize = 0;
        while v < vertices.len()
            invariant
                v <= vertices@.len(),
                forall|w: int| 0 <= w < v ==> #[trigger] vertices@[w].axes_ok(),
            decreases vertices.len() - v,
        {
            if vertices[v].x.index != 0 || vertices[v].y.index != 1 {
                assert(!vertices@[v as int].axes_ok());
                return None;
            }
            v = v + 1;
        }
        Some(Polygon { name, vertices, edges, triangles: Vec::new(), cords: Vec::new() })
    }

    /// Where the horizontal line through vertex `origin` meets the line through `edge`.
    /// A vertical edge is met at its start's x. The direction of the cord does not
    /// matter: once the side of the edge is known, a horizontal line meets it at most once.
    pub fn cord_edge_intersection(&self, origin: usize, edge: &Edge) -> (p: Point)
        requires
            origin < self.spec_vertices().len(),
            edge.start < self.spec_vertices().len(),
            edge.end < self.spec_vertices().len(),
            intersection_spec(
                self.vx(origin as int),
                self.vy(origin as int),
                self.vx(edge.start as int),
                self.vy(edge.start as int),
                self.vx(edge.end as int),
                self.vy(edge.end as int),
            ) is Some,
        ensures
            p.axes_ok(),
            Some((p.sx(), p.sy())) == intersection_spec(
                self.vx(origin as int),
                self.vy(origin as int),
                self.vx(edge.start as int),
                self.vy(edge.start as int),
                self.vx(edge.end as int),
                self.vy(edge.end as int),
            ),
    {
        let o = &self.vertices[origin];
        let o2 = &self.vertices[edge.start];
        let e2 = &self.vertices[edge.end];
        let dx = e2.x.value.sub(o2.x.value);
        let dy = e2.y.value.sub(o2.y.value);
        let direction2 = Point::new(dx, dy);
        if direction2.x.value.0 == 0 {
            Point::new(o2.x.value, o.y.value)
        } else {
            let a = o.y.value.sub(o2.y.value);
            let r = a.div(direction2.y.value);
            let mx = direction2.x.value.mul(r);
            let my = direction2.y.value.mul(r);
            Point::new(o2.x.value.add(mx), o2.y.value.add(my))
        }
    }
}

impl Polygon {
    /// The edges that the horizontal cord through `origin`, cast from vertex
    /// `origin_index`, may cross: those leaving a vertex on the given side of
    /// `origin_index` (toward a vertex other than it) with one end below and
    /// one above `origin`.
    pub fn find_possible_cord_intersecting_edges(
        &self,
        origin: &Point,
        origin_index: usize,
        right: bool,
    ) -> (r: Vec<usize>)
        requires
            self.well_formed(),
            origin_index < self.spec_vertices().len(),
        ensures
            r@ == self.cord_candidates(
                origin.y.value.raw(),
                origin.y.axis() as int,
                origin_index as int,
                right,
            ),
    {
        let ghost ov = origin.y.value.raw();
        let ghost oa = origin.y.axis() as int;
        let ghost i = origin_index as int;
        let mut found: Vec<usize> = Vec::new();
        let n = self.vertices.len();
        let mut j: usize = 0;
        while j < n
            invariant
                self.well_formed(),
                n == self.spec_vertices().len(),
                origin_index < n,
                j <= n,
                ov == origin.y.value.raw(),
                oa == origin.y.axis() as int,
                i == origin_index as int,
                found@ == self.scan_vertices(ov, oa, i, right, j as nat),
            decreases n - j,
        {
            let on_side = j != origin_index && (self.vertices[j].x.smaller(
                j,
                &self.vertices[origin_index].x,
                origin_index,
            ) != right);
            if on_side {
                let ghost a0 = found@;
                let mut k: usize = 0;
                while k < self.edges.len()
                    invariant
                        self.well_formed(),
                        n == self.spec_vertices().len(),
                        origin_index < n,
                        j < n,
                        k <= self.spec_edges().len(),
                        ov == origin.y.value.raw(),
                        oa == origin.y.axis() as int,
                        i == origin_index as int,
                        found@ == self.scan_edges(ov, oa, i, j as int, a0, k as nat),
                    decreases self.spec_edges().len() - k,
                {
                    let edge = &self.edges[k];
                    assert(self.well_formed());
                    assert(0 <= k < self.spec_edges().len());
                    assert(self.spec_edges()[k as int].start < n);
                    if (edge.start == j && edge.end != origin_index) || (edge.end == j && edge.start
                        != origin_index) {
                        let start = &self.vertices[edge.start];
                        let end = &self.vertices[edge.end];
                        let sb = start.y.smaller(edge.start, &origin.y, origin_index);
                        let eb = end.y.smaller(edge.end, &origin.y, origin_index);
                        if sb != eb {
                            if !contains_index(&found, k) {
                                found.push(k);
                            }
                        }
                    }
                    k = k + 1;
                }
            }
            j = j + 1;
        }
        found
    }
}

impl Polygon {
    /// Every edge in `s` exists, avoids `i` and crosses its horizontal.
    pub open spec fn all_cross(&self, i: int, s: Seq<usize>) -> bool {
        forall|x: int|
            0 <= x < s.len() ==> #[trigger] s[x] < self.spec_edges().len() && self.crosses(
                i,
                s[x] as int,
            )
    }

    /// Every candidate found by the scan crosses the cord of `i` and avoids `i`.
    proof fn lemma_scan_edges_cross(&self, i: int, j: int, acc: Seq<usize>, k: nat)
        requires
            self.well_formed(),
            0 <= i < self.spec_vertices().len(),
            j != i,
            k <= self.spec_edges().len(),
            self.all_cross(i, acc),
        ensures
            self.all_cross(i, self.scan_edges(self.vy(i), 1, i, j, acc, k)),
        decreases k,
    {
        if k > 0 {
            self.lemma_scan_edges_cross(i, j, acc, (k - 1) as nat);
            let a = self.scan_edges(self.vy(i), 1, i, j, acc, (k - 1) as nat);
            if self.qualifies(self.vy(i), 1, i, j, k - 1) && !a.contains((k - 1) as usize) {
                let b = a.push((k - 1) as usize);
                assert(self.crosses(i, k - 1));
                assert forall|x: int| 0 <= x < b.len() implies #[trigger] b[x]
                    < self.spec_edges().len() && self.crosses(i, b[x] as int) by {
                    if x < a.len() {
                        assert(b[x] == a[x]);
                    } else {
                        assert(b[x] == (k - 1) as usize);
                    }
                }
            }
        }
    }

    proof fn lemma_scan_vertices_cross(&self, i: int, right: bool, m: nat)
        requires
            self.well_formed(),
            0 <= i < self.spec_vertices().len(),
            m <= self.spec_vertices().len(),
        ensures
            self.all_cross(i, self.scan_vertices(self.vy(i), 1, i, right, m)),
        decreases m,
    {
        if m > 0 {
            self.lemma_scan_vertices_cross(i, right, (m - 1) as nat);
            if self.on_side(i, m - 1, right) {
                self.lemma_scan_edges_cross(
                    i,
                    m - 1,
                    self.scan_vertices(self.vy(i), 1, i, right, (m - 1) as nat),
                    self.spec_edges().len(),
                );
            }
        }
    }

    /// The nearest hit on the right (`right`) or left of vertex `i` among `cands`
    /// (see `nearest_right` and `nearest_left`).
    fn nearest_hit(&self, i: usize, cands: &Vec<usize>, wrapped: bool, right: bool) -> (r: Option<
        (usize, Point),
    >)
        requires
            self.well_formed(),
            self.cords_computable(),
            i < self.spec_vertices().len(),
            self.all_cross(i as int, cands@),
        ensures
            r matches Some(h) ==> h.1.axes_ok(),
            right ==> hit_view(r) == self.nearest_right(i as int, cands@, wrapped, cands@.len()),
            !right ==> hit_view(r) == self.nearest_left(i as int, cands@, wrapped, cands@.len()),
    {
        let vx = self.vertices[i].x.value.0;
        let mut best: Option<(usize, Point)> = None;
        let mut k: usize = 0;
        while k < cands.len()
            invariant
                self.well_formed(),
                self.cords_computable(),
                i < self.spec_vertices().len(),
                vx == self.vx(i as int),
                k <= cands@.len(),
                best matches Some(h) ==> h.1.axes_ok(),
                self.all_cross(i as int, cands@),
                right ==> hit_view(best) == self.nearest_right(i as int, cands@, wrapped, k as nat),
                !right ==> hit_view(best) == self.nearest_left(i as int, cands@, wrapped, k as nat),
            decreases cands@.len() - k,
        {
            let e = cands[k];
            assert(cands@[k as int] < self.spec_edges().len());
            assert(self.crosses(i as int, cands@[k as int] as int));
            assert(self.cord_hit(i as int, e as int) is Some);
            assert(self.spec_edges()[e as int].start < self.spec_vertices().len());
            assert(self.spec_edges()[e as int].end < self.spec_vertices().len());
            let p = self.cord_edge_intersection(i, &self.edges[e]);
            let px = p.x.value.0;
            let side_ok = if right {
                wrapped || px > vx
            } else {
                wrapped || px < vx
            };
            let better = match &best {
                None => true,
                Some(h) => if right {
                    px < h.1.x.value.0
                } else {
                    px > h.1.x.value.0
                },
            };
            if side_ok && better {
                best = Some((e, p));
            }
            k = k + 1;
        }
        best
    }

    /// Where some candidate is hit, a wrapping cord finds a hit.
    proof fn lemma_wrapped_finds(&self, i: int, cands: Seq<usize>, k: nat)
        requires
            0 < k <= cands.len(),
            self.cord_hit(i, cands[0] as int) is Some,
        ensures
            self.nearest_right(i, cands, true, k) is Some,
            self.nearest_left(i, cands, true, k) is Some,
        decreases k,
    {
        if k > 1 {
            self.lemma_wrapped_finds(i, cands, (k - 1) as nat);
        }
    }

    /// What the documentation of a cord promises: a cord that ends on an edge ends
    /// where the horizontal line through its vertex meets that edge, and a cord
    /// without an intersection belongs to a global extremum, a vertex whose height
    /// no edge crosses.
    pub open spec fn cord_true(&self, c: CordView) -> bool {
        &&& 0 <= c.0 < self.spec_vertices().len()
        &&& match c.1 {
            Some(h) => self.cord_hit(c.0, h.0) == Some((h.1, h.2)),
            None => self.cord_candidates(self.vy(c.0), 1, c.0, true).len() == 0
                && self.cord_candidates(self.vy(c.0), 1, c.0, false).len() == 0,
        }
    }

    proof fn lemma_cords_of_true(&self, i: int)
        requires
            self.well_formed(),
            self.cords_computable(),
            0 <= i < self.spec_vertices().len(),
        ensures
            forall|c: int| 0 <= c < self.cords_of(i).len() ==> #[trigger] self.cord_true(self.cords_of(i)[c]),
    {
        let n = self.spec_vertices().len();
        self.lemma_scan_vertices_cross(i, true, n as nat);
        self.lemma_scan_vertices_cross(i, false, n as nat);
        let r0 = self.cord_candidates(self.vy(i), 1, i, true);
        let l0 = self.cord_candidates(self.vy(i), 1, i, false);
        if !(r0.len() == 0 && l0.len() == 0) {
            let pr = r0 + l0;
            let pl = l0 + r0;
            assert(self.all_cross(i, r0) && self.all_cross(i, l0));
            let first = if r0.len() > 0 { r0[0] } else { l0[0] };
            assert(pr[0] == first);
            assert(pl[0] == if l0.len() > 0 { l0[0] } else { r0[0] });
            assert(self.crosses(i, pr[0] as int));
            assert(self.crosses(i, pl[0] as int));
            self.lemma_wrapped_finds(i, pr, pr.len());
            self.lemma_wrapped_finds(i, pl, pl.len());
            self.law_nearest_right(i, pr, false, pr.len());
            self.law_nearest_right(i, pr, true, pr.len());
            self.law_nearest_left(i, pl, false, pl.len());
            self.law_nearest_left(i, pl, true, pl.len());
        }
    }

    /// The cords of all vertices, in vertex order: for each vertex either one
    /// wrapping cord without intersection or its right cord and then its left cord
    /// (see `cords_of`).
    pub fn create_cords(&self) -> (r: Vec<Cord>)
        requires
            self.well_formed(),
            self.cords_computable(),
        ensures
            r@.len() == self.cords_upto(self.spec_vertices().len()).len(),
            forall|c: int|
                0 <= c < r@.len() ==> cord_view(#[trigger] r@[c]) == self.cords_upto(
                    self.spec_vertices().len(),
                )[c],
            forall|c: int|
                0 <= c < r@.len() ==> ((#[trigger] r@[c]).intersection matches Some(hit)
                    ==> hit.1.axes_ok()),
            forall|c: int| 0 <= c < r@.len() ==> self.cord_true(cord_view(#[trigger] r@[c])),
    {
        let mut cords: Vec<Cord> = Vec::new();
        let n = self.vertices.len();
        let mut i: usize = 0;
        while i < n
            invariant
                self.well_formed(),
                self.cords_computable(),
                n == self.spec_vertices().len(),
                i <= n,
                cords@.len() == self.cords_upto(i as nat).len(),
                forall|c: int|
                    0 <= c < cords@.len() ==> cord_view(#[trigger] cords@[c]) == self.cords_upto(
                        i as nat,
                    )[c],
                forall|c: int|
                    0 <= c < cords@.len() ==> ((#[trigger] cords@[c]).intersection matches Some(
                        hit,
                    ) ==> hit.1.axes_ok()),
                forall|c: int| 0 <= c < cords@.len() ==> self.cord_true(cord_view(#[trigger] cords@[c])),
            decreases n - i,
        {
            let vertex = &self.vertices[i];
            assert(self.spec_vertices()[i as int].axes_ok());
            proof {
                self.lemma_scan_vertices_cross(i as int, true, n as nat);
                self.lemma_scan_vertices_cross(i as int, false, n as nat);
                self.lemma_cords_of_true(i as int);
            }
            let right_found = self.find_possible_cord_intersecting_edges(vertex, i, true);
            let left_found = self.find_possible_cord_intersecting_edges(vertex, i, false);
            let ghost before = cords@;
            if right_found.len() == 0 && left_found.len() == 0 {
                cords.push(Cord { origin_vertex: i, intersection: None, wrap_around: true });
            } else {
                let mut pool_r = right_found.clone();
                let mut rest_l = left_found.clone();
                pool_r.append(&mut rest_l);
                let mut pool_l = left_found.clone();
                let mut rest_r = right_found.clone();
                pool_l.append(&mut rest_r);
                proof {
                    assert(pool_r@ =~= right_found@ + left_found@);
                    assert(pool_l@ =~= left_found@ + right_found@);
                    assert(self.all_cross(i as int, pool_r@)) by {
                        assert forall|x: int| 0 <= x < pool_r@.len() implies #[trigger] pool_r@[x]
                            < self.spec_edges().len() && self.crosses(i as int, pool_r@[x] as int) by {
                            if x < right_found@.len() {
                                assert(pool_r@[x] == right_found@[x]);
                            } else {
                                assert(pool_r@[x] == left_found@[x - right_found@.len()]);
                            }
                        }
                    }
                    assert(self.all_cross(i as int, pool_l@)) by {
                        assert forall|x: int| 0 <= x < pool_l@.len() implies #[trigger] pool_l@[x]
                            < self.spec_edges().len() && self.crosses(i as int, pool_l@[x] as int) by {
                            if x < left_found@.len() {
                                assert(pool_l@[x] == left_found@[x]);
                            } else {
                                assert(pool_l@[x] == right_found@[x - left_found@.len()]);
                            }
                        }
                    }
                }
                let (right_hit, right_wraps) = match self.nearest_hit(i, &pool_r, false, true) {
                    Some(h) => (Some(h), false),
                    None => (self.nearest_hit(i, &pool_r, true, true), true),
                };
                cords.push(Cord { origin_vertex: i, intersection: right_hit, wrap_around: right_wraps });
                let (left_hit, left_wraps) = match self.nearest_hit(i, &pool_l, false, false) {
                    Some(h) => (Some(h), false),
                    None => (self.nearest_hit(i, &pool_l, true, false), true),
                };
                cords.push(Cord { origin_vertex: i, intersection: left_hit, wrap_around: left_wraps });
            }
            assert(self.cords_upto((i + 1) as nat) == self.cords_upto(i as nat) + self.cords_of(
                i as int,
            ));
            assert forall|c: int| 0 <= c < cords@.len() implies cord_view(#[trigger] cords@[c])
                == self.cords_upto((i + 1) as nat)[c] by {
                if c < before.len() {
                    assert(cords@[c] == before[c]);
                }
            }
            assert forall|c: int| 0 <= c < cords@.len() implies self.cord_true(
                cord_view(#[trigger] cords@[c]),
            ) by {
                if c < before.len() {
                    assert(cords@[c] == before[c]);
                } else {
                    assert(cord_view(cords@[c]) == self.cords_of(i as int)[c - before.len()]);
                }
            }
            i = i + 1;
        }
        cords
    }
}

impl Polygon {
    /// The side of edge `e` that cord `c` comes from (see `side_t`).
    fn cord_side_value(&self, cords: &Vec<Cord>, c: usize, e: usize) -> (t: i128)
        requires
            self.well_formed(),
            self.boundary_computable_for(cords_view_of(cords@)),
            c < cords@.len(),
            e < self.spec_edges().len(),
            Self::on_edge(cords_view_of(cords@), c as int, e as int),
        ensures
            Some(t as int) == self.cord_side(cords_view_of(cords@), c as int, e as int),
    {
        let cord = &cords[c];
        let o = cord.origin_vertex;
        assert(0 <= cords_view_of(cords@)[c as int].0 < self.spec_vertices().len());
        let hit_x = match &cord.intersection {
            Some(hit) => hit.1.x.value.0,
            None => 0,
        };
        let ov = &self.vertices[o];
        let origin = if cord.wrap_around {
            let sign: i128 = if ov.x.value.0 > hit_x {
                -1
            } else {
                1
            };
            Point::new(FixedNumber(sign * SCALE), ov.y.value)
        } else {
            Point::new(ov.x.value, ov.y.value)
        };
        let edge = &self.edges[e];
        assert(self.spec_edges()[e as int].start < self.spec_vertices().len());
        assert(self.spec_edges()[e as int].end < self.spec_vertices().len());
        let es = &self.vertices[edge.start];
        let ee = &self.vertices[edge.end];
        assert(self.cord_side(cords_view_of(cords@), c as int, e as int) is Some);
        let dx = ee.x.value.sub(es.x.value);
        let dy = ee.y.value.sub(es.y.value);
        let t = if dx.0 == 0 {
            es.x.value.sub(origin.x.value).div(dy)
        } else if dy.0 == 0 {
            origin.y.value.sub(es.y.value).div(dx)
        } else {
            let a = es.x.value.sub(origin.x.value).div(dy);
            let b = origin.y.value.sub(es.y.value).mul(dx).div(dy.mul(dy));
            let v = a.add(b);
            let w = FixedNumber(SCALE).add(dx.mul(dx).div(dy.mul(dy)));
            v.div(w)
        };
        t.0
    }

    /// The squared distance from the start of edge `e` to the end of cord `c`.
    fn cord_distance(&self, cords: &Vec<Cord>, c: usize, e: usize) -> (d: i128)
        requires
            self.well_formed(),
            self.boundary_computable_for(cords_view_of(cords@)),
            c < cords@.len(),
            e < self.spec_edges().len(),
            Self::on_edge(cords_view_of(cords@), c as int, e as int),
        ensures
            d == self.dist_of(cords_view_of(cords@), c as int, e as int),
    {
        let edge = &self.edges[e];
        assert(self.spec_edges()[e as int].start < self.spec_vertices().len());
        let es = &self.vertices[edge.start];
        assert(self.cord_dist(cords_view_of(cords@), c as int, e as int) is Some);
        match &cords[c].intersection {
            Some(hit) => {
                let a = hit.1.x.value.sub(es.x.value).0;
                let b = hit.1.y.value.sub(es.y.value).0;
                a * a + b * b
            },
            None => 0,
        }
    }
}

impl Polygon {
    /// Every cord in `s` exists and ends on edge `e`.
    pub open spec fn pickable(cs: Seq<CordView>, e: int, s: Seq<usize>) -> bool {
        forall|x: int|
            0 <= x < s.len() ==> #[trigger] s[x] < cs.len() && Self::on_edge(cs, 
                s[x] as int,
                e,
            )
    }

    proof fn lemma_picks(&self, cs: Seq<CordView>, e: int, left: bool, k: nat)
        requires
            k <= cs.len(),
            cs.len() <= usize::MAX,
        ensures
            Self::pickable(cs, e, self.picks(cs, e, left, k)),
        decreases k,
    {
        if k > 0 {
            self.lemma_picks(cs, e, left, (k - 1) as nat);
            let a = self.picks(cs, e, left, (k - 1) as nat);
            let b = self.picks(cs, e, left, k);
            assert forall|x: int| 0 <= x < b.len() implies #[trigger] b[x]
                < cs.len() && Self::on_edge(cs, b[x] as int, e) by {
                if x < a.len() {
                    assert(b[x] == a[x]);
                } else {
                    assert(b[x] == (k - 1) as usize);
                }
            }
        }
    }

    proof fn lemma_ins_pos_bound(&self, cs: Seq<CordView>, e: int, s: Seq<usize>, key: int, m: nat)
        ensures
            self.ins_pos(cs, e, s, key, m) <= m,
        decreases m,
    {
        if m > 0 {
            self.lemma_ins_pos_bound(cs, e, s, key, (m - 1) as nat);
        }
    }

    proof fn lemma_sort_pickable(&self, cs: Seq<CordView>, e: int, s: Seq<usize>)
        requires
            Self::pickable(cs, e, s),
        ensures
            Self::pickable(cs, e, self.sort_by_dist(cs, e, s)),
            self.sort_by_dist(cs, e, s).len() == s.len(),
        decreases s.len(),
    {
        if s.len() > 0 {
            let d = s.drop_last();
            assert forall|x: int| 0 <= x < d.len() implies #[trigger] d[x]
                < cs.len() && Self::on_edge(cs, d[x] as int, e) by {
                assert(d[x] == s[x]);
            }
            self.lemma_sort_pickable(cs, e, d);
            let t = self.sort_by_dist(cs, e, d);
            let c = s.last();
            let pos = self.ins_pos(cs, e, t, self.dist_of(cs, c as int, e), t.len());
            self.lemma_ins_pos_bound(cs, e, t, self.dist_of(cs, c as int, e), t.len());
            t.insert_ensures(pos as int, c);
            let u = t.insert(pos as int, c);
            assert(s[s.len() - 1] == c);
            assert forall|x: int| 0 <= x < u.len() implies #[trigger] u[x]
                < cs.len() && Self::on_edge(cs, u[x] as int, e) by {
                if x < pos {
                    assert(u[x] == t[x]);
                } else if x > pos {
                    assert(u[x] == t[x - 1]);
                }
            }
        }
    }

    /// The cords of `cands` ordered by their distance from the start of edge `e`, stably.
    fn sort_cords_by_distance(&self, cords: &Vec<Cord>, e: usize, cands: &Vec<usize>) -> (r: Vec<usize>)
        requires
            self.well_formed(),
            self.boundary_computable_for(cords_view_of(cords@)),
            e < self.spec_edges().len(),
            Self::pickable(cords_view_of(cords@), e as int, cands@),
        ensures
            r@ == self.sort_by_dist(cords_view_of(cords@), e as int, cands@),
    {
        let mut sorted: Vec<usize> = Vec::new();
        let mut k: usize = 0;
        assert(cands@.subrange(0, 0) =~= Seq::<usize>::empty());
        while k < cands.len()
            invariant
                self.well_formed(),
                self.boundary_computable_for(cords_view_of(cords@)),
                e < self.spec_edges().len(),
                Self::pickable(cords_view_of(cords@), e as int, cands@),
                k <= cands@.len(),
                sorted@ == self.sort_by_dist(cords_view_of(cords@), e as int, cands@.subrange(0, k as int)),
                Self::pickable(cords_view_of(cords@), e as int, sorted@),
            decreases cands@.len() - k,
        {
            let c = cands[k];
            assert(cands@[k as int] < cords@.len());
            let key = self.cord_distance(cords, c, e);
            let mut p: usize = sorted.len();
            loop
                invariant
                    self.well_formed(),
                    self.boundary_computable_for(cords_view_of(cords@)),
                    e < self.spec_edges().len(),
                    Self::pickable(cords_view_of(cords@), e as int, sorted@),
                    p <= sorted@.len(),
                    self.ins_pos(cords_view_of(cords@), e as int, sorted@, key as int, sorted@.len()) == self.ins_pos(cords_view_of(cords@), 
                        e as int,
                        sorted@,
                        key as int,
                        p as nat,
                    ),
                ensures
                    p <= sorted@.len(),
                    self.ins_pos(cords_view_of(cords@), e as int, sorted@, key as int, sorted@.len()) == p,
                decreases p,
            {
                if p == 0 {
                    break ;
                }
                assert(sorted@[p - 1] < cords@.len());
                let d = self.cord_distance(cords, sorted[p - 1], e);
                if d > key {
                    p = p - 1;
                } else {
                    break ;
                }
            }
            let ghost prefix = cands@.subrange(0, k as int);
            let ghost next = cands@.subrange(0, k + 1);
            assert(next.drop_last() =~= prefix);
            assert(next.last() == c);
            proof {
                assert forall|x: int| 0 <= x < next.len() implies #[trigger] next[x]
                    < cords@.len() && Self::on_edge(cords_view_of(cords@), next[x] as int, e as int) by {
                    assert(next[x] == cands@[x]);
                }
                self.lemma_sort_pickable(cords_view_of(cords@), e as int, next);
            }
            sorted.insert(p, c);
            k = k + 1;
        }
        assert(cands@.subrange(0, cands@.len() as int) =~= cands@);
        sorted
    }

    /// The vertices and cord ends in the order in which they meet the doubled
    /// boundary: forward along the edges with the cords arriving from the left of
    /// each edge, then the last vertex, then backward along the edges with the cords
    /// arriving from the right (see `boundary_order`).
    pub fn order_chords_and_vertices(&self) -> (r: Vec<DoubleBoundaryPoint>)
        requires
            self.well_formed(),
            self.boundary_computable(),
        ensures
            r@ == self.boundary_order_for(self.cords_view()),
    {
        self.order_for(&self.cords)
    }

    /// `order_chords_and_vertices` for the cords `cords`.
    fn order_for(&self, cords: &Vec<Cord>) -> (r: Vec<DoubleBoundaryPoint>)
        requires
            self.well_formed(),
            self.boundary_computable_for(cords_view_of(cords@)),
        ensures
            r@ == self.boundary_order_for(cords_view_of(cords@)),
    {
        let mut points: Vec<DoubleBoundaryPoint> = Vec::new();
        let mut inverse_points: Vec<DoubleBoundaryPoint> = Vec::new();
        let n_edges = self.edges.len();
        let n_cords = cords.len();
        let mut i: usize = 0;
        while i < n_edges
            invariant
                self.well_formed(),
                self.boundary_computable_for(cords_view_of(cords@)),
                n_edges == self.spec_edges().len(),
                n_cords == cords@.len(),
                i <= n_edges,
                points@ == self.walk(cords_view_of(cords@), true, i as nat),
                inverse_points@ == self.walk(cords_view_of(cords@), false, i as nat),
            decreases n_edges - i,
        {
            let start = self.edges[i].start;
            points.push(DoubleBoundaryPoint::Vertex(start));
            inverse_points.push(DoubleBoundaryPoint::Vertex(start));
            let mut left: Vec<usize> = Vec::new();
            let mut right: Vec<usize> = Vec::new();
            let mut c: usize = 0;
            while c < n_cords
                invariant
                    self.well_formed(),
                    self.boundary_computable_for(cords_view_of(cords@)),
                    n_edges == self.spec_edges().len(),
                    n_cords == cords@.len(),
                    i < n_edges,
                    c <= n_cords,
                    left@ == self.picks(cords_view_of(cords@), i as int, true, c as nat),
                    right@ == self.picks(cords_view_of(cords@), i as int, false, c as nat),
                decreases n_cords - c,
            {
                let on = match &cords[c].intersection {
                    Some(hit) => hit.0 == i,
                    None => false,
                };
                if on {
                    let t = self.cord_side_value(cords, c, i);
                    if t > 0 {
                        left.push(c);
                    } else {
                        right.push(c);
                    }
                }
                c = c + 1;
            }
            proof {
                self.lemma_picks(cords_view_of(cords@), i as int, true, n_cords as nat);
                self.lemma_picks(cords_view_of(cords@), i as int, false, n_cords as nat);
            }
            let left_sorted = self.sort_cords_by_distance(cords, i, &left);
            let right_sorted = self.sort_cords_by_distance(cords, i, &right);
            append_endpoints(&mut points, &left_sorted);
            append_endpoints(&mut inverse_points, &right_sorted);
            i = i + 1;
        }
        points.push(DoubleBoundaryPoint::Vertex(self.vertices.len() - 1));
        let ghost head = points@;
        let total = inverse_points.len();
        let mut k: usize = total;
        while k > 0
            invariant
                k <= total,
                total == inverse_points@.len(),
                points@ == head + inverse_points@.reverse().subrange(0, total - k),
            decreases k,
        {
            k = k - 1;
            points.push(inverse_points[k]);
            assert(inverse_points@.reverse().subrange(0, total - k) =~= inverse_points@.reverse().subrange(
                0,
                total - k - 1,
            ).push(inverse_points@[k as int]));
        }
        assert(inverse_points@.reverse().subrange(0, total as int) =~= inverse_points@.reverse());
        points
    }
}

impl Polygon {
    /// Whether the visibility map can be built: the cords can be cast, and the
    /// boundary order of the cords cast can be computed.
    pub open spec fn visibility_computable(&self) -> bool {
        &&& self.cords_computable()
        &&& self.boundary_computable_for(self.cords_upto(self.spec_vertices().len()))
    }

    /// Casts the cords of all vertices, keeps them, and returns the order in which
    /// vertices and cord ends meet the doubled boundary.
    pub fn create_visibility_map(&mut self) -> (r: Vec<DoubleBoundaryPoint>)
        requires
            old(self).well_formed(),
            old(self).visibility_computable(),
        ensures
            final(self).well_formed(),
            final(self).spec_vertices() == old(self).spec_vertices(),
            final(self).spec_edges() == old(self).spec_edges(),
            final(self).spec_triangles() == old(self).spec_triangles(),
            final(self).spec_name() == old(self).spec_name(),
            final(self).cords_view() == old(self).cords_upto(old(self).spec_vertices().len()),
            r@ == old(self).boundary_order_for(
                old(self).cords_upto(old(self).spec_vertices().len()),
            ),
    {
        let cords = self.create_cords();
        assert(cords_view_of(cords@) =~= self.cords_upto(self.spec_vertices().len()));
        let r = self.order_for(&cords);
        self.cords = cords;
        r
    }

    /// Builds the visibility map (see `create_visibility_map`) and clears the
    /// triangles; returns the boundary order found.
    pub fn triangulate(&mut self) -> (r: Vec<DoubleBoundaryPoint>)
        requires
            old(self).well_formed(),
            old(self).visibility_computable(),
        ensures
            final(self).well_formed(),
            final(self).spec_vertices() == old(self).spec_vertices(),
            final(self).spec_edges() == old(self).spec_edges(),
            final(self).spec_triangles().len() == 0,
            final(self).cords_view() == old(self).cords_upto(old(self).spec_vertices().len()),
            r@ == old(self).boundary_order_for(
                old(self).cords_upto(old(self).spec_vertices().len()),
            ),
    {
        let r = self.create_visibility_map();
        self.triangles.clear();
        r
    }

    pub fn vertices(&self) -> (r: &Vec<Point>)
        ensures
            r@ == self.spec_vertices(),
    {
        &self.vertices
    }

    pub fn edges(&self) -> (r: &Vec<Edge>)
        ensures
            r@ == self.spec_edges(),
    {
        &self.edges
    }

    pub fn cords(&self) -> (r: &Vec<Cord>)
        ensures
            r@ == self.spec_cords(),
    {
        &self.cords
    }

    pub fn triangles(&self) -> (r: &Vec<(usize, usize, usize)>)
        ensures
            r@ == self.spec_triangles(),
    {
        &self.triangles
    }

    pub fn name(&self) -> (r: &EntityName)
        ensures
            r@ == self.spec_name(),
    {
        &self.name
    }
}

impl Polygon {
    /// The cords of `s` come in order of their distance from the start of edge `e`.
    pub open spec fn sorted_by_dist_of(&self, cs: Seq<CordView>, e: int, s: Seq<usize>) -> bool {
        forall|i: int, j: int|
            0 <= i < j < s.len() ==> self.dist_of(cs, #[trigger] s[i] as int, e) <= self.dist_of(
                cs,
                #[trigger] s[j] as int,
                e,
            )
    }

    proof fn lemma_ins_pos(&self, cs: Seq<CordView>, e: int, s: Seq<usize>, key: int, m: nat)
        requires
            self.sorted_by_dist_of(cs, e, s),
            m <= s.len(),
        ensures
            self.ins_pos(cs, e, s, key, m) <= m,
            forall|k: int|
                0 <= k < self.ins_pos(cs, e, s, key, m) ==> self.dist_of(cs, #[trigger] s[k] as int, e)
                    <= key,
            forall|k: int|
                self.ins_pos(cs, e, s, key, m) <= k < m ==> self.dist_of(cs, #[trigger] s[k] as int, e)
                    > key,
        decreases m,
    {
        if m > 0 {
            self.lemma_ins_pos(cs, e, s, key, (m - 1) as nat);
            if self.dist_of(cs, s[m - 1] as int, e) <= key {
                assert forall|k: int| 0 <= k < m implies self.dist_of(cs, #[trigger] s[k] as int, e)
                    <= key by {
                    if k < m - 1 {
                        assert(self.dist_of(cs, s[k] as int, e) <= self.dist_of(
                            cs,
                            s[m - 1] as int,
                            e,
                        ));
                    }
                }
            }
        }
    }

    /// The ends of the cords on an edge are ordered by their distance from the
    /// edge's start, and ordering them neither loses nor adds a cord.
    pub proof fn law_sort_by_dist(&self, cs: Seq<CordView>, e: int, s: Seq<usize>)
        ensures
            self.sorted_by_dist_of(cs, e, self.sort_by_dist(cs, e, s)),
            self.sort_by_dist(cs, e, s).to_multiset() == s.to_multiset(),
        decreases s.len(),
    {
        broadcast use vstd::seq_lib::group_seq_properties;
        broadcast use vstd::multiset::group_multiset_axioms;

        if s.len() == 0 {
        } else {
            let d = s.drop_last();
            self.law_sort_by_dist(cs, e, d);
            let t = self.sort_by_dist(cs, e, d);
            let c = s.last();
            let key = self.dist_of(cs, c as int, e);
            let p = self.ins_pos(cs, e, t, key, t.len());
            self.lemma_ins_pos(cs, e, t, key, t.len());
            t.insert_ensures(p as int, c);
            let u = t.insert(p as int, c);
            assert forall|i: int, j: int| 0 <= i < j < u.len() implies self.dist_of(
                cs,
                #[trigger] u[i] as int,
                e,
            ) <= self.dist_of(cs, #[trigger] u[j] as int, e) by {
                if j < p {
                    assert(u[i] == t[i] && u[j] == t[j]);
                } else if j == p {
                    assert(u[i] == t[i]);
                } else if i < p {
                    assert(u[i] == t[i] && u[j] == t[j - 1]);
                } else if i == p {
                    assert(u[j] == t[j - 1]);
                } else {
                    assert(u[i] == t[i - 1] && u[j] == t[j - 1]);
                }
            }
            assert(u.remove(p as int) =~= t);
            assert(u[p as int] == c);
            assert(s =~= d.push(c));
            assert(u.to_multiset() =~= t.to_multiset().insert(c));
        }
    }

    proof fn lemma_scan_edges_contains(
        &self,
        ov: int,
        oa: int,
        i: int,
        j: int,
        acc: Seq<usize>,
        k: nat,
    )
        requires
            acc.no_duplicates(),
            k <= usize::MAX,
        ensures
            self.scan_edges(ov, oa, i, j, acc, k).no_duplicates(),
            forall|x: usize|
                #[trigger] self.scan_edges(ov, oa, i, j, acc, k).contains(x) <==> acc.contains(x) || (
                x < k && self.qualifies(ov, oa, i, j, x as int)),
        decreases k,
    {
        if k > 0 {
            self.lemma_scan_edges_contains(ov, oa, i, j, acc, (k - 1) as nat);
            let a = self.scan_edges(ov, oa, i, j, acc, (k - 1) as nat);
            let e = (k - 1) as usize;
            assert(e == k - 1);
            if !(self.qualifies(ov, oa, i, j, k - 1) && !a.contains(e)) {
                assert forall|x: usize| #[trigger] a.contains(x) <==> acc.contains(x) || (
                x < k && self.qualifies(ov, oa, i, j, x as int)) by {
                    if x == e && self.qualifies(ov, oa, i, j, x as int) {
                        assert(a.contains(x));
                    }
                }
            }
            if self.qualifies(ov, oa, i, j, k - 1) && !a.contains(e) {
                let b = a.push(e);
                assert forall|x: usize| #[trigger] b.contains(x) <==> a.contains(x) || x == e by {
                    if b.contains(x) {
                        let m = choose|m: int| 0 <= m < b.len() && b[m] == x;
                        if m < a.len() {
                            assert(a[m] == x);
                        }
                    }
                    if a.contains(x) {
                        let m = choose|m: int| 0 <= m < a.len() && a[m] == x;
                        assert(b[m] == x);
                    }
                    if x == e {
                        assert(b[a.len() as int] == x);
                    }
                }
                assert forall|p: int, q: int| 0 <= p < b.len() && 0 <= q < b.len() && p != q implies b[p]
                    != b[q] by {
                    if p < a.len() && q < a.len() {
                    } else if p < a.len() {
                        assert(a.contains(b[p]));
                    } else {
                        assert(a.contains(b[q]));
                    }
                }
            }
        }
    }

    proof fn lemma_scan_vertices_contains(&self, ov: int, oa: int, i: int, right: bool, m: nat)
        requires
            self.spec_edges().len() <= usize::MAX,
        ensures
            self.scan_vertices(ov, oa, i, right, m).no_duplicates(),
            forall|x: usize|
                #[trigger] self.scan_vertices(ov, oa, i, right, m).contains(x) <==> (x
                    < self.spec_edges().len() && exists|j: int|
                    0 <= j < m && self.on_side(i, j, right) && #[trigger] self.qualifies(
                        ov,
                        oa,
                        i,
                        j,
                        x as int,
                    )),
        decreases m,
    {
        if m > 0 {
            self.lemma_scan_vertices_contains(ov, oa, i, right, (m - 1) as nat);
            let a = self.scan_vertices(ov, oa, i, right, (m - 1) as nat);
            if self.on_side(i, m - 1, right) {
                self.lemma_scan_edges_contains(ov, oa, i, m - 1, a, self.spec_edges().len() as nat);
            }
            let r = self.scan_vertices(ov, oa, i, right, m);
            assert forall|x: usize| #[trigger] r.contains(x) <==> (x < self.spec_edges().len()
                && exists|j: int|
                0 <= j < m && self.on_side(i, j, right) && #[trigger] self.qualifies(
                    ov,
                    oa,
                    i,
                    j,
                    x as int,
                )) by {
                if x < self.spec_edges().len() && exists|j: int|
                    0 <= j < m && self.on_side(i, j, right) && #[trigger] self.qualifies(
                        ov,
                        oa,
                        i,
                        j,
                        x as int,
                    ) {
                    let j = choose|j: int|
                        0 <= j < m && self.on_side(i, j, right) && #[trigger] self.qualifies(
                            ov,
                            oa,
                            i,
                            j,
                            x as int,
                        );
                    if j < m - 1 {
                        assert(a.contains(x));
                    }
                }
            }
        }
    }

    /// The edges a cord may cross, found from the vertices on one side of vertex
    /// `i`, are, each once, the edges that leave a vertex on that side toward a
    /// vertex other than `i` and have one end on each side of the cord's height.
    pub proof fn law_cord_candidates(&self, ov: int, oa: int, i: int, right: bool)
        requires
            self.well_formed(),
        ensures
            self.cord_candidates(ov, oa, i, right).no_duplicates(),
            forall|x: usize|
                #[trigger] self.cord_candidates(ov, oa, i, right).contains(x) <==> (x
                    < self.spec_edges().len() && exists|j: int|
                    0 <= j < self.spec_vertices().len() && self.on_side(i, j, right)
                        && #[trigger] self.qualifies(ov, oa, i, j, x as int)),
    {
        self.lemma_scan_vertices_contains(ov, oa, i, right, self.spec_vertices().len());
    }

    /// A right cord ends at the nearest hit: where one is found, it is a hit of
    /// one of the candidates, right of the vertex (anywhere, for a wrapping cord),
    /// and no such hit has a smaller x; where none is found, there is no such hit.
    pub proof fn law_nearest_right(&self, i: int, cands: Seq<usize>, wrapped: bool, k: nat)
        requires
            k <= cands.len(),
        ensures
            forall|m: int|
                0 <= m < k && (#[trigger] self.cord_hit(i, cands[m] as int)) is Some && (wrapped
                    || self.cord_hit(i, cands[m] as int).unwrap().0 > self.vx(i))
                    ==> self.nearest_right(i, cands, wrapped, k) is Some && self.nearest_right(
                    i,
                    cands,
                    wrapped,
                    k,
                ).unwrap().1 <= self.cord_hit(i, cands[m] as int).unwrap().0,
            self.nearest_right(i, cands, wrapped, k) matches Some(h) ==> exists|m: int|
                0 <= m < k && h.0 == cands[m] && #[trigger] self.cord_hit(i, cands[m] as int)
                    == Some((h.1, h.2)) && (wrapped || h.1 > self.vx(i)),
        decreases k,
    {
        if k > 0 {
            self.law_nearest_right(i, cands, wrapped, (k - 1) as nat);
        }
    }

    /// A left cord ends at the nearest hit: where one is found, it is a hit of one
    /// of the candidates, left of the vertex (anywhere, for a wrapping cord), and
    /// no such hit has a larger x; where none is found, there is no such hit.
    pub proof fn law_nearest_left(&self, i: int, cands: Seq<usize>, wrapped: bool, k: nat)
        requires
            k <= cands.len(),
        ensures
            forall|m: int|
                0 <= m < k && (#[trigger] self.cord_hit(i, cands[m] as int)) is Some && (wrapped
                    || self.cord_hit(i, cands[m] as int).unwrap().0 < self.vx(i))
                    ==> self.nearest_left(i, cands, wrapped, k) is Some && self.nearest_left(
                    i,
                    cands,
                    wrapped,
                    k,
                ).unwrap().1 >= self.cord_hit(i, cands[m] as int).unwrap().0,
            self.nearest_left(i, cands, wrapped, k) matches Some(h) ==> exists|m: int|
                0 <= m < k && h.0 == cands[m] && #[trigger] self.cord_hit(i, cands[m] as int)
                    == Some((h.1, h.2)) && (wrapped || h.1 < self.vx(i)),
        decreases k,
    {
        if k > 0 {
            self.law_nearest_left(i, cands, wrapped, (k - 1) as nat);
        }
    }

    proof fn lemma_walk_starts(&self, cs: Seq<CordView>, left: bool, k: nat)
        requires
            0 < k <= self.spec_edges().len(),
        ensures
            self.walk(cs, left, k).len() > 0,
            self.walk(cs, left, k)[0] == DoubleBoundaryPoint::Vertex(self.spec_edges()[0].start),
        decreases k,
    {
        let prev = self.walk(cs, left, (k - 1) as nat);
        let mid = seq![DoubleBoundaryPoint::Vertex(self.spec_edges()[k - 1].start)];
        let tail = self.endpoints(cs, k - 1, left);
        assert(self.walk(cs, left, k) == prev + mid + tail);
        if k > 1 {
            self.lemma_walk_starts(cs, left, (k - 1) as nat);
            assert((prev + mid + tail)[0] == prev[0]);
        } else {
            assert(prev.len() == 0);
            assert((prev + mid + tail)[0] == mid[0]);
        }
    }

    /// The doubled boundary goes out and comes back: it begins with the walk along
    /// the edges with the cord ends from the left, passes the last vertex, and then,
    /// read from its end back to that vertex, is the same forward walk with the cord
    /// ends from the right; so it ends where the first edge starts.
    pub proof fn law_boundary_comes_back(&self, cs: Seq<CordView>)
        ensures
            ({
                let bo = self.boundary_order_for(cs);
                let out = self.walk(cs, true, self.spec_edges().len());
                let back = self.walk(cs, false, self.spec_edges().len());
                &&& bo.len() == out.len() + 1 + back.len()
                &&& forall|j: int| 0 <= j < out.len() ==> #[trigger] bo[j] == out[j]
                &&& bo[out.len() as int] == DoubleBoundaryPoint::Vertex(
                    (self.spec_vertices().len() - 1) as usize,
                )
                &&& forall|j: int| 0 <= j < back.len() ==> #[trigger] bo[bo.len() - 1 - j] == back[j]
                &&& self.spec_edges().len() > 0 ==> bo.last() == DoubleBoundaryPoint::Vertex(
                    self.spec_edges()[0].start,
                )
            }),
    {
        let bo = self.boundary_order_for(cs);
        let out = self.walk(cs, true, self.spec_edges().len());
        let back = self.walk(cs, false, self.spec_edges().len());
        let mid = seq![DoubleBoundaryPoint::Vertex((self.spec_vertices().len() - 1) as usize)];
        assert(bo == out + mid + back.reverse());
        assert forall|j: int| 0 <= j < out.len() implies #[trigger] bo[j] == out[j] by {}
        assert forall|j: int| 0 <= j < back.len() implies #[trigger] bo[bo.len() - 1 - j] == back[j] by {
            assert(bo[bo.len() - 1 - j] == back.reverse()[back.len() - 1 - j]);
        }
        if self.spec_edges().len() > 0 {
            self.lemma_walk_starts(cs, false, self.spec_edges().len());
            assert(bo[bo.len() - 1 - 0] == back[0]);
        }
    }

    proof fn lemma_scan_edges_none(&self, ov: int, oa: int, i: int, j: int, acc: Seq<usize>, k: nat)
        requires
            forall|e: int| 0 <= e < k ==> !#[trigger] self.qualifies(ov, oa, i, j, e),
        ensures
            self.scan_edges(ov, oa, i, j, acc, k) == acc,
        decreases k,
    {
        if k > 0 {
            self.lemma_scan_edges_none(ov, oa, i, j, acc, (k - 1) as nat);
            assert(!self.qualifies(ov, oa, i, j, k - 1));
        }
    }

    proof fn lemma_scan_vertices_none(&self, ov: int, oa: int, i: int, right: bool, m: nat)
        requires
            forall|j: int, e: int|
                0 <= j < m && 0 <= e < self.spec_edges().len() && #[trigger] self.on_side(i, j, right)
                    ==> !#[trigger] self.qualifies(ov, oa, i, j, e),
        ensures
            self.scan_vertices(ov, oa, i, right, m) == Seq::<usize>::empty(),
        decreases m,
    {
        if m > 0 {
            self.lemma_scan_vertices_none(ov, oa, i, right, (m - 1) as nat);
            if self.on_side(i, m - 1, right) {
                self.lemma_scan_edges_none(
                    ov,
                    oa,
                    i,
                    m - 1,
                    Seq::<usize>::empty(),
                    self.spec_edges().len() as nat,
                );
            }
        }
    }

    /// A vertex above every other vertex, or below every other vertex, in the
    /// coordinate order is a global extremum: its single cord wraps around and
    /// meets no edge.
    pub proof fn law_extremum_cord_wraps(&self, i: int)
        requires
            self.well_formed(),
            0 <= i < self.spec_vertices().len(),
            (forall|j: int|
                0 <= j < self.spec_vertices().len() && j != i ==> #[trigger] self.below(
                    j,
                    self.vy(i),
                    1,
                    i,
                )) || (forall|j: int|
                0 <= j < self.spec_vertices().len() && j != i ==> !#[trigger] self.below(
                    j,
                    self.vy(i),
                    1,
                    i,
                )),
        ensures
            self.cords_of(i) == seq![(i, Option::<(int, int, int)>::None, true)],
    {
        let n = self.spec_vertices().len();
        assert forall|j: int, e: int|
            0 <= j < n && 0 <= e < self.spec_edges().len() && #[trigger] self.on_side(i, j, true)
                implies !#[trigger] self.qualifies(self.vy(i), 1, i, j, e) by {
            let st = self.spec_edges()[e].start as int;
            let en = self.spec_edges()[e].end as int;
            if (st == j && en != i) || (en == j && st != i) {
                assert(st != i && en != i);
                assert(self.below(st, self.vy(i), 1, i) == self.below(en, self.vy(i), 1, i));
            }
        }
        assert forall|j: int, e: int|
            0 <= j < n && 0 <= e < self.spec_edges().len() && #[trigger] self.on_side(i, j, false)
                implies !#[trigger] self.qualifies(self.vy(i), 1, i, j, e) by {
            let st = self.spec_edges()[e].start as int;
            let en = self.spec_edges()[e].end as int;
            if (st == j && en != i) || (en == j && st != i) {
                assert(st != i && en != i);
                assert(self.below(st, self.vy(i), 1, i) == self.below(en, self.vy(i), 1, i));
            }
        }
        self.lemma_scan_vertices_none(self.vy(i), 1, i, true, n);
        self.lemma_scan_vertices_none(self.vy(i), 1, i, false, n);
    }
}

/// `intersection_spec`, computed.
fn intersection_checked(ox: i128, oy: i128, sx: i128, sy: i128, ex: i128, ey: i128) -> (r: Option<
    (i128, i128),
>)
    ensures
        match r {
            Some(p) => intersection_spec(
                ox as int,
                oy as int,
                sx as int,
                sy as int,
                ex as int,
                ey as int,
            ) == Some((p.0 as int, p.1 as int)),
            None => intersection_spec(
                ox as int,
                oy as int,
                sx as int,
                sy as int,
                ex as int,
                ey as int,
            ) is None,
        },
{
    let dx = match checked_fx_sub(ex, sx) {
        Some(v) => v,
        None => return None,
    };
    let dy = match checked_fx_sub(ey, sy) {
        Some(v) => v,
        None => return None,
    };
    if dx == 0 {
        return Some((sx, oy));
    }
    let a = match checked_fx_sub(oy, sy) {
        Some(v) => v,
        None => return None,
    };
    let r = match checked_fx_div(a, dy) {
        Some(v) => v,
        None => return None,
    };
    let mx = match checked_fx_mul(dx, r) {
        Some(v) => v,
        None => return None,
    };
    let my = match checked_fx_mul(dy, r) {
        Some(v) => v,
        None => return None,
    };
    let x = match checked_fx_add(sx, mx) {
        Some(v) => v,
        None => return None,
    };
    let y = match checked_fx_add(sy, my) {
        Some(v) => v,
        None => return None,
    };
    Some((x, y))
}

/// `side_t`, computed.
fn side_checked(ox: i128, oy: i128, sx: i128, sy: i128, ex: i128, ey: i128) -> (r: Option<i128>)
    ensures
        match r {
            Some(t) => side_t(ox as int, oy as int, sx as int, sy as int, ex as int, ey as int)
                == Some(t as int),
            None => side_t(ox as int, oy as int, sx as int, sy as int, ex as int, ey as int) is None,
        },
{
    let dx = match checked_fx_sub(ex, sx) {
        Some(v) => v,
        None => return None,
    };
    let dy = match checked_fx_sub(ey, sy) {
        Some(v) => v,
        None => return None,
    };
    if dx == 0 {
        let a = match checked_fx_sub(sx, ox) {
            Some(v) => v,
            None => return None,
        };
        return checked_fx_div(a, dy);
    }
    if dy == 0 {
        let a = match checked_fx_sub(oy, sy) {
            Some(v) => v,
            None => return None,
        };
        return checked_fx_div(a, dx);
    }
    let a = match checked_fx_sub(sx, ox) {
        Some(v) => v,
        None => return None,
    };
    let first = match checked_fx_div(a, dy) {
        Some(v) => v,
        None => return None,
    };
    let b = match checked_fx_sub(oy, sy) {
        Some(v) => v,
        None => return None,
    };
    let bdx = match checked_fx_mul(b, dx) {
        Some(v) => v,
        None => return None,
    };
    let dyy = match checked_fx_mul(dy, dy) {
        Some(v) => v,
        None => return None,
    };
    let second = match checked_fx_div(bdx, dyy) {
        Some(v) => v,
        None => return None,
    };
    let v = match checked_fx_add(first, second) {
        Some(v) => v,
        None => return None,
    };
    let dxx = match checked_fx_mul(dx, dx) {
        Some(v) => v,
        None => return None,
    };
    let ratio = match checked_fx_div(dxx, dyy) {
        Some(v) => v,
        None => return None,
    };
    let w = match checked_fx_add(SCALE, ratio) {
        Some(v) => v,
        None => return None,
    };
    checked_fx_div(v, w)
}

/// `dist2`, computed.
fn dist_checked(ax: i128, ay: i128, bx: i128, by: i128) -> (r: Option<i128>)
    ensures
        match r {
            Some(d) => dist2(ax as int, ay as int, bx as int, by as int) == Some(d as int),
            None => dist2(ax as int, ay as int, bx as int, by as int) is None,
        },
{
    let a = match ax.checked_sub(bx) {
        Some(v) => v,
        None => return None,
    };
    let b = match ay.checked_sub(by) {
        Some(v) => v,
        None => return None,
    };
    let aa = match a.checked_mul(a) {
        Some(v) => v,
        None => return None,
    };
    let bb = match b.checked_mul(b) {
        Some(v) => v,
        None => return None,
    };
    aa.checked_add(bb)
}

impl Polygon {
    /// Whether every cord can be intersected with every edge it crosses (see
    /// `cords_computable`).
    pub fn cords_computable_check(&self) -> (r: bool)
        requires
            self.well_formed(),
        ensures
            r == self.cords_computable(),
    {
        let n = self.vertices.len();
        let n_edges = self.edges.len();
        let mut i: usize = 0;
        while i < n
            invariant
                self.well_formed(),
                n == self.spec_vertices().len(),
                n_edges == self.spec_edges().len(),
                i <= n,
                forall|a: int, e: int|
                    0 <= a < i && 0 <= e < n_edges && #[trigger] self.crosses(a, e) ==> (
                    #[trigger] self.cord_hit(a, e)) is Some,
            decreases n - i,
        {
            let mut e: usize = 0;
            while e < n_edges
                invariant
                    self.well_formed(),
                    n == self.spec_vertices().len(),
                    n_edges == self.spec_edges().len(),
                    i < n,
                    e <= n_edges,
                    forall|a: int, f: int|
                        0 <= a < i && 0 <= f < n_edges && #[trigger] self.crosses(a, f) ==> (
                        #[trigger] self.cord_hit(a, f)) is Some,
                    forall|f: int|
                        0 <= f < e && #[trigger] self.crosses(i as int, f) ==> self.cord_hit(
                            i as int,
                            f,
                        ) is Some,
                decreases n_edges - e,
            {
                let edge = &self.edges[e];
                assert(self.spec_edges()[e as int].start < n && self.spec_edges()[e as int].end < n);
                assert(self.spec_vertices()[i as int].axes_ok());
                let st = edge.start;
                let en = edge.end;
                let vi = &self.vertices[i];
                let crosses = st != i && en != i && (self.vertices[st].y.smaller(st, &vi.y, i)
                    != self.vertices[en].y.smaller(en, &vi.y, i));
                if crosses {
                    let hit = intersection_checked(
                        vi.x.value.0,
                        vi.y.value.0,
                        self.vertices[st].x.value.0,
                        self.vertices[st].y.value.0,
                        self.vertices[en].x.value.0,
                        self.vertices[en].y.value.0,
                    );
                    if hit.is_none() {
                        assert(self.crosses(i as int, e as int));
                        assert(self.cord_hit(i as int, e as int) is None);
                        return false;
                    }
                }
                e = e + 1;
            }
            i = i + 1;
        }
        true
    }

    /// Whether the boundary order of the cords `cords` can be computed (see
    /// `boundary_computable_for`).
    pub fn boundary_computable_check(&self, cords: &Vec<Cord>) -> (r: bool)
        requires
            self.well_formed(),
        ensures
            r == self.boundary_computable_for(cords_view_of(cords@)),
    {
        let ghost cs = cords_view_of(cords@);
        let n = self.vertices.len();
        if n < 1 {
            return false;
        }
        let mut c: usize = 0;
        while c < cords.len()
            invariant
                self.well_formed(),
                n == self.spec_vertices().len(),
                n >= 1,
                cs == cords_view_of(cords@),
                c <= cords@.len(),
                forall|k: int| 0 <= k < c ==> 0 <= (#[trigger] cs[k]).0 < n,
            decreases cords@.len() - c,
        {
            if cords[c].origin_vertex >= n {
                assert(!(0 <= cs[c as int].0 < n));
                return false;
            }
            c = c + 1;
        }
        let n_edges = self.edges.len();
        let mut k: usize = 0;
        while k < cords.len()
            invariant
                self.well_formed(),
                n == self.spec_vertices().len(),
                n_edges == self.spec_edges().len(),
                cs == cords_view_of(cords@),
                k <= cords@.len(),
                forall|a: int, e: int|
                    0 <= a < k && 0 <= e < n_edges && #[trigger] Self::on_edge(cs, a, e)
                        ==> self.cord_side(cs, a, e) is Some && self.cord_dist(cs, a, e) is Some,
                forall|j: int| 0 <= j < cords@.len() ==> 0 <= (#[trigger] cs[j]).0 < n,
            decreases cords@.len() - k,
        {
            match &cords[k].intersection {
                Some(hit) => {
                    let e = hit.0;
                    if e < n_edges {
                        let o = cords[k].origin_vertex;
                        assert(0 <= cs[k as int].0 < n);
                        let ov = &self.vertices[o];
                        let (ox, oy) = if cords[k].wrap_around {
                            let sign: i128 = if ov.x.value.0 > hit.1.x.value.0 {
                                -1
                            } else {
                                1
                            };
                            (sign * SCALE, ov.y.value.0)
                        } else {
                            (ov.x.value.0, ov.y.value.0)
                        };
                        assert(self.spec_edges()[e as int].start < n && self.spec_edges()[e as int].end
                            < n);
                        let es = &self.vertices[self.edges[e].start];
                        let ee = &self.vertices[self.edges[e].end];
                        let side = side_checked(
                            ox,
                            oy,
                            es.x.value.0,
                            es.y.value.0,
                            ee.x.value.0,
                            ee.y.value.0,
                        );
                        let dist = dist_checked(hit.1.x.value.0, hit.1.y.value.0, es.x.value.0, es.y.value.0);
                        if side.is_none() || dist.is_none() {
                            assert(Self::on_edge(cs, k as int, e as int));
                            return false;
                        }
                    }
                    assert forall|f: int| 0 <= f < n_edges && #[trigger] Self::on_edge(cs, k as int, f)
                        implies self.cord_side(cs, k as int, f) is Some && self.cord_dist(
                        cs,
                        k as int,
                        f,
                    ) is Some by {
                        assert(f == e);
                    }
                },
                None => {},
            }
            k = k + 1;
        }
        true
    }

    /// Builds the visibility map where it can be computed (see
    /// `create_visibility_map`); `None`, and nothing changes, where a cord cannot be
    /// intersected with an edge it crosses or the boundary order of the cords cannot
    /// be computed.
    pub fn try_create_visibility_map(&mut self) -> (r: Option<Vec<DoubleBoundaryPoint>>)
        requires
            old(self).well_formed(),
        ensures
            final(self).well_formed(),
            r is Some <==> old(self).visibility_computable(),
            r is None ==> final(self).spec_cords() == old(self).spec_cords(),
            final(self).spec_vertices() == old(self).spec_vertices(),
            final(self).spec_edges() == old(self).spec_edges(),
            final(self).spec_triangles() == old(self).spec_triangles(),
            r matches Some(order) ==> final(self).cords_view() == old(self).cords_upto(
                old(self).spec_vertices().len(),
            ) && order@ == old(self).boundary_order_for(
                old(self).cords_upto(old(self).spec_vertices().len()),
            ),
    {
        if !self.cords_computable_check() {
            return None;
        }
        let cords = self.create_cords();
        assert(cords_view_of(cords@) =~= self.cords_upto(self.spec_vertices().len()));
        if !self.boundary_computable_check(&cords) {
            return None;
        }
        let r = self.order_for(&cords);
        self.cords = cords;
        Some(r)
    }
}

/// Appends the end of each cord in `cords`, in order.
fn append_endpoints(points: &mut Vec<DoubleBoundaryPoint>, cords: &Vec<usize>)
    ensures
        final(points)@ == old(points)@ + cords@.map_values(
            |c: usize| DoubleBoundaryPoint::CordEndpoint(c),
        ),
{
    let ghost start = points@;
    let mut k: usize = 0;
    while k < cords.len()
        invariant
            k <= cords@.len(),
            points@ == start + cords@.subrange(0, k as int).map_values(
                |c: usize| DoubleBoundaryPoint::CordEndpoint(c),
            ),
        decreases cords@.len() - k,
    {
        points.push(DoubleBoundaryPoint::CordEndpoint(cords[k]));
        k = k + 1;
        assert(cords@.subrange(0, k as int).map_values(
            |c: usize| DoubleBoundaryPoint::CordEndpoint(c),
        ) =~= cords@.subrange(0, k - 1).map_values(
            |c: usize| DoubleBoundaryPoint::CordEndpoint(c),
        ).push(DoubleBoundaryPoint::CordEndpoint(cords@[k - 1])));
    }
    assert(cords@.subrange(0, cords@.len() as int) =~= cords@);
}

/// Whether `v` holds `x`.
fn contains_index(v: &Vec<usize>, x: usize) -> (r: bool)
    ensures
        r == v@.contains(x),
{
    let mut k: usize = 0;
    while k < v.len()
        invariant
            k <= v@.len(),
            forall|m: int| 0 <= m < k ==> v@[m] != x,
        decreases v.len() - k,
    {
        if v[k] == x {
            assert(v@[k as int] == x);
            return true;
        }
        k = k + 1;
    }
    false
}

} // verus!
