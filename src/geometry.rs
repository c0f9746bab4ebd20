//! Indexed geometry: vertex deduplication in first-seen order, fan
//! triangulation, and grouping of polygons by texture.
use vstd::prelude::*;
use crate::level::{surfedge_edge, RawLevel, Vec3Bits};

verus! {

/// A vertex record as float bit patterns: position, normal and texture
/// coordinates. Two records are the same vertex when all bits agree.
#[derive(Clone, Copy, Debug, PartialEq, Eq, Structural)]
pub struct VertexKey {
    pub position: Vec3Bits,
    pub normal: Vec3Bits,
    pub u: u32,
    pub v: u32,
}

/// The distinct items of `s`, each where it first occurs.
pub open spec fn distinct<A>(s: Seq<A>) -> Seq<A>
    decreases s.len(),
{
    if s.len() == 0 {
        Seq::empty()
    } else {
        let d = distinct(s.drop_last());
        if d.contains(s.last()) {
            d
        } else {
            d.push(s.last())
        }
    }
}

/// No item of `s` occurs twice.
pub open spec fn no_dups<A>(s: Seq<A>) -> bool {
    forall|i: int, j: int| 0 <= i < j < s.len() ==> #[trigger] s[i] != #[trigger] s[j]
}

/// `vertices` and `index` are the deduplication of `keys`: the distinct keys
/// in first-seen order, and for each key its position among them.
pub open spec fn is_dedup_of(keys: Seq<VertexKey>, vertices: Seq<VertexKey>, index: Seq<usize>) -> bool {
    &&& vertices == distinct(keys)
    &&& index.len() == keys.len()
    &&& forall|i: int| 0 <= i < keys.len() ==> (#[trigger] index[i]) < vertices.len() && vertices[index[i] as int] == keys[i]
}

pub proof fn lemma_distinct_no_dups<A>(s: Seq<A>)
    ensures
        no_dups(distinct(s)),
        forall|x: A| s.contains(x) <==> distinct(s).contains(x),
    decreases s.len(),
{
    if s.len() > 0 {
        lemma_distinct_no_dups(s.drop_last());
        let d = distinct(s.drop_last());
        assert(distinct(s) == if d.contains(s.last()) { d } else { d.push(s.last()) });
        if !d.contains(s.last()) {
            let e = d.push(s.last());
            assert forall|i: int, j: int| 0 <= i < j < e.len() implies #[trigger] e[i] != #[trigger] e[j] by {
                if j == d.len() {
                    assert(e[i] == d[i]);
                    assert(e[j] == s.last());
                    if d[i] == s.last() {
                        assert(d.contains(s.last()));
                    }
                } else {
                    assert(e[i] == d[i] && e[j] == d[j]);
                }
            }
        }
        assert forall|x: A| s.contains(x) <==> distinct(s).contains(x) by {
            if s.contains(x) {
                let i = choose|i: int| 0 <= i < s.len() && s[i] == x;
                if i < s.len() - 1 {
                    assert(s.drop_last()[i] == x);
                    assert(s.drop_last().contains(x));
                    assert(d.contains(x));
                    if !d.contains(s.last()) {
                        let j = choose|j: int| 0 <= j < d.len() && d[j] == x;
                        assert(d.push(s.last())[j] == x);
                    }
                } else if !d.contains(s.last()) {
                    assert(d.push(s.last())[d.len() as int] == x);
                }
            }
            if distinct(s).contains(x) {
                let j = choose|j: int| 0 <= j < distinct(s).len() && distinct(s)[j] == x;
                if j < d.len() {
                    assert(distinct(s)[j] == d[j]);
                    assert(d[j] == x);
                    assert(d.contains(x));
                    assert(s.drop_last().contains(x));
                    let i = choose|i: int| 0 <= i < s.drop_last().len() && s.drop_last()[i] == x;
                    assert(s[i] == x);
                } else {
                    assert(s[s.len() - 1] == x);
                }
            }
        }
    }
}

/// In a sequence without repeats a key has one position: two deduplications
/// of the same keys agree, vertices and indices alike.
pub proof fn lemma_dedup_deterministic(
    keys: Seq<VertexKey>,
    v1: Seq<VertexKey>,
    x1: Seq<usize>,
    v2: Seq<VertexKey>,
    x2: Seq<usize>,
)
    requires
        is_dedup_of(keys, v1, x1),
        is_dedup_of(keys, v2, x2),
    ensures
        v1 == v2,
        x1 == x2,
{
    lemma_distinct_no_dups(keys);
    assert forall|i: int| 0 <= i < keys.len() implies x1[i] == x2[i] by {
        assert(v1[x1[i] as int] == v1[x2[i] as int]);
    }
    assert(x1 =~= x2);
}

/// Deduplicates `keys` in first-seen order: the distinct keys, and for each
/// key its position among them.
pub fn dedup_vertices(keys: &Vec<VertexKey>) -> (r: (Vec<VertexKey>, Vec<usize>))
    ensures
        is_dedup_of(keys@, r.0@, r.1@),
{
    let mut uniq: Vec<VertexKey> = Vec::new();
    let mut index: Vec<usize> = Vec::new();
    let mut i: usize = 0;
    while i < keys.len()
        invariant
            i <= keys@.len(),
            uniq@ == distinct(keys@.take(i as int)),
            index@.len() == i,
            forall|j: int| 0 <= j < i ==> (#[trigger] index@[j]) < uniq@.len() && uniq@[index@[j] as int] == keys@[j],
        decreases keys@.len() - i,
    {
        let k = keys[i];
        let t = Ghost(keys@.take(i + 1));
        let ghost d = uniq@;
        proof {
            assert(t@.drop_last() =~= keys@.take(i as int));
            assert(t@.last() == k);
            assert(distinct(t@) == if d.contains(k) { d } else { d.push(k) });
        }
        let mut p: usize = 0;
        while p < uniq.len() && uniq[p] != k
            invariant
                p <= uniq@.len(),
                forall|q: int| 0 <= q < p ==> uniq@[q] != k,
            decreases uniq@.len() - p,
        {
            p += 1;
        }
        if p == uniq.len() {
            proof {
                assert(!uniq@.contains(k));
            }
            uniq.push(k);
            proof {
                assert forall|j: int| 0 <= j < i implies (#[trigger] index@[j]) < uniq@.len() && uniq@[index@[j] as int] == keys@[j] by {
                    assert(uniq@[index@[j] as int] == d[index@[j] as int]);
                }
            }
        } else {
            proof {
                assert(uniq@.contains(k));
            }
        }
        index.push(p);
        proof {
            assert(uniq@[p as int] == keys@[i as int]);
            assert(uniq@ == distinct(t@));
        }
        i += 1;
        proof {
            assert(keys@.take(i as int) == t@);
        }
    }
    proof {
        assert(keys@.take(keys@.len() as int) =~= keys@);
    }
    (uniq, index)
}

/// `t` is the fan of triangles of polygon `p` around its first vertex.
pub open spec fn is_fan_of(p: Seq<usize>, t: Seq<usize>) -> bool {
    &&& t.len() == 3 * (p.len() - 2)
    &&& forall|k: int| 0 <= k < p.len() - 2 ==> {
        &&& (#[trigger] t[3 * k]) == p[0]
        &&& t[3 * k + 1] == p[k + 1]
        &&& t[3 * k + 2] == p[k + 2]
    }
}

/// The fan of triangles of polygon `p` around its first vertex, three
/// indices per triangle.
pub open spec fn fan_spec(p: Seq<usize>) -> Seq<usize> {
    Seq::new(
        (3 * (p.len() - 2)) as nat,
        |i: int| if i % 3 == 0 { p[0] } else if i % 3 == 1 { p[i / 3 + 1] } else { p[i / 3 + 2] },
    )
}

proof fn lemma_fan_spec_is_fan(p: Seq<usize>)
    requires
        p.len() >= 3,
    ensures
        is_fan_of(p, fan_spec(p)),
{
    let t = fan_spec(p);
    assert forall|k: int| 0 <= k < p.len() - 2 implies {
        &&& (#[trigger] t[3 * k]) == p[0]
        &&& t[3 * k + 1] == p[k + 1]
        &&& t[3 * k + 2] == p[k + 2]
    } by {
        assert((3 * k) % 3 == 0 && (3 * k) / 3 == k);
        assert((3 * k + 1) % 3 == 1 && (3 * k + 1) / 3 == k);
        assert((3 * k + 2) % 3 == 2 && (3 * k + 2) / 3 == k);
    }
}

/// A polygon of `k` vertices gives `k - 2` triangles, and its fan holds
/// exactly its vertices: every index of the fan is a vertex of the polygon,
/// and every vertex of the polygon is in the fan.
pub proof fn lemma_fan_law(p: Seq<usize>)
    requires
        p.len() >= 3,
    ensures
        fan_spec(p).len() == 3 * (p.len() - 2),
        forall|x: usize| fan_spec(p).contains(x) <==> p.contains(x),
{
    lemma_fan_spec_is_fan(p);
    lemma_fan_same_vertices(p, fan_spec(p));
}

/// Fan-triangulates the polygon `p`: `k` vertices give `k - 2` triangles,
/// three indices each, all sharing the first vertex.
pub fn fan(p: &Vec<usize>) -> (r: Vec<usize>)
    requires
        p@.len() >= 3,
    ensures
        r@ == fan_spec(p@),
{
    let mut r: Vec<usize> = Vec::new();
    let mut k: usize = 0;
    let n = p.len() - 2;
    while k < n
        invariant
            n == p@.len() - 2,
            p@.len() <= usize::MAX,
            k <= n,
            r@.len() == 3 * k,
            forall|j: int| 0 <= j < k ==> {
                &&& (#[trigger] r@[3 * j]) == p@[0]
                &&& r@[3 * j + 1] == p@[j + 1]
                &&& r@[3 * j + 2] == p@[j + 2]
            },
        decreases n - k,
    {
        let ghost r0 = r@;
        r.push(p[0]);
        r.push(p[k + 1]);
        r.push(p[k + 2]);
        proof {
            assert forall|j: int| 0 <= j < k + 1 implies {
                &&& (#[trigger] r@[3 * j]) == p@[0]
                &&& r@[3 * j + 1] == p@[j + 1]
                &&& r@[3 * j + 2] == p@[j + 2]
            } by {
                if j < k {
                    assert(r@[3 * j] == r0[3 * j]);
                    assert(r@[3 * j + 1] == r0[3 * j + 1]);
                    assert(r@[3 * j + 2] == r0[3 * j + 2]);
                }
            }
        }
        k += 1;
    }
    proof {
        assert(r@.len() == 3 * (p@.len() - 2));
        assert forall|j: int| 0 <= j < p@.len() - 2 implies {
            &&& (#[trigger] r@[3 * j]) == p@[0]
            &&& r@[3 * j + 1] == p@[j + 1]
            &&& r@[3 * j + 2] == p@[j + 2]
        } by {}
        assert forall|i: int| 0 <= i < r@.len() implies r@[i] == fan_spec(p@)[i] by {
            let j = i / 3;
            assert(0 <= j < p@.len() - 2);
            assert(i == 3 * j + i % 3);
            assert(r@[3 * j] == p@[0]);
        }
        assert(r@ =~= fan_spec(p@));
    }
    r
}

proof fn lemma_fan_same_vertices(p: Seq<usize>, t: Seq<usize>)
    requires
        p.len() >= 3,
        is_fan_of(p, t),
    ensures
        t.len() / 3 == p.len() - 2,
        forall|x: usize| t.contains(x) <==> p.contains(x),
{
    assert forall|x: usize| t.contains(x) <==> p.contains(x) by {
        if t.contains(x) {
            let i = choose|i: int| 0 <= i < t.len() && t[i] == x;
            let k = i / 3;
            assert(0 <= k < p.len() - 2);
            assert(i == 3 * k + i % 3);
            assert(t[3 * k] == p[0]);
            if i % 3 == 0 {
                assert(p[0] == x);
            } else if i % 3 == 1 {
                assert(p[k + 1] == x);
            } else {
                assert(p[k + 2] == x);
            }
        }
        if p.contains(x) {
            let i = choose|i: int| 0 <= i < p.len() && p[i] == x;
            if i == 0 {
                let k = 0int;
                assert(t[3 * k] == p[0]);
            } else if i < p.len() - 1 {
                let k = i - 1;
                assert(t[3 * k] == p[0]);
                assert(t[3 * k + 1] == x);
            } else {
                let k = i - 2;
                assert(t[3 * k] == p[0]);
                assert(t[3 * k + 2] == x);
            }
        }
    }
}

/// One corner of a face: the face, the vertex it sits on, that vertex's
/// position, the face's normal, and the face's texture mapping.
#[derive(Clone, Copy, Debug, PartialEq, Eq, Structural)]
pub struct Corner {
    pub face: u32,
    pub vertex: u16,
    pub position: Vec3Bits,
    pub normal: Vec3Bits,
    pub texture_info: u16,
}

/// The vertex at corner `k` of face `f`: a surface edge walks its edge from
/// `a` to `b`, a negative one from `b` to `a`.
pub open spec fn face_vertex(l: &RawLevel, f: int, k: int) -> u16 {
    let s = l.surfedges@[l.faces@[f].first_surfedge + k];
    if s >= 0 { l.edges@[s as int].a } else { l.edges@[surfedge_edge(s)].b }
}

/// The float bit pattern `x` with its sign flipped.
pub open spec fn negated(x: u32) -> u32 {
    x ^ 0x8000_0000u32
}

/// The normal of face `f`: its plane's, reversed on the plane's back side.
pub open spec fn face_normal(l: &RawLevel, f: int) -> Vec3Bits {
    let n = l.planes@[l.faces@[f].plane as int];
    if l.faces@[f].plane_side == 0 { n } else { Vec3Bits { x: negated(n.x), y: negated(n.y), z: negated(n.z) } }
}

pub open spec fn corner_of(l: &RawLevel, f: int, k: int) -> Corner {
    Corner {
        face: f as u32,
        vertex: face_vertex(l, f, k),
        position: l.vertices@[face_vertex(l, f, k) as int],
        normal: face_normal(l, f),
        texture_info: l.faces@[f].texture_info,
    }
}

/// The corners of face `f`, in loop order.
pub open spec fn face_corners(l: &RawLevel, f: int) -> Seq<Corner> {
    Seq::new(l.faces@[f].surfedge_count as nat, |k: int| corner_of(l, f, k))
}

/// The corners of the `j` faces from `first` on, face after face.
pub open spec fn corners_upto(l: &RawLevel, first: int, j: int) -> Seq<Corner>
    decreases j,
{
    if j <= 0 {
        Seq::empty()
    } else {
        corners_upto(l, first, j - 1) + face_corners(l, first + j - 1)
    }
}

/// The corners of model `m`.
pub open spec fn model_corners(l: &RawLevel, m: int) -> Seq<Corner> {
    corners_upto(l, l.models@[m].first_face as int, l.models@[m].face_count as int)
}

fn flip_sign(x: u32) -> (r: u32)
    ensures
        r == negated(x),
{
    x ^ 0x8000_0000u32
}

/// The corners of every face of model `model`, face after face, each face's
/// in loop order.
pub fn corners(level: &RawLevel, model: usize) -> (r: Vec<Corner>)
    requires
        level.wf(),
        model < level.models@.len(),
    ensures
        r@ == model_corners(level, model as int),
{
    let m = level.models[model];
    let first = m.first_face as usize;
    let nf = level.faces.len();
    let ns = level.surfedges.len();
    let mut out: Vec<Corner> = Vec::new();
    let mut j: usize = 0;
    while j < m.face_count as usize
        invariant
            level.wf(),
            model < level.models@.len(),
            nf == level.faces@.len(),
            ns == level.surfedges@.len(),
            m == level.models@[model as int],
            first == m.first_face,
            first + m.face_count <= level.faces@.len(),
            j <= m.face_count,
            out@ == corners_upto(level, first as int, j as int),
        decreases m.face_count - j,
    {
        let f = first + j;
        let face = level.faces[f];
        let pn = level.planes[face.plane as usize];
        let normal = if face.plane_side == 0 { pn } else { Vec3Bits { x: flip_sign(pn.x), y: flip_sign(pn.y), z: flip_sign(pn.z) } };
        proof {
            assert(level.faces@[f as int] == face);
        }
        let ghost base = out@;
        let mut k: usize = 0;
        while k < face.surfedge_count as usize
            invariant
                level.wf(),
                ns == level.surfedges@.len(),
                face.first_surfedge + face.surfedge_count <= level.surfedges@.len(),
                f < level.faces@.len(),
                face == level.faces@[f as int],
                normal == face_normal(level, f as int),
                k <= face.surfedge_count,
                out@ == base + face_corners(level, f as int).take(k as int),
            decreases face.surfedge_count - k,
        {
            let se = level.surfedges[face.first_surfedge as usize + k];
            let v = if se >= 0 { level.edges[se as usize].a } else { level.edges[(-se) as usize].b };
            let c = Corner { face: f as u32, vertex: v, position: level.vertices[v as usize], normal, texture_info: face.texture_info };
            proof {
                assert(c == corner_of(level, f as int, k as int));
                assert(face_corners(level, f as int).take(k + 1) =~= face_corners(level, f as int).take(k as int).push(c));
            }
            out.push(c);
            k += 1;
        }
        proof {
            assert(face_corners(level, f as int).take(k as int) =~= face_corners(level, f as int));
        }
        j += 1;
    }
    out
}

proof fn lemma_upto_len(l: &RawLevel, first: int, j: int, total: int)
    requires
        0 <= j <= total,
    ensures
        corners_upto(l, first, j).len() <= corners_upto(l, first, total).len(),
    decreases total - j,
{
    if j < total {
        lemma_upto_len(l, first, j + 1, total);
        assert(corners_upto(l, first, j + 1) == corners_upto(l, first, j) + face_corners(l, first + j));
    }
}

/// The texture that face `f` uses.
pub open spec fn face_texture(l: &RawLevel, f: int) -> u32 {
    l.texture_infos@[l.faces@[f].texture_info as int].texture
}

/// Where the corners of face number `j` of a model start among its corners.
pub open spec fn corner_start(l: &RawLevel, first: int, j: int) -> int {
    corners_upto(l, first, j).len() as int
}

/// One face as a polygon: its texture and its vertex indices in loop order.
pub struct FacePolygon {
    pub texture: u32,
    pub indices: Vec<usize>,
}

/// Copies a list of indices.
pub fn copy_indices(v: &Vec<usize>) -> (r: Vec<usize>)
    ensures
        r@ == v@,
{
    let mut r: Vec<usize> = Vec::new();
    let mut i: usize = 0;
    while i < v.len()
        invariant
            i <= v@.len(),
            r@ == v@.take(i as int),
        decreases v@.len() - i,
    {
        r.push(v[i]);
        i += 1;
        assert(r@ =~= v@.take(i as int));
    }
    assert(v@.take(v@.len() as int) =~= v@);
    r
}

/// The faces of model `model` as polygons, given for each corner of the
/// model (in the order of `corners`) the index of its vertex.
pub fn face_polygons(level: &RawLevel, model: usize, index: &Vec<usize>) -> (r: Vec<FacePolygon>)
    requires
        level.wf(),
        model < level.models@.len(),
        index@.len() == model_corners(level, model as int).len(),
    ensures
        r@.len() == level.models@[model as int].face_count,
        forall|j: int| 0 <= j < r@.len() ==> {
            let first = level.models@[model as int].first_face as int;
            &&& (#[trigger] r@[j]).texture == face_texture(level, first + j)
            &&& r@[j].indices@ == index@.subrange(corner_start(level, first, j), corner_start(level, first, j + 1))
            &&& r@[j].indices@.len() >= 3
        },
{
    let m = level.models[model];
    let first = m.first_face as usize;
    let ghost fi = first as int;
    let nf = level.faces.len();
    let ni = index.len();
    let mut out: Vec<FacePolygon> = Vec::new();
    let mut pos: usize = 0;
    let mut j: usize = 0;
    while j < m.face_count as usize
        invariant
            level.wf(),
            model < level.models@.len(),
            nf == level.faces@.len(),
            ni == index@.len(),
            fi == first,
            m == level.models@[model as int],
            first == m.first_face,
            first + m.face_count <= level.faces@.len(),
            index@.len() == corner_start(level, fi, m.face_count as int),
            j <= m.face_count,
            pos == corner_start(level, fi, j as int),
            out@.len() == j,
            forall|q: int| 0 <= q < j ==> {
                &&& (#[trigger] out@[q]).texture == face_texture(level, fi + q)
                &&& out@[q].indices@ == index@.subrange(corner_start(level, fi, q), corner_start(level, fi, q + 1))
                &&& out@[q].indices@.len() >= 3
            },
        decreases m.face_count - j,
    {
        let face = level.faces[first + j];
        let count = face.surfedge_count as usize;
        proof {
            assert(face == level.faces@[fi + j]);
            assert(corners_upto(level, fi, j + 1) == corners_upto(level, fi, j as int) + face_corners(level, fi + j));
            assert(face_corners(level, fi + j).len() == count);
            assert(corner_start(level, fi, j + 1) == pos + count);
            lemma_upto_len(level, fi, j + 1, m.face_count as int);
            assert(count >= 3);
        }
        let mut ids: Vec<usize> = Vec::new();
        let mut k: usize = 0;
        while k < count
            invariant
                pos + count <= index@.len(),
                ni == index@.len(),
                k <= count,
                ids@ == index@.subrange(pos as int, pos + k),
            decreases count - k,
        {
            ids.push(index[pos + k]);
            k += 1;
            assert(ids@ =~= index@.subrange(pos as int, pos + k));
        }
        let texture = level.texture_infos[face.texture_info as usize].texture;
        out.push(FacePolygon { texture, indices: ids });
        pos = pos + count;
        j += 1;
    }
    out
}

/// The textures of `ps`, in order.
pub open spec fn textures_of(ps: Seq<FacePolygon>) -> Seq<u32> {
    ps.map_values(|p: FacePolygon| p.texture)
}

/// The index lists of the polygons of `ps` that use texture `t`, in order.
pub open spec fn polygons_with(ps: Seq<FacePolygon>, t: u32) -> Seq<Seq<usize>>
    decreases ps.len(),
{
    if ps.len() == 0 {
        Seq::empty()
    } else if ps.last().texture == t {
        polygons_with(ps.drop_last(), t).push(ps.last().indices@)
    } else {
        polygons_with(ps.drop_last(), t)
    }
}

/// The polygons of one texture.
pub struct PolygonGroup {
    pub texture: u32,
    pub polygons: Vec<Vec<usize>>,
}

/// The index lists of a group's polygons.
pub open spec fn group_view(g: PolygonGroup) -> Seq<Seq<usize>> {
    g.polygons@.map_values(|v: Vec<usize>| v@)
}

/// The distinct textures of `ps` in the order they are first used.
fn texture_order(ps: &Vec<FacePolygon>) -> (r: Vec<u32>)
    ensures
        r@ == distinct(textures_of(ps@)),
{
    let mut r: Vec<u32> = Vec::new();
    let mut i: usize = 0;
    while i < ps.len()
        invariant
            i <= ps@.len(),
            r@ == distinct(textures_of(ps@.take(i as int))),
        decreases ps@.len() - i,
    {
        let t = ps[i].texture;
        let ghost d = r@;
        proof {
            assert(textures_of(ps@.take(i + 1)).drop_last() =~= textures_of(ps@.take(i as int)));
            assert(textures_of(ps@.take(i + 1)).last() == t);
        }
        let mut p: usize = 0;
        while p < r.len() && r[p] != t
            invariant
                p <= r@.len(),
                forall|q: int| 0 <= q < p ==> r@[q] != t,
            decreases r@.len() - p,
        {
            p += 1;
        }
        if p == r.len() {
            proof {
                assert(!r@.contains(t));
            }
            r.push(t);
        } else {
            proof {
                assert(r@.contains(t));
            }
        }
        i += 1;
    }
    proof {
        assert(ps@.take(ps@.len() as int) =~= ps@);
    }
    r
}

/// The polygons of `ps` that use texture `t`, in order.
fn collect_texture(ps: &Vec<FacePolygon>, t: u32) -> (r: Vec<Vec<usize>>)
    ensures
        r@.map_values(|v: Vec<usize>| v@) == polygons_with(ps@, t),
{
    let mut r: Vec<Vec<usize>> = Vec::new();
    let mut i: usize = 0;
    while i < ps.len()
        invariant
            i <= ps@.len(),
            r@.map_values(|v: Vec<usize>| v@) == polygons_with(ps@.take(i as int), t),
        decreases ps@.len() - i,
    {
        proof {
            assert(ps@.take(i + 1).drop_last() =~= ps@.take(i as int));
            assert(ps@.take(i + 1).last() == ps@[i as int]);
        }
        if ps[i].texture == t {
            let c = copy_indices(&ps[i].indices);
            let ghost before = r@;
            r.push(c);
            proof {
                assert(r@.map_values(|v: Vec<usize>| v@) =~= before.map_values(|v: Vec<usize>| v@).push(c@));
            }
        }
        i += 1;
    }
    proof {
        assert(ps@.take(ps@.len() as int) =~= ps@);
    }
    r
}

/// Groups polygons by texture. Groups come in the order their textures are
/// first used; each holds, in order, the polygons that use its texture.
pub fn group_by_texture(ps: &Vec<FacePolygon>) -> (r: Vec<PolygonGroup>)
    ensures
        r@.len() == distinct(textures_of(ps@)).len(),
        forall|g: int| 0 <= g < r@.len() ==> {
            &&& (#[trigger] r@[g]).texture == distinct(textures_of(ps@))[g]
            &&& group_view(r@[g]) == polygons_with(ps@, r@[g].texture)
        },
{
    let order = texture_order(ps);
    let mut r: Vec<PolygonGroup> = Vec::new();
    let mut g: usize = 0;
    while g < order.len()
        invariant
            order@ == distinct(textures_of(ps@)),
            g <= order@.len(),
            r@.len() == g,
            forall|q: int| 0 <= q < g ==> {
                &&& (#[trigger] r@[q]).texture == order@[q]
                &&& group_view(r@[q]) == polygons_with(ps@, r@[q].texture)
            },
        decreases order@.len() - g,
    {
        let t = order[g];
        let polygons = collect_texture(ps, t);
        r.push(PolygonGroup { texture: t, polygons });
        g += 1;
    }
    r
}

/// The fans of the polygons `ps`, one after another.
pub open spec fn fans_of(ps: Seq<Seq<usize>>) -> Seq<usize>
    decreases ps.len(),
{
    if ps.len() == 0 {
        Seq::empty()
    } else {
        fans_of(ps.drop_last()) + fan_spec(ps.last())
    }
}

/// The triangles of one texture, three indices each.
pub struct TriangleGroup {
    pub texture: u32,
    pub indices: Vec<usize>,
}

/// Fan-triangulates every polygon of every group, keeping groups and their
/// order.
pub fn triangulate(groups: &Vec<PolygonGroup>) -> (r: Vec<TriangleGroup>)
    requires
        forall|g: int, i: int| 0 <= g < groups@.len() && 0 <= i < group_view(groups@[g]).len() ==> (#[trigger] group_view(groups@[g])[i]).len() >= 3,
    ensures
        r@.len() == groups@.len(),
        forall|g: int| 0 <= g < r@.len() ==> {
            &&& (#[trigger] r@[g]).texture == groups@[g].texture
            &&& r@[g].indices@ == fans_of(group_view(groups@[g]))
        },
{
    let mut r: Vec<TriangleGroup> = Vec::new();
    let mut g: usize = 0;
    while g < groups.len()
        invariant
            g <= groups@.len(),
            r@.len() == g,
            forall|g: int, i: int| 0 <= g < groups@.len() && 0 <= i < group_view(groups@[g]).len() ==> (#[trigger] group_view(groups@[g])[i]).len() >= 3,
            forall|q: int| 0 <= q < g ==> {
                &&& (#[trigger] r@[q]).texture == groups@[q].texture
                &&& r@[q].indices@ == fans_of(group_view(groups@[q]))
            },
        decreases groups@.len() - g,
    {
        let polys = &groups[g].polygons;
        let ghost pv = group_view(groups@[g as int]);
        let mut out: Vec<usize> = Vec::new();
        let mut i: usize = 0;
        while i < polys.len()
            invariant
                pv == polys@.map_values(|v: Vec<usize>| v@),
                forall|i: int| 0 <= i < pv.len() ==> (#[trigger] pv[i]).len() >= 3,
                i <= polys@.len(),
                out@ == fans_of(pv.take(i as int)),
            decreases polys@.len() - i,
        {
            proof {
                assert(pv[i as int] == polys@[i as int]@);
            }
            let f = fan(&polys[i]);
            let mut k: usize = 0;
            let ghost base = out@;
            while k < f.len()
                invariant
                    k <= f@.len(),
                    out@ == base + f@.take(k as int),
                decreases f@.len() - k,
            {
                out.push(f[k]);
                k += 1;
                assert(out@ =~= base + f@.take(k as int));
            }
            proof {
                assert(f@.take(f@.len() as int) =~= f@);
                assert(pv.take(i + 1).drop_last() =~= pv.take(i as int));
                assert(pv.take(i + 1).last() == pv[i as int]);
            }
            i += 1;
        }
        proof {
            assert(pv.take(pv.len() as int) =~= pv);
        }
        r.push(TriangleGroup { texture: groups[g].texture, indices: out });
        g += 1;
    }
    r
}

/// The faces of model `model` as polygons grouped by texture, given for each
/// corner of the model (in the order of `corners`) the index of its vertex.
/// Groups come in the order their textures are first used.
pub fn indices_with_texture(level: &RawLevel, model: usize, index: &Vec<usize>) -> (r: Vec<PolygonGroup>)
    requires
        level.wf(),
        model < level.models@.len(),
        index@.len() == model_corners(level, model as int).len(),
    ensures
        exists|ps: Seq<FacePolygon>| {
            &&& #[trigger] ps.len() == level.models@[model as int].face_count
            &&& forall|j: int| 0 <= j < ps.len() ==> {
                let first = level.models@[model as int].first_face as int;
                &&& (#[trigger] ps[j]).texture == face_texture(level, first + j)
                &&& ps[j].indices@ == index@.subrange(corner_start(level, first, j), corner_start(level, first, j + 1))
            }
            &&& r@.len() == distinct(textures_of(ps)).len()
            &&& forall|g: int| 0 <= g < r@.len() ==> {
                &&& (#[trigger] r@[g]).texture == distinct(textures_of(ps))[g]
                &&& group_view(r@[g]) == polygons_with(ps, r@[g].texture)
            }
        },
        forall|g: int, i: int| 0 <= g < r@.len() && 0 <= i < group_view(r@[g]).len() ==> (#[trigger] group_view(r@[g])[i]).len() >= 3,
{
    let ps = face_polygons(level, model, index);
    let r = group_by_texture(&ps);
    proof {
        lemma_polygons_with_long(ps@);
        assert(ps@.len() == level.models@[model as int].face_count);
    }
    r
}

proof fn lemma_polygons_with_long(ps: Seq<FacePolygon>)
    requires
        forall|j: int| 0 <= j < ps.len() ==> (#[trigger] ps[j]).indices@.len() >= 3,
    ensures
        forall|t: u32, i: int| 0 <= i < polygons_with(ps, t).len() ==> (#[trigger] polygons_with(ps, t)[i]).len() >= 3,
    decreases ps.len(),
{
    if ps.len() > 0 {
        let q = ps.drop_last();
        assert forall|j: int| 0 <= j < q.len() implies (#[trigger] q[j]).indices@.len() >= 3 by {
            assert(q[j] == ps[j]);
        }
        lemma_polygons_with_long(q);
        assert forall|t: u32, i: int| 0 <= i < polygons_with(ps, t).len() implies (#[trigger] polygons_with(ps, t)[i]).len() >= 3 by {
            assert(ps.last() == ps[ps.len() - 1]);
            if ps.last().texture == t {
                assert(polygons_with(ps, t) == polygons_with(q, t).push(ps.last().indices@));
                if i < polygons_with(q, t).len() {
                    assert(polygons_with(ps, t)[i] == polygons_with(q, t)[i]);
                }
            } else {
                assert(polygons_with(ps, t) == polygons_with(q, t));
            }
        }
    }
}

/// The faces of model `model` fan-triangulated and grouped by texture, in the
/// groups and order of `indices_with_texture`.
pub fn indices_triangulated(level: &RawLevel, model: usize, index: &Vec<usize>) -> (r: Vec<TriangleGroup>)
    requires
        level.wf(),
        model < level.models@.len(),
        index@.len() == model_corners(level, model as int).len(),
    ensures
        exists|groups: Seq<PolygonGroup>| {
            &&& #[trigger] groups.len() == r@.len()
            &&& forall|g: int| 0 <= g < r@.len() ==> {
                &&& (#[trigger] r@[g]).texture == groups[g].texture
                &&& r@[g].indices@ == fans_of(group_view(groups[g]))
            }
            &&& exists|ps: Seq<FacePolygon>| {
                &&& #[trigger] ps.len() == level.models@[model as int].face_count
                &&& forall|j: int| 0 <= j < ps.len() ==> {
                    let first = level.models@[model as int].first_face as int;
                    &&& (#[trigger] ps[j]).texture == face_texture(level, first + j)
                    &&& ps[j].indices@ == index@.subrange(corner_start(level, first, j), corner_start(level, first, j + 1))
                }
                &&& groups.len() == distinct(textures_of(ps)).len()
                &&& forall|g: int| 0 <= g < groups.len() ==> {
                    &&& (#[trigger] groups[g]).texture == distinct(textures_of(ps))[g]
                    &&& group_view(groups[g]) == polygons_with(ps, groups[g].texture)
                }
            }
        },
{
    let groups = indices_with_texture(level, model, index);
    let r = triangulate(&groups);
    proof {
        assert(groups@.len() == r@.len());
    }
    r
}

} // verus!
