//! The level container (BSP version 30): its lump directory and the record
//! tables that geometry is built from.
use vstd::prelude::*;
use crate::bytes::{as_i32, copy_range, read_i32_le, read_u16_le, read_u32_le, u16_le, u32_le};
use crate::texture::{decode_mip_texture, miptex_valid, texture_view_of, Texture, TextureView};

verus! {

/// The level format version this decoder reads.
pub const BSP_VERSION: u32 = 30;

/// Size in bytes of the header: the version and fifteen lump entries.
pub const BSP_HEADER_SIZE: usize = 124;

pub const LUMP_PLANES: usize = 1;
pub const LUMP_TEXTURES: usize = 2;
pub const LUMP_VERTICES: usize = 3;
pub const LUMP_TEXTURE_INFOS: usize = 6;
pub const LUMP_FACES: usize = 7;
pub const LUMP_EDGES: usize = 12;
pub const LUMP_SURFEDGES: usize = 13;
pub const LUMP_MODELS: usize = 14;

pub const PLANE_SIZE: usize = 20;
pub const VERTEX_SIZE: usize = 12;
pub const TEXTURE_INFO_SIZE: usize = 40;
pub const FACE_SIZE: usize = 20;
pub const EDGE_SIZE: usize = 4;
pub const SURFEDGE_SIZE: usize = 4;
pub const MODEL_SIZE: usize = 64;

/// Three 32-bit float bit patterns, as stored.
#[derive(Clone, Copy, Debug, PartialEq, Eq, Structural)]
pub struct Vec3Bits {
    pub x: u32,
    pub y: u32,
    pub z: u32,
}

/// A texture axis: a direction and a shift, as float bit patterns.
#[derive(Clone, Copy, Debug, PartialEq, Eq, Structural)]
pub struct AxisBits {
    pub dir: Vec3Bits,
    pub shift: u32,
}

/// How a face maps a texture.
#[derive(Clone, Copy, Debug, PartialEq, Eq, Structural)]
pub struct TextureInfo {
    pub s: AxisBits,
    pub t: AxisBits,
    /// Index into the level's textures.
    pub texture: u32,
    pub flags: u32,
}

/// A polygon: a run of surface edges, on a plane, with a texture mapping.
#[derive(Clone, Copy, Debug, PartialEq, Eq, Structural)]
pub struct Face {
    pub plane: u16,
    /// Nonzero when the face lies on the back of its plane.
    pub plane_side: u16,
    pub first_surfedge: u32,
    pub surfedge_count: u16,
    pub texture_info: u16,
}

/// An edge between two vertices.
#[derive(Clone, Copy, Debug, PartialEq, Eq, Structural)]
pub struct Edge {
    pub a: u16,
    pub b: u16,
}

/// A model: a run of faces. Model 0 is the world.
#[derive(Clone, Copy, Debug, PartialEq, Eq, Structural)]
pub struct Model {
    pub first_face: u32,
    pub face_count: u32,
}

/// The tables of a decoded level.
pub struct RawLevel {
    /// Plane normals.
    pub planes: Vec<Vec3Bits>,
    pub vertices: Vec<Vec3Bits>,
    pub texture_infos: Vec<TextureInfo>,
    pub faces: Vec<Face>,
    pub edges: Vec<Edge>,
    /// Signed edge indices: a negative one walks its edge from `b` to `a`.
    pub surfedges: Vec<i32>,
    pub models: Vec<Model>,
    pub textures: Vec<Texture>,
}

/// Why a level could not be decoded.
#[derive(Debug, PartialEq, Eq, Structural)]
pub enum LevelError {
    /// The bytes are shorter than the header.
    Truncated,
    /// The header names another format version.
    WrongVersion,
    /// A lump lies outside the bytes.
    LumpOutOfRange,
    /// A lump's length is not a whole number of records.
    StrideMismatch,
    /// The texture lump or a texture record in it is malformed.
    BadTexture,
    /// A record refers to a record that does not exist.
    BadReference,
}

/// Offset of lump `k`.
pub open spec fn lump_offset(b: Seq<u8>, k: int) -> int {
    u32_le(b, 4 + 8 * k)
}

/// Length in bytes of lump `k`.
pub open spec fn lump_size(b: Seq<u8>, k: int) -> int {
    u32_le(b, 8 + 8 * k)
}

/// Lump `k` lies within `b`, or is empty.
pub open spec fn lump_in_range(b: Seq<u8>, k: int) -> bool {
    lump_size(b, k) == 0 || lump_offset(b, k) + lump_size(b, k) <= b.len()
}

/// Lump `k` lies within `b` and holds whole records of `stride` bytes.
pub open spec fn table_ok(b: Seq<u8>, k: int, stride: int) -> bool {
    lump_in_range(b, k) && lump_size(b, k) % stride == 0
}

/// The bytes of lump `k`.
pub open spec fn lump(b: Seq<u8>, k: int) -> Seq<u8> {
    if lump_size(b, k) == 0 {
        Seq::empty()
    } else {
        b.subrange(lump_offset(b, k), lump_offset(b, k) + lump_size(b, k))
    }
}

/// Byte position of record `i` of lump `k`.
pub open spec fn record_pos(b: Seq<u8>, k: int, stride: int, i: int) -> int {
    lump_offset(b, k) + stride * i
}

pub open spec fn vec3_at(b: Seq<u8>, at: int) -> Vec3Bits {
    Vec3Bits { x: u32_le(b, at) as u32, y: u32_le(b, at + 4) as u32, z: u32_le(b, at + 8) as u32 }
}

pub open spec fn axis_at(b: Seq<u8>, at: int) -> AxisBits {
    AxisBits { dir: vec3_at(b, at), shift: u32_le(b, at + 12) as u32 }
}

pub open spec fn texture_info_at(b: Seq<u8>, at: int) -> TextureInfo {
    TextureInfo { s: axis_at(b, at), t: axis_at(b, at + 16), texture: u32_le(b, at + 32) as u32, flags: u32_le(b, at + 36) as u32 }
}

pub open spec fn face_at(b: Seq<u8>, at: int) -> Face {
    Face {
        plane: u16_le(b, at) as u16,
        plane_side: u16_le(b, at + 2) as u16,
        first_surfedge: u32_le(b, at + 4) as u32,
        surfedge_count: u16_le(b, at + 8) as u16,
        texture_info: u16_le(b, at + 10) as u16,
    }
}

pub open spec fn edge_at(b: Seq<u8>, at: int) -> Edge {
    Edge { a: u16_le(b, at) as u16, b: u16_le(b, at + 2) as u16 }
}

pub open spec fn model_at(b: Seq<u8>, at: int) -> Model {
    Model { first_face: u32_le(b, at + 56) as u32, face_count: u32_le(b, at + 60) as u32 }
}

/// Number of records of `stride` bytes in lump `k`.
pub open spec fn record_count(b: Seq<u8>, k: int, stride: int) -> int {
    lump_size(b, k) / stride
}

fn lump_bounds(b: &[u8], k: usize, stride: usize) -> (r: Result<(usize, usize), LevelError>)
    requires
        b@.len() >= BSP_HEADER_SIZE,
        k < 15,
        stride > 0,
    ensures
        r is Ok <==> table_ok(b@, k as int, stride as int),
        r is Err ==> (r == Err::<(usize, usize), LevelError>(if lump_in_range(b@, k as int) { LevelError::StrideMismatch } else { LevelError::LumpOutOfRange })),
        r matches Ok((start, count)) ==> {
            &&& count == record_count(b@, k as int, stride as int)
            &&& (count == 0 || start == lump_offset(b@, k as int))
            &&& start + stride * count <= b@.len()
        },
{
    let off = read_u32_le(b, 4 + 8 * k) as usize;
    let size = read_u32_le(b, 8 + 8 * k) as usize;
    if size != 0 && (off > b.len() || size > b.len() - off) {
        return Err(LevelError::LumpOutOfRange);
    }
    if size % stride != 0 {
        return Err(LevelError::StrideMismatch);
    }
    let count = size / stride;
    assert(stride * count == size) by (nonlinear_arith)
        requires size % stride == 0, count == size / stride, stride > 0;
    if size == 0 {
        Ok((0, 0))
    } else {
        Ok((off, count))
    }
}

fn read_vec3(b: &[u8], at: usize) -> (r: Vec3Bits)
    requires
        at + 12 <= b@.len(),
    ensures
        r == vec3_at(b@, at as int),
{
    let _n = b.len();
    Vec3Bits { x: read_u32_le(b, at), y: read_u32_le(b, at + 4), z: read_u32_le(b, at + 8) }
}

fn read_texture_info(b: &[u8], at: usize) -> (r: TextureInfo)
    requires
        at + 40 <= b@.len(),
    ensures
        r == texture_info_at(b@, at as int),
{
    let _n = b.len();
    TextureInfo {
        s: AxisBits { dir: read_vec3(b, at), shift: read_u32_le(b, at + 12) },
        t: AxisBits { dir: read_vec3(b, at + 16), shift: read_u32_le(b, at + 28) },
        texture: read_u32_le(b, at + 32),
        flags: read_u32_le(b, at + 36),
    }
}

fn read_face(b: &[u8], at: usize) -> (r: Face)
    requires
        at + 20 <= b@.len(),
    ensures
        r == face_at(b@, at as int),
{
    let _n = b.len();
    Face {
        plane: read_u16_le(b, at),
        plane_side: read_u16_le(b, at + 2),
        first_surfedge: read_u32_le(b, at + 4),
        surfedge_count: read_u16_le(b, at + 8),
        texture_info: read_u16_le(b, at + 10),
    }
}

fn read_edge(b: &[u8], at: usize) -> (r: Edge)
    requires
        at + 4 <= b@.len(),
    ensures
        r == edge_at(b@, at as int),
{
    let _n = b.len();
    Edge { a: read_u16_le(b, at), b: read_u16_le(b, at + 2) }
}

fn read_model(b: &[u8], at: usize) -> (r: Model)
    requires
        at + 64 <= b@.len(),
    ensures
        r == model_at(b@, at as int),
{
    let _n = b.len();
    Model { first_face: read_u32_le(b, at + 56), face_count: read_u32_le(b, at + 60) }
}

/// The records of lump LUMP_PLANES.
fn read_planes(b: &[u8]) -> (r: Result<Vec<Vec3Bits>, LevelError>)
    requires
        b@.len() >= BSP_HEADER_SIZE,
    ensures
        r is Ok <==> table_ok(b@, LUMP_PLANES as int, PLANE_SIZE as int),
        r is Err ==> (r == Err::<Vec<Vec3Bits>, LevelError>(if lump_in_range(b@, LUMP_PLANES as int) { LevelError::StrideMismatch } else { LevelError::LumpOutOfRange })),
        r matches Ok(v) ==> v@.len() == record_count(b@, LUMP_PLANES as int, PLANE_SIZE as int),
        r matches Ok(v) ==> forall|i: int| 0 <= i < v@.len() ==> #[trigger] v@[i] == vec3_at(b@, record_pos(b@, LUMP_PLANES as int, PLANE_SIZE as int, i)),
{
    let (start, count) = match lump_bounds(b, LUMP_PLANES, PLANE_SIZE) {
        Ok(x) => x,
        Err(e) => return Err(e),
    };
    let mut v: Vec<Vec3Bits> = Vec::new();
    let mut i: usize = 0;
    let mut pos: usize = start;
    let n = b.len();
    while i < count
        invariant
            i <= count,
            n == b@.len(),
            pos == start + PLANE_SIZE * i,
            start + PLANE_SIZE * count <= b@.len(),
            count == 0 || start == lump_offset(b@, LUMP_PLANES as int),
            v@.len() == i,
            forall|j: int| 0 <= j < i ==> #[trigger] v@[j] == vec3_at(b@, start + PLANE_SIZE * j),
        decreases count - i,
    {
        assert(pos + PLANE_SIZE <= start + PLANE_SIZE * count) by (nonlinear_arith)
            requires pos == start + PLANE_SIZE * i, i < count;
        v.push(read_vec3(b, pos));
        i += 1;
        pos += PLANE_SIZE;
    }
    Ok(v)
}

/// The records of lump LUMP_VERTICES.
fn read_vertices(b: &[u8]) -> (r: Result<Vec<Vec3Bits>, LevelError>)
    requires
        b@.len() >= BSP_HEADER_SIZE,
    ensures
        r is Ok <==> table_ok(b@, LUMP_VERTICES as int, VERTEX_SIZE as int),
        r is Err ==> (r == Err::<Vec<Vec3Bits>, LevelError>(if lump_in_range(b@, LUMP_VERTICES as int) { LevelError::StrideMismatch } else { LevelError::LumpOutOfRange })),
        r matches Ok(v) ==> v@.len() == record_count(b@, LUMP_VERTICES as int, VERTEX_SIZE as int),
        r matches Ok(v) ==> forall|i: int| 0 <= i < v@.len() ==> #[trigger] v@[i] == vec3_at(b@, record_pos(b@, LUMP_VERTICES as int, VERTEX_SIZE as int, i)),
{
    let (start, count) = match lump_bounds(b, LUMP_VERTICES, VERTEX_SIZE) {
        Ok(x) => x,
        Err(e) => return Err(e),
    };
    let mut v: Vec<Vec3Bits> = Vec::new();
    let mut i: usize = 0;
    let mut pos: usize = start;
    let n = b.len();
    while i < count
        invariant
            i <= count,
            n == b@.len(),
            pos == start + VERTEX_SIZE * i,
            start + VERTEX_SIZE * count <= b@.len(),
            count == 0 || start == lump_offset(b@, LUMP_VERTICES as int),
            v@.len() == i,
            forall|j: int| 0 <= j < i ==> #[trigger] v@[j] == vec3_at(b@, start + VERTEX_SIZE * j),
        decreases count - i,
    {
        assert(pos + VERTEX_SIZE <= start + VERTEX_SIZE * count) by (nonlinear_arith)
            requires pos == start + VERTEX_SIZE * i, i < count;
        v.push(read_vec3(b, pos));
        i += 1;
        pos += VERTEX_SIZE;
    }
    Ok(v)
}

/// The records of lump LUMP_TEXTURE_INFOS.
fn read_texture_infos(b: &[u8]) -> (r: Result<Vec<TextureInfo>, LevelError>)
    requires
        b@.len() >= BSP_HEADER_SIZE,
    ensures
        r is Ok <==> table_ok(b@, LUMP_TEXTURE_INFOS as int, TEXTURE_INFO_SIZE as int),
        r is Err ==> (r == Err::<Vec<TextureInfo>, LevelError>(if lump_in_range(b@, LUMP_TEXTURE_INFOS as int) { LevelError::StrideMismatch } else { LevelError::LumpOutOfRange })),
        r matches Ok(v) ==> v@.len() == record_count(b@, LUMP_TEXTURE_INFOS as int, TEXTURE_INFO_SIZE as int),
        r matches Ok(v) ==> forall|i: int| 0 <= i < v@.len() ==> #[trigger] v@[i] == texture_info_at(b@, record_pos(b@, LUMP_TEXTURE_INFOS as int, TEXTURE_INFO_SIZE as int, i)),
{
    let (start, count) = match lump_bounds(b, LUMP_TEXTURE_INFOS, TEXTURE_INFO_SIZE) {
        Ok(x) => x,
        Err(e) => return Err(e),
    };
    let mut v: Vec<TextureInfo> = Vec::new();
    let mut i: usize = 0;
    let mut pos: usize = start;
    let n = b.len();
    while i < count
        invariant
            i <= count,
            n == b@.len(),
            pos == start + TEXTURE_INFO_SIZE * i,
            start + TEXTURE_INFO_SIZE * count <= b@.len(),
            count == 0 || start == lump_offset(b@, LUMP_TEXTURE_INFOS as int),
            v@.len() == i,
            forall|j: int| 0 <= j < i ==> #[trigger] v@[j] == texture_info_at(b@, start + TEXTURE_INFO_SIZE * j),
        decreases count - i,
    {
        assert(pos + TEXTURE_INFO_SIZE <= start + TEXTURE_INFO_SIZE * count) by (nonlinear_arith)
            requires pos == start + TEXTURE_INFO_SIZE * i, i < count;
        v.push(read_texture_info(b, pos));
        i += 1;
        pos += TEXTURE_INFO_SIZE;
    }
    Ok(v)
}

/// The records of lump LUMP_FACES.
fn read_faces(b: &[u8]) -> (r: Result<Vec<Face>, LevelError>)
    requires
        b@.len() >= BSP_HEADER_SIZE,
    ensures
        r is Ok <==> table_ok(b@, LUMP_FACES as int, FACE_SIZE as int),
        r is Err ==> (r == Err::<Vec<Face>, LevelError>(if lump_in_range(b@, LUMP_FACES as int) { LevelError::StrideMismatch } else { LevelError::LumpOutOfRange })),
        r matches Ok(v) ==> v@.len() == record_count(b@, LUMP_FACES as int, FACE_SIZE as int),
        r matches Ok(v) ==> forall|i: int| 0 <= i < v@.len() ==> #[trigger] v@[i] == face_at(b@, record_pos(b@, LUMP_FACES as int, FACE_SIZE as int, i)),
{
    let (start, count) = match lump_bounds(b, LUMP_FACES, FACE_SIZE) {
        Ok(x) => x,
        Err(e) => return Err(e),
    };
    let mut v: Vec<Face> = Vec::new();
    let mut i: usize = 0;
    let mut pos: usize = start;
    let n = b.len();
    while i < count
        invariant
            i <= count,
            n == b@.len(),
            pos == start + FACE_SIZE * i,
            start + FACE_SIZE * count <= b@.len(),
            count == 0 || start == lump_offset(b@, LUMP_FACES as int),
            v@.len() == i,
            forall|j: int| 0 <= j < i ==> #[trigger] v@[j] == face_at(b@, start + FACE_SIZE * j),
        decreases count - i,
    {
        assert(pos + FACE_SIZE <= start + FACE_SIZE * count) by (nonlinear_arith)
            requires pos == start + FACE_SIZE * i, i < count;
        v.push(read_face(b, pos));
        i += 1;
        pos += FACE_SIZE;
    }
    Ok(v)
}

/// The records of lump LUMP_EDGES.
fn read_edges(b: &[u8]) -> (r: Result<Vec<Edge>, LevelError>)
    requires
        b@.len() >= BSP_HEADER_SIZE,
    ensures
        r is Ok <==> table_ok(b@, LUMP_EDGES as int, EDGE_SIZE as int),
        r is Err ==> (r == Err::<Vec<Edge>, LevelError>(if lump_in_range(b@, LUMP_EDGES as int) { LevelError::StrideMismatch } else { LevelError::LumpOutOfRange })),
        r matches Ok(v) ==> v@.len() == record_count(b@, LUMP_EDGES as int, EDGE_SIZE as int),
        r matches Ok(v) ==> forall|i: int| 0 <= i < v@.len() ==> #[trigger] v@[i] == edge_at(b@, record_pos(b@, LUMP_EDGES as int, EDGE_SIZE as int, i)),
{
    let (start, count) = match lump_bounds(b, LUMP_EDGES, EDGE_SIZE) {
        Ok(x) => x,
        Err(e) => return Err(e),
    };
    let mut v: Vec<Edge> = Vec::new();
    let mut i: usize = 0;
    let mut pos: usize = start;
    let n = b.len();
    while i < count
        invariant
            i <= count,
            n == b@.len(),
            pos == start + EDGE_SIZE * i,
            start + EDGE_SIZE * count <= b@.len(),
            count == 0 || start == lump_offset(b@, LUMP_EDGES as int),
            v@.len() == i,
            forall|j: int| 0 <= j < i ==> #[trigger] v@[j] == edge_at(b@, start + EDGE_SIZE * j),
        decreases count - i,
    {
        assert(pos + EDGE_SIZE <= start + EDGE_SIZE * count) by (nonlinear_arith)
            requires pos == start + EDGE_SIZE * i, i < count;
        v.push(read_edge(b, pos));
        i += 1;
        pos += EDGE_SIZE;
    }
    Ok(v)
}

/// The records of lump LUMP_SURFEDGES.
fn read_surfedges(b: &[u8]) -> (r: Result<Vec<i32>, LevelError>)
    requires
        b@.len() >= BSP_HEADER_SIZE,
    ensures
        r is Ok <==> table_ok(b@, LUMP_SURFEDGES as int, SURFEDGE_SIZE as int),
        r is Err ==> (r == Err::<Vec<i32>, LevelError>(if lump_in_range(b@, LUMP_SURFEDGES as int) { LevelError::StrideMismatch } else { LevelError::LumpOutOfRange })),
        r matches Ok(v) ==> v@.len() == record_count(b@, LUMP_SURFEDGES as int, SURFEDGE_SIZE as int),
        r matches Ok(v) ==> forall|i: int| 0 <= i < v@.len() ==> #[trigger] v@[i] as int == as_i32(u32_le(b@, record_pos(b@, LUMP_SURFEDGES as int, SURFEDGE_SIZE as int, i))),
{
    let (start, count) = match lump_bounds(b, LUMP_SURFEDGES, SURFEDGE_SIZE) {
        Ok(x) => x,
        Err(e) => return Err(e),
    };
    let mut v: Vec<i32> = Vec::new();
    let mut i: usize = 0;
    let mut pos: usize = start;
    let n = b.len();
    while i < count
        invariant
            i <= count,
            n == b@.len(),
            pos == start + SURFEDGE_SIZE * i,
            start + SURFEDGE_SIZE * count <= b@.len(),
            count == 0 || start == lump_offset(b@, LUMP_SURFEDGES as int),
            v@.len() == i,
            forall|j: int| 0 <= j < i ==> #[trigger] v@[j] as int == as_i32(u32_le(b@, start + SURFEDGE_SIZE * j)),
        decreases count - i,
    {
        assert(pos + SURFEDGE_SIZE <= start + SURFEDGE_SIZE * count) by (nonlinear_arith)
            requires pos == start + SURFEDGE_SIZE * i, i < count;
        v.push(read_i32_le(b, pos));
        i += 1;
        pos += SURFEDGE_SIZE;
    }
    Ok(v)
}

/// The records of lump LUMP_MODELS.
fn read_models(b: &[u8]) -> (r: Result<Vec<Model>, LevelError>)
    requires
        b@.len() >= BSP_HEADER_SIZE,
    ensures
        r is Ok <==> table_ok(b@, LUMP_MODELS as int, MODEL_SIZE as int),
        r is Err ==> (r == Err::<Vec<Model>, LevelError>(if lump_in_range(b@, LUMP_MODELS as int) { LevelError::StrideMismatch } else { LevelError::LumpOutOfRange })),
        r matches Ok(v) ==> v@.len() == record_count(b@, LUMP_MODELS as int, MODEL_SIZE as int),
        r matches Ok(v) ==> forall|i: int| 0 <= i < v@.len() ==> #[trigger] v@[i] == model_at(b@, record_pos(b@, LUMP_MODELS as int, MODEL_SIZE as int, i)),
{
    let (start, count) = match lump_bounds(b, LUMP_MODELS, MODEL_SIZE) {
        Ok(x) => x,
        Err(e) => return Err(e),
    };
    let mut v: Vec<Model> = Vec::new();
    let mut i: usize = 0;
    let mut pos: usize = start;
    let n = b.len();
    while i < count
        invariant
            i <= count,
            n == b@.len(),
            pos == start + MODEL_SIZE * i,
            start + MODEL_SIZE * count <= b@.len(),
            count == 0 || start == lump_offset(b@, LUMP_MODELS as int),
            v@.len() == i,
            forall|j: int| 0 <= j < i ==> #[trigger] v@[j] == model_at(b@, start + MODEL_SIZE * j),
        decreases count - i,
    {
        assert(pos + MODEL_SIZE <= start + MODEL_SIZE * count) by (nonlinear_arith)
            requires pos == start + MODEL_SIZE * i, i < count;
        v.push(read_model(b, pos));
        i += 1;
        pos += MODEL_SIZE;
    }
    Ok(v)
}

/// Number of textures that the texture lump `t` declares.
pub open spec fn texture_count(t: Seq<u8>) -> int {
    if t.len() == 0 { 0 } else { u32_le(t, 0) }
}

/// Offset of texture record `i` within the texture lump `t`.
pub open spec fn texture_offset(t: Seq<u8>, i: int) -> int {
    u32_le(t, 4 + 4 * i)
}

/// The bytes from texture record `i` of the texture lump `t` to its end.
pub open spec fn texture_record(t: Seq<u8>, i: int) -> Seq<u8> {
    t.subrange(texture_offset(t, i), t.len() as int)
}

/// The texture lump `t` is empty, or holds a count, that many offsets, and
/// a texture record at each offset.
pub open spec fn textures_ok(t: Seq<u8>) -> bool {
    t.len() == 0 || {
        &&& t.len() >= 4
        &&& 4 + 4 * texture_count(t) <= t.len()
        &&& forall|i: int| 0 <= i < texture_count(t) ==> #[trigger] texture_offset(t, i) <= t.len() && miptex_valid(texture_record(t, i))
    }
}

fn read_textures(t: &[u8]) -> (r: Result<Vec<Texture>, LevelError>)
    ensures
        r is Ok <==> textures_ok(t@),
        r is Err ==> r == Err::<Vec<Texture>, LevelError>(LevelError::BadTexture),
        r matches Ok(v) ==> v@.len() == texture_count(t@),
        r matches Ok(v) ==> forall|i: int| 0 <= i < v@.len() ==> (#[trigger] v@[i])@ == texture_view_of(texture_record(t@, i)) && v@[i].wf(),
{
    let mut v: Vec<Texture> = Vec::new();
    if t.len() == 0 {
        return Ok(v);
    }
    if t.len() < 4 {
        return Err(LevelError::BadTexture);
    }
    let n = t.len();
    let count = read_u32_le(t, 0) as usize;
    if count > (n - 4) / 4 {
        assert(4 + 4 * count > n) by (nonlinear_arith)
            requires count > (n - 4) / 4, n >= 4;
        return Err(LevelError::BadTexture);
    }
    assert(4 + 4 * count <= n) by (nonlinear_arith)
        requires count <= (n - 4) / 4, n >= 4;
    let mut i: usize = 0;
    while i < count
        invariant
            n == t@.len(),
            t@.len() >= 4,
            count == texture_count(t@),
            4 + 4 * count <= t@.len(),
            i <= count,
            v@.len() == i,
            forall|j: int| 0 <= j < i ==> #[trigger] texture_offset(t@, j) <= t@.len() && miptex_valid(texture_record(t@, j)),
            forall|j: int| 0 <= j < i ==> (#[trigger] v@[j])@ == texture_view_of(texture_record(t@, j)) && v@[j].wf(),
        decreases count - i,
    {
        let off = read_u32_le(t, 4 + 4 * i) as usize;
        assert(texture_offset(t@, i as int) == off);
        if off > t.len() {
            return Err(LevelError::BadTexture);
        }
        let rec = copy_range(t, off, t.len());
        match decode_mip_texture(&rec) {
            Ok(x) => v.push(x),
            Err(_) => {
                assert(!miptex_valid(texture_record(t@, i as int)));
                return Err(LevelError::BadTexture);
            },
        }
        i += 1;
    }
    Ok(v)
}

/// The absolute value of a surface edge.
pub open spec fn surfedge_edge(s: i32) -> int {
    if s < 0 { -(s as int) } else { s as int }
}

/// Every record refers only to records that exist, every face has at least
/// three edges, and no surface edge is the least 32-bit value.
pub open spec fn refs_ok(
    planes: int,
    vertices: int,
    texture_infos: Seq<TextureInfo>,
    faces: Seq<Face>,
    edges: Seq<Edge>,
    surfedges: Seq<i32>,
    models: Seq<Model>,
    textures: int,
) -> bool {
    &&& forall|i: int| 0 <= i < edges.len() ==> (#[trigger] edges[i]).a < vertices && edges[i].b < vertices
    &&& forall|i: int| 0 <= i < surfedges.len() ==> #[trigger] surfedges[i] != i32::MIN && surfedge_edge(surfedges[i]) < edges.len()
    &&& forall|i: int| 0 <= i < faces.len() ==> {
        &&& (#[trigger] faces[i]).first_surfedge + faces[i].surfedge_count <= surfedges.len()
        &&& faces[i].surfedge_count >= 3
        &&& faces[i].texture_info < texture_infos.len()
        &&& faces[i].plane < planes
    }
    &&& forall|i: int| 0 <= i < texture_infos.len() ==> (#[trigger] texture_infos[i]).texture < textures
    &&& forall|i: int| 0 <= i < models.len() ==> (#[trigger] models[i]).first_face + models[i].face_count <= faces.len()
}

impl RawLevel {
    /// The level's records refer only to records that exist, each face has at
    /// least three edges, and each texture's levels have their declared sizes.
    pub open spec fn wf(&self) -> bool {
        &&& refs_ok(
            self.planes@.len() as int,
            self.vertices@.len() as int,
            self.texture_infos@,
            self.faces@,
            self.edges@,
            self.surfedges@,
            self.models@,
            self.textures@.len() as int,
        )
        &&& forall|i: int| 0 <= i < self.textures@.len() ==> (#[trigger] self.textures@[i]).wf()
    }
}

fn check_edges(edges: &Vec<Edge>, vertices: usize) -> (r: bool)
    ensures
        r == forall|i: int| 0 <= i < edges@.len() ==> (#[trigger] edges@[i]).a < vertices && edges@[i].b < vertices,
{
    let mut i: usize = 0;
    while i < edges.len()
        invariant
            i <= edges@.len(),
            forall|j: int| 0 <= j < i ==> (#[trigger] edges@[j]).a < vertices && edges@[j].b < vertices,
        decreases edges@.len() - i,
    {
        if edges[i].a as usize >= vertices || edges[i].b as usize >= vertices {
            return false;
        }
        i += 1;
    }
    true
}

fn check_surfedges(surfedges: &Vec<i32>, edges: usize) -> (r: bool)
    ensures
        r == forall|i: int| 0 <= i < surfedges@.len() ==> #[trigger] surfedges@[i] != i32::MIN && surfedge_edge(surfedges@[i]) < edges,
{
    let mut i: usize = 0;
    while i < surfedges.len()
        invariant
            i <= surfedges@.len(),
            forall|j: int| 0 <= j < i ==> #[trigger] surfedges@[j] != i32::MIN && surfedge_edge(surfedges@[j]) < edges,
        decreases surfedges@.len() - i,
    {
        let s = surfedges[i];
        if s == i32::MIN {
            return false;
        }
        let e: u32 = if s < 0 { (-s) as u32 } else { s as u32 };
        if e as usize >= edges {
            return false;
        }
        i += 1;
    }
    true
}

fn check_faces(faces: &Vec<Face>, surfedges: usize, texture_infos: usize, planes: usize) -> (r: bool)
    ensures
        r == forall|i: int| 0 <= i < faces@.len() ==> {
            &&& (#[trigger] faces@[i]).first_surfedge + faces@[i].surfedge_count <= surfedges
            &&& faces@[i].surfedge_count >= 3
            &&& faces@[i].texture_info < texture_infos
            &&& faces@[i].plane < planes
        },
{
    let mut i: usize = 0;
    while i < faces.len()
        invariant
            i <= faces@.len(),
            forall|j: int| 0 <= j < i ==> {
                &&& (#[trigger] faces@[j]).first_surfedge + faces@[j].surfedge_count <= surfedges
                &&& faces@[j].surfedge_count >= 3
                &&& faces@[j].texture_info < texture_infos
                &&& faces@[j].plane < planes
            },
        decreases faces@.len() - i,
    {
        let f = faces[i];
        if f.first_surfedge as u64 + f.surfedge_count as u64 > surfedges as u64 || f.surfedge_count < 3
            || f.texture_info as usize >= texture_infos || f.plane as usize >= planes {
            return false;
        }
        i += 1;
    }
    true
}

fn check_texture_infos(texture_infos: &Vec<TextureInfo>, textures: usize) -> (r: bool)
    ensures
        r == forall|i: int| 0 <= i < texture_infos@.len() ==> (#[trigger] texture_infos@[i]).texture < textures,
{
    let mut i: usize = 0;
    while i < texture_infos.len()
        invariant
            i <= texture_infos@.len(),
            forall|j: int| 0 <= j < i ==> (#[trigger] texture_infos@[j]).texture < textures,
        decreases texture_infos@.len() - i,
    {
        if texture_infos[i].texture as usize >= textures {
            return false;
        }
        i += 1;
    }
    true
}

fn check_models(models: &Vec<Model>, faces: usize) -> (r: bool)
    ensures
        r == forall|i: int| 0 <= i < models@.len() ==> (#[trigger] models@[i]).first_face + models@[i].face_count <= faces,
{
    let mut i: usize = 0;
    while i < models.len()
        invariant
            i <= models@.len(),
            forall|j: int| 0 <= j < i ==> (#[trigger] models@[j]).first_face + models@[j].face_count <= faces,
        decreases models@.len() - i,
    {
        if models[i].first_face as u64 + models[i].face_count as u64 > faces as u64 {
            return false;
        }
        i += 1;
    }
    true
}

pub open spec fn planes_of(b: Seq<u8>) -> Seq<Vec3Bits> {
    Seq::new(record_count(b, 1, 20) as nat, |i: int| vec3_at(b, record_pos(b, 1, 20, i)))
}

pub open spec fn vertices_of(b: Seq<u8>) -> Seq<Vec3Bits> {
    Seq::new(record_count(b, 3, 12) as nat, |i: int| vec3_at(b, record_pos(b, 3, 12, i)))
}

pub open spec fn texture_infos_of(b: Seq<u8>) -> Seq<TextureInfo> {
    Seq::new(record_count(b, 6, 40) as nat, |i: int| texture_info_at(b, record_pos(b, 6, 40, i)))
}

pub open spec fn faces_of(b: Seq<u8>) -> Seq<Face> {
    Seq::new(record_count(b, 7, 20) as nat, |i: int| face_at(b, record_pos(b, 7, 20, i)))
}

pub open spec fn edges_of(b: Seq<u8>) -> Seq<Edge> {
    Seq::new(record_count(b, 12, 4) as nat, |i: int| edge_at(b, record_pos(b, 12, 4, i)))
}

pub open spec fn surfedges_of(b: Seq<u8>) -> Seq<i32> {
    Seq::new(record_count(b, 13, 4) as nat, |i: int| as_i32(u32_le(b, record_pos(b, 13, 4, i))) as i32)
}

pub open spec fn models_of(b: Seq<u8>) -> Seq<Model> {
    Seq::new(record_count(b, 14, 64) as nat, |i: int| model_at(b, record_pos(b, 14, 64, i)))
}

/// `b` has a version-30 header, and every lump read lies within `b` and
/// holds whole records.
pub open spec fn structure_ok(b: Seq<u8>) -> bool {
    &&& b.len() >= BSP_HEADER_SIZE
    &&& u32_le(b, 0) == BSP_VERSION
    &&& table_ok(b, 1, 20)
    &&& lump_in_range(b, 2)
    &&& table_ok(b, 3, 12)
    &&& table_ok(b, 6, 40)
    &&& table_ok(b, 7, 20)
    &&& table_ok(b, 12, 4)
    &&& table_ok(b, 13, 4)
    &&& table_ok(b, 14, 64)
    &&& textures_ok(lump(b, 2))
}

/// `b` is a level: well structured, and its records refer only to records
/// that exist.
pub open spec fn level_valid(b: Seq<u8>) -> bool {
    &&& structure_ok(b)
    &&& refs_ok(
        planes_of(b).len() as int,
        vertices_of(b).len() as int,
        texture_infos_of(b),
        faces_of(b),
        edges_of(b),
        surfedges_of(b),
        models_of(b),
        texture_count(lump(b, 2)),
    )
}

impl RawLevel {
    /// Decodes a level. No partly decoded level is returned: any structural
    /// fault, or any record that refers to a record that does not exist,
    /// fails the whole decode.
    pub fn parse(b: &[u8]) -> (r: Result<RawLevel, LevelError>)
        ensures
            r is Ok <==> level_valid(b@),
            b@.len() < BSP_HEADER_SIZE ==> r == Err::<RawLevel, LevelError>(LevelError::Truncated),
            b@.len() >= BSP_HEADER_SIZE && u32_le(b@, 0) != BSP_VERSION ==> r == Err::<RawLevel, LevelError>(LevelError::WrongVersion),
            structure_ok(b@) && !level_valid(b@) ==> r == Err::<RawLevel, LevelError>(LevelError::BadReference),
            r matches Ok(l) ==> {
                &&& l.wf()
                &&& l.planes@ == planes_of(b@)
                &&& l.vertices@ == vertices_of(b@)
                &&& l.texture_infos@ == texture_infos_of(b@)
                &&& l.faces@ == faces_of(b@)
                &&& l.edges@ == edges_of(b@)
                &&& l.surfedges@ == surfedges_of(b@)
                &&& l.models@ == models_of(b@)
                &&& l.textures@.len() == texture_count(lump(b@, 2))
                &&& forall|i: int| 0 <= i < l.textures@.len() ==> (#[trigger] l.textures@[i])@ == texture_view_of(texture_record(lump(b@, 2), i))
            },
    {
        if b.len() < BSP_HEADER_SIZE {
            return Err(LevelError::Truncated);
        }
        if read_u32_le(b, 0) != BSP_VERSION {
            return Err(LevelError::WrongVersion);
        }
        let planes = match read_planes(b) { Ok(v) => v, Err(e) => return Err(e) };
        let (tstart, tsize) = match lump_bounds(b, LUMP_TEXTURES, 1) { Ok(x) => x, Err(e) => return Err(e) };
        let vertices = match read_vertices(b) { Ok(v) => v, Err(e) => return Err(e) };
        let texture_infos = match read_texture_infos(b) { Ok(v) => v, Err(e) => return Err(e) };
        let faces = match read_faces(b) { Ok(v) => v, Err(e) => return Err(e) };
        let edges = match read_edges(b) { Ok(v) => v, Err(e) => return Err(e) };
        let surfedges = match read_surfedges(b) { Ok(v) => v, Err(e) => return Err(e) };
        let models = match read_models(b) { Ok(v) => v, Err(e) => return Err(e) };
        let tl = copy_range(b, tstart, tstart + tsize);
        proof {
            assert(tl@ =~= lump(b@, 2));
        }
        let textures = match read_textures(&tl) { Ok(v) => v, Err(e) => return Err(e) };
        proof {
            assert(planes@ =~= planes_of(b@));
            assert(vertices@ =~= vertices_of(b@));
            assert(texture_infos@ =~= texture_infos_of(b@));
            assert(faces@ =~= faces_of(b@));
            assert(edges@ =~= edges_of(b@));
            assert(surfedges@ =~= surfedges_of(b@));
            assert(models@ =~= models_of(b@));
        }
        if !check_edges(&edges, vertices.len()) || !check_surfedges(&surfedges, edges.len())
            || !check_faces(&faces, surfedges.len(), texture_infos.len(), planes.len())
            || !check_texture_infos(&texture_infos, textures.len()) || !check_models(&models, faces.len()) {
            return Err(LevelError::BadReference);
        }
        Ok(RawLevel { planes, vertices, texture_infos, faces, edges, surfedges, models, textures })
    }
}

} // verus!
