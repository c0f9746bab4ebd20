use gs_files::archive::{is_archive_extension, ArchiveCatalog, ArchiveError, ReadError, WadAssetReader};
use gs_files::geometry::{
    corners, dedup_vertices, fan, group_by_texture, indices_triangulated, indices_with_texture, triangulate,
    FacePolygon, VertexKey,
};
use gs_files::level::{LevelError, RawLevel, Vec3Bits};
use gs_files::texture::{decode_mip_texture, replace_empty_textures, Texture, TextureError};

fn put_u32(v: &mut Vec<u8>, x: u32) {
    v.extend_from_slice(&x.to_le_bytes());
}

fn put_u16(v: &mut Vec<u8>, x: u16) {
    v.extend_from_slice(&x.to_le_bytes());
}

fn name16(name: &str) -> Vec<u8> {
    let mut n = name.as_bytes().to_vec();
    n.resize(16, 0);
    n
}

/// A texture record of `w` x `h` pixels whose pixel at (x, y) of level 0 has
/// palette index `(x + y) % 256`; palette entry p is (p, 255 - p, p / 2).
fn miptex(name: &str, w: u32, h: u32) -> Vec<u8> {
    let mut v = name16(name);
    put_u32(&mut v, w);
    put_u32(&mut v, h);
    let mut off = 40u32;
    for l in 0..4 {
        put_u32(&mut v, off);
        off += (w >> l) * (h >> l);
    }
    for l in 0..4 {
        let (lw, lh) = (w >> l, h >> l);
        for y in 0..lh {
            for x in 0..lw {
                v.push(((x + y) % 256) as u8);
            }
        }
    }
    put_u16(&mut v, 256);
    for p in 0..256u32 {
        v.push(p as u8);
        v.push((255 - p) as u8);
        v.push((p / 2) as u8);
    }
    v
}

/// A texture record that only names a texture held elsewhere.
fn placeholder(name: &str, w: u32, h: u32) -> Vec<u8> {
    let mut v = name16(name);
    put_u32(&mut v, w);
    put_u32(&mut v, h);
    for _ in 0..4 {
        put_u32(&mut v, 0);
    }
    v
}

fn wad(entries: &[(&str, Vec<u8>)]) -> Vec<u8> {
    let mut data = Vec::new();
    let mut dir = Vec::new();
    for (name, bytes) in entries {
        put_u32(&mut dir, 12 + data.len() as u32);
        put_u32(&mut dir, bytes.len() as u32);
        put_u32(&mut dir, bytes.len() as u32);
        dir.push(0x43);
        dir.push(0);
        put_u16(&mut dir, 0);
        dir.extend_from_slice(&name16(name));
        data.extend_from_slice(bytes);
    }
    let mut v = b"WAD3".to_vec();
    put_u32(&mut v, entries.len() as u32);
    put_u32(&mut v, 12 + data.len() as u32);
    v.extend_from_slice(&data);
    v.extend_from_slice(&dir);
    v
}

fn fbits(x: f32) -> u32 {
    x.to_bits()
}

/// A level whose lumps are given by number; the others are empty.
fn bsp(lumps: &[(usize, Vec<u8>)]) -> Vec<u8> {
    let mut header = Vec::new();
    put_u32(&mut header, 30);
    let mut data = Vec::new();
    for k in 0..15 {
        match lumps.iter().find(|(n, _)| *n == k) {
            Some((_, bytes)) => {
                put_u32(&mut header, 124 + data.len() as u32);
                put_u32(&mut header, bytes.len() as u32);
                data.extend_from_slice(bytes);
            }
            None => {
                put_u32(&mut header, 0);
                put_u32(&mut header, 0);
            }
        }
    }
    header.extend_from_slice(&data);
    header
}

/// One triangular face with texture "WALL01", not embedded in the level.
fn triangle_level_lumps(count: u16) -> Vec<(usize, Vec<u8>)> {
    let mut planes = Vec::new();
    for x in [0.0f32, 0.0, 1.0, 0.0] {
        put_u32(&mut planes, fbits(x));
    }
    put_u32(&mut planes, 2);
    let mut textures = Vec::new();
    put_u32(&mut textures, 1);
    put_u32(&mut textures, 8);
    textures.extend_from_slice(&placeholder("WALL01", 16, 16));
    let mut vertices = Vec::new();
    for p in [[0.0f32, 0.0, 0.0], [16.0, 0.0, 0.0], [0.0, 16.0, 0.0]] {
        for c in p {
            put_u32(&mut vertices, fbits(c));
        }
    }
    let mut texinfo = Vec::new();
    for x in [1.0f32, 0.0, 0.0, 0.0, 0.0, 1.0, 0.0, 0.0] {
        put_u32(&mut texinfo, fbits(x));
    }
    put_u32(&mut texinfo, 0);
    put_u32(&mut texinfo, 0);
    let mut faces = Vec::new();
    put_u16(&mut faces, 0);
    put_u16(&mut faces, 0);
    put_u32(&mut faces, 0);
    put_u16(&mut faces, count);
    put_u16(&mut faces, 0);
    put_u32(&mut faces, 0);
    put_u32(&mut faces, 0);
    let mut edges = Vec::new();
    for (a, b) in [(0u16, 1u16), (1, 2), (2, 0)] {
        put_u16(&mut edges, a);
        put_u16(&mut edges, b);
    }
    let mut surfedges = Vec::new();
    for s in [0i32, 1, 2] {
        surfedges.extend_from_slice(&s.to_le_bytes());
    }
    let mut models = vec![0u8; 56];
    put_u32(&mut models, 0);
    put_u32(&mut models, 1);
    vec![
        (1, planes),
        (2, textures),
        (3, vertices),
        (6, texinfo),
        (7, faces),
        (12, edges),
        (13, surfedges),
        (14, models),
    ]
}

fn triangle_level() -> Vec<u8> {
    bsp(&triangle_level_lumps(3))
}

/// Vertex keys with texture coordinates from the level's first texture info,
/// scaled by a 16 x 16 texture.
fn keys_for(level: &RawLevel) -> Vec<VertexKey> {
    let cs = corners(level, 0);
    cs.iter()
        .map(|c| {
            let p = [f32::from_bits(c.position.x), f32::from_bits(c.position.y), f32::from_bits(c.position.z)];
            let ti = level.texture_infos[c.texture_info as usize];
            let s = [f32::from_bits(ti.s.dir.x), f32::from_bits(ti.s.dir.y), f32::from_bits(ti.s.dir.z)];
            let t = [f32::from_bits(ti.t.dir.x), f32::from_bits(ti.t.dir.y), f32::from_bits(ti.t.dir.z)];
            let u = (p[0] * s[0] + p[1] * s[1] + p[2] * s[2] + f32::from_bits(ti.s.shift)) / 16.0;
            let v = (p[0] * t[0] + p[1] * t[1] + p[2] * t[2] + f32::from_bits(ti.t.shift)) / 16.0;
            VertexKey { position: c.position, normal: c.normal, u: u.to_bits(), v: v.to_bits() }
        })
        .collect()
}

#[test]
fn catalog_names_are_lowercase_and_unique() {
    let a = wad(&[("WALL01", miptex("WALL01", 16, 16)), ("Floor", miptex("Floor", 16, 16)), ("wall01", miptex("wall01", 32, 16))]);
    let mut c = ArchiveCatalog::new();
    assert_eq!(c.add_archive(a), Ok(3));
    assert_eq!(c.len(), 2);
    let e = c.get(b"WaLl01").unwrap();
    assert_eq!(e.name, b"wall01".to_vec());
    let d = c.entry_data(e).unwrap();
    assert_eq!(decode_mip_texture(&d).unwrap().width(0), Ok(32));
    assert_eq!(c.get(b"floor").unwrap().name, b"floor".to_vec());
    assert!(c.get(b"ceiling").is_none());
}

#[test]
fn later_archive_wins_on_collision() {
    let a = wad(&[("WALL01", miptex("WALL01", 16, 16)), ("sky", miptex("sky", 16, 16))]);
    let b = wad(&[("wall01", miptex("wall01", 64, 16))]);
    let mut c = ArchiveCatalog::new();
    assert_eq!(c.add_archive(a), Ok(2));
    assert_eq!(c.add_archive(b), Ok(1));
    assert_eq!(c.len(), 2);
    assert_eq!(c.archive_count(), 2);
    let e = c.get(b"WALL01").unwrap();
    assert_eq!(e.archive, 1);
    assert_eq!(decode_mip_texture(&c.entry_data(e).unwrap()).unwrap().width(0), Ok(64));
}

#[test]
fn malformed_archive_is_skipped() {
    let mut c = ArchiveCatalog::new();
    assert_eq!(c.add_archive(b"WAD2\0\0\0\0\0\0\0\0".to_vec()), Err(ArchiveError::Malformed));
    assert_eq!(c.add_archive(b"WAD3".to_vec()), Err(ArchiveError::Malformed));
    let mut bad_dir = b"WAD3".to_vec();
    put_u32(&mut bad_dir, 1);
    put_u32(&mut bad_dir, 12);
    assert_eq!(c.add_archive(bad_dir), Err(ArchiveError::Malformed));
    assert_eq!(c.archive_count(), 0);
    assert_eq!(c.len(), 0);
    assert_eq!(c.add_archive(wad(&[])), Ok(0));
}

#[test]
fn asset_reader_reads_by_name() {
    let a = wad(&[("WALL01", vec![1, 2, 3])]);
    let r = WadAssetReader::new(vec![b"junk".to_vec(), a]);
    assert_eq!(r.catalog().archive_count(), 1);
    assert_eq!(r.read(b"Wall01"), Ok(vec![1, 2, 3]));
    assert_eq!(r.read(b"missing"), Err(ReadError::NotFound));
}

#[test]
fn archive_extension_ignores_case() {
    assert!(is_archive_extension(b"wad"));
    assert!(is_archive_extension(b"WaD"));
    assert!(!is_archive_extension(b"bsp"));
    assert!(!is_archive_extension(b"wads"));
}

#[test]
fn mip_levels_halve_dimensions() {
    let t = decode_mip_texture(&miptex("brick", 64, 32)).unwrap();
    assert!(!t.is_empty());
    let dims: Vec<(u32, u32)> = (0..4).map(|l| (t.width(l).unwrap(), t.height(l).unwrap())).collect();
    assert_eq!(dims, vec![(64, 32), (32, 16), (16, 8), (8, 4)]);
    assert_eq!(t.width(4), Err(TextureError::LevelOutOfRange));
    assert_eq!(t.height(7), Err(TextureError::LevelOutOfRange));
}

#[test]
fn decoding_twice_gives_identical_rasters() {
    let bytes = miptex("brick", 32, 16);
    let a = decode_mip_texture(&bytes).unwrap();
    let b = decode_mip_texture(&bytes).unwrap();
    for l in 0..4 {
        let ra = a.raster(l).unwrap();
        assert_eq!(ra.len(), 3 * (32 >> l) * (16 >> l));
        assert_eq!(ra, b.raster(l).unwrap());
    }
}

#[test]
fn color_uses_the_palette() {
    let t = decode_mip_texture(&miptex("brick", 16, 16)).unwrap();
    assert_eq!(t.color(0, 3, 2), Ok((5, 250, 2)));
    assert_eq!(t.color(0, 0, 0), Ok((0, 255, 0)));
    assert_eq!(t.color(1, 7, 7), Ok((14, 241, 7)));
    assert_eq!(t.color(0, 16, 0), Err(TextureError::PixelOutOfRange));
    assert_eq!(t.color(1, 0, 8), Err(TextureError::PixelOutOfRange));
    assert_eq!(t.color(4, 0, 0), Err(TextureError::LevelOutOfRange));
    let r = t.raster(0).unwrap();
    assert_eq!(&r[0..6], &[0, 255, 0, 1, 254, 0]);
}

#[test]
fn short_palette_gives_color_error() {
    let mut bytes = miptex("brick", 16, 16);
    let at = 40 + 256 + 64 + 16 + 4;
    bytes[at] = 1;
    bytes[at + 1] = 0;
    let t = decode_mip_texture(&bytes).unwrap();
    assert_eq!(t.color(0, 0, 0), Ok((0, 255, 0)));
    assert_eq!(t.color(0, 1, 0), Err(TextureError::ColorOutOfRange));
    assert_eq!(t.raster(0), Err(TextureError::ColorOutOfRange));
}

#[test]
fn truncated_texture_is_malformed() {
    let bytes = miptex("brick", 16, 16);
    assert!(matches!(decode_mip_texture(&bytes[..39]), Err(TextureError::Malformed)));
    assert!(matches!(decode_mip_texture(&bytes[..100]), Err(TextureError::Malformed)));
    assert!(matches!(decode_mip_texture(&bytes[..bytes.len() - 1]), Err(TextureError::Malformed)));
}

#[test]
fn placeholder_texture_is_unavailable() {
    let t = decode_mip_texture(&placeholder("WALL01", 16, 16)).unwrap();
    assert!(t.is_empty());
    assert_eq!(t.name(), &name16("WALL01"));
    assert_eq!(t.width(0), Err(TextureError::Unavailable));
    assert_eq!(t.height(0), Err(TextureError::Unavailable));
    assert_eq!(t.color(0, 0, 0), Err(TextureError::Unavailable));
    assert_eq!(t.raster(0), Err(TextureError::Unavailable));
}

#[test]
fn missing_texture_stays_empty() {
    let mut level = RawLevel::parse(&triangle_level()).unwrap();
    let mut c = ArchiveCatalog::new();
    c.add_archive(wad(&[("other", miptex("other", 16, 16))])).unwrap();
    replace_empty_textures(&mut level.textures, &c);
    assert!(level.textures[0].is_empty());
    assert_eq!(level.textures[0].color(0, 0, 0), Err(TextureError::Unavailable));
}

#[test]
fn replace_empty_textures_is_idempotent() {
    let mut ts = vec![
        decode_mip_texture(&placeholder("WALL01", 16, 16)).unwrap(),
        decode_mip_texture(&placeholder("nowhere", 16, 16)).unwrap(),
        decode_mip_texture(&miptex("inner", 16, 16)).unwrap(),
    ];
    let mut c = ArchiveCatalog::new();
    c.add_archive(wad(&[("wall01", miptex("wall01", 32, 32))])).unwrap();
    replace_empty_textures(&mut ts, &c);
    let once: Vec<(bool, Result<u32, TextureError>)> = ts.iter().map(|t| (t.is_empty(), t.width(0))).collect();
    assert!(matches!(ts[0], Texture::Resolved(_)));
    assert!(matches!(ts[2], Texture::Embedded(_)));
    replace_empty_textures(&mut ts, &c);
    let twice: Vec<(bool, Result<u32, TextureError>)> = ts.iter().map(|t| (t.is_empty(), t.width(0))).collect();
    assert_eq!(once, twice);
    assert_eq!(once, vec![(false, Ok(32)), (true, Err(TextureError::Unavailable)), (false, Ok(16))]);
}

#[test]
fn triangle_with_archive_texture() {
    let mut level = RawLevel::parse(&triangle_level()).unwrap();
    let keys = keys_for(&level);
    let (vertices, index) = dedup_vertices(&keys);
    assert_eq!(vertices.len(), 3);
    let groups = indices_with_texture(&level, 0, &index);
    assert_eq!(groups.len(), 1);
    assert_eq!(groups[0].polygons, vec![vec![0, 1, 2]]);
    let tex = groups[0].texture as usize;
    assert_eq!(level.textures[tex].name(), &name16("WALL01"));
    assert!(level.textures[tex].is_empty());
    let mut c = ArchiveCatalog::new();
    c.add_archive(wad(&[("wall01", miptex("wall01", 16, 16))])).unwrap();
    replace_empty_textures(&mut level.textures, &c);
    assert!(!level.textures[tex].is_empty());
    assert_eq!(level.textures[tex].width(0), Ok(16));
    assert_eq!(level.textures[tex].height(0), Ok(16));
    let tris = indices_triangulated(&level, 0, &index);
    assert_eq!(tris.len(), 1);
    assert_eq!(tris[0].indices, vec![0, 1, 2]);
}

#[test]
fn corners_follow_surfedge_signs() {
    let mut lumps = triangle_level_lumps(3);
    let mut surfedges = Vec::new();
    for s in [-2i32, -1, 0] {
        surfedges.extend_from_slice(&s.to_le_bytes());
    }
    lumps[6] = (13, surfedges);
    let level = RawLevel::parse(&bsp(&lumps)).unwrap();
    let cs = corners(&level, 0);
    let vs: Vec<u16> = cs.iter().map(|c| c.vertex).collect();
    assert_eq!(vs, vec![0, 2, 0]);
    assert_eq!(cs[0].normal, Vec3Bits { x: 0, y: 0, z: fbits(1.0) });
}

#[test]
fn back_side_face_flips_normal() {
    let mut lumps = triangle_level_lumps(3);
    lumps[4].1[2] = 1;
    let level = RawLevel::parse(&bsp(&lumps)).unwrap();
    let cs = corners(&level, 0);
    assert_eq!(cs[0].normal, Vec3Bits { x: fbits(-0.0), y: fbits(-0.0), z: fbits(-1.0) });
}

#[test]
fn vertices_are_stable_across_calls() {
    let level = RawLevel::parse(&triangle_level()).unwrap();
    let a = dedup_vertices(&keys_for(&level));
    let b = dedup_vertices(&keys_for(&level));
    assert_eq!(a, b);
}

#[test]
fn dedup_keeps_first_seen_order() {
    let k = |x: u32| VertexKey { position: Vec3Bits { x, y: 0, z: 0 }, normal: Vec3Bits { x: 0, y: 0, z: 1 }, u: 0, v: 0 };
    let (vs, idx) = dedup_vertices(&vec![k(5), k(3), k(5), k(7), k(3)]);
    assert_eq!(vs, vec![k(5), k(3), k(7)]);
    assert_eq!(idx, vec![0, 1, 0, 2, 1]);
    let (vs, idx) = dedup_vertices(&vec![]);
    assert!(vs.is_empty() && idx.is_empty());
}

#[test]
fn fan_gives_k_minus_two_triangles() {
    assert_eq!(fan(&vec![4, 5, 6]), vec![4, 5, 6]);
    let t = fan(&vec![10, 11, 12, 13, 14]);
    assert_eq!(t, vec![10, 11, 12, 10, 12, 13, 10, 13, 14]);
    assert_eq!(t.len() / 3, 5 - 2);
    let mut seen = t.clone();
    seen.sort();
    seen.dedup();
    assert_eq!(seen, vec![10, 11, 12, 13, 14]);
}

#[test]
fn groups_follow_first_use() {
    let ps = vec![
        FacePolygon { texture: 7, indices: vec![0, 1, 2] },
        FacePolygon { texture: 2, indices: vec![3, 4, 5, 6] },
        FacePolygon { texture: 7, indices: vec![7, 8, 9] },
    ];
    let g = group_by_texture(&ps);
    assert_eq!(g.len(), 2);
    assert_eq!(g[0].texture, 7);
    assert_eq!(g[0].polygons, vec![vec![0, 1, 2], vec![7, 8, 9]]);
    assert_eq!(g[1].texture, 2);
    assert_eq!(g[1].polygons, vec![vec![3, 4, 5, 6]]);
    let t = triangulate(&g);
    assert_eq!(t[0].indices, vec![0, 1, 2, 7, 8, 9]);
    assert_eq!(t[1].indices, vec![3, 4, 5, 3, 5, 6]);
}

#[test]
fn level_errors() {
    assert!(matches!(RawLevel::parse(&[0u8; 10]), Err(LevelError::Truncated)));
    let mut wrong = triangle_level();
    wrong[0] = 29;
    assert!(matches!(RawLevel::parse(&wrong), Err(LevelError::WrongVersion)));
    let mut lumps = triangle_level_lumps(3);
    lumps[4].1.push(0);
    assert!(matches!(RawLevel::parse(&bsp(&lumps)), Err(LevelError::StrideMismatch)));
    let mut out = triangle_level();
    out[4 + 8 * 3 + 4] = 0xff;
    out[4 + 8 * 3 + 5] = 0xff;
    assert!(matches!(RawLevel::parse(&out), Err(LevelError::LumpOutOfRange)));
    assert!(matches!(RawLevel::parse(&bsp(&triangle_level_lumps(2))), Err(LevelError::BadReference)));
    assert!(matches!(RawLevel::parse(&bsp(&triangle_level_lumps(4))), Err(LevelError::BadReference)));
    let mut lumps = triangle_level_lumps(3);
    lumps[1].1[0] = 5;
    assert!(matches!(RawLevel::parse(&bsp(&lumps)), Err(LevelError::BadTexture)));
}

#[test]
fn parsed_level_tables() {
    let level = RawLevel::parse(&triangle_level()).unwrap();
    assert_eq!(level.vertices.len(), 3);
    assert_eq!(level.vertices[1], Vec3Bits { x: fbits(16.0), y: 0, z: 0 });
    assert_eq!(level.edges.len(), 3);
    assert_eq!(level.surfedges, vec![0, 1, 2]);
    assert_eq!(level.faces.len(), 1);
    assert_eq!(level.faces[0].surfedge_count, 3);
    assert_eq!(level.models.len(), 1);
    assert_eq!(level.models[0].face_count, 1);
    assert_eq!(level.textures.len(), 1);
    assert_eq!(level.texture_infos[0].s.dir.x, fbits(1.0));
}
