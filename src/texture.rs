//! Mip-mapped, palette-indexed textures: decoding of a texture record and the
//! queries on a decoded texture.
use vstd::prelude::*;
use crate::archive::{entry_bytes, ArchiveCatalog};
use crate::bytes::{lower, name_key, to_name_key, u16_le, u32_le};

verus! {

/// Number of mip levels of a texture record.
pub const MIP_LEVELS: usize = 4;

/// Size in bytes of a texture record's header.
pub const MIPTEX_HEADER_SIZE: usize = 40;

/// Most palette entries a record holds.
pub const PALETTE_ENTRIES: usize = 256;

/// The indexed pixels and palette of a texture record, as stored.
pub struct MipData {
    /// One buffer of palette indices per mip level.
    pub levels: Vec<Vec<u8>>,
    /// Palette entries, three bytes (red, green, blue) each.
    pub palette: Vec<u8>,
}

/// A texture record as stored: a header, and pixel data unless the record
/// only names a texture held elsewhere.
pub struct RawMipTexture {
    /// The raw fixed-width name field.
    pub name: Vec<u8>,
    pub width: u32,
    pub height: u32,
    pub data: Option<MipData>,
}

/// The dimension `d` at mip level `l`: halved once per level.
pub open spec fn level_dim(d: int, l: nat) -> int
    decreases l,
{
    if l == 0 {
        d
    } else {
        level_dim(d, (l - 1) as nat) / 2
    }
}

/// Declared width of the record `b`.
pub open spec fn miptex_width(b: Seq<u8>) -> int {
    u32_le(b, 16)
}

/// Declared height of the record `b`.
pub open spec fn miptex_height(b: Seq<u8>) -> int {
    u32_le(b, 20)
}

/// Offset of mip level `l` in the record `b`.
pub open spec fn mip_offset(b: Seq<u8>, l: int) -> int {
    u32_le(b, 24 + 4 * l)
}

/// Number of pixels of mip level `l` of the record `b`.
pub open spec fn level_size(b: Seq<u8>, l: nat) -> int {
    level_dim(miptex_width(b), l) * level_dim(miptex_height(b), l)
}

/// The record `b` holds pixel data: no level offset is zero.
pub open spec fn has_pixels(b: Seq<u8>) -> bool {
    forall|l: int| 0 <= l < MIP_LEVELS ==> #[trigger] mip_offset(b, l) != 0
}

/// Where the palette's entry count is stored: just after the last level.
pub open spec fn palette_at(b: Seq<u8>) -> int {
    mip_offset(b, 3) + level_size(b, 3)
}

/// Number of palette entries read: the stored count, at most 256.
pub open spec fn palette_count(b: Seq<u8>) -> int {
    let n = u16_le(b, palette_at(b));
    if n < PALETTE_ENTRIES { n } else { PALETTE_ENTRIES as int }
}

/// `b` is a texture record: a full header, and, where it holds pixel data,
/// every level and the palette within `b`.
pub open spec fn miptex_valid(b: Seq<u8>) -> bool {
    &&& b.len() >= MIPTEX_HEADER_SIZE
    &&& has_pixels(b) ==> {
        &&& forall|l: nat| l < MIP_LEVELS ==> #[trigger] level_size(b, l) <= u32::MAX
        &&& forall|l: nat| l < MIP_LEVELS ==> #[trigger] mip_offset(b, l as int) + level_size(b, l) <= b.len()
        &&& palette_at(b) + 2 + 3 * palette_count(b) <= b.len()
    }
}

/// The palette indices of level `l` of the record `b`.
pub open spec fn level_bytes(b: Seq<u8>, l: nat) -> Seq<u8> {
    b.subrange(mip_offset(b, l as int), mip_offset(b, l as int) + level_size(b, l))
}

/// The palette of the record `b`, three bytes per entry.
pub open spec fn palette_bytes(b: Seq<u8>) -> Seq<u8> {
    b.subrange(palette_at(b) + 2, palette_at(b) + 2 + 3 * palette_count(b))
}

/// Relies on goldsrc_rs::texture::mip_texture: it reads the header, gives no
/// pixel data when a level offset is zero, and otherwise reads each level's
/// indices at its offset and the palette that follows the last level.
#[verifier::external_body]
pub(crate) fn mip_texture_record(bytes: &[u8]) -> (r: Result<RawMipTexture, goldsrc_rs::error::ParsingError>)
    ensures
        r is Ok <==> miptex_valid(bytes@),
        r matches Ok(t) ==> raw_texture_of(bytes@, t),
{
    goldsrc_rs::texture::mip_texture(bytes).map(|t| RawMipTexture {
        name: t.header.name.to_vec(),
        width: t.header.width.get(),
        height: t.header.height.get(),
        data: t.data.map(|d| MipData {
            levels: d.indices.iter().map(|l| l.to_vec()).collect(),
            palette: d.palette.concat(),
        }),
    })
}

/// `t` holds what the record `b` stores.
pub open spec fn raw_texture_of(b: Seq<u8>, t: RawMipTexture) -> bool {
    &&& t.name@ == b.subrange(0, 16)
    &&& t.width as int == miptex_width(b)
    &&& t.height as int == miptex_height(b)
    &&& (t.data is None <==> !has_pixels(b))
    &&& t.data matches Some(d) ==> {
        &&& d.levels@.len() == MIP_LEVELS
        &&& forall|l: int| 0 <= l < MIP_LEVELS ==> (#[trigger] d.levels@[l])@ == level_bytes(b, l as nat)
        &&& d.palette@ == palette_bytes(b)
    }
}

/// Why a texture could not be decoded or queried.
#[derive(Debug, PartialEq, Eq, Structural)]
pub enum TextureError {
    /// The bytes are not a texture record, or its data lies outside them.
    Malformed,
    /// The texture is a placeholder: it has no pixel data.
    Unavailable,
    /// The mip level is not below the number of levels.
    LevelOutOfRange,
    /// The pixel lies outside the level.
    PixelOutOfRange,
    /// The pixel's palette index lies outside the palette.
    ColorOutOfRange,
}

/// A texture with pixel data.
pub struct MipTexture {
    /// The raw fixed-width name field.
    pub name: Vec<u8>,
    pub width: u32,
    pub height: u32,
    /// One buffer of palette indices per mip level, row by row.
    pub levels: Vec<Vec<u8>>,
    /// Palette entries, three bytes (red, green, blue) each.
    pub palette: Vec<u8>,
}

/// What a `MipTexture` holds.
pub struct MipView {
    pub name: Seq<u8>,
    pub width: u32,
    pub height: u32,
    pub levels: Seq<Seq<u8>>,
    pub palette: Seq<u8>,
}

impl View for MipTexture {
    type V = MipView;

    open spec fn view(&self) -> MipView {
        MipView {
            name: self.name@,
            width: self.width,
            height: self.height,
            levels: self.levels@.map_values(|v: Vec<u8>| v@),
            palette: self.palette@,
        }
    }
}

/// `m` has four levels, each of the size its dimensions give, and a palette
/// of whole entries.
pub open spec fn mip_wf(m: MipView) -> bool {
    &&& m.levels.len() == MIP_LEVELS
    &&& forall|l: int| 0 <= l < MIP_LEVELS ==> (#[trigger] m.levels[l]).len() == level_dim(m.width as int, l as nat) * level_dim(m.height as int, l as nat)
    &&& m.palette.len() % 3 == 0
}

/// A texture that a level refers to: a placeholder that only names it, one
/// embedded in the level, or a placeholder resolved from an archive.
pub enum Texture {
    Empty { name: Vec<u8>, width: u32, height: u32 },
    Embedded(MipTexture),
    Resolved(MipTexture),
}

/// What a `Texture` holds.
pub enum TextureView {
    Empty { name: Seq<u8>, width: u32, height: u32 },
    Embedded(MipView),
    Resolved(MipView),
}

impl View for Texture {
    type V = TextureView;

    open spec fn view(&self) -> TextureView {
        match self {
            Texture::Empty { name, width, height } => TextureView::Empty { name: name@, width: *width, height: *height },
            Texture::Embedded(m) => TextureView::Embedded(m@),
            Texture::Resolved(m) => TextureView::Resolved(m@),
        }
    }
}

/// The pixel data of `t`, unless it is a placeholder.
pub open spec fn pixels_of(t: TextureView) -> Option<MipView> {
    match t {
        TextureView::Empty { .. } => None,
        TextureView::Embedded(m) => Some(m),
        TextureView::Resolved(m) => Some(m),
    }
}

/// The raw name field of `t`.
pub open spec fn name_of(t: TextureView) -> Seq<u8> {
    match t {
        TextureView::Empty { name, .. } => name,
        TextureView::Embedded(m) => m.name,
        TextureView::Resolved(m) => m.name,
    }
}

/// The pixel data that the record `b` holds.
pub open spec fn mip_view_of(b: Seq<u8>) -> MipView {
    MipView {
        name: b.subrange(0, 16),
        width: miptex_width(b) as u32,
        height: miptex_height(b) as u32,
        levels: Seq::new(MIP_LEVELS as nat, |l: int| level_bytes(b, l as nat)),
        palette: palette_bytes(b),
    }
}

/// The texture that the record `b` decodes to.
pub open spec fn texture_view_of(b: Seq<u8>) -> TextureView {
    if has_pixels(b) {
        TextureView::Embedded(mip_view_of(b))
    } else {
        TextureView::Empty { name: b.subrange(0, 16), width: miptex_width(b) as u32, height: miptex_height(b) as u32 }
    }
}

/// The colour of pixel (`x`, `y`) of level `l` of `m`, when it has one.
pub open spec fn color_of(m: MipView, l: int, x: int, y: int) -> Result<(u8, u8, u8), TextureError> {
    let w = level_dim(m.width as int, l as nat);
    let h = level_dim(m.height as int, l as nat);
    if !(0 <= l < MIP_LEVELS) {
        Err(TextureError::LevelOutOfRange)
    } else if !(0 <= x < w && 0 <= y < h) {
        Err(TextureError::PixelOutOfRange)
    } else {
        let p = m.levels[l][y * w + x] as int;
        if 3 * p + 3 > m.palette.len() {
            Err(TextureError::ColorOutOfRange)
        } else {
            Ok((m.palette[3 * p], m.palette[3 * p + 1], m.palette[3 * p + 2]))
        }
    }
}

/// Every palette index of level `l` of `m` lies within the palette.
pub open spec fn level_in_palette(m: MipView, l: int) -> bool {
    forall|i: int| 0 <= i < m.levels[l].len() ==> 3 * (#[trigger] m.levels[l][i]) + 3 <= m.palette.len()
}

/// `v` holds, three bytes per pixel, the colours of level `l` of `m`.
pub open spec fn is_raster_of(m: MipView, l: int, v: Seq<u8>) -> bool {
    &&& v.len() == 3 * m.levels[l].len()
    &&& forall|i: int| 0 <= i < m.levels[l].len() ==> {
        &&& v[3 * i] == m.palette[3 * (#[trigger] m.levels[l][i])]
        &&& v[3 * i + 1] == m.palette[3 * m.levels[l][i] + 1]
        &&& v[3 * i + 2] == m.palette[3 * m.levels[l][i] + 2]
    }
}

/// A level has one raster: two rasters of the same level of the same pixel
/// data are equal, so decoding the same bytes twice gives identical colours.
pub proof fn lemma_raster_unique(m: MipView, l: int, v1: Seq<u8>, v2: Seq<u8>)
    requires
        0 <= l < m.levels.len(),
        is_raster_of(m, l, v1),
        is_raster_of(m, l, v2),
    ensures
        v1 == v2,
{
    assert forall|j: int| 0 <= j < v1.len() implies v1[j] == v2[j] by {
        let i = j / 3;
        assert(0 <= i < m.levels[l].len());
        assert(j == 3 * i + j % 3);
        assert(v1[3 * i] == m.palette[3 * m.levels[l][i]]);
    }
    assert(v1 =~= v2);
}

/// The dimension `d` at mip level `level`.
pub fn dim_at(d: u32, level: usize) -> (r: u32)
    requires
        level < MIP_LEVELS,
    ensures
        r as int == level_dim(d as int, level as nat),
{
    let mut r: u32 = d;
    let mut k: usize = 0;
    while k < level
        invariant
            k <= level,
            r as int == level_dim(d as int, k as nat),
        decreases level - k,
    {
        r = r / 2;
        k += 1;
    }
    r
}

/// The dimension at mip level `l` is the base dimension shifted right by `l`.
pub proof fn lemma_level_dim_is_shift(d: u32, l: u32)
    requires
        l < MIP_LEVELS,
    ensures
        level_dim(d as int, l as nat) == (d >> l) as int,
{
    assert(d >> 0u32 == d) by (bit_vector);
    assert(d >> 1u32 == d / 2) by (bit_vector);
    assert(d >> 2u32 == (d / 2) / 2) by (bit_vector);
    assert(d >> 3u32 == ((d / 2) / 2) / 2) by (bit_vector);
    reveal_with_fuel(level_dim, 4);
}

proof fn lemma_level_dim_bounds(d: int, l: nat)
    requires
        d >= 0,
    ensures
        0 <= level_dim(d, l) <= d,
    decreases l,
{
    if l > 0 {
        lemma_level_dim_bounds(d, (l - 1) as nat);
    }
}

/// Builds the texture from the record `raw` that `b` stores.
fn texture_from_raw(raw: RawMipTexture, Ghost(b): Ghost<Seq<u8>>) -> (r: Texture)
    requires
        miptex_valid(b),
        raw_texture_of(b, raw),
    ensures
        r@ == texture_view_of(b),
        pixels_of(r@) matches Some(m) ==> mip_wf(m),
{
    match raw.data {
        None => Texture::Empty { name: raw.name, width: raw.width, height: raw.height },
        Some(d) => {
            let m = MipTexture { name: raw.name, width: raw.width, height: raw.height, levels: d.levels, palette: d.palette };
            proof {
                assert(m@.levels =~= mip_view_of(b).levels);
                assert(m@ == mip_view_of(b));
                assert(palette_at(b) + 2 + 3 * palette_count(b) <= b.len());
                lemma_level_dim_bounds(miptex_width(b), 3);
                lemma_level_dim_bounds(miptex_height(b), 3);
                assert(level_size(b, 3) >= 0) by (nonlinear_arith)
                    requires level_dim(miptex_width(b), 3) >= 0, level_dim(miptex_height(b), 3) >= 0, level_size(b, 3) == level_dim(miptex_width(b), 3) * level_dim(miptex_height(b), 3);
                assert(m@.palette.len() == 3 * palette_count(b));
                assert forall|l: int| 0 <= l < MIP_LEVELS implies (#[trigger] m@.levels[l]).len() == level_dim(m.width as int, l as nat) * level_dim(m.height as int, l as nat) by {
                    assert(level_size(b, l as nat) <= u32::MAX);
                    assert(mip_offset(b, l) + level_size(b, l as nat) <= b.len());
                    lemma_level_dim_bounds(miptex_width(b), l as nat);
                    lemma_level_dim_bounds(miptex_height(b), l as nat);
                    assert(level_dim(miptex_width(b), l as nat) * level_dim(miptex_height(b), l as nat) >= 0) by (nonlinear_arith)
                        requires level_dim(miptex_width(b), l as nat) >= 0, level_dim(miptex_height(b), l as nat) >= 0;
                }
            }
            Texture::Embedded(m)
        },
    }
}

/// Decodes a texture record. A record whose level offsets are not all set
/// gives a placeholder that only names the texture.
pub fn decode_mip_texture(bytes: &[u8]) -> (r: Result<Texture, TextureError>)
    ensures
        r is Ok <==> miptex_valid(bytes@),
        r is Err ==> r == Err::<Texture, TextureError>(TextureError::Malformed),
        r matches Ok(t) ==> t@ == texture_view_of(bytes@),
        r matches Ok(t) ==> (pixels_of(t@) matches Some(m) ==> mip_wf(m)),
{
    match mip_texture_record(bytes) {
        Ok(raw) => Ok(texture_from_raw(raw, Ghost(bytes@))),
        Err(_) => Err(TextureError::Malformed),
    }
}

impl Texture {
    /// A texture with pixel data has levels of the sizes its dimensions give.
    pub open spec fn wf(&self) -> bool {
        pixels_of(self@) matches Some(m) ==> mip_wf(m)
    }

    /// Whether the texture is a placeholder without pixel data.
    pub fn is_empty(&self) -> (r: bool)
        ensures
            r == pixels_of(self@) is None,
    {
        match self {
            Texture::Empty { .. } => true,
            _ => false,
        }
    }

    /// The raw fixed-width name field.
    pub fn name(&self) -> (r: &Vec<u8>)
        ensures
            r@ == name_of(self@),
    {
        match self {
            Texture::Empty { name, .. } => name,
            Texture::Embedded(m) => &m.name,
            Texture::Resolved(m) => &m.name,
        }
    }

    /// Width of mip level `level`; a placeholder has none.
    pub fn width(&self, level: usize) -> (r: Result<u32, TextureError>)
        ensures
            r == match pixels_of(self@) {
                None => Err(TextureError::Unavailable),
                Some(m) => if level < MIP_LEVELS {
                    Ok(level_dim(m.width as int, level as nat) as u32)
                } else {
                    Err(TextureError::LevelOutOfRange)
                },
            },
    {
        match self {
            Texture::Empty { .. } => Err(TextureError::Unavailable),
            Texture::Embedded(m) | Texture::Resolved(m) => if level < MIP_LEVELS {
                Ok(dim_at(m.width, level))
            } else {
                Err(TextureError::LevelOutOfRange)
            },
        }
    }

    /// Height of mip level `level`; a placeholder has none.
    pub fn height(&self, level: usize) -> (r: Result<u32, TextureError>)
        ensures
            r == match pixels_of(self@) {
                None => Err(TextureError::Unavailable),
                Some(m) => if level < MIP_LEVELS {
                    Ok(level_dim(m.height as int, level as nat) as u32)
                } else {
                    Err(TextureError::LevelOutOfRange)
                },
            },
    {
        match self {
            Texture::Empty { .. } => Err(TextureError::Unavailable),
            Texture::Embedded(m) | Texture::Resolved(m) => if level < MIP_LEVELS {
                Ok(dim_at(m.height, level))
            } else {
                Err(TextureError::LevelOutOfRange)
            },
        }
    }

    /// Colour of pixel (`x`, `y`) of mip level `level`, as red, green, blue.
    pub fn color(&self, level: usize, x: u32, y: u32) -> (r: Result<(u8, u8, u8), TextureError>)
        requires
            self.wf(),
        ensures
            r == match pixels_of(self@) {
                None => Err(TextureError::Unavailable),
                Some(m) => color_of(m, level as int, x as int, y as int),
            },
    {
        let m = match self {
            Texture::Empty { .. } => return Err(TextureError::Unavailable),
            Texture::Embedded(m) => m,
            Texture::Resolved(m) => m,
        };
        proof {
            assert(pixels_of(self@) == Some(m@));
            assert(mip_wf(m@));
        }
        if level >= MIP_LEVELS {
            return Err(TextureError::LevelOutOfRange);
        }
        let w = dim_at(m.width, level);
        let h = dim_at(m.height, level);
        if x >= w || y >= h {
            return Err(TextureError::PixelOutOfRange);
        }
        let lv = &m.levels[level];
        let n = lv.len();
        proof {
            assert(m@.levels[level as int] == lv@);
            assert(n == lv@.len());
            let wi = w as int;
            let hi = h as int;
            assert(lv@.len() == wi * hi);
            assert((y as int) * wi + (x as int) < wi * hi) by (nonlinear_arith)
                requires (x as int) < wi, (y as int) < hi, 0 <= (x as int), 0 <= (y as int);
            assert(0 <= (y as int) * wi) by (nonlinear_arith)
                requires 0 <= (y as int), 0 <= wi;
        }
        let i = (y as usize) * (w as usize) + (x as usize);
        let p = lv[i] as usize;
        assert(p as int == m@.levels[level as int][(y as int) * (w as int) + (x as int)]);
        if 3 * p + 3 > m.palette.len() {
            return Err(TextureError::ColorOutOfRange);
        }
        Ok((m.palette[3 * p], m.palette[3 * p + 1], m.palette[3 * p + 2]))
    }

    /// Colours of every pixel of mip level `level`, row by row, three bytes
    /// (red, green, blue) per pixel.
    pub fn raster(&self, level: usize) -> (r: Result<Vec<u8>, TextureError>)
        requires
            self.wf(),
        ensures
            pixels_of(self@) is None ==> r == Err::<Vec<u8>, TextureError>(TextureError::Unavailable),
            pixels_of(self@) matches Some(m) ==> {
                &&& level >= MIP_LEVELS ==> r == Err::<Vec<u8>, TextureError>(TextureError::LevelOutOfRange)
                &&& level < MIP_LEVELS && !level_in_palette(m, level as int) ==> r == Err::<Vec<u8>, TextureError>(TextureError::ColorOutOfRange)
                &&& level < MIP_LEVELS && level_in_palette(m, level as int) ==> (r matches Ok(v) && is_raster_of(m, level as int, v@))
            },
    {
        let m = match self {
            Texture::Empty { .. } => return Err(TextureError::Unavailable),
            Texture::Embedded(m) => m,
            Texture::Resolved(m) => m,
        };
        proof {
            assert(pixels_of(self@) == Some(m@));
            assert(mip_wf(m@));
        }
        if level >= MIP_LEVELS {
            return Err(TextureError::LevelOutOfRange);
        }
        let lv = &m.levels[level];
        let ghost mv = m@;
        proof {
            assert(mv.levels[level as int] == lv@);
        }
        let mut v: Vec<u8> = Vec::new();
        let mut i: usize = 0;
        while i < lv.len()
            invariant
                i <= lv@.len(),
                mv == m@,
                pixels_of(self@) == Some(mv),
                level < MIP_LEVELS,
                mv.levels.len() == MIP_LEVELS,
                mv.levels[level as int] == lv@,
                v@.len() == 3 * i,
                forall|k: int| 0 <= k < i ==> 3 * (#[trigger] lv@[k]) + 3 <= mv.palette.len(),
                forall|k: int| 0 <= k < i ==> {
                    &&& v@[3 * k] == mv.palette[3 * (#[trigger] lv@[k])]
                    &&& v@[3 * k + 1] == mv.palette[3 * lv@[k] + 1]
                    &&& v@[3 * k + 2] == mv.palette[3 * lv@[k] + 2]
                },
            decreases lv@.len() - i,
        {
            let p = lv[i] as usize;
            if 3 * p + 3 > m.palette.len() {
                assert(!(3 * mv.levels[level as int][i as int] + 3 <= mv.palette.len()));
                return Err(TextureError::ColorOutOfRange);
            }
            v.push(m.palette[3 * p]);
            v.push(m.palette[3 * p + 1]);
            v.push(m.palette[3 * p + 2]);
            i += 1;
        }
        proof {
            assert forall|k: int| 0 <= k < mv.levels[level as int].len() implies 3 * (#[trigger] mv.levels[level as int][k]) + 3 <= mv.palette.len() by {
                assert(mv.levels[level as int][k] == lv@[k]);
            }
            assert forall|k: int| 0 <= k < mv.levels[level as int].len() implies {
                &&& v@[3 * k] == mv.palette[3 * (#[trigger] mv.levels[level as int][k])]
                &&& v@[3 * k + 1] == mv.palette[3 * mv.levels[level as int][k] + 1]
                &&& v@[3 * k + 2] == mv.palette[3 * mv.levels[level as int][k] + 2]
            } by {
                assert(mv.levels[level as int][k] == lv@[k]);
            }
        }
        Ok(v)
    }
}

/// `t` once resolved against `c`: a placeholder whose name the catalog holds
/// as a texture record with pixel data takes that data; anything else stays.
pub open spec fn resolved(t: TextureView, c: &ArchiveCatalog) -> TextureView {
    match t {
        TextureView::Empty { name, .. } => match entry_bytes(c, name_key(name)) {
            Some(d) => if miptex_valid(d) && has_pixels(d) {
                TextureView::Resolved(mip_view_of(d))
            } else {
                t
            },
            None => t,
        },
        _ => t,
    }
}

/// Resolving against one catalog twice gives what resolving once gives.
pub proof fn lemma_resolve_idempotent(t: TextureView, c: &ArchiveCatalog)
    ensures
        resolved(resolved(t, c), c) == resolved(t, c),
{
}

proof fn lemma_lower_idempotent(s: Seq<u8>)
    ensures
        lower(lower(s)) == lower(s),
{
    assert(lower(lower(s)) =~= lower(s));
}

/// The texture that placeholder `t` resolves to in `c`, if any.
fn resolve_one(t: &Texture, catalog: &ArchiveCatalog) -> (r: Option<MipTexture>)
    requires
        catalog.wf(),
        pixels_of(t@) is None,
    ensures
        r is None ==> resolved(t@, catalog) == t@,
        r matches Some(m) ==> resolved(t@, catalog) == TextureView::Resolved(m@) && mip_wf(m@),
{
    let key = to_name_key(t.name());
    proof {
        lemma_lower_idempotent(crate::bytes::cstr(name_of(t@)));
    }
    let e = match catalog.get(&key) {
        Some(e) => e,
        None => return None,
    };
    let d = match catalog.entry_data(e) {
        Some(d) => d,
        None => return None,
    };
    match decode_mip_texture(&d) {
        Ok(Texture::Embedded(m)) => Some(m),
        _ => None,
    }
}

/// Replaces each placeholder whose name the catalog holds as a texture
/// record with pixel data by that texture. Names the catalog does not hold,
/// or holds in an unusable record, stay placeholders.
pub fn replace_empty_textures(textures: &mut Vec<Texture>, catalog: &ArchiveCatalog)
    requires
        catalog.wf(),
        forall|i: int| 0 <= i < old(textures)@.len() ==> (#[trigger] old(textures)@[i]).wf(),
    ensures
        final(textures)@.len() == old(textures)@.len(),
        forall|i: int| 0 <= i < final(textures)@.len() ==> (#[trigger] final(textures)@[i])@ == resolved(old(textures)@[i]@, catalog),
        forall|i: int| 0 <= i < final(textures)@.len() ==> (#[trigger] final(textures)@[i]).wf(),
{
    let ghost olds = textures@;
    let mut i: usize = 0;
    while i < textures.len()
        invariant
            catalog.wf(),
            i <= textures@.len(),
            textures@.len() == olds.len(),
            forall|k: int| 0 <= k < i ==> (#[trigger] textures@[k])@ == resolved(olds[k]@, catalog),
            forall|k: int| i <= k < textures@.len() ==> #[trigger] textures@[k] == olds[k],
            forall|k: int| 0 <= k < textures@.len() ==> (#[trigger] textures@[k]).wf(),
        decreases textures@.len() - i,
    {
        if textures[i].is_empty() {
            if let Some(m) = resolve_one(&textures[i], catalog) {
                textures.set(i, Texture::Resolved(m));
            }
        }
        i += 1;
    }
}

} // verus!
