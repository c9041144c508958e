//! The decoder of level files.
//!
//! A level file starts with a version and a directory of fifteen lumps,
//! each given by its offset in the file and its size. All numbers are
//! stored with the lowest byte first.

use vstd::prelude::*;
use vstd::slice::{slice_subrange, slice_to_vec};
use vstd::utf8::{decode_utf8, encode_utf8, encode_utf8_decode_utf8, valid_utf8};
use crate::bsp::Bsp;
use crate::text::string_from_utf8;

verus! {

/// The number of bytes of the version and the directory.
pub const HEADER_SIZE: usize = 124;

/// The number of bytes of a texture before its pixels: the name and six
/// numbers.
pub const MIP_HEADER_SIZE: usize = 40;

/// Whether `n` bytes can be read at the position `p`.
pub open spec fn readable(b: Seq<u8>, p: int, n: int) -> bool {
    0 <= p && p + n <= b.len()
}

/// The number of two bytes at the position `p`.
pub open spec fn u16_at(b: Seq<u8>, p: int) -> int {
    b[p] + b[p + 1] * 0x100
}

/// The number of four bytes at the position `p`.
pub open spec fn u32_at(b: Seq<u8>, p: int) -> int {
    b[p] + b[p + 1] * 0x100 + b[p + 2] * 0x1_0000 + b[p + 3] * 0x100_0000
}

/// The signed number of four bytes at the position `p`.
pub open spec fn i32_at(b: Seq<u8>, p: int) -> int {
    if u32_at(b, p) >= 0x8000_0000 {
        u32_at(b, p) - 0x1_0000_0000
    } else {
        u32_at(b, p)
    }
}

/// The signed number of eight bytes at the position `p`.
pub open spec fn i64_at(b: Seq<u8>, p: int) -> int {
    u32_at(b, p) + i32_at(b, p + 4) * 0x1_0000_0000
}

/// A place in a sequence of bytes from which values are read one after the
/// other.
pub struct Reader<'a> {
    pub bytes: &'a [u8],
    pub pos: usize,
}

impl<'a> Reader<'a> {
    /// A reader at the start of the bytes.
    pub fn new(bytes: &'a [u8]) -> (r: Reader<'a>)
        ensures
            r.bytes == bytes,
            r.pos == 0,
    {
        Reader { bytes, pos: 0 }
    }

    /// Moves to a position, which may lie beyond the end.
    pub fn seek(&mut self, pos: usize)
        ensures
            final(self).bytes == old(self).bytes,
            final(self).pos == pos,
    {
        self.pos = pos;
    }

    /// Whether `n` bytes are left to read.
    pub fn has(&self, n: usize) -> (r: bool)
        ensures
            r == readable(self.bytes@, self.pos as int, n as int),
            r ==> self.pos + n <= usize::MAX,
    {
        self.pos <= self.bytes.len() && n <= self.bytes.len() - self.pos
    }

    /// Reads `n` bytes, or nothing where fewer are left.
    pub fn read_bytes(&mut self, n: usize) -> (r: Option<Vec<u8>>)
        ensures
            final(self).bytes == old(self).bytes,
            match r {
                Some(v) => readable(old(self).bytes@, old(self).pos as int, n as int) && v@
                    == old(self).bytes@.subrange(old(self).pos as int, old(self).pos + n)
                    && final(self).pos == old(self).pos + n,
                None => !readable(old(self).bytes@, old(self).pos as int, n as int)
                    && final(self).pos == old(self).pos,
            },
    {
        if !self.has(n) {
            return None;
        }
        let v = slice_to_vec(slice_subrange(self.bytes, self.pos, self.pos + n));
        self.pos = self.pos + n;
        Some(v)
    }

    /// Reads a number of two bytes, or nothing where fewer are left.
    pub fn read_u16(&mut self) -> (r: Option<u16>)
        ensures
            final(self).bytes == old(self).bytes,
            match r {
                Some(v) => readable(old(self).bytes@, old(self).pos as int, 2) && v == u16_at(
                    old(self).bytes@,
                    old(self).pos as int,
                ) && final(self).pos == old(self).pos + 2,
                None => !readable(old(self).bytes@, old(self).pos as int, 2) && final(self).pos
                    == old(self).pos,
            },
    {
        if !self.has(2) {
            return None;
        }
        let p: usize = self.pos;
        let v: u16 = self.bytes[p] as u16 + self.bytes[p + 1] as u16 * 0x100;
        self.pos = p + 2;
        Some(v)
    }

    /// Reads a number of four bytes, or nothing where fewer are left.
    pub fn read_u32(&mut self) -> (r: Option<u32>)
        ensures
            final(self).bytes == old(self).bytes,
            match r {
                Some(v) => readable(old(self).bytes@, old(self).pos as int, 4) && v == u32_at(
                    old(self).bytes@,
                    old(self).pos as int,
                ) && final(self).pos == old(self).pos + 4,
                None => !readable(old(self).bytes@, old(self).pos as int, 4) && final(self).pos
                    == old(self).pos,
            },
    {
        if !self.has(4) {
            return None;
        }
        let p: usize = self.pos;
        let v: u32 = self.bytes[p] as u32 + self.bytes[p + 1] as u32 * 0x100 + self.bytes[p
            + 2] as u32 * 0x1_0000 + self.bytes[p + 3] as u32 * 0x100_0000;
        self.pos = p + 4;
        Some(v)
    }

    /// Reads a signed number of four bytes, or nothing where fewer are left.
    pub fn read_i32(&mut self) -> (r: Option<i32>)
        ensures
            final(self).bytes == old(self).bytes,
            match r {
                Some(v) => readable(old(self).bytes@, old(self).pos as int, 4) && v == i32_at(
                    old(self).bytes@,
                    old(self).pos as int,
                ) && final(self).pos == old(self).pos + 4,
                None => !readable(old(self).bytes@, old(self).pos as int, 4) && final(self).pos
                    == old(self).pos,
            },
    {
        match self.read_u32() {
            Some(u) => Some(signed(u)),
            None => None,
        }
    }

    /// Reads a signed number of eight bytes, or nothing where fewer are
    /// left.
    pub fn read_i64(&mut self) -> (r: Option<i64>)
        ensures
            final(self).bytes == old(self).bytes,
            match r {
                Some(v) => readable(old(self).bytes@, old(self).pos as int, 8) && v == i64_at(
                    old(self).bytes@,
                    old(self).pos as int,
                ) && final(self).pos == old(self).pos + 8,
                None => !readable(old(self).bytes@, old(self).pos as int, 8) && final(self).pos
                    == old(self).pos,
            },
    {
        if !self.has(8) {
            return None;
        }
        let low: u32 = self.read_u32().unwrap();
        let high: i32 = self.read_i32().unwrap();
        Some(low as i64 + high as i64 * 0x1_0000_0000)
    }

    /// Reads the four bytes of a float as they are, or nothing where fewer
    /// are left.
    pub fn read_f32_bits(&mut self) -> (r: Option<u32>)
        ensures
            final(self).bytes == old(self).bytes,
            match r {
                Some(v) => readable(old(self).bytes@, old(self).pos as int, 4) && v == u32_at(
                    old(self).bytes@,
                    old(self).pos as int,
                ) && final(self).pos == old(self).pos + 4,
                None => !readable(old(self).bytes@, old(self).pos as int, 4) && final(self).pos
                    == old(self).pos,
            },
    {
        self.read_u32()
    }

    /// Reads the three floats of a vector as they are.
    pub fn read_vec3(&mut self) -> (r: Option<RawVec3>)
        ensures
            final(self).bytes == old(self).bytes,
            match r {
                Some(v) => readable(old(self).bytes@, old(self).pos as int, 12) && v == raw_vec3_at(
                    old(self).bytes@,
                    old(self).pos as int,
                ) && final(self).pos == old(self).pos + 12,
                None => !readable(old(self).bytes@, old(self).pos as int, 12) && final(self).pos
                    == old(self).pos,
            },
    {
        if !self.has(12) {
            return None;
        }
        let x: u32 = self.read_u32().unwrap();
        let y: u32 = self.read_u32().unwrap();
        let z: u32 = self.read_u32().unwrap();
        Some(RawVec3 { x, y, z })
    }

    /// Reads a text of sixteen bytes, or nothing where fewer are left or
    /// they are no UTF-8.
    pub fn read_string16(&mut self) -> (r: Option<String>)
        ensures
            final(self).bytes == old(self).bytes,
            match r {
                Some(s) => readable(old(self).bytes@, old(self).pos as int, 16) && valid_utf8(
                    old(self).bytes@.subrange(old(self).pos as int, old(self).pos + 16),
                ) && s@ == decode_utf8(
                    old(self).bytes@.subrange(old(self).pos as int, old(self).pos + 16),
                ) && final(self).pos == old(self).pos + 16,
                None => !(readable(old(self).bytes@, old(self).pos as int, 16) && valid_utf8(
                    old(self).bytes@.subrange(old(self).pos as int, old(self).pos + 16),
                )) && final(self).pos == old(self).pos,
            },
    {
        broadcast use encode_utf8_decode_utf8;

        let start: usize = self.pos;
        match self.read_bytes(16) {
            Some(bytes) => match string_from_utf8(bytes) {
                Some(s) => Some(s),
                None => {
                    self.pos = start;
                    None
                },
            },
            None => None,
        }
    }

    /// Reads an entry of the directory.
    pub fn read_dir_entry(&mut self) -> (r: Option<LumpHeader>)
        ensures
            final(self).bytes == old(self).bytes,
            match r {
                Some(v) => readable(old(self).bytes@, old(self).pos as int, 8) && v == lump_at(
                    old(self).bytes@,
                    old(self).pos as int,
                ) && final(self).pos == old(self).pos + 8,
                None => !readable(old(self).bytes@, old(self).pos as int, 8) && final(self).pos
                    == old(self).pos,
            },
    {
        if !self.has(8) {
            return None;
        }
        let offset: i32 = self.read_i32().unwrap();
        let size: i32 = self.read_i32().unwrap();
        Some(LumpHeader { offset, size })
    }
}

/// The signed number with the bits of `u`.
fn signed(u: u32) -> (r: i32)
    ensures
        r == if u >= 0x8000_0000 {
            u - 0x1_0000_0000
        } else {
            u as int
        },
{
    if u >= 0x8000_0000 {
        (u as i64 - 0x1_0000_0000) as i32
    } else {
        u as i32
    }
}

/// Where a lump lies in the file.
#[derive(Clone, Copy, PartialEq, Eq, Structural, Debug)]
pub struct LumpHeader {
    pub offset: i32,
    pub size: i32,
}

/// The version and the directory of a level file.
#[derive(Clone, Copy, PartialEq, Eq, Structural, Debug)]
pub struct BspHeader {
    pub version: i32,
    pub entities: LumpHeader,
    pub planes: LumpHeader,
    pub mip_tex: LumpHeader,
    pub vertices: LumpHeader,
    pub visilist: LumpHeader,
    pub nodes: LumpHeader,
    pub tex_info: LumpHeader,
    pub faces: LumpHeader,
    pub lightmaps: LumpHeader,
    pub clip_nodes: LumpHeader,
    pub leaves: LumpHeader,
    pub mark_surfaces: LumpHeader,
    pub edges: LumpHeader,
    pub surf_edges: LumpHeader,
    pub models: LumpHeader,
}

/// The three floats of a vertex, as the bits that the file holds.
#[derive(Clone, Copy, PartialEq, Eq, Structural, Debug)]
pub struct RawVec3 {
    pub x: u32,
    pub y: u32,
    pub z: u32,
}

/// An edge: two indices into the vertices.
#[derive(Clone, Copy, PartialEq, Eq, Structural, Debug)]
pub struct Edge {
    pub v0: u16,
    pub v1: u16,
}

/// How a texture is drawn, told by its name.
#[derive(Clone, Copy, PartialEq, Eq, Structural, Debug)]
pub enum TextureType {
    Default,
    Cutout,
    Sky,
    Lava,
    Slime,
    Tele,
    Water,
}

/// A texture of a level.
#[derive(Debug)]
pub struct MipTex {
    pub name: String,
    pub width: u32,
    pub height: u32,
    pub offset1: u32,
    pub offset2: u32,
    pub offset4: u32,
    pub offset8: u32,
    pub tex_type: TextureType,
    pub pixels: Vec<u8>,
}

/// What a texture holds.
pub struct MipTexView {
    pub name: Seq<char>,
    pub width: u32,
    pub height: u32,
    pub offset1: u32,
    pub offset2: u32,
    pub offset4: u32,
    pub offset8: u32,
    pub tex_type: TextureType,
    pub pixels: Seq<u8>,
}

impl View for MipTex {
    type V = MipTexView;

    open spec fn view(&self) -> MipTexView {
        MipTexView {
            name: self.name@,
            width: self.width,
            height: self.height,
            offset1: self.offset1,
            offset2: self.offset2,
            offset4: self.offset4,
            offset8: self.offset8,
            tex_type: self.tex_type,
            pixels: self.pixels@,
        }
    }
}

/// What a list of textures holds.
pub open spec fn mips_view(mips: Seq<MipTex>) -> Seq<MipTexView> {
    Seq::new(mips.len(), |i: int| mips[i]@)
}

/// The entry of the directory at the position `p`.
pub open spec fn lump_at(b: Seq<u8>, p: int) -> LumpHeader {
    LumpHeader { offset: i32_at(b, p) as i32, size: i32_at(b, p + 4) as i32 }
}

/// The vertex at the position `p`.
pub open spec fn raw_vec3_at(b: Seq<u8>, p: int) -> RawVec3 {
    RawVec3 { x: u32_at(b, p) as u32, y: u32_at(b, p + 4) as u32, z: u32_at(b, p + 8) as u32 }
}

/// The edge at the position `p`.
pub open spec fn edge_at(b: Seq<u8>, p: int) -> Edge {
    Edge { v0: u16_at(b, p) as u16, v1: u16_at(b, p + 2) as u16 }
}

/// The header of a file of at least `HEADER_SIZE` bytes. The entry of the
/// texture infos comes before that of the nodes.
pub open spec fn header_of(b: Seq<u8>) -> BspHeader {
    BspHeader {
        version: i32_at(b, 0) as i32,
        entities: lump_at(b, 4),
        planes: lump_at(b, 12),
        mip_tex: lump_at(b, 20),
        vertices: lump_at(b, 28),
        visilist: lump_at(b, 36),
        tex_info: lump_at(b, 44),
        nodes: lump_at(b, 52),
        faces: lump_at(b, 60),
        lightmaps: lump_at(b, 68),
        clip_nodes: lump_at(b, 76),
        leaves: lump_at(b, 84),
        mark_surfaces: lump_at(b, 92),
        edges: lump_at(b, 100),
        surf_edges: lump_at(b, 108),
        models: lump_at(b, 116),
    }
}

/// Reads the version and the directory at the start of a file; nothing
/// where the file is shorter than they are.
pub fn read_header(bytes: &[u8]) -> (r: Option<BspHeader>)
    ensures
        r == if bytes@.len() >= HEADER_SIZE {
            Some(header_of(bytes@))
        } else {
            None
        },
{
    let mut reader = Reader::new(bytes);
    if !reader.has(HEADER_SIZE) {
        return None;
    }
    let version: i32 = reader.read_i32().unwrap();
    let entities = reader.read_dir_entry().unwrap();
    let planes = reader.read_dir_entry().unwrap();
    let mip_tex = reader.read_dir_entry().unwrap();
    let vertices = reader.read_dir_entry().unwrap();
    let visilist = reader.read_dir_entry().unwrap();
    let tex_info = reader.read_dir_entry().unwrap();
    let nodes = reader.read_dir_entry().unwrap();
    let faces = reader.read_dir_entry().unwrap();
    let lightmaps = reader.read_dir_entry().unwrap();
    let clip_nodes = reader.read_dir_entry().unwrap();
    let leaves = reader.read_dir_entry().unwrap();
    let mark_surfaces = reader.read_dir_entry().unwrap();
    let edges = reader.read_dir_entry().unwrap();
    let surf_edges = reader.read_dir_entry().unwrap();
    let models = reader.read_dir_entry().unwrap();
    Some(
        BspHeader {
            version,
            entities,
            planes,
            mip_tex,
            vertices,
            visilist,
            nodes,
            tex_info,
            faces,
            lightmaps,
            clip_nodes,
            leaves,
            mark_surfaces,
            edges,
            surf_edges,
            models,
        },
    )
}

/// The number of whole items of `stride` bytes in a lump.
pub open spec fn lump_count(header: LumpHeader, stride: int) -> int {
    (header.size as int) / stride
}

/// Whether the items of a lump can be read: the size is not negative, and
/// unless there is no whole item, the lump starts in the file and its
/// items end in it.
pub open spec fn lump_fits(b: Seq<u8>, header: LumpHeader, stride: int) -> bool {
    header.size >= 0 && (lump_count(header, stride) == 0 || (header.offset >= 0 && header.offset
        + lump_count(header, stride) * stride <= b.len()))
}

/// The number of items of a lump that can be read, or nothing.
fn lump_items(bytes: &[u8], header: LumpHeader, stride: usize) -> (r: Option<usize>)
    requires
        0 < stride <= 16,
    ensures
        r.is_some() == lump_fits(bytes@, header, stride as int),
        r matches Some(n) ==> n == lump_count(header, stride as int) && n * stride <= i32::MAX,
{
    if header.size < 0 {
        return None;
    }
    let count: usize = header.size as usize / stride;
    assert(count * stride <= header.size) by (nonlinear_arith)
        requires
            count == header.size as int / stride as int,
            0 < stride,
            0 <= header.size,
    ;
    if count == 0 {
        return Some(0);
    }
    if header.offset < 0 {
        return None;
    }
    let start: usize = header.offset as usize;
    if start > bytes.len() || bytes.len() - start < count * stride {
        return None;
    }
    Some(count)
}

/// Reads the vertices of a level, as the bits that the file holds.
pub fn read_verts(header: LumpHeader, bytes: &[u8]) -> (r: Option<Vec<RawVec3>>)
    ensures
        r.is_some() == lump_fits(bytes@, header, 12),
        r matches Some(v) ==> v@ == Seq::new(
            lump_count(header, 12) as nat,
            |i: int| raw_vec3_at(bytes@, header.offset + 12 * i),
        ),
{
    let count: usize = match lump_items(bytes, header, 12) {
        Some(count) => count,
        None => {
            return None;
        },
    };
    let mut verts: Vec<RawVec3> = Vec::new();
    if count == 0 {
        assert(verts@ =~= Seq::new(0nat, |i: int| raw_vec3_at(bytes@, header.offset + 12 * i)));
        return Some(verts);
    }
    let mut reader = Reader::new(bytes);
    reader.seek(header.offset as usize);
    while verts.len() < count
        invariant
            reader.bytes == bytes,
            header.offset >= 0,
            header.offset + count * 12 <= bytes@.len(),
            verts.len() <= count,
            reader.pos == header.offset + 12 * verts.len(),
            forall|i: int|
                0 <= i < verts.len() ==> verts[i] == raw_vec3_at(bytes@, header.offset + 12 * i),
        decreases count - verts.len(),
    {
        let v = reader.read_vec3().unwrap();
        verts.push(v);
    }
    assert(verts@ =~= Seq::new(
        lump_count(header, 12) as nat,
        |i: int| raw_vec3_at(bytes@, header.offset + 12 * i),
    ));
    Some(verts)
}

/// Reads the edges of a level.
pub fn read_edges(header: LumpHeader, bytes: &[u8]) -> (r: Option<Vec<Edge>>)
    ensures
        r.is_some() == lump_fits(bytes@, header, 4),
        r matches Some(v) ==> v@ == Seq::new(
            lump_count(header, 4) as nat,
            |i: int| edge_at(bytes@, header.offset + 4 * i),
        ),
{
    let count: usize = match lump_items(bytes, header, 4) {
        Some(count) => count,
        None => {
            return None;
        },
    };
    let mut edges: Vec<Edge> = Vec::new();
    if count == 0 {
        assert(edges@ =~= Seq::new(0nat, |i: int| edge_at(bytes@, header.offset + 4 * i)));
        return Some(edges);
    }
    let mut reader = Reader::new(bytes);
    reader.seek(header.offset as usize);
    while edges.len() < count
        invariant
            reader.bytes == bytes,
            header.offset >= 0,
            header.offset + count * 4 <= bytes@.len(),
            edges.len() <= count,
            reader.pos == header.offset + 4 * edges.len(),
            forall|i: int|
                0 <= i < edges.len() ==> edges[i] == edge_at(bytes@, header.offset + 4 * i),
        decreases count - edges.len(),
    {
        let v0: u16 = reader.read_u16().unwrap();
        let v1: u16 = reader.read_u16().unwrap();
        edges.push(Edge { v0, v1 });
    }
    assert(edges@ =~= Seq::new(
        lump_count(header, 4) as nat,
        |i: int| edge_at(bytes@, header.offset + 4 * i),
    ));
    Some(edges)
}

/// Reads the list that names the edges of each surface; a negative entry
/// is an edge taken backwards.
pub fn read_surf_edges(header: LumpHeader, bytes: &[u8]) -> (r: Option<Vec<i32>>)
    ensures
        r.is_some() == lump_fits(bytes@, header, 4),
        r matches Some(v) ==> v@ == Seq::new(
            lump_count(header, 4) as nat,
            |i: int| i32_at(bytes@, header.offset + 4 * i) as i32,
        ),
{
    let count: usize = match lump_items(bytes, header, 4) {
        Some(count) => count,
        None => {
            return None;
        },
    };
    let mut surf_edges: Vec<i32> = Vec::new();
    if count == 0 {
        assert(surf_edges@ =~= Seq::new(
            0nat,
            |i: int| i32_at(bytes@, header.offset + 4 * i) as i32,
        ));
        return Some(surf_edges);
    }
    let mut reader = Reader::new(bytes);
    reader.seek(header.offset as usize);
    while surf_edges.len() < count
        invariant
            reader.bytes == bytes,
            header.offset >= 0,
            header.offset + count * 4 <= bytes@.len(),
            surf_edges.len() <= count,
            reader.pos == header.offset + 4 * surf_edges.len(),
            forall|i: int|
                0 <= i < surf_edges.len() ==> surf_edges[i] == i32_at(
                    bytes@,
                    header.offset + 4 * i,
                ),
        decreases count - surf_edges.len(),
    {
        let e: i32 = reader.read_i32().unwrap();
        surf_edges.push(e);
    }
    assert(surf_edges@ =~= Seq::new(
        lump_count(header, 4) as nat,
        |i: int| i32_at(bytes@, header.offset + 4 * i) as i32,
    ));
    Some(surf_edges)
}

/// Whether the bytes of `pattern` stand in `b` at the position `at`.
pub open spec fn matches_at(b: Seq<u8>, at: int, pattern: Seq<u8>) -> bool {
    at + pattern.len() <= b.len() && b.subrange(at, at + pattern.len()) == pattern
}

/// The bytes of `*`.
pub open spec fn star() -> Seq<u8> {
    seq![0x2au8]
}

/// The bytes of `{`.
pub open spec fn brace() -> Seq<u8> {
    seq![0x7bu8]
}

/// The bytes of `sky`.
pub open spec fn sky() -> Seq<u8> {
    seq![0x73u8, 0x6bu8, 0x79u8]
}

/// The bytes of `lava`.
pub open spec fn lava() -> Seq<u8> {
    seq![0x6cu8, 0x61u8, 0x76u8, 0x61u8]
}

/// The bytes of `slime`.
pub open spec fn slime() -> Seq<u8> {
    seq![0x73u8, 0x6cu8, 0x69u8, 0x6du8, 0x65u8]
}

/// The bytes of `tele`.
pub open spec fn tele() -> Seq<u8> {
    seq![0x74u8, 0x65u8, 0x6cu8, 0x65u8]
}

/// How a texture is drawn, by the bytes of its name. A name that starts
/// with `*` is a liquid: lava, slime or a teleporter where that word
/// follows the `*`, and water otherwise. A name that starts with `{` is a
/// cutout, and one that starts with `sky` is sky.
pub open spec fn texture_type(name: Seq<u8>) -> TextureType {
    if matches_at(name, 0, star()) {
        if matches_at(name, 1, lava()) {
            TextureType::Lava
        } else if matches_at(name, 1, slime()) {
            TextureType::Slime
        } else if matches_at(name, 1, tele()) {
            TextureType::Tele
        } else {
            TextureType::Water
        }
    } else if matches_at(name, 0, brace()) {
        TextureType::Cutout
    } else if matches_at(name, 0, sky()) {
        TextureType::Sky
    } else {
        TextureType::Default
    }
}

/// Whether the bytes of `pattern` stand in `bytes` at the position `at`.
fn bytes_match(bytes: &[u8], at: usize, pattern: &Vec<u8>) -> (r: bool)
    requires
        at <= 1,
        pattern.len() <= 8,
    ensures
        r == matches_at(bytes@, at as int, pattern@),
{
    if bytes.len() < at + pattern.len() {
        return false;
    }
    let mut i: usize = 0;
    while i < pattern.len()
        invariant
            at + pattern.len() <= bytes.len(),
            0 <= i <= pattern.len(),
            forall|j: int| 0 <= j < i ==> bytes[at + j] == pattern[j],
        decreases pattern.len() - i,
    {
        if bytes[at + i] != pattern[i] {
            assert(bytes@.subrange(at as int, at + pattern.len())[i as int] != pattern@[i as int]);
            return false;
        }
        i = i + 1;
    }
    assert(bytes@.subrange(at as int, at + pattern.len()) =~= pattern@);
    true
}

/// Tells from the bytes of a name how the texture is drawn.
fn texture_type_of(name: &[u8]) -> (r: TextureType)
    ensures
        r == texture_type(name@),
{
    let star_word: Vec<u8> = vec![0x2au8];
    let lava_word: Vec<u8> = vec![0x6cu8, 0x61u8, 0x76u8, 0x61u8];
    let slime_word: Vec<u8> = vec![0x73u8, 0x6cu8, 0x69u8, 0x6du8, 0x65u8];
    let tele_word: Vec<u8> = vec![0x74u8, 0x65u8, 0x6cu8, 0x65u8];
    let brace_word: Vec<u8> = vec![0x7bu8];
    let sky_word: Vec<u8> = vec![0x73u8, 0x6bu8, 0x79u8];
    assert(star_word@ =~= star() && lava_word@ =~= lava() && slime_word@ =~= slime());
    assert(tele_word@ =~= tele() && brace_word@ =~= brace() && sky_word@ =~= sky());
    if bytes_match(name, 0, &star_word) {
        if bytes_match(name, 1, &lava_word) {
            TextureType::Lava
        } else if bytes_match(name, 1, &slime_word) {
            TextureType::Slime
        } else if bytes_match(name, 1, &tele_word) {
            TextureType::Tele
        } else {
            TextureType::Water
        }
    } else if bytes_match(name, 0, &brace_word) {
        TextureType::Cutout
    } else if bytes_match(name, 0, &sky_word) {
        TextureType::Sky
    } else {
        TextureType::Default
    }
}

/// Tells from the name of a texture how it is drawn.
pub fn texture_type_from_name(name: &String) -> (r: TextureType)
    ensures
        r == texture_type(encode_utf8(name@)),
{
    texture_type_of(name.as_str().as_bytes())
}

/// The bytes of `clip`.
pub open spec fn clip_word() -> Seq<u8> {
    seq![0x63u8, 0x6cu8, 0x69u8, 0x70u8]
}

/// The bytes of `trigger`.
pub open spec fn trigger_word() -> Seq<u8> {
    seq![0x74u8, 0x72u8, 0x69u8, 0x67u8, 0x67u8, 0x65u8, 0x72u8]
}

/// The bytes of `skip`.
pub open spec fn skip_word() -> Seq<u8> {
    seq![0x73u8, 0x6bu8, 0x69u8, 0x70u8]
}

/// Whether the surfaces with a texture of this name are left out of the
/// drawing: the name starts with `clip`, `trigger` or `skip`.
pub open spec fn hidden_name(name: Seq<u8>) -> bool {
    matches_at(name, 0, clip_word()) || matches_at(name, 0, trigger_word()) || matches_at(
        name,
        0,
        skip_word(),
    )
}

/// Tells from the name of a texture whether its surfaces are left out of
/// the drawing.
pub fn is_hidden_texture(name: &String) -> (r: bool)
    ensures
        r == hidden_name(encode_utf8(name@)),
{
    let bytes = name.as_str().as_bytes();
    let clip: Vec<u8> = vec![0x63u8, 0x6cu8, 0x69u8, 0x70u8];
    let trigger: Vec<u8> = vec![0x74u8, 0x72u8, 0x69u8, 0x67u8, 0x67u8, 0x65u8, 0x72u8];
    let skip: Vec<u8> = vec![0x73u8, 0x6bu8, 0x69u8, 0x70u8];
    assert(clip@ =~= clip_word() && trigger@ =~= trigger_word() && skip@ =~= skip_word());
    bytes_match(bytes, 0, &clip) || bytes_match(bytes, 0, &trigger) || bytes_match(bytes, 0, &skip)
}

/// The texture at the position `p`: its name of sixteen bytes, its width
/// and height, four offsets, and then one byte for each pixel. There is
/// none where the file ends before the texture does, the name is no UTF-8,
/// or the number of pixels is beyond a number of four bytes.
#[verifier::opaque]
pub open spec fn mip_at(b: Seq<u8>, p: int) -> Option<MipTexView> {
    let name = b.subrange(p, p + 16);
    let width = u32_at(b, p + 16);
    let height = u32_at(b, p + 20);
    if !readable(b, p, MIP_HEADER_SIZE as int) || !valid_utf8(name) || width * height > u32::MAX
        || !readable(b, p + MIP_HEADER_SIZE, width * height) {
        None
    } else {
        Some(
            MipTexView {
                name: decode_utf8(name),
                width: width as u32,
                height: height as u32,
                offset1: u32_at(b, p + 24) as u32,
                offset2: u32_at(b, p + 28) as u32,
                offset4: u32_at(b, p + 32) as u32,
                offset8: u32_at(b, p + 36) as u32,
                tex_type: texture_type(name),
                pixels: b.subrange(p + MIP_HEADER_SIZE, p + MIP_HEADER_SIZE + width * height),
            },
        )
    }
}

/// The number of entries of the table of textures at the position `base`.
pub open spec fn mip_table_len(b: Seq<u8>, base: int) -> int {
    if i32_at(b, base) > 0 {
        i32_at(b, base)
    } else {
        0
    }
}

/// The textures that the first `k` entries of the table at `base` name. An
/// entry is the offset of a texture from `base`; a negative entry names no
/// texture. There is no result where an offset leads beyond a signed number
/// of four bytes or to no texture.
pub open spec fn mips_upto(b: Seq<u8>, base: int, k: int) -> Option<Seq<MipTexView>>
    decreases k,
{
    if k <= 0 {
        Some(Seq::empty())
    } else {
        let entry = i32_at(b, base + 4 * k);
        match mips_upto(b, base, k - 1) {
            None => None,
            Some(before) => if entry < 0 {
                Some(before)
            } else if base + entry > i32::MAX {
                None
            } else {
                match mip_at(b, base + entry) {
                    None => None,
                    Some(mip) => Some(before.push(mip)),
                }
            },
        }
    }
}

/// The textures of a level: the lump starts with the number of entries of
/// a table, and the table follows. There is no result where the table does
/// not lie in the file.
pub open spec fn mips_of(b: Seq<u8>, header: LumpHeader) -> Option<Seq<MipTexView>> {
    let base = header.offset as int;
    if !readable(b, base, 4) || !readable(b, base, 4 + 4 * mip_table_len(b, base)) {
        None
    } else {
        mips_upto(b, base, mip_table_len(b, base))
    }
}

/// Reads the texture at the position of the reader.
fn read_mip(reader: &mut Reader) -> (r: Option<MipTex>)
    ensures
        final(reader).bytes == old(reader).bytes,
        match r {
            Some(mip) => mip_at(old(reader).bytes@, old(reader).pos as int) == Some(mip@),
            None => mip_at(old(reader).bytes@, old(reader).pos as int).is_none(),
        },
{
    broadcast use encode_utf8_decode_utf8;

    proof {
        reveal(mip_at);
    }
    if !reader.has(MIP_HEADER_SIZE) {
        return None;
    }
    let ghost b = reader.bytes@;
    let ghost p = reader.pos as int;
    let name = match reader.read_string16() {
        Some(name) => name,
        None => {
            return None;
        },
    };
    let width: u32 = reader.read_u32().unwrap();
    let height: u32 = reader.read_u32().unwrap();
    let offset1: u32 = reader.read_u32().unwrap();
    let offset2: u32 = reader.read_u32().unwrap();
    let offset4: u32 = reader.read_u32().unwrap();
    let offset8: u32 = reader.read_u32().unwrap();
    let tex_type = texture_type_from_name(&name);
    assert(encode_utf8(name@) == b.subrange(p, p + 16)) by {
        vstd::utf8::decode_utf8_encode_utf8(b.subrange(p, p + 16));
    }
    assert(width * height <= 0xffff_ffff * 0xffff_ffff) by (nonlinear_arith)
        requires
            0 <= width <= 0xffff_ffff,
            0 <= height <= 0xffff_ffff,
    ;
    let pixel_count: u64 = width as u64 * height as u64;
    if pixel_count > 0xffff_ffff {
        return None;
    }
    let pixels = match reader.read_bytes(pixel_count as usize) {
        Some(pixels) => pixels,
        None => {
            return None;
        },
    };
    Some(MipTex { name, width, height, offset1, offset2, offset4, offset8, tex_type, pixels })
}

/// Reads the textures of a level.
pub fn read_mips(header: LumpHeader, bytes: &[u8]) -> (r: Option<Vec<MipTex>>)
    ensures
        match r {
            Some(mips) => mips_of(bytes@, header) == Some(mips_view(mips@)),
            None => mips_of(bytes@, header).is_none(),
        },
{
    if header.offset < 0 {
        return None;
    }
    let base: usize = header.offset as usize;
    let mut reader = Reader::new(bytes);
    reader.seek(base);
    let num_tex: i32 = match reader.read_i32() {
        Some(n) => n,
        None => {
            return None;
        },
    };
    let count: usize = if num_tex > 0 {
        num_tex as usize
    } else {
        0
    };
    if ((bytes.len() - base - 4) as u64) < 4 * (count as u64) {
        return None;
    }
    let len: usize = bytes.len();
    let mut mip_texs: Vec<MipTex> = Vec::new();
    let mut k: usize = 0;
    assert(mips_view(mip_texs@) =~= Seq::empty());
    while k < count
        invariant
            reader.bytes == bytes,
            base == header.offset,
            base + 4 + 4 * count <= bytes@.len() <= usize::MAX,
            count == mip_table_len(bytes@, base as int),
            count <= i32::MAX,
            0 <= k <= count,
            mips_upto(bytes@, base as int, k as int) == Some(mips_view(mip_texs@)),
        decreases count - k,
    {
        reader.seek(base + 4 + 4 * k);
        let data_offset: i32 = reader.read_i32().unwrap();
        k = k + 1;
        assert(data_offset == i32_at(bytes@, base + 4 * k));
        if data_offset >= 0 {
            if data_offset as u64 + base as u64 > 0x7fff_ffff {
                assert(mips_upto(bytes@, base as int, k as int).is_none());
                proof {
                    lemma_mips_fail(bytes@, base as int, k as int, count as int);
                }
                return None;
            }
            reader.seek(base + data_offset as usize);
            match read_mip(&mut reader) {
                Some(mip) => {
                    let ghost before = mips_view(mip_texs@);
                    mip_texs.push(mip);
                    assert(mips_view(mip_texs@) =~= before.push(mip@));
                },
                None => {
                    assert(mips_upto(bytes@, base as int, k as int).is_none());
                    proof {
                        lemma_mips_fail(bytes@, base as int, k as int, count as int);
                    }
                    return None;
                },
            }
        }
    }
    Some(mip_texs)
}

/// Once the textures of the first entries cannot be read, those of more
/// entries cannot be read either.
proof fn lemma_mips_fail(b: Seq<u8>, base: int, k: int, n: int)
    requires
        k <= n,
        mips_upto(b, base, k).is_none(),
    ensures
        mips_upto(b, base, n).is_none(),
    decreases n - k,
{
    if k < n {
        lemma_mips_fail(b, base, k, n - 1);
    }
}

/// Whether a file can be decoded: it holds the header, the lumps of the
/// vertices, of the edges and of the list of edges lie in it, and its
/// textures can be read.
pub open spec fn decodable(b: Seq<u8>) -> bool {
    &&& b.len() >= HEADER_SIZE
    &&& lump_fits(b, header_of(b).vertices, 12)
    &&& lump_fits(b, header_of(b).edges, 4)
    &&& lump_fits(b, header_of(b).surf_edges, 4)
    &&& mips_of(b, header_of(b).mip_tex).is_some()
}

/// Decodes a level file: its textures. The level has no planes, nodes and
/// leaves yet.
pub fn decode_bsp(bytes: &[u8]) -> (r: Option<Bsp>)
    ensures
        r.is_some() == decodable(bytes@),
        r matches Some(bsp) ==> mips_of(bytes@, header_of(bytes@).mip_tex) == Some(
            mips_view(bsp.textures@),
        ) && bsp.planes@.len() == 0 && bsp.nodes@.len() == 0 && bsp.clip_nodes@.len() == 0
            && bsp.leafs@.len() == 0,
{
    let header = match read_header(bytes) {
        Some(header) => header,
        None => {
            return None;
        },
    };
    if read_verts(header.vertices, bytes).is_none() {
        return None;
    }
    if read_edges(header.edges, bytes).is_none() {
        return None;
    }
    if read_surf_edges(header.surf_edges, bytes).is_none() {
        return None;
    }
    match read_mips(header.mip_tex, bytes) {
        Some(textures) => Some(
            Bsp {
                planes: Vec::new(),
                nodes: Vec::new(),
                clip_nodes: Vec::new(),
                leafs: Vec::new(),
                textures,
            },
        ),
        None => None,
    }
}

/// One of the four bytes of a colour: byte 0 is the lowest.
pub open spec fn colour_byte(colour: u32, k: int) -> u8 {
    if k == 0 {
        (colour % 0x100) as u8
    } else if k == 1 {
        (colour / 0x100 % 0x100) as u8
    } else if k == 2 {
        (colour / 0x1_0000 % 0x100) as u8
    } else {
        (colour / 0x100_0000 % 0x100) as u8
    }
}

/// The bytes of an image, four for each pixel: bytes 2, 1 and 0 of the
/// colour that the palette gives for the pixel, and 255.
pub open spec fn image_bytes(pixels: Seq<u8>, palette: Seq<u32>) -> Seq<u8> {
    Seq::new(
        4 * pixels.len(),
        |i: int|
            if i % 4 == 3 {
                255u8
            } else {
                colour_byte(palette[pixels[i / 4] as int], 2 - i % 4)
            },
    )
}

/// Turns the pixels of a texture into the bytes of an image, by a palette
/// of 256 colours.
pub fn image_from_pixels(tex: &MipTex, palette: &[u32]) -> (image: Vec<u8>)
    requires
        palette@.len() == 256,
    ensures
        image@ == image_bytes(tex.pixels@, palette@),
{
    let mut image: Vec<u8> = Vec::new();
    let mut i: usize = 0;
    while i < tex.pixels.len()
        invariant
            palette@.len() == 256,
            0 <= i <= tex.pixels.len(),
            image.len() == 4 * i,
            forall|j: int| 0 <= j < 4 * i ==> image[j] == image_bytes(tex.pixels@, palette@)[j],
        decreases tex.pixels.len() - i,
    {
        let colour: u32 = palette[tex.pixels[i] as usize];
        image.push((colour / 0x1_0000 % 0x100) as u8);
        image.push((colour / 0x100 % 0x100) as u8);
        image.push((colour % 0x100) as u8);
        image.push(255u8);
        i = i + 1;
    }
    assert(image@ =~= image_bytes(tex.pixels@, palette@));
    image
}

} // verus!
