use shared::bsp_file::{
    decode_bsp, image_from_pixels, read_edges, read_header, read_mips, read_surf_edges,
    read_verts, texture_type_from_name, Edge, LumpHeader, MipTex, RawVec3, Reader, TextureType,
    HEADER_SIZE,
};
use shared::transport::ConnectionState::{
    ClosedByPeer, Connected, Connecting, FindingRoute, Other, ProblemDetectedLocally, Unconnected,
};
use shared::transport::{more_events, more_messages, server_action, ServerAction, POLL_BATCH};

fn lump(offset: i32, size: i32) -> LumpHeader {
    LumpHeader { offset, size }
}

/// A header whose lumps are all empty, but for those given.
fn header_bytes(version: i32, lumps: &[(usize, i32, i32)]) -> Vec<u8> {
    let mut bytes = vec![0u8; HEADER_SIZE];
    bytes[0..4].copy_from_slice(&version.to_le_bytes());
    for (index, offset, size) in lumps {
        let at = 4 + 8 * index;
        bytes[at..at + 4].copy_from_slice(&offset.to_le_bytes());
        bytes[at + 4..at + 8].copy_from_slice(&size.to_le_bytes());
    }
    bytes
}

/// The bytes of a texture with the given name and size.
fn texture_bytes(name: &str, width: u32, height: u32, first_pixel: u8) -> Vec<u8> {
    let mut bytes = vec![0u8; 16];
    bytes[..name.len()].copy_from_slice(name.as_bytes());
    for n in [width, height, 40, 41, 42, 43] {
        bytes.extend_from_slice(&n.to_le_bytes());
    }
    for i in 0..width * height {
        bytes.push(first_pixel.wrapping_add(i as u8));
    }
    bytes
}

fn padded(name: &str) -> String {
    let mut s = name.to_string();
    while s.len() < 16 {
        s.push('\0');
    }
    s
}

#[test]
fn reader_reads_numbers_lowest_byte_first() {
    let bytes = [0x34, 0x12, 0x78, 0x56, 0x34, 0x12, 0xff, 0xff, 0xff, 0xff, 0x01];
    let mut reader = Reader::new(&bytes);
    assert_eq!(reader.read_u16(), Some(0x1234));
    assert_eq!(reader.pos, 2);
    assert_eq!(reader.read_u32(), Some(0x1234_5678));
    assert_eq!(reader.read_i32(), Some(-1));
    assert_eq!(reader.pos, 10);
    // One byte is left: too few for a number, and the place is kept.
    assert_eq!(reader.read_u16(), None);
    assert_eq!(reader.read_u32(), None);
    assert_eq!(reader.read_i32(), None);
    assert_eq!(reader.pos, 10);
    assert_eq!(reader.read_bytes(1), Some(vec![0x01]));
    assert_eq!(reader.read_bytes(0), Some(vec![]));
    assert_eq!(reader.read_bytes(1), None);
    reader.seek(6);
    assert_eq!(reader.read_u32(), Some(0xffff_ffff));
    reader.seek(1000);
    assert!(!reader.has(0));
    assert_eq!(reader.read_u16(), None);
    assert_eq!(reader.pos, 1000);
}

#[test]
fn reader_reads_signed_and_wide_numbers() {
    let bytes = [0x00, 0x00, 0x00, 0x80, 0xfe, 0xff, 0xff, 0xff, 0xff, 0xff, 0xff, 0xff];
    let mut reader = Reader::new(&bytes);
    assert_eq!(reader.read_i32(), Some(i32::MIN));
    assert_eq!(reader.read_i64(), Some(-2));
    reader.seek(0);
    assert_eq!(reader.read_i64(), Some(i64::from_le_bytes([0, 0, 0, 0x80, 0xfe, 0xff, 0xff, 0xff])));
    reader.seek(5);
    assert_eq!(reader.read_i64(), None);
    assert_eq!(reader.pos, 5);
    reader.seek(0);
    assert_eq!(reader.read_f32_bits(), Some(0x8000_0000));
    reader.seek(0);
    assert_eq!(
        reader.read_vec3(),
        Some(RawVec3 { x: 0x8000_0000, y: 0xffff_fffe, z: 0xffff_ffff })
    );
    reader.seek(1);
    assert_eq!(reader.read_vec3(), None);
    reader.seek(0);
    assert_eq!(reader.read_dir_entry(), Some(lump(i32::MIN, -2)));
    assert_eq!(reader.pos, 8);
    assert_eq!(reader.read_dir_entry(), None);
}

#[test]
fn reader_reads_names_of_sixteen_bytes() {
    let mut bytes = b"sky4".to_vec();
    bytes.resize(16, 0);
    bytes.push(7);
    let mut reader = Reader::new(&bytes);
    assert_eq!(reader.read_string16(), Some(padded("sky4")));
    assert_eq!(reader.pos, 16);
    assert_eq!(reader.read_string16(), None);
    // Bytes that are no UTF-8 are no name.
    let mut bytes = vec![0xffu8; 16];
    let mut reader = Reader::new(&bytes);
    assert_eq!(reader.read_string16(), None);
    assert_eq!(reader.pos, 0);
    bytes[..2].copy_from_slice(&[0xc3, 0xa9]);
    bytes[2..].fill(b'a');
    let mut reader = Reader::new(&bytes);
    assert_eq!(reader.read_string16(), Some("\u{e9}aaaaaaaaaaaaaa".to_string()));
}

#[test]
fn header_holds_version_and_directory() {
    let bytes = header_bytes(29, &[(0, 1, 2), (2, 300, 40), (5, 55, 66), (6, 77, 88), (14, -5, 9)]);
    let header = read_header(&bytes).unwrap();
    assert_eq!(header.version, 29);
    assert_eq!(header.entities, lump(1, 2));
    assert_eq!(header.planes, lump(0, 0));
    assert_eq!(header.mip_tex, lump(300, 40));
    // The sixth entry is that of the texture infos, the seventh that of the nodes.
    assert_eq!(header.tex_info, lump(55, 66));
    assert_eq!(header.nodes, lump(77, 88));
    assert_eq!(header.models, lump(-5, 9));
    assert_eq!(read_header(&bytes[..HEADER_SIZE - 1]), None);
    assert_eq!(read_header(&[]), None);
}

#[test]
fn lumps_of_vertices_and_edges() {
    let mut bytes = vec![9u8; 8];
    for n in [1u32, 2, 3, 4, 5, 6] {
        bytes.extend_from_slice(&n.to_le_bytes());
    }
    bytes.push(0);
    assert_eq!(
        read_verts(lump(8, 24), &bytes),
        Some(vec![RawVec3 { x: 1, y: 2, z: 3 }, RawVec3 { x: 4, y: 5, z: 6 }])
    );
    // What is left of a size after the last whole item is ignored.
    assert_eq!(read_verts(lump(8, 23), &bytes), Some(vec![RawVec3 { x: 1, y: 2, z: 3 }]));
    assert_eq!(read_verts(lump(8, 11), &bytes), Some(vec![]));
    assert_eq!(read_verts(lump(-8, 11), &bytes), Some(vec![]));
    assert_eq!(read_verts(lump(9, 24), &bytes), Some(vec![
        RawVec3 { x: 0x0200_0000, y: 0x0300_0000, z: 0x0400_0000 },
        RawVec3 { x: 0x0500_0000, y: 0x0600_0000, z: 0 },
    ]));
    assert_eq!(read_verts(lump(10, 24), &bytes), None);
    assert_eq!(read_verts(lump(-8, 12), &bytes), None);
    assert_eq!(read_verts(lump(8, -1), &bytes), None);
    assert_eq!(
        read_edges(lump(8, 8), &bytes),
        Some(vec![Edge { v0: 1, v1: 0 }, Edge { v0: 2, v1: 0 }])
    );
    assert_eq!(read_edges(lump(30, 4), &bytes), None);
    assert_eq!(read_surf_edges(lump(8, 12), &bytes), Some(vec![1, 2, 3]));
    let negative = (-7i32).to_le_bytes();
    assert_eq!(read_surf_edges(lump(0, 4), &negative), Some(vec![-7]));
    assert_eq!(read_surf_edges(lump(1, 4), &negative), None);
}

#[test]
fn texture_names_tell_the_kind() {
    let kind = |name: &str| texture_type_from_name(&name.to_string());
    assert_eq!(kind("*lava1"), TextureType::Lava);
    assert_eq!(kind("*lava"), TextureType::Lava);
    assert_eq!(kind("*slime0"), TextureType::Slime);
    assert_eq!(kind("*teleport"), TextureType::Tele);
    assert_eq!(kind("*water2"), TextureType::Water);
    assert_eq!(kind("*04mwat1"), TextureType::Water);
    assert_eq!(kind("*"), TextureType::Water);
    assert_eq!(kind("*lav"), TextureType::Water);
    assert_eq!(kind("{fence"), TextureType::Cutout);
    assert_eq!(kind("sky4"), TextureType::Sky);
    assert_eq!(kind("sk"), TextureType::Default);
    assert_eq!(kind("lava"), TextureType::Default);
    assert_eq!(kind("wall*lava"), TextureType::Default);
    assert_eq!(kind(""), TextureType::Default);
    assert_eq!(kind(&padded("*slime")), TextureType::Slime);
}

fn mip_lump(entries: &[i32], textures: &[(usize, Vec<u8>)]) -> Vec<u8> {
    // The lump starts at 10.
    let mut bytes = vec![0xeeu8; 10];
    bytes.extend_from_slice(&(entries.len() as i32).to_le_bytes());
    for entry in entries {
        bytes.extend_from_slice(&entry.to_le_bytes());
    }
    for (at, texture) in textures {
        assert_eq!(bytes.len(), 10 + at);
        bytes.extend_from_slice(texture);
    }
    bytes
}

fn same_texture(tex: &MipTex, name: &str, width: u32, height: u32, kind: TextureType, first: u8) {
    assert_eq!(tex.name, padded(name));
    assert_eq!((tex.width, tex.height), (width, height));
    assert_eq!((tex.offset1, tex.offset2, tex.offset4, tex.offset8), (40, 41, 42, 43));
    assert_eq!(tex.tex_type, kind);
    let pixels: Vec<u8> = (0..width * height).map(|i| first.wrapping_add(i as u8)).collect();
    assert_eq!(tex.pixels, pixels);
}

#[test]
fn textures_are_read_by_the_table_of_offsets() {
    let first = texture_bytes("*lava1", 2, 3, 100);
    let second = texture_bytes("wall", 1, 1, 7);
    let bytes = mip_lump(&[16, -1, 62], &[(16, first), (62, second)]);
    let mips = read_mips(lump(10, 0), &bytes).unwrap();
    assert_eq!(mips.len(), 2);
    same_texture(&mips[0], "*lava1", 2, 3, TextureType::Lava, 100);
    same_texture(&mips[1], "wall", 1, 1, TextureType::Default, 7);
    // Entries may name one texture twice, and in any order.
    let first = texture_bytes("sky1", 2, 2, 0);
    let bytes = mip_lump(&[12, 12], &[(12, first)]);
    let mips = read_mips(lump(10, 0), &bytes).unwrap();
    assert_eq!(mips.len(), 2);
    same_texture(&mips[0], "sky1", 2, 2, TextureType::Sky, 0);
    same_texture(&mips[1], "sky1", 2, 2, TextureType::Sky, 0);
    // A table without entries, and one whose number of entries is negative.
    assert_eq!(read_mips(lump(10, 0), &mip_lump(&[], &[])).map(|m| m.len()), Some(0));
    let mut bytes = vec![0u8; 10];
    bytes.extend_from_slice(&(-3i32).to_le_bytes());
    assert_eq!(read_mips(lump(10, 0), &bytes).map(|m| m.len()), Some(0));
    // A texture without pixels.
    let bytes = mip_lump(&[8], &[(8, texture_bytes("{gate", 0, 9, 0))]);
    let mips = read_mips(lump(10, 0), &bytes).unwrap();
    same_texture(&mips[0], "{gate", 0, 9, TextureType::Cutout, 0);
}

#[test]
fn textures_that_cannot_be_read() {
    let good = mip_lump(&[8], &[(8, texture_bytes("wall", 2, 2, 0))]);
    assert!(read_mips(lump(10, 0), &good).is_some());
    // The last pixel is missing.
    assert!(read_mips(lump(10, 0), &good[..good.len() - 1]).is_none());
    // The lump lies beyond the file, or before it.
    assert!(read_mips(lump(good.len() as i32 - 3, 0), &good).is_none());
    assert!(read_mips(lump(-1, 0), &good).is_none());
    // The table is longer than the file.
    let mut bytes = vec![0u8; 10];
    bytes.extend_from_slice(&2i32.to_le_bytes());
    bytes.extend_from_slice(&(-1i32).to_le_bytes());
    assert!(read_mips(lump(10, 0), &bytes).is_none());
    // An entry leads beyond the file.
    assert!(read_mips(lump(10, 0), &mip_lump(&[5000], &[])).is_none());
    assert!(read_mips(lump(10, 0), &mip_lump(&[i32::MAX], &[])).is_none());
    // A name that is no UTF-8.
    let mut texture = texture_bytes("wall", 1, 1, 0);
    texture[3] = 0xff;
    assert!(read_mips(lump(10, 0), &mip_lump(&[8], &[(8, texture)])).is_none());
    // More pixels than a number of four bytes counts.
    let texture = texture_bytes("wall", 0, 0, 0);
    let mut huge = texture.clone();
    huge[16..20].copy_from_slice(&0x1_0000u32.to_le_bytes());
    huge[20..24].copy_from_slice(&0x1_0000u32.to_le_bytes());
    assert!(read_mips(lump(10, 0), &mip_lump(&[8], &[(8, huge)])).is_none());
}

#[test]
fn level_file_with_one_texture() {
    let texture = texture_bytes("*slime", 2, 1, 9);
    let table_at = HEADER_SIZE as i32;
    let mut bytes = header_bytes(
        29,
        &[(2, table_at, 8 + texture.len() as i32), (3, table_at, 0), (12, 0, 8), (13, 4, 4)],
    );
    bytes.extend_from_slice(&1i32.to_le_bytes());
    bytes.extend_from_slice(&8i32.to_le_bytes());
    bytes.extend_from_slice(&texture);
    let bsp = decode_bsp(&bytes).unwrap();
    assert_eq!(bsp.textures.len(), 1);
    same_texture(&bsp.textures[0], "*slime", 2, 1, TextureType::Slime, 9);
    assert!(bsp.planes.is_empty());
    assert!(bsp.nodes.is_empty());
    assert!(bsp.clip_nodes.is_empty());
    assert!(bsp.leafs.is_empty());
    // Without its last byte the file cannot be decoded, nor without its header.
    assert!(decode_bsp(&bytes[..bytes.len() - 1]).is_none());
    assert!(decode_bsp(&bytes[..100]).is_none());
    // A lump of edges that does not lie in the file.
    let mut broken = bytes.clone();
    broken[4 + 8 * 12..8 + 8 * 12].copy_from_slice(&100_000i32.to_le_bytes());
    assert!(decode_bsp(&broken).is_none());
}

#[test]
fn pixels_become_colours_of_the_palette() {
    let mut palette = vec![0u32; 256];
    palette[0] = 0x0011_2233;
    palette[7] = 0xaabb_ccdd;
    palette[255] = 0xffff_ffff;
    let tex = MipTex {
        name: "t".to_string(),
        width: 3,
        height: 1,
        offset1: 0,
        offset2: 0,
        offset4: 0,
        offset8: 0,
        tex_type: TextureType::Default,
        pixels: vec![7, 0, 255],
    };
    let image = image_from_pixels(&tex, &palette);
    assert_eq!(
        image,
        vec![0xbb, 0xcc, 0xdd, 255, 0x11, 0x22, 0x33, 255, 0xff, 0xff, 0xff, 255]
    );
    let empty = MipTex { pixels: vec![], ..tex };
    assert_eq!(image_from_pixels(&empty, &palette), Vec::<u8>::new());
}

#[test]
fn server_reacts_to_changes_of_state() {
    assert_eq!(server_action(Unconnected, Connecting), ServerAction::Accept);
    assert_eq!(server_action(Connecting, Connected), ServerAction::Nothing);
    let all = [
        Unconnected,
        Connecting,
        FindingRoute,
        Connected,
        ClosedByPeer,
        ProblemDetectedLocally,
        Other,
    ];
    for old in all {
        assert_eq!(server_action(old, ClosedByPeer), ServerAction::Close);
        assert_eq!(server_action(old, ProblemDetectedLocally), ServerAction::Close);
    }
    assert_eq!(server_action(Connected, Unconnected), ServerAction::Report);
    assert_eq!(server_action(Connecting, FindingRoute), ServerAction::Report);
    assert_eq!(server_action(FindingRoute, Connected), ServerAction::Report);
    assert_eq!(server_action(Connecting, Connecting), ServerAction::Report);
    assert_eq!(server_action(Other, Connecting), ServerAction::Report);
}

#[test]
fn polls_are_repeated_after_a_whole_batch() {
    assert_eq!(POLL_BATCH, 100);
    assert!(!more_events(0));
    assert!(!more_events(99));
    assert!(more_events(100));
    assert!(!more_messages(Some(0)));
    assert!(!more_messages(Some(99)));
    assert!(more_messages(Some(100)));
    assert!(more_messages(None));
}
