use redsharp::nbt::{ByteCursor, NbtError, NbtReader, NbtValue, TagType};
use redsharp::structures::{MinecraftStructureNbt, StructureError};
use redsharp::template::{template_fits, StructureTemplate, TemplateVoxel, VoxelKind};
use redsharp::vectors::Vector3;

fn name(out: &mut Vec<u8>, s: &str) {
    out.extend_from_slice(&(s.len() as u16).to_be_bytes());
    out.extend_from_slice(s.as_bytes());
}

fn tag(out: &mut Vec<u8>, kind: u8, s: &str) {
    out.push(kind);
    name(out, s);
}

fn int_list(out: &mut Vec<u8>, key: &str, values: [i32; 3]) {
    tag(out, 9, key);
    out.push(3);
    out.extend_from_slice(&3i32.to_be_bytes());
    for v in values {
        out.extend_from_slice(&v.to_be_bytes());
    }
}

fn string_entry(out: &mut Vec<u8>, key: &str, value: &str) {
    tag(out, 8, key);
    name(out, value);
}

fn int_entry(out: &mut Vec<u8>, key: &str, value: i32) {
    tag(out, 3, key);
    out.extend_from_slice(&value.to_be_bytes());
}

/// A 2x2x2 structure: air, and a sign that ends bit 0 of input port 0.
fn structure_bytes() -> Vec<u8> {
    let mut b = Vec::new();
    tag(&mut b, 10, "");
    int_list(&mut b, "size", [2, 2, 2]);
    tag(&mut b, 9, "palette");
    b.push(10);
    b.extend_from_slice(&3i32.to_be_bytes());
    string_entry(&mut b, "Name", "minecraft:air");
    b.push(0);
    string_entry(&mut b, "Name", "minecraft:oak_wall_sign");
    b.push(0);
    string_entry(&mut b, "Name", "minecraft:stone");
    b.push(0);
    tag(&mut b, 9, "blocks");
    b.push(10);
    b.extend_from_slice(&3i32.to_be_bytes());
    // the sign
    int_list(&mut b, "pos", [1, 0, 1]);
    int_entry(&mut b, "state", 1);
    tag(&mut b, 10, "nbt");
    tag(&mut b, 10, "front_text");
    tag(&mut b, 9, "messages");
    b.push(8);
    b.extend_from_slice(&4i32.to_be_bytes());
    for m in ["\"i-0-0\"", "\"\"", "\"\"", "\"\""] {
        name(&mut b, m);
    }
    b.push(0);
    string_entry(&mut b, "id", "minecraft:sign");
    b.push(0);
    b.push(0);
    // air
    int_list(&mut b, "pos", [0, 0, 0]);
    int_entry(&mut b, "state", 0);
    b.push(0);
    // stone
    int_list(&mut b, "pos", [0, 1, 0]);
    int_entry(&mut b, "state", 2);
    b.push(0);
    b.push(0);
    b
}

#[test]
fn nbt_reads_big_endian_numbers() {
    let mut c = ByteCursor::new(vec![0x01, 0x02, 0xff, 0xff, 0xff, 0xfe]);
    assert_eq!(c.read_be(2), Some(0x0102));
    assert_eq!(c.read_be(4), Some(0xffff_fffe));
    assert_eq!(c.read_u8(), None);
    let mut d = ByteCursor::new(vec![3, 0, 1, b'n', 0xff, 0xff, 0xff, 0xfe]);
    let r = NbtReader::new();
    assert_eq!(r.read_tag(&mut d), Ok((TagType::Int, "n".to_string())));
    assert_eq!(r.read_tag_payload(TagType::Int, &mut d), Ok(NbtValue::Int(-2)));
}

#[test]
fn nbt_errors() {
    let r = NbtReader::new();
    assert_eq!(r.parse_nbt(&mut ByteCursor::new(vec![])), Err(NbtError::UnexpectedEnd));
    assert_eq!(r.parse_nbt(&mut ByteCursor::new(vec![1, 0, 0, 5])), Err(NbtError::NotCompound));
    assert_eq!(r.parse_nbt(&mut ByteCursor::new(vec![10, 0, 0, 3, 0, 1])), Err(NbtError::UnexpectedEnd));
    assert_eq!(
        r.read_tag_payload(TagType::End, &mut ByteCursor::new(vec![0])),
        Err(NbtError::UnsupportedTag)
    );
}

#[test]
fn nbt_document_to_template() {
    let value = NbtReader::new().parse_nbt(&mut ByteCursor::new(structure_bytes())).unwrap();
    let structure = MinecraftStructureNbt::from_nbt(&value).unwrap();
    assert_eq!(structure.size, [2, 2, 2]);
    assert_eq!(structure.palette.len(), 3);
    assert_eq!(structure.blocks.len(), 3);
    let template = structure.to_template().unwrap();
    assert_eq!(template.size, [2, 2, 2]);
    assert_eq!(template.voxels.len(), 2);
    assert_eq!(template.voxels[0].pos, Vector3(1, 0, 1));
    assert!(matches!(&template.voxels[0].kind, VoxelKind::PortMarker(s) if s == "\"i-0-0\""));
    assert!(matches!(template.voxels[1].kind, VoxelKind::Obstacle));
    assert!(template_fits(&template));
}

#[test]
fn structure_without_air_is_refused() {
    let structure = MinecraftStructureNbt { size: [1, 1, 1], blocks: vec![], palette: vec![] };
    assert_eq!(structure.to_template().err(), Some(StructureError::NoAir));
    assert_eq!(
        MinecraftStructureNbt::from_nbt(&NbtValue::Int(3)).err(),
        Some(StructureError::Malformed)
    );
}

#[test]
fn template_fit_checks_bounds() {
    let t = StructureTemplate {
        size: [2, 2, 2],
        voxels: vec![TemplateVoxel { pos: Vector3(2, 0, 0), kind: VoxelKind::Obstacle }],
    };
    assert!(!template_fits(&t));
    let big = StructureTemplate { size: [2000, 1, 1], voxels: vec![] };
    assert!(!template_fits(&big));
}

#[test]
fn nbt_invalid_utf8_name_reads_as_marker() {
    let mut c = ByteCursor::new(vec![8, 0, 2, 0xff, 0xfe]);
    let r = NbtReader::new();
    assert_eq!(r.read_tag(&mut c), Ok((TagType::String, "Invalid UTF-8 string".to_string())));
    let mut d = ByteCursor::new(vec![0, 3, b'a', 0xc3, 0xa9]);
    assert_eq!(r.read_tag_payload(TagType::String, &mut d), Ok(NbtValue::String("aé".to_string())));
}

#[test]
fn nbt_int_payload_is_big_endian() {
    let mut c = ByteCursor::new(vec![0x00, 0x00, 0x01, 0x02]);
    assert_eq!(NbtReader::new().read_tag_payload(TagType::Int, &mut c), Ok(NbtValue::Int(258)));
    assert_eq!(c.read_u8(), None);
}
