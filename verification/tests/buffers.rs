use ferride::buffers::{BufferWriter, IndexBuffer, ShaderDescriptor, VertexBuffer};
use ferride::sprite::{SpriteDescriptor, SpritePosition};
use ferride::names::SpriteSheetName;
use ferride::entity::{TransitionTypes, Type};

#[test]
fn index_buffer_holds_the_indices_as_bytes() {
    let mut b = IndexBuffer::new();
    assert_eq!(b.len(), 0);
    b.extend_from_slice(&[1u16, 258, 65535]);
    assert_eq!(b.len(), 3);
    assert_eq!(b.buffer_len(), 3);
    let bytes = b.buffer_data().unwrap();
    assert_eq!(bytes.len(), 6);
    let decoded: Vec<u16> = bytes.chunks(2).map(|c| u16::from_ne_bytes([c[0], c[1]])).collect();
    assert_eq!(decoded, vec![1, 258, 65535]);
    b.extend_from_slice(&[7u16]);
    assert_eq!(b.len(), 4);
    assert_eq!(b.buffer_data().unwrap().len(), 8);
    assert_eq!(u16::from_ne_bytes([b.buffer_data().unwrap()[6], b.buffer_data().unwrap()[7]]), 7);
}

#[test]
fn vertex_buffer_counts_vertices_and_keeps_their_bytes() {
    let mut v = VertexBuffer::new();
    v.extend_from_bytes(2, &[1, 2, 3, 4]);
    v.extend_from_bytes(1, &[5, 6]);
    assert_eq!(v.len(), 3);
    assert_eq!(v.buffer_len(), 3);
    assert_eq!(v.buffer_data().unwrap(), &[1, 2, 3, 4, 5, 6][..]);
}

#[test]
fn shader_descriptor_is_plain_data() {
    let s = ShaderDescriptor { file: "shader.wgsl", vertex_shader: "vs_main", fragment_shader: "fs_main" };
    let t = s.clone();
    assert_eq!(t.file, "shader.wgsl");
    assert_eq!(t.vertex_shader, "vs_main");
    assert_eq!(t.fragment_shader, "fs_main");
}

#[test]
fn sprites_know_their_sheet_and_position() {
    let pos = SpritePosition::new(3, 4);
    let sprite = SpriteDescriptor::new(SpriteSheetName::from_str("characters"), pos);
    assert_eq!(sprite.sprite_sheet().as_str(), "characters");
    assert_eq!((sprite.position.x, sprite.position.y), (3, 4));
}

#[test]
fn entity_kinds_compare() {
    assert_eq!(Type::Enemy, Type::Enemy);
    assert_ne!(Type::Player, Type::Menu);
    assert_eq!(TransitionTypes::BattleTransition, TransitionTypes::BattleTransition);
}
