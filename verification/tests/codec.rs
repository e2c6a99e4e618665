use tfsm::vm::block::Block;
use tfsm::vm::builder::Builder;
use tfsm::vm::slice::Slice;
use tfsm::vm::utils::{
    cond_sign, decimal_string, get_relative_reference, get_u16, get_u64, get_u8, Direction,
};

fn bytes_of(block: Option<Block>) -> Option<Vec<u8>> {
    block.map(|b| b.unpack())
}

#[test]
fn block_keeps_its_bytes() {
    let block = Block::new(&[1, 2, 3]);
    assert_eq!(block.len(), 3);
    assert_eq!(block.as_slice(), &[1, 2, 3]);
    assert_eq!(block.clone().unpack(), vec![1, 2, 3]);
    assert_eq!(Block::empty().len(), 0);
    assert_eq!(Block::from(vec![9u8, 8]).unpack(), vec![9, 8]);
    assert_eq!(Block::from(&[7u8][..]).unpack(), vec![7]);
}

#[test]
fn block_same_compares_content() {
    assert!(Block::new(&[1, 2]).same(&Block::new(&[1, 2])));
    assert!(!Block::new(&[1, 2]).same(&Block::new(&[1, 3])));
    assert!(!Block::new(&[1, 2]).same(&Block::new(&[1, 2, 3])));
    assert!(Block::empty().same(&Block::empty()));
}

#[test]
fn hash_of_abc() {
    let digest = Block::new(b"abc").hash();
    assert_eq!(digest.len(), 32);
    assert_eq!(
        digest.to_string(),
        "ba7816bf8f01cfea414140de5dae2223b00361a396177a9cb410ff61f20015ad"
    );
}

#[test]
fn hash_of_nothing_has_32_bytes() {
    let digest = Block::empty().hash();
    assert_eq!(digest.len(), 32);
    assert_eq!(
        digest.to_string(),
        "e3b0c44298fc1c149afbf4c8996fb92427ae41e4649b934ca495991b7852b855"
    );
}

#[test]
fn hex_text_is_lowercase() {
    assert_eq!(Block::new(&[0x00, 0x0f, 0xa0, 0xff]).to_string(), "000fa0ff");
    assert_eq!(Block::empty().to_string(), "");
}

#[test]
fn hex_text_is_read_in_either_case() {
    assert_eq!(bytes_of(Block::from_string("000fA0Ff".to_string())), Some(vec![0, 0x0f, 0xa0, 0xff]));
    assert_eq!(bytes_of(Block::from_string(String::new())), Some(vec![]));
}

#[test]
fn hex_text_of_odd_length_is_refused() {
    assert!(Block::from_string("abc".to_string()).is_none());
}

#[test]
fn hex_text_with_another_character_is_refused() {
    assert!(Block::from_string("zz".to_string()).is_none());
    assert!(Block::from_string("0g".to_string()).is_none());
    assert!(Block::from_string("0 ".to_string()).is_none());
    assert!(Block::from_string("\u{e9}".to_string()).is_none());
}

#[test]
fn hex_round_trip_of_every_byte() {
    let all: Vec<u8> = (0..=255u8).collect();
    let block = Block::new(&all);
    assert_eq!(bytes_of(Block::from_string(block.to_string())), Some(all));
}

#[test]
fn builder_writes_big_endian() {
    let mut builder = Builder::new();
    builder.write_u64(0x0102030405060708);
    builder.write_u8(0xff);
    assert_eq!(builder.len(), 9);
    assert_eq!(builder.build().unpack(), vec![1, 2, 3, 4, 5, 6, 7, 8, 0xff]);
}

#[test]
fn builder_frames_a_block_with_its_length() {
    let mut builder = Builder::new();
    builder.write_block_with_len(Block::new(&[0xaa, 0xbb]));
    builder.write_block(Block::new(&[0xcc]));
    assert_eq!(builder.build().unpack(), vec![0, 0, 0, 0, 0, 0, 0, 2, 0xaa, 0xbb, 0xcc]);
}

#[test]
fn builder_builds_more_than_once() {
    let mut builder = Builder::new();
    builder.write_u8(1);
    let first = builder.build();
    builder.write_u8(2);
    assert_eq!(first.unpack(), vec![1]);
    assert_eq!(builder.clone().build().unpack(), vec![1, 2]);
    assert_eq!(builder.build().unpack(), vec![1, 2]);
}

#[test]
fn slice_reads_back_what_builder_wrote() {
    let mut builder = Builder::new();
    builder.write_u8(7);
    builder.write_u64(1 << 40);
    builder.write_block_with_len(Block::new(&[9, 8, 7]));
    builder.write_block(Block::new(&[1, 2]));
    let mut slice = Slice::new(builder.build());
    assert_eq!(slice.len(), 1 + 8 + 8 + 3 + 2);
    assert_eq!(slice.read_u8(), Some(7));
    assert_eq!(slice.read_u64(), Some(1 << 40));
    assert_eq!(bytes_of(slice.read_block_with_len()), Some(vec![9, 8, 7]));
    assert_eq!(bytes_of(slice.read_block(2)), Some(vec![1, 2]));
    assert_eq!(slice.len(), 0);
    assert_eq!(slice.read_u8(), None);
}

#[test]
fn slice_short_read_leaves_the_cursor() {
    let mut slice = Slice::new(Block::new(&[1, 2, 3]));
    assert_eq!(slice.read_u64(), None);
    assert_eq!(slice.len(), 3);
    assert!(slice.read_block(4).is_none());
    assert_eq!(slice.len(), 3);
    assert_eq!(bytes_of(slice.read_block(0)), Some(vec![]));
    assert_eq!(bytes_of(slice.read_block(3)), Some(vec![1, 2, 3]));
    assert_eq!(slice.read_u8(), None);
    assert_eq!(slice.len(), 0);
}

#[test]
fn slice_framed_read_that_fails_has_passed_the_length() {
    let mut slice = Slice::new(Block::new(&[0, 0, 0, 0, 0, 0, 0, 5, 1, 2]));
    assert!(slice.read_block_with_len().is_none());
    assert_eq!(slice.len(), 2);
    let mut short = Slice::new(Block::new(&[0, 0, 0]));
    assert!(short.read_block_with_len().is_none());
    assert_eq!(short.len(), 3);
}

#[test]
fn slice_framed_read_of_a_huge_length_fails() {
    let mut slice = Slice::new(Block::new(&[0xff; 12]));
    assert!(slice.read_block_with_len().is_none());
    assert_eq!(slice.len(), 4);
}

#[test]
fn slice_clone_reads_on_its_own() {
    let mut slice = Slice::new(Block::new(&[5, 6]));
    assert_eq!(slice.read_u8(), Some(5));
    let mut copy = slice.clone();
    assert_eq!(copy.read_u8(), Some(6));
    assert_eq!(slice.len(), 1);
    assert_eq!(copy.len(), 0);
}

#[test]
fn integers_are_read_from_exactly_their_width() {
    assert_eq!(get_u8(&[0xab]), Some(0xab));
    assert_eq!(get_u8(&[]), None);
    assert_eq!(get_u8(&[1, 2]), None);
    assert_eq!(get_u16(&[0x12, 0x34]), Some(0x1234));
    assert_eq!(get_u16(&[0x12]), None);
    assert_eq!(get_u16(&[1, 2, 3]), None);
    assert_eq!(get_u64(&[0xff; 8]), Some(u64::MAX));
    assert_eq!(get_u64(&[0, 0, 0, 0, 0, 0, 1, 0]), Some(256));
    assert_eq!(get_u64(&[0; 7]), None);
    assert_eq!(get_u64(&[0; 9]), None);
}

#[test]
fn cond_sign_is_one_or_zero() {
    assert_eq!(cond_sign(true), 1);
    assert_eq!(cond_sign(false), 0);
}

#[test]
fn relative_reference_splits_sign_and_distance() {
    assert_eq!(get_relative_reference(0), (Direction::Forward, 0));
    assert_eq!(get_relative_reference(0x7fff), (Direction::Forward, 0x7fff));
    assert_eq!(get_relative_reference(0x8000), (Direction::Backward, 0));
    assert_eq!(get_relative_reference(0x8001), (Direction::Backward, 1));
    assert_eq!(get_relative_reference(0xffff), (Direction::Backward, 0x7fff));
}

#[test]
fn numbers_are_written_in_decimal() {
    assert_eq!(decimal_string(0), "0");
    assert_eq!(decimal_string(7), "7");
    assert_eq!(decimal_string(100), "100");
    assert_eq!(decimal_string(u64::MAX), u64::MAX.to_string());
}
