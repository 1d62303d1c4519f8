use umbrella::block_map::BlockMap;
use umbrella::block_number::{BlockNumber, BlockOffset, Sequence, Step, MASTER_BLOCK_NUMBER};
use umbrella::error::Error;

#[test]
fn a_new_map_is_all_free() {
    let map = BlockMap::new(10);
    assert_eq!(map.len(), 10);
    for i in 0..10 {
        assert!(!map.get(BlockNumber::new(i)));
    }
    assert!(!map.get(BlockNumber::new(10)));
    assert!(!map.get(BlockNumber::new(u64::MAX)));
}

#[test]
fn allocations_return_the_lowest_free_block() {
    let mut map = BlockMap::new(4);
    map.set(BlockNumber::new(0), true);
    map.set(BlockNumber::new(2), true);
    assert_eq!(map.allocate().unwrap(), BlockNumber::new(1));
    assert!(map.get(BlockNumber::new(1)));
    assert_eq!(map.allocate().unwrap(), BlockNumber::new(3));
    match map.allocate() {
        Err(Error::Size(text)) => assert_eq!(text, "out of blocks"),
        _ => panic!("a full map handed out a block"),
    }
    assert_eq!(map.to_bytes(), vec![0b1111_0000]);
}

#[test]
fn allocations_are_distinct_until_the_map_is_full() {
    let mut map = BlockMap::new(70);
    for i in [0u64, 1, 5, 64, 69] {
        map.set(BlockNumber::new(i), true);
    }
    let mut seen = Vec::new();
    for _ in 0..65 {
        let block = map.allocate().unwrap();
        assert!(!seen.contains(&block));
        assert!(![0u64, 1, 5, 64, 69].contains(&block.number));
        seen.push(block);
    }
    assert!(map.allocate().is_err());
    assert!(map.allocate().is_err());
    for i in 0..70 {
        assert!(map.get(BlockNumber::new(i)));
    }
}

#[test]
fn a_freed_block_is_handed_out_again() {
    let mut map = BlockMap::new(16);
    for i in 0..14 {
        map.set(BlockNumber::new(i), true);
    }
    map.free(BlockNumber::new(12));
    assert!(!map.get(BlockNumber::new(12)));
    assert_eq!(map.allocate().unwrap().number, 12);
    assert_eq!(map.allocate().unwrap().number, 14);
}

#[test]
fn an_empty_map_has_no_block_to_hand_out() {
    let mut map = BlockMap::new(0);
    assert!(map.allocate().is_err());
    assert_eq!(map.len(), 0);
    assert_eq!(map.to_bytes(), Vec::<u8>::new());
    assert_eq!(map.render(), "");
    assert_eq!(BlockMap::empty().len(), 0);
}

#[test]
fn the_map_packs_the_lowest_block_into_the_highest_bit() {
    let mut map = BlockMap::new(11);
    map.set(BlockNumber::new(0), true);
    map.set(BlockNumber::new(7), true);
    map.set(BlockNumber::new(9), true);
    assert_eq!(map.to_bytes(), vec![0b1000_0001, 0b0100_0000]);
    let mut three = BlockMap::new(3);
    three.set(BlockNumber::new(1), true);
    assert_eq!(three.to_bytes(), vec![0b0100_0000]);
    assert_eq!(BlockMap::new(16).to_bytes(), vec![0, 0]);
    assert_eq!(BlockMap::new(17).to_bytes(), vec![0, 0, 0]);
}

#[test]
fn bytes_unpack_with_the_highest_bit_first() {
    let mut map = BlockMap::empty();
    map.extend_from_bytes(&vec![0b1010_0000, 0b0001_0010]);
    assert_eq!(map.len(), 16);
    let set: Vec<u64> = (0..16).filter(|i| map.get(BlockNumber::new(*i))).collect();
    assert_eq!(set, vec![0, 2, 11, 14]);
    map.extend_from_bytes(&vec![0xff]);
    assert_eq!(map.len(), 24);
    assert!(map.get(BlockNumber::new(16)) && map.get(BlockNumber::new(23)));
    assert!(map.get(BlockNumber::new(2)) && !map.get(BlockNumber::new(3)));
}

#[test]
fn truncating_keeps_the_front() {
    let mut map = BlockMap::empty();
    map.extend_from_bytes(&vec![0b0100_1011]);
    map.truncate(10);
    assert_eq!(map.len(), 8);
    map.truncate(2);
    assert_eq!(map.len(), 2);
    assert!(!map.get(BlockNumber::new(0)));
    assert!(map.get(BlockNumber::new(1)));
    assert_eq!(map.to_bytes(), vec![0b0100_0000]);
}

#[test]
fn packing_and_unpacking_give_the_map_back() {
    let mut map = BlockMap::new(21);
    for i in [0u64, 3, 8, 9, 20] {
        map.set(BlockNumber::new(i), true);
    }
    let mut back = BlockMap::empty();
    back.extend_from_bytes(&map.to_bytes());
    assert_eq!(back.len(), 24);
    back.truncate(21);
    for i in 0..21 {
        assert_eq!(back.get(BlockNumber::new(i)), map.get(BlockNumber::new(i)));
    }
}

#[test]
fn the_map_is_shown_in_rows_of_64_with_bars() {
    let mut map = BlockMap::new(16);
    for i in 0..12 {
        map.set(BlockNumber::new(i), true);
    }
    assert_eq!(map.render(), "11111111|11110000|\n");
    let mut map = BlockMap::new(64);
    map.set(BlockNumber::new(63), true);
    assert_eq!(
        map.render(),
        "00000000|00000000|00000000|00000000|00000000|00000000|00000000|00000001\n"
    );
    let map = BlockMap::new(67);
    assert_eq!(
        map.render(),
        "00000000|00000000|00000000|00000000|00000000|00000000|00000000|00000000\n000\n"
    );
    assert_eq!(BlockMap::new(3).render(), "000\n");
    assert_eq!(BlockMap::new(8).render(), "00000000|\n");
}

#[test]
fn block_numbers_and_offsets() {
    assert_eq!(BlockNumber::new(7).number, 7);
    assert_eq!(BlockNumber::new(7).index(), 7);
    assert_eq!(BlockNumber::from(9), BlockNumber::new(9));
    assert_eq!(BlockNumber::master().number, MASTER_BLOCK_NUMBER);
    assert!(BlockNumber::new(0).is_master());
    assert!(!BlockNumber::new(1).is_master());
    assert!(BlockNumber::new(1) < BlockNumber::new(2));
    assert_eq!(BlockOffset::zero(), BlockOffset::new(0));
    assert_eq!(BlockOffset::new(20).index(), 20);
    assert_eq!(BlockOffset::from(4), BlockOffset::new(4));
    assert_eq!(BlockOffset::new(37).div(16), BlockOffset::new(2));
    assert_eq!(BlockOffset::new(37).rem(16), BlockOffset::new(5));
    assert!(BlockOffset::new(7).below(8));
    assert!(!BlockOffset::new(8).below(8));
    let mut number = BlockNumber::new(4);
    number.inc();
    assert_eq!(number.number, 5);
    let mut offset = BlockOffset::new(4);
    offset.inc();
    assert_eq!(offset, BlockOffset::new(5));
}

#[test]
fn a_sequence_hands_out_each_position_once() {
    let mut run = BlockNumber::new(3).seq(6);
    assert_eq!(run.next(), Some(BlockNumber::new(3)));
    assert_eq!(run.next(), Some(BlockNumber::new(4)));
    assert_eq!(run.next(), Some(BlockNumber::new(5)));
    assert_eq!(run.next(), None);
    assert_eq!(run.next(), None);
    let mut offsets = Sequence::new(BlockOffset::zero(), 2);
    let copy = offsets;
    assert_eq!(offsets.next(), Some(BlockOffset::new(0)));
    assert_eq!(offsets.next(), Some(BlockOffset::new(1)));
    assert_eq!(offsets.next(), None);
    let mut copy = copy;
    assert_eq!(copy.next(), Some(BlockOffset::new(0)));
    let mut empty = Sequence::new(BlockNumber::new(5), 5);
    assert_eq!(empty.next(), None);
}
