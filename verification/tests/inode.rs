use std::time::{Duration, UNIX_EPOCH};
use umbrella::block_number::BlockNumber;
use umbrella::error::{Error, Failure};
use umbrella::inode::{
    INode, INodeFlags, INodeMap, Timestamp, DATA, DIR, FILE, FREE, INODE_BYTES, LINK, PTR,
};
use umbrella::master_block::{MasterBlock, MasterBlockFlags, MASTER_BLOCK_BYTES, SYNCED};

fn at(secs: u64, nanos: u32) -> Timestamp {
    Timestamp { secs, nanos }
}

#[test]
fn fs_inode_seralize_len() {
    let now = at(1_525_132_800, 12);
    let inode = INode::new(now);
    let needed = (0..=128u16).find(|size| inode.to_block(*size).is_ok()).unwrap();
    assert!(needed < 128);
    let v = inode.to_block(needed).unwrap();
    assert!(v.len() < 128);
    assert_eq!(v.len(), INODE_BYTES);
    let block = inode.to_block(128).unwrap();
    assert_eq!(block.len(), 128);
    assert_eq!(&block[..v.len()], &v[..]);
    assert!(block[v.len()..].iter().all(|b| *b == 0));
}

#[test]
fn parse_reads_the_five_letters() {
    assert_eq!(INodeFlags::parse("0").unwrap(), INodeFlags::free());
    assert_eq!(INodeFlags::parse("f").unwrap(), INodeFlags::file());
    assert_eq!(INodeFlags::parse("s").unwrap(), INodeFlags::link());
    assert_eq!(INodeFlags::parse("d").unwrap(), INodeFlags::dir());
    assert_eq!(INodeFlags::parse("D").unwrap(), INodeFlags::data());
    assert_eq!(INodeFlags::parse("f").unwrap().bits, FILE);
    assert_eq!(INodeFlags::parse("d").unwrap().bits, DIR);
    for text in ["0", "f", "s", "d", "D"] {
        let flags = INodeFlags::parse(text).unwrap();
        assert_eq!(flags.bits.count_ones(), 1);
        assert_eq!(flags.letter().to_string(), text);
    }
}

#[test]
fn parse_refuses_everything_else() {
    for text in ["x", "", "ff", "f ", " f", "b", "F", "1", "0f", "\u{e9}"] {
        match INodeFlags::parse(text) {
            Err(Error::Parse) => {}
            _ => panic!("{:?} was read as an inode type", text),
        }
    }
    assert_eq!(INodeFlags::parse("x").unwrap_err().kind(), Failure::Parse);
}

#[test]
fn flags_have_one_bit_each() {
    assert_eq!(
        [FREE, FILE, DIR, LINK, PTR, DATA],
        [0b1000_0000, 0b0100_0000, 0b0010_0000, 0b0001_0000, 0b0000_1000, 0b0000_0100]
    );
    assert_eq!(INodeFlags::dir().bits, DIR);
    let both = INodeFlags { bits: FILE | DIR };
    assert!(both.contains(INodeFlags::file()));
    assert!(both.contains(INodeFlags::dir()));
    assert!(!both.contains(INodeFlags::free()));
    assert!(INodeFlags::free().contains(INodeFlags { bits: 0 }));
}

#[test]
fn letters_of_flags() {
    assert_eq!(INodeFlags::free().letter(), '0');
    assert_eq!(INodeFlags::file().letter(), 'f');
    assert_eq!(INodeFlags::dir().letter(), 'd');
    assert_eq!(INodeFlags::link().letter(), 's');
    assert_eq!(INodeFlags::ptr().letter(), 'b');
    assert_eq!(INodeFlags::data().letter(), 'D');
    assert_eq!(INodeFlags { bits: 0 }.letter(), '0');
    assert_eq!(INodeFlags { bits: 0b11 }.letter(), '0');
    assert_eq!(INodeFlags { bits: FILE | DATA }.letter(), 'f');
    assert_eq!(INodeFlags { bits: FREE | FILE }.letter(), '0');
}

#[test]
fn a_new_inode_is_free_and_empty() {
    let inode = INode::new(at(5, 6));
    assert_eq!(inode.cdate, at(5, 6));
    assert_eq!(inode.mdate, at(5, 6));
    assert_eq!(inode.flags, INodeFlags::free());
    assert_eq!(inode.perms.bits, 0);
    assert_eq!(inode.length, 0);
    assert_eq!(inode.level, 0);
    assert_eq!(inode.block_ptrs, [BlockNumber::new(0); 8]);
}

#[test]
fn the_table_hands_out_the_first_free_slot() {
    let mut map = INodeMap::with_time(3, at(1, 0));
    assert_eq!(map.len(), 3);
    assert_eq!(map.allocate_at(INodeFlags::file(), at(2, 0)), Some(0));
    assert_eq!(map.allocate_at(INodeFlags::dir(), at(3, 0)), Some(1));
    assert_eq!(map.get(0).flags, INodeFlags::file());
    assert_eq!(map.get(0).mdate, at(2, 0));
    assert_eq!(map.get(0).cdate, at(1, 0));
    assert_eq!(map.get(1).mdate, at(3, 0));
    assert_eq!(map.get(2).flags, INodeFlags::free());
    assert_eq!(map.get(2).mdate, at(1, 0));
    map.free(BlockNumber::new(0));
    assert_eq!(map.get(0).flags, INodeFlags::free());
    assert_eq!(map.get(0).mdate, at(2, 0));
    assert_eq!(map.allocate_at(INodeFlags::link(), at(4, 0)), Some(0));
    assert_eq!(map.allocate_at(INodeFlags::data(), at(4, 0)), Some(2));
    assert_eq!(map.allocate_at(INodeFlags::data(), at(5, 0)), None);
    assert_eq!(map.get(2).mdate, at(4, 0));
}

#[test]
fn a_slot_with_more_than_the_free_flag_is_not_free() {
    let mut map = INodeMap::with_time(2, at(1, 0));
    map.get_mut(0).flags = INodeFlags { bits: FREE | FILE };
    assert_eq!(map.allocate_at(INodeFlags::file(), at(2, 0)), Some(1));
    assert_eq!(map.allocate_at(INodeFlags::file(), at(2, 0)), None);
}

#[test]
fn the_table_with_the_clock() {
    let mut map = INodeMap::new(2);
    assert_eq!(map.len(), 2);
    assert_eq!(map.get(0).cdate, map.get(1).cdate);
    assert_eq!(map.get(0).flags, INodeFlags::free());
    assert!(map.get(0).cdate.nanos < 1_000_000_000);
    assert!(map.get(0).cdate.secs > 1_000_000_000);
    assert_eq!(map.allocate(INodeFlags::file()), Some(0));
    assert_eq!(map.get(0).flags, INodeFlags::file());
    assert!(map.get(0).mdate.secs >= map.get(0).cdate.secs);
    assert_eq!(map.allocate(INodeFlags::file()), Some(1));
    assert_eq!(map.allocate(INodeFlags::file()), None);
    assert_eq!(INodeMap::new(0).allocate(INodeFlags::file()), None);
}

#[test]
fn get_mut_changes_the_slot_in_place() {
    let mut map = INodeMap::with_time(2, at(1, 0));
    map.get_mut(1).length = 77;
    map.get_mut(1).level = 2;
    assert_eq!(map.get(1).length, 77);
    assert_eq!(map.get(1).level, 2);
    assert_eq!(map.get(0).length, 0);
}

#[test]
fn the_table_is_shown_with_one_letter_for_each_slot() {
    let mut map = INodeMap::with_time(10, at(1, 0));
    map.allocate_at(INodeFlags::file(), at(2, 0));
    map.allocate_at(INodeFlags::dir(), at(2, 0));
    map.allocate_at(INodeFlags::link(), at(2, 0));
    map.allocate_at(INodeFlags::ptr(), at(2, 0));
    map.allocate_at(INodeFlags::data(), at(2, 0));
    assert_eq!(map.render(), "fdsbD000|00\n");
    assert_eq!(INodeMap::with_time(0, at(1, 0)).render(), "");
}

#[test]
fn an_inode_is_stored_field_by_field() {
    let mut inode = INode::new(at(0x0102030405060708, 0x0a0b0c0d));
    inode.mdate = at(9, 10);
    inode.flags = INodeFlags::file();
    inode.perms.bits = 0x1234;
    inode.length = 3;
    inode.level = 1;
    inode.block_ptrs[0] = BlockNumber::new(12);
    inode.block_ptrs[7] = BlockNumber::new(0x1122334455667788);
    let block = inode.to_block(100).unwrap();
    let mut expected: Vec<u8> = Vec::new();
    expected.extend([8, 7, 6, 5, 4, 3, 2, 1, 0x0d, 0x0c, 0x0b, 0x0a]);
    expected.extend([9, 0, 0, 0, 0, 0, 0, 0, 10, 0, 0, 0]);
    expected.push(FILE);
    expected.extend([0x34, 0x12]);
    expected.extend([3, 0, 0, 0, 0, 0, 0, 0]);
    expected.push(1);
    expected.extend([12, 0, 0, 0, 0, 0, 0, 0]);
    expected.extend([0u8; 48]);
    expected.extend([0x88, 0x77, 0x66, 0x55, 0x44, 0x33, 0x22, 0x11]);
    assert_eq!(block, expected);
}

#[test]
fn an_inode_is_stored_as_the_time_of_the_system_is() {
    let inode = INode::new(at(1_525_132_800, 999_999_999));
    let block = inode.to_block(128).unwrap();
    let time = UNIX_EPOCH + Duration::new(1_525_132_800, 999_999_999);
    let stored = bincode::serialize(&time).unwrap();
    assert_eq!(stored.len(), 12);
    assert_eq!(&block[0..12], &stored[..]);
    assert_eq!(&block[12..24], &stored[..]);
    let fields = (time, time, FREE, 0u16, 0u64, 0u8, [0u64; 8]);
    assert_eq!(&block[..INODE_BYTES], &bincode::serialize(&fields).unwrap()[..]);
}

#[test]
fn a_stored_inode_reads_back() {
    let mut inode = INode::new(at(77, 5));
    inode.flags = INodeFlags::dir();
    inode.perms.bits = 7;
    inode.length = u64::MAX;
    inode.level = 255;
    for i in 0..8 {
        inode.block_ptrs[i] = BlockNumber::new(1000 + i as u64);
    }
    let mut block = inode.to_block(300).unwrap();
    block[299] = 0xee;
    let back = INode::from_block(&block).unwrap();
    assert_eq!(back.cdate, inode.cdate);
    assert_eq!(back.mdate, inode.mdate);
    assert_eq!(back.flags, inode.flags);
    assert_eq!(back.perms, inode.perms);
    assert_eq!(back.length, inode.length);
    assert_eq!(back.level, inode.level);
    assert_eq!(back.block_ptrs, inode.block_ptrs);
}

#[test]
fn an_inode_needs_a_block_of_its_size() {
    let inode = INode::new(at(1, 2));
    assert_eq!(inode.to_block(100).unwrap().len(), 100);
    assert!(matches!(inode.to_block(99), Err(Error::Bincode(_))));
    assert!(matches!(inode.to_block(0), Err(Error::Bincode(_))));
    assert!(matches!(INode::from_block(&vec![0u8; 99]), Err(Error::Bincode(_))));
    let zero = INode::from_block(&vec![0u8; 100]).unwrap();
    assert_eq!(zero.flags.bits, 0);
    assert_eq!(zero.cdate, at(0, 0));
    let err = INode::from_block(&vec![]).unwrap_err();
    assert_eq!(err.kind(), Failure::Bincode);
    assert!(err.message().starts_with("(de)serialization error: "));
}

#[test]
fn the_master_block_lays_out_the_device() {
    let master = MasterBlock::new(128, 16, 10);
    assert_eq!(master.block_map, BlockNumber::new(1));
    assert_eq!(master.inode_map, BlockNumber::new(2));
    assert_eq!(master.block_map_blocks(), 1);
    assert_eq!(master.flags, MasterBlockFlags::synced());
    let master = MasterBlock::new(128, 128 * 8 * 3 + 5, 10);
    assert_eq!(master.inode_map, BlockNumber::new(5));
    assert_eq!(master.block_map_blocks(), 4);
    let master = MasterBlock::new(128, 1023, 10);
    assert_eq!(master.inode_map.number, 2);
    let master = MasterBlock::new(128, 1024, 10);
    assert_eq!(master.inode_map.number, 3);
}

#[test]
fn the_master_block_is_stored_field_by_field() {
    let mut device = umbrella::device::BlockDevice::create("d", 16, Some(128)).unwrap();
    let master = MasterBlock::new(128, 16, 10);
    master.write(&mut device).unwrap();
    let image = device.into_image();
    let mut expected: Vec<u8> = Vec::new();
    expected.extend([128, 0]);
    expected.extend([16, 0, 0, 0, 0, 0, 0, 0]);
    expected.extend([10, 0]);
    expected.extend([1, 0, 0, 0, 0, 0, 0, 0]);
    expected.extend([2, 0, 0, 0, 0, 0, 0, 0]);
    expected.push(0x80);
    assert_eq!(expected.len(), MASTER_BLOCK_BYTES);
    assert_eq!(&image[..MASTER_BLOCK_BYTES], &expected[..]);
    assert!(image[MASTER_BLOCK_BYTES..].iter().all(|b| *b == 0));
    let fields = (128u16, 16u64, 10u16, 1u64, 2u64, 0x80u8);
    assert_eq!(expected, bincode::serialize(&fields).unwrap());
    let back = MasterBlock::read(&image[..128].to_vec()).unwrap();
    assert_eq!(back.block_size, 128);
    assert_eq!(back.block_count, 16);
    assert_eq!(back.inode_count, 10);
    assert_eq!(back.block_map, BlockNumber::new(1));
    assert_eq!(back.inode_map, BlockNumber::new(2));
    assert_eq!(back.flags.bits, SYNCED);
}

#[test]
fn the_master_block_needs_a_block_of_its_size() {
    assert!(matches!(MasterBlock::read(&vec![0u8; 28]), Err(Error::Bincode(_))));
    assert!(MasterBlock::read(&vec![0u8; 29]).is_ok());
    let mut device = umbrella::device::BlockDevice::create("d", 4, Some(28)).unwrap();
    let master = MasterBlock::new(28, 4, 0);
    assert!(matches!(master.write(&mut device), Err(Error::Bincode(_))));
    let mut device = umbrella::device::BlockDevice::create("d", 4, Some(64)).unwrap();
    match MasterBlock::new(32, 4, 0).write(&mut device) {
        Err(Error::Size(text)) => {
            assert_eq!(text, "read: buffer length [32] does not equal block_size [64]")
        }
        _ => panic!("a master block of another block size was stored"),
    }
    assert!(device.into_image().iter().all(|b| *b == 0));
}

#[test]
fn the_sync_status_is_one_bit() {
    let mut flags = MasterBlockFlags::empty();
    assert!(!flags.contains(MasterBlockFlags::synced()));
    flags.set(MasterBlockFlags::synced(), true);
    assert_eq!(flags.bits, 0x80);
    assert!(flags.contains(MasterBlockFlags::synced()));
    flags.set(MasterBlockFlags::synced(), false);
    assert_eq!(flags.bits, 0);
    let mut other = MasterBlockFlags { bits: 0x83 };
    other.set(MasterBlockFlags::synced(), false);
    assert_eq!(other.bits, 0x03);
    let mut device = umbrella::device::BlockDevice::create("d", 16, Some(128)).unwrap();
    let mut master = MasterBlock::new(128, 16, 10);
    master.write_sync_status(&mut device, false).unwrap();
    assert_eq!(master.flags.bits, 0);
    assert_eq!(device.data[28], 0);
    master.write_sync_status(&mut device, true).unwrap();
    assert_eq!(master.flags.bits, 0x80);
    assert_eq!(device.data[28], 0x80);
}
