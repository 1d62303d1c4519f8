use umbrella::block_number::{BlockNumber, BlockOffset, Sequence};
use umbrella::cache::{from_u8, to_u8, Cache, CacheEntry};
use umbrella::device::BlockDevice;
use umbrella::error::{Error, Failure};
use umbrella::fs::{FileSystem, Mount, INODE_COUNT};
use umbrella::inode::{INodeFlags, Timestamp};
use umbrella::tree::{power, split_offset, within_reach};

fn formatted(count: u64, size: u16) -> FileSystem {
    let device = BlockDevice::create("foo", count, Some(size)).unwrap();
    FileSystem::format_at(device, Timestamp { secs: 100, nanos: 1 })
}

#[test]
fn as_u8() {
    let vec: Vec<u64> = vec![0, 1, 2u64.pow(20) - 1, 3];
    let numbers: Vec<BlockNumber> = vec.iter().map(|n| BlockNumber::new(*n)).collect();
    let bytes = from_u8(&to_u8(&numbers));
    assert_eq!(numbers, bytes);
    assert_eq!(vec, bytes.iter().map(|b| b.number).collect::<Vec<u64>>());
}

#[test]
fn block_numbers_are_stored_lowest_byte_first() {
    let numbers = vec![BlockNumber::new(1), BlockNumber::new(0x0102030405060708)];
    assert_eq!(to_u8(&numbers), vec![1, 0, 0, 0, 0, 0, 0, 0, 8, 7, 6, 5, 4, 3, 2, 1]);
    assert_eq!(to_u8(&vec![]), Vec::<u8>::new());
    let mut bytes = vec![0u8; 19];
    bytes[8] = 5;
    bytes[16] = 9;
    assert_eq!(from_u8(&bytes), vec![BlockNumber::new(0), BlockNumber::new(5)]);
    assert_eq!(from_u8(&vec![1, 2, 3]), Vec::<BlockNumber>::new());
}

#[test]
fn inode_alloc_read_simple() {
    let device = BlockDevice::create("foo", 128, Some(128)).unwrap();
    let mut fs = FileSystem::new(device);
    let zero = BlockOffset::new(0);
    let inode_num = fs.inode_map.allocate(INodeFlags::file()).unwrap();
    let alloced_block_num = fs.alloc_block_num_from_offset(inode_num, zero).unwrap();
    let stored_block_num = fs.lookup_block_num_from_offset(inode_num, zero).unwrap();
    assert_eq!(alloced_block_num, stored_block_num);
    assert_eq!(alloced_block_num, Some(BlockNumber::new(12)));
}

#[test]
fn inode_alloc_read_many() {
    let device = BlockDevice::create("foo", 128, Some(128)).unwrap();
    let mut fs = FileSystem::new(device);
    let inode_num = fs.inode_map.allocate(INodeFlags::file()).unwrap();
    let seq = Sequence::new(BlockOffset::zero(), 20);
    let mut alloced_block_nums = Vec::new();
    let mut run = seq;
    while let Some(i) = run.next() {
        alloced_block_nums.push(fs.alloc_block_num_from_offset(inode_num, i).unwrap());
    }
    let mut stored_block_nums = Vec::new();
    let mut run = seq;
    while let Some(i) = run.next() {
        stored_block_nums.push(fs.lookup_block_num_from_offset(inode_num, i).unwrap());
    }
    assert_eq!(alloced_block_nums, stored_block_nums);
    assert_eq!(alloced_block_nums.len(), 20);
    let expected: Vec<Option<BlockNumber>> = (0..20u64)
        .map(|i| match i {
            0..=7 => Some(BlockNumber::new(12 + i)),
            8..=15 => Some(BlockNumber::new(13 + i)),
            _ => None,
        })
        .collect();
    assert_eq!(alloced_block_nums, expected);
}

#[test]
fn formatting_marks_the_tables_as_used_and_every_inode_as_free() {
    let fs = formatted(16, 128);
    assert_eq!(fs.master_block.block_size, 128);
    assert_eq!(fs.master_block.block_count, 16);
    assert_eq!(fs.master_block.inode_count, INODE_COUNT);
    assert_eq!(fs.master_block.block_map.number, 1);
    assert_eq!(fs.master_block.inode_map.number, 2);
    assert_eq!(fs.block_map.len(), 16);
    for i in 0..16 {
        assert_eq!(fs.block_map.get(BlockNumber::new(i)), i < 12);
    }
    assert_eq!(fs.inode_map.len(), 10);
    for i in 0..10 {
        assert_eq!(fs.inode_map.get(i).flags, INodeFlags::free());
        assert_eq!(fs.inode_map.get(i).cdate, Timestamp { secs: 100, nanos: 1 });
    }
    assert_eq!(fs.block_map.render(), "11111111|11110000|\n");
    assert_eq!(fs.inode_map.render(), "00000000|00\n");
    assert!(fs.cache.entries.is_empty());
}

#[test]
fn formatting_a_large_device_sets_more_blocks_aside() {
    let fs = formatted(128 * 8 + 3, 128);
    assert_eq!(fs.master_block.inode_map.number, 3);
    for i in 0..20 {
        assert_eq!(fs.block_map.get(BlockNumber::new(i)), i < 13);
    }
}

#[test]
fn four_blocks_are_free_on_a_device_of_sixteen() {
    let device = BlockDevice::create("d", 16, Some(128)).unwrap();
    let closed = FileSystem::new(device).close().unwrap();
    let Mount { mut file_system, clean_mount } = FileSystem::read(closed).unwrap();
    assert!(clean_mount);
    let mut got = Vec::new();
    for _ in 0..4 {
        got.push(file_system.block_map.allocate().unwrap().number);
    }
    assert_eq!(got, vec![12, 13, 14, 15]);
    match file_system.block_map.allocate() {
        Err(Error::Size(text)) => assert_eq!(text, "out of blocks"),
        _ => panic!("a fifth block was handed out"),
    }
    file_system.block_map.free(BlockNumber::new(12));
    assert_eq!(file_system.block_map.allocate().unwrap().number, 12);
}

#[test]
fn unmounting_stores_master_block_map_and_inodes() {
    let mut fs = formatted(16, 128);
    fs.inode_map.allocate_at(INodeFlags::file(), Timestamp { secs: 200, nanos: 2 });
    fs.block_map.allocate().unwrap();
    let device = fs.close().unwrap();
    assert_eq!(device.config.block_count, 16);
    let image = device.into_image();
    assert_eq!(image.len(), 2048);
    assert_eq!(&image[0..2], &[128, 0]);
    assert_eq!(image[28], 0x80);
    assert_eq!(&image[128..130], &[0xff, 0xf8]);
    assert!(image[130..256].iter().all(|b| *b == 0));
    assert_eq!(&image[256..264], &[100, 0, 0, 0, 0, 0, 0, 0]);
    assert_eq!(&image[268..276], &[200, 0, 0, 0, 0, 0, 0, 0]);
    assert_eq!(image[256 + 24], 0b0100_0000);
    assert_eq!(image[384 + 24], 0b1000_0000);
    assert_eq!(image[11 * 128 + 24], 0b1000_0000);
    assert!(image[12 * 128..].iter().all(|b| *b == 0));
}

#[test]
fn mounting_what_was_unmounted_gives_the_same_file_system() {
    let mut fs = formatted(300, 128);
    let inode = fs.inode_map.allocate_at(INodeFlags::file(), Timestamp { secs: 7, nanos: 8 });
    let inode = inode.unwrap();
    for offset in 0..12 {
        fs.alloc_block_num_from_offset(inode, BlockOffset::new(offset)).unwrap();
    }
    fs.block_map.free(BlockNumber::new(200));
    let bits: Vec<bool> = (0..300).map(|i| fs.block_map.get(BlockNumber::new(i))).collect();
    let length = fs.inode_map.get(inode).length;
    let ptrs = fs.inode_map.get(inode).block_ptrs;
    assert_eq!(length, 12);
    let device = fs.close().unwrap();
    let Mount { mut file_system, clean_mount } = FileSystem::read(device).unwrap();
    assert!(clean_mount);
    assert!(!file_system.master_block.flags.contains(
        umbrella::master_block::MasterBlockFlags::synced()
    ));
    assert_eq!(file_system.block_map.len(), 300);
    for i in 0..300 {
        assert_eq!(file_system.block_map.get(BlockNumber::new(i)), bits[i as usize]);
    }
    let back = file_system.inode_map.get(inode);
    assert_eq!(back.flags, INodeFlags::file());
    assert_eq!(back.cdate, Timestamp { secs: 100, nanos: 1 });
    assert_eq!(back.mdate, Timestamp { secs: 7, nanos: 8 });
    assert_eq!(back.length, 12);
    assert_eq!(back.level, 1);
    assert_eq!(back.block_ptrs, ptrs);
    assert_eq!(file_system.inode_map.get(1).flags, INodeFlags::free());
    for offset in 0..8u64 {
        assert_eq!(
            file_system.lookup_block_num_from_offset(inode, BlockOffset::new(offset)).unwrap(),
            Some(BlockNumber::new(12 + offset))
        );
    }
    for offset in 8..12u64 {
        assert_eq!(
            file_system.lookup_block_num_from_offset(inode, BlockOffset::new(offset)).unwrap(),
            Some(BlockNumber::new(13 + offset))
        );
    }
    assert_eq!(
        file_system.lookup_block_num_from_offset(inode, BlockOffset::new(12)).unwrap(),
        None
    );
}

#[test]
fn a_session_without_unmount_mounts_as_unclean() {
    let device = BlockDevice::create("d", 16, Some(128)).unwrap();
    let closed = FileSystem::new(device).close().unwrap();
    let Mount { file_system, clean_mount } = FileSystem::read(closed).unwrap();
    assert!(clean_mount);
    let left = BlockDevice::open("d.128.dev", file_system.cache.device.data.clone()).unwrap();
    let Mount { mut file_system, clean_mount } = FileSystem::read(left).unwrap();
    assert!(!clean_mount);
    file_system.block_map.allocate().unwrap();
    file_system.write().unwrap();
    let left = BlockDevice::open("d.128.dev", file_system.cache.device.data.clone()).unwrap();
    let Mount { file_system, clean_mount } = FileSystem::read(left).unwrap();
    assert!(!clean_mount);
    assert!(file_system.block_map.get(BlockNumber::new(12)));
    let closed = file_system.close().unwrap();
    assert!(FileSystem::read(closed).unwrap().clean_mount);
}

#[test]
fn mounting_refuses_what_is_no_file_system() {
    let blank = BlockDevice::create("d", 16, Some(128)).unwrap();
    match FileSystem::read(blank) {
        Err(Error::Size(text)) => assert_eq!(text, "master block does not match the device"),
        _ => panic!("a blank device was mounted"),
    }
    let tiny = BlockDevice::create("d", 16, Some(28)).unwrap();
    assert!(matches!(FileSystem::read(tiny), Err(Error::Bincode(_))));
    let empty = BlockDevice::open("d.128.dev", vec![0u8; 100]).unwrap();
    match FileSystem::read(empty) {
        Err(Error::Size(text)) => assert_eq!(
            text,
            "create: block_count [0] is less than the requested block number [0]"
        ),
        _ => panic!("a device without blocks was mounted"),
    }
    let device = BlockDevice::create("d", 16, Some(128)).unwrap();
    let mut image = FileSystem::new(device).close().unwrap().into_image();
    image.extend(vec![0u8; 128]);
    let longer = BlockDevice::open("d.128.dev", image.clone()).unwrap();
    assert_eq!(FileSystem::read(longer).unwrap_err().kind(), Failure::Size);
    image.truncate(2048);
    image[20] = 3;
    let moved = BlockDevice::open("d.128.dev", image.clone()).unwrap();
    assert_eq!(FileSystem::read(moved).unwrap_err().kind(), Failure::Size);
    image[20] = 2;
    image[10] = 15;
    let crowded = BlockDevice::open("d.128.dev", image.clone()).unwrap();
    assert_eq!(FileSystem::read(crowded).unwrap_err().kind(), Failure::Size);
    image[10] = 14;
    let full = BlockDevice::open("d.128.dev", image).unwrap();
    assert_eq!(FileSystem::read(full).unwrap().file_system.inode_map.len(), 14);
}

#[test]
fn the_tree_grows_by_one_level_beyond_the_direct_slots() {
    let mut fs = formatted(128, 128);
    let inode = fs.inode_map.allocate(INodeFlags::file()).unwrap();
    let first = fs.alloc_block_num_from_offset(inode, BlockOffset::new(0)).unwrap();
    assert_eq!(first, Some(BlockNumber::new(12)));
    assert_eq!(fs.lookup_block_num_from_offset(inode, BlockOffset::new(0)).unwrap(), first);
    assert_eq!(fs.inode_map.get(inode).level, 0);
    assert_eq!(fs.inode_map.get(inode).length, 1);
    let ninth = fs.alloc_block_num_from_offset(inode, BlockOffset::new(8)).unwrap();
    assert_eq!(ninth, Some(BlockNumber::new(14)));
    assert_eq!(fs.inode_map.get(inode).level, 1);
    assert_eq!(fs.inode_map.get(inode).length, 2);
    assert_eq!(fs.inode_map.get(inode).block_ptrs[0], BlockNumber::new(13));
    for slot in 1..8 {
        assert_eq!(fs.inode_map.get(inode).block_ptrs[slot], BlockNumber::new(0));
    }
    match fs.cache.entries.get(&13) {
        Some(CacheEntry::Pointers { pointers }) => {
            assert_eq!(pointers.len(), 16);
            assert_eq!(pointers[0], BlockNumber::new(12));
            assert_eq!(pointers[8], BlockNumber::new(14));
            assert_eq!(pointers.iter().filter(|p| p.number != 0).count(), 2);
        }
        _ => panic!("the block of pointers is not in the cache"),
    }
    assert_eq!(fs.lookup_block_num_from_offset(inode, BlockOffset::new(0)).unwrap(), first);
    assert_eq!(fs.lookup_block_num_from_offset(inode, BlockOffset::new(8)).unwrap(), ninth);
    assert_eq!(fs.lookup_block_num_from_offset(inode, BlockOffset::new(9)).unwrap(), None);
    assert_eq!(fs.lookup_block_num_from_offset(inode, BlockOffset::new(16)).unwrap(), None);
    assert_eq!(fs.alloc_block_num_from_offset(inode, BlockOffset::new(16)).unwrap(), None);
    assert_eq!(fs.inode_map.get(inode).length, 3);
    assert_eq!(fs.inode_map.get(inode).level, 1);
    assert_eq!(
        fs.alloc_block_num_from_offset(inode, BlockOffset::new(8)).unwrap(),
        Some(BlockNumber::new(14))
    );
    assert_eq!(fs.inode_map.get(inode).length, 4);
}

#[test]
fn offsets_out_of_reach_overflow() {
    let mut fs = formatted(128, 128);
    let inode = fs.inode_map.allocate(INodeFlags::file()).unwrap();
    let err = fs.lookup_block_num_from_offset(inode, BlockOffset::new(8)).unwrap_err();
    assert_eq!(err.kind(), Failure::Overflow);
    assert!(matches!(
        fs.lookup_block_num_from_offset(inode, BlockOffset::new(u64::MAX)),
        Err(Error::Overflow)
    ));
    let err = fs.alloc_block_num_from_offset(inode, BlockOffset::new(128)).unwrap_err();
    assert_eq!(err.kind(), Failure::Overflow);
    assert_eq!(fs.inode_map.get(inode).level, 1);
    assert_eq!(fs.inode_map.get(inode).length, 0);
    assert_eq!(fs.inode_map.get(inode).block_ptrs[0], BlockNumber::new(12));
    assert!(fs.block_map.get(BlockNumber::new(12)));
    assert!(!fs.block_map.get(BlockNumber::new(13)));
    assert_eq!(
        fs.lookup_block_num_from_offset(inode, BlockOffset::new(128)).unwrap_err().kind(),
        Failure::Overflow
    );
    assert_eq!(fs.lookup_block_num_from_offset(inode, BlockOffset::new(127)).unwrap(), None);
}

#[test]
fn allocation_fails_on_a_full_device() {
    let mut fs = formatted(14, 128);
    let inode = fs.inode_map.allocate(INodeFlags::file()).unwrap();
    assert_eq!(
        fs.alloc_block_num_from_offset(inode, BlockOffset::new(0)).unwrap(),
        Some(BlockNumber::new(12))
    );
    assert_eq!(
        fs.alloc_block_num_from_offset(inode, BlockOffset::new(1)).unwrap(),
        Some(BlockNumber::new(13))
    );
    match fs.alloc_block_num_from_offset(inode, BlockOffset::new(2)) {
        Err(Error::Size(text)) => assert_eq!(text, "out of blocks"),
        _ => panic!("a full device handed out a block"),
    }
    assert_eq!(fs.inode_map.get(inode).length, 2);
    assert_eq!(fs.lookup_block_num_from_offset(inode, BlockOffset::new(2)).unwrap(), None);
    match fs.alloc_block_num_from_offset(inode, BlockOffset::new(8)) {
        Err(Error::Size(text)) => assert_eq!(text, "out of blocks"),
        _ => panic!("a full device let the tree grow"),
    }
    assert_eq!(fs.inode_map.get(inode).level, 0);
}

#[test]
fn blocks_of_pointers_are_written_back_and_found_again() {
    let mut fs = formatted(64, 128);
    let inode = fs.inode_map.allocate(INodeFlags::file()).unwrap();
    for offset in 0..10 {
        fs.alloc_block_num_from_offset(inode, BlockOffset::new(offset)).unwrap();
    }
    fs.write().unwrap();
    let image = fs.cache.device.data.clone();
    let block = &image[20 * 128..21 * 128];
    let mut expected = vec![0u8; 128];
    for (slot, number) in [12u8, 13, 14, 15, 16, 17, 18, 19, 21, 22].iter().enumerate() {
        expected[slot * 8] = *number;
    }
    assert_eq!(block, &expected[..]);
    let device = fs.close().unwrap();
    let mut fs = FileSystem::read(device).unwrap().file_system;
    assert_eq!(
        fs.lookup_block_num_from_offset(inode, BlockOffset::new(9)).unwrap(),
        Some(BlockNumber::new(22))
    );
    assert!(matches!(fs.cache.entries.get(&20), Some(CacheEntry::Pointers { .. })));
    assert!(matches!(fs.cache.read(BlockNumber::new(20)), Err(Error::CacheInvalid)));
}

#[test]
fn the_cache_reads_through_and_keeps_the_form_of_a_block() {
    let mut device = BlockDevice::create("d", 4, Some(16)).unwrap();
    let mut block: Vec<u8> = (1..=16).collect();
    device.write(BlockNumber::new(2), &mut block).unwrap();
    let mut cache = Cache::new(device);
    assert_eq!(cache.read(BlockNumber::new(2)).unwrap(), block);
    assert_eq!(cache.read(BlockNumber::new(2)).unwrap(), block);
    assert_eq!(cache.read_pointers(BlockNumber::new(2)).unwrap_err().kind(), Failure::CacheInvalid);
    let pointers = cache.read_pointers(BlockNumber::new(3)).unwrap();
    assert_eq!(pointers, vec![BlockNumber::new(0), BlockNumber::new(0)]);
    assert_eq!(cache.read(BlockNumber::new(3)).unwrap_err().kind(), Failure::CacheInvalid);
    assert_eq!(cache.read(BlockNumber::new(4)).unwrap_err().kind(), Failure::Size);
    assert_eq!(cache.read_pointers(BlockNumber::new(9)).unwrap_err().kind(), Failure::Size);
    assert_eq!(cache.entries.len(), 2);
    cache.write_pointers(BlockNumber::new(2), vec![BlockNumber::new(7), BlockNumber::new(8)]);
    assert_eq!(
        cache.read_pointers(BlockNumber::new(2)).unwrap(),
        vec![BlockNumber::new(7), BlockNumber::new(8)]
    );
    cache.write_pointers(BlockNumber::new(0), vec![BlockNumber::new(0x0101), BlockNumber::new(3)]);
    cache.flush().unwrap();
    let image = cache.device.data.clone();
    assert_eq!(&image[0..16], &[1, 1, 0, 0, 0, 0, 0, 0, 3, 0, 0, 0, 0, 0, 0, 0]);
    assert_eq!(&image[16..32], &[0u8; 16]);
    assert_eq!(&image[32..48], &[7, 0, 0, 0, 0, 0, 0, 0, 8, 0, 0, 0, 0, 0, 0, 0]);
    assert_eq!(&image[48..64], &[0u8; 16]);
    assert_eq!(cache.entries.len(), 3);
}

#[test]
fn a_flush_fails_on_an_entry_that_the_device_refuses() {
    let device = BlockDevice::create("d", 4, Some(16)).unwrap();
    let mut cache = Cache::new(device);
    cache.write_pointers(BlockNumber::new(1), vec![BlockNumber::new(7)]);
    assert_eq!(cache.flush().unwrap_err().kind(), Failure::Size);
    let device = BlockDevice::create("d", 4, Some(16)).unwrap();
    let mut cache = Cache::new(device);
    cache.write_pointers(BlockNumber::new(4), vec![BlockNumber::new(7), BlockNumber::new(8)]);
    assert_eq!(cache.flush().unwrap_err().kind(), Failure::Size);
    let mut fs = formatted(16, 128);
    fs.cache.write_pointers(BlockNumber::new(3), vec![BlockNumber::new(1)]);
    assert_eq!(fs.write().unwrap_err().kind(), Failure::Size);
    assert_eq!(fs.close().unwrap_err().kind(), Failure::Size);
}

#[test]
fn entries_give_their_bytes() {
    let block = CacheEntry::Block { block: vec![1, 2, 3] };
    assert_eq!(block.bytes(), vec![1, 2, 3]);
    let pointers = CacheEntry::Pointers { pointers: vec![BlockNumber::new(258)] };
    assert_eq!(pointers.bytes(), vec![2, 1, 0, 0, 0, 0, 0, 0]);
}

#[test]
fn powers_and_offsets() {
    assert_eq!(power(16, 0), Some(1));
    assert_eq!(power(16, 2), Some(256));
    assert_eq!(power(16, 15), Some(1 << 60));
    assert_eq!(power(16, 16), None);
    assert_eq!(power(2, 63), Some(1 << 63));
    assert_eq!(power(2, 64), None);
    assert_eq!(power(1, 255), Some(1));
    assert_eq!(power(0, 0), Some(1));
    assert_eq!(power(0, 9), Some(0));
    assert_eq!(power(u64::MAX, 1), Some(u64::MAX));
    assert_eq!(power(u64::MAX, 2), None);
    assert_eq!(split_offset(37, 1, 16), (2, 5));
    assert_eq!(split_offset(37, 0, 16), (37, 0));
    assert_eq!(split_offset(600, 2, 16), (2, 88));
    assert_eq!(split_offset(u64::MAX, 16, 16), (0, u64::MAX));
    assert_eq!(split_offset(u64::MAX, 15, 16), (15, (1 << 60) - 1));
    assert!(within_reach(7, 8, 0, 16));
    assert!(!within_reach(8, 8, 0, 16));
    assert!(within_reach(127, 8, 1, 16));
    assert!(!within_reach(128, 8, 1, 16));
    assert!(within_reach(u64::MAX, 8, 16, 16));
    assert!(within_reach(u64::MAX, 16, 15, 16));
    assert!(!within_reach(u64::MAX, 15, 15, 16));
    assert!(!within_reach(0, 0, 3, 16));
}

#[test]
fn block_numbers_per_level_are_powers_of_the_fanout() {
    let device = BlockDevice::create("d", 4, Some(128)).unwrap();
    assert_eq!(device.block_numbers_per_level(0), Some(1));
    assert_eq!(device.block_numbers_per_level(1), Some(16));
    assert_eq!(device.block_numbers_per_level(3), Some(4096));
    assert_eq!(device.block_numbers_per_level(15), Some(1 << 60));
    assert_eq!(device.block_numbers_per_level(16), None);
    assert_eq!(device.block_numbers_per_level(255), None);
    let narrow = BlockDevice::create("d", 4, Some(8)).unwrap();
    assert_eq!(narrow.block_numbers_per_level(255), Some(1));
    let tiny = BlockDevice::create("d", 4, Some(7)).unwrap();
    assert_eq!(tiny.block_numbers_per_level(0), Some(1));
    assert_eq!(tiny.block_numbers_per_level(2), Some(0));
}

#[test]
fn errors_say_what_went_wrong() {
    assert_eq!(Error::Parse.message(), "Parse error");
    assert_eq!(Error::Size("too small".to_string()).message(), "too small");
    assert_eq!(Error::Overflow.kind(), Failure::Overflow);
    assert_eq!(Error::CacheInvalid.kind(), Failure::CacheInvalid);
    assert_eq!(Error::Parse.kind(), Failure::Parse);
    assert!(!Error::Overflow.message().is_empty());
    assert!(!Error::CacheInvalid.message().is_empty());
}

#[test]
fn a_lookup_past_the_device_is_refused_by_the_device() {
    let mut fs = formatted(128, 128);
    let inode = fs.inode_map.allocate(INodeFlags::file()).unwrap();
    fs.inode_map.get_mut(inode).level = 1;
    fs.inode_map.get_mut(inode).block_ptrs[2] = BlockNumber::new(500);
    match fs.lookup_block_num_from_offset(inode, BlockOffset::new(33)) {
        Err(Error::Size(text)) => assert_eq!(
            text,
            "create: block_count [128] is less than the requested block number [500]"
        ),
        _ => panic!("a block past the end of the device was read"),
    }
    assert_eq!(
        fs.alloc_block_num_from_offset(inode, BlockOffset::new(33)).unwrap_err().message(),
        "create: block_count [128] is less than the requested block number [500]"
    );
    assert_eq!(fs.lookup_block_num_from_offset(inode, BlockOffset::new(0)).unwrap(), None);
    assert!(fs.cache.entries.is_empty());
}

#[test]
fn later_allocations_keep_what_earlier_ones_returned() {
    let mut fs = formatted(200, 128);
    let one = fs.inode_map.allocate(INodeFlags::file()).unwrap();
    let two = fs.inode_map.allocate(INodeFlags::file()).unwrap();
    let mut settled: Vec<(usize, u64, BlockNumber)> = Vec::new();
    for (inode, offset) in [
        (one, 3u64),
        (two, 0),
        (one, 0),
        (two, 9),
        (one, 15),
        (one, 8),
        (two, 1),
        (one, 128),
        (two, 140),
        (one, 7),
        (one, 3),
    ] {
        let got = fs.alloc_block_num_from_offset(inode, BlockOffset::new(offset)).unwrap();
        if let Some(block) = got {
            assert_ne!(block.number, 0);
            if !settled.contains(&(inode, offset, block)) {
                assert!(settled.iter().all(|(_, _, other)| *other != block));
                settled.push((inode, offset, block));
            }
        }
        for (inode, offset, block) in settled.iter() {
            assert_eq!(
                fs.lookup_block_num_from_offset(*inode, BlockOffset::new(*offset)).unwrap(),
                Some(*block)
            );
        }
    }
    assert_eq!(settled.len(), 8);
    assert_eq!(fs.inode_map.get(one).level, 2);
    assert_eq!(fs.inode_map.get(two).level, 2);
    let device = fs.close().unwrap();
    let mut fs = FileSystem::read(device).unwrap().file_system;
    for (inode, offset, block) in settled.iter() {
        assert_eq!(
            fs.lookup_block_num_from_offset(*inode, BlockOffset::new(*offset)).unwrap(),
            Some(*block)
        );
    }
}
