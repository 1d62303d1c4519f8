use umbrella::block_number::BlockNumber;
use umbrella::device::{BlockDevice, DeviceConfig, DevicePath};
use umbrella::error::{Error, Failure};

#[test]
fn file_components_serialize() {
    let file = DeviceConfig::new("mydev").block_size(1024).file();
    assert_eq!(file, "mydev.1024.dev".to_string());
}

#[test]
fn file_components_deserialize() {
    let config = DeviceConfig::parse("mydev.1024.dev").unwrap();
    assert_eq!(config.path, "mydev".to_string());
    assert_eq!(config.block_size, 1024);
    assert_eq!(config.block_count, 0);
}

#[test]
fn block_device_serialize() {
    let block_dev = DevicePath { file: "mydev".to_string(), block_size: 1024 }.into_file_name();
    assert_eq!(block_dev, "mydev.1024.dev".to_string());
}

#[test]
fn block_device_deserialize() {
    let block_dev = DevicePath { file: "mydev".to_string(), block_size: 1024 };
    assert_eq!(DevicePath::new("mydev.1024.dev").unwrap(), block_dev);
}

#[test]
fn device_block_write_read() {
    let mut block_device = BlockDevice::create("mydev", 16, Some(128)).unwrap();
    let mut nums = (0..128).collect::<Vec<u8>>();
    let mut out = vec![0; 128];
    block_device.write(BlockNumber::new(1), &mut nums).unwrap();
    block_device.read(BlockNumber::new(1), &mut out).unwrap();
    assert_eq!(nums, out);
}

#[test]
fn device_name_forms_that_are_refused() {
    for name in [
        "",
        "mydev",
        "mydev.dev",
        "mydev..dev",
        "mydev.12a.dev",
        "mydev.128.de",
        "mydev.128.devx",
        "my.dev.128.dev",
        "mydev.65536.dev",
        "mydev.+12.dev",
        "mydev.128",
    ] {
        match DeviceConfig::parse(name) {
            Err(Error::Parse) => {}
            other => panic!("{:?} gave {:?}", name, other),
        }
    }
}

#[test]
fn device_name_edge_forms_that_parse() {
    let config = DeviceConfig::parse(".7.dev").unwrap();
    assert_eq!(config.path, "");
    assert_eq!(config.block_size, 7);
    let config = DeviceConfig::parse("d.00128.dev").unwrap();
    assert_eq!(config.block_size, 128);
    let config = DeviceConfig::parse("d.65535.dev").unwrap();
    assert_eq!(config.block_size, 65535);
    let config = DeviceConfig::parse("d\u{e9}v.0.dev").unwrap();
    assert_eq!(config.path, "d\u{e9}v");
    assert_eq!(config.block_size, 0);
}

#[test]
fn device_name_round_trip() {
    let config = DeviceConfig::new("disk").block_size(512).block_count(9);
    let parsed = DeviceConfig::parse(&config.file()).unwrap();
    assert_eq!(parsed.path, "disk");
    assert_eq!(parsed.block_size, 512);
}

#[test]
fn create_fills_the_device_with_zero_bytes() {
    let device = BlockDevice::create("mydev", 16, Some(128)).unwrap();
    assert_eq!(device.config.block_size, 128);
    assert_eq!(device.config.block_count, 16);
    assert_eq!(device.config.file(), "mydev.128.dev");
    assert_eq!(device.image_len(), 2048);
    assert!(device.into_image().iter().all(|b| *b == 0));
}

#[test]
fn create_uses_the_default_block_size() {
    let device = BlockDevice::create("mydev", 3, None).unwrap();
    assert_eq!(device.config.block_size, 1024);
    assert_eq!(device.image_len(), 3072);
}

#[test]
fn create_refuses_a_device_without_blocks() {
    match BlockDevice::create("mydev", 0, Some(128)) {
        Err(Error::Size(text)) => assert_eq!(text, "create: block_count [0] is less than 1"),
        _ => panic!("a device without blocks was made"),
    }
    match BlockDevice::create("mydev", 0, Some(0)) {
        Err(Error::Size(text)) => assert_eq!(text, "create: block_count [0] is less than 1"),
        _ => panic!("a device without blocks was made"),
    }
}

#[test]
fn create_refuses_empty_blocks() {
    match BlockDevice::create("mydev", 4, Some(0)) {
        Err(Error::Size(text)) => assert_eq!(text, "create: block_size [0] is less than 1"),
        _ => panic!("a device with empty blocks was made"),
    }
}

#[test]
fn open_takes_the_geometry_from_name_and_length() {
    let device = BlockDevice::open("mydev.128.dev", vec![7u8; 1000]).unwrap();
    assert_eq!(device.config.path, "mydev");
    assert_eq!(device.config.block_size, 128);
    assert_eq!(device.config.block_count, 7);
    assert_eq!(device.into_image(), vec![7u8; 1000]);
}

#[test]
fn open_refuses_other_names_and_empty_blocks() {
    assert!(matches!(BlockDevice::open("mydev", vec![0u8; 16]), Err(Error::Parse)));
    match BlockDevice::open("mydev.0.dev", vec![0u8; 16]) {
        Err(Error::Size(text)) => assert_eq!(text, "create: block_size [0] is less than 1"),
        _ => panic!("a device with empty blocks was opened"),
    }
}

#[test]
fn read_and_write_refuse_blocks_past_the_end() {
    let mut device = BlockDevice::create("mydev", 16, Some(128)).unwrap();
    let mut buf = vec![1u8; 128];
    match device.write(BlockNumber::new(16), &mut buf) {
        Err(Error::Size(text)) => assert_eq!(
            text,
            "create: block_count [16] is less than the requested block number [16]"
        ),
        _ => panic!("block 16 of 16 was written"),
    }
    let err = device.read(BlockNumber::new(99), &mut buf).unwrap_err();
    assert_eq!(err.kind(), Failure::Size);
    assert_eq!(
        err.message(),
        "create: block_count [16] is less than the requested block number [99]"
    );
    assert_eq!(buf, vec![1u8; 128]);
    assert!(device.into_image().iter().all(|b| *b == 0));
}

#[test]
fn read_and_write_refuse_buffers_of_another_length() {
    let mut device = BlockDevice::create("mydev", 16, Some(128)).unwrap();
    let mut short = vec![1u8; 127];
    match device.write(BlockNumber::new(0), &mut short) {
        Err(Error::Size(text)) => {
            assert_eq!(text, "read: buffer length [127] does not equal block_size [128]")
        }
        _ => panic!("a short buffer was written"),
    }
    let mut long = vec![1u8; 129];
    match device.read(BlockNumber::new(0), &mut long) {
        Err(Error::Size(text)) => {
            assert_eq!(text, "read: buffer length [129] does not equal block_size [128]")
        }
        _ => panic!("a long buffer was read into"),
    }
}

#[test]
fn write_changes_one_block_only() {
    let mut device = BlockDevice::create("mydev", 4, Some(128)).unwrap();
    let mut ones = vec![1u8; 128];
    let mut twos = vec![2u8; 128];
    device.write(BlockNumber::new(3), &mut ones).unwrap();
    device.write(BlockNumber::new(1), &mut twos).unwrap();
    let mut out = vec![9u8; 128];
    for (block, expected) in [(0u64, 0u8), (1, 2), (2, 0), (3, 1)] {
        device.read(BlockNumber::new(block), &mut out).unwrap();
        assert_eq!(out, vec![expected; 128]);
    }
    let image = device.into_image();
    assert_eq!(image.len(), 512);
    assert_eq!(&image[128..256], &twos[..]);
    assert_eq!(&image[384..512], &ones[..]);
}

#[test]
fn block_numbers_per_block_is_an_eighth_of_the_block_size() {
    let device = BlockDevice::create("mydev", 4, Some(128)).unwrap();
    assert_eq!(device.block_numbers_per_block(), 16);
    let device = BlockDevice::create("mydev", 4, Some(135)).unwrap();
    assert_eq!(device.block_numbers_per_block(), 16);
    let device = BlockDevice::create("mydev", 4, Some(7)).unwrap();
    assert_eq!(device.block_numbers_per_block(), 0);
}
