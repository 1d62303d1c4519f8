use umbrella::args::{Args, ArgsError, Argument, Kind, Optional, Parsed, ParsedArgument, Parser, Type};
use umbrella::block_number::BlockNumber;
use umbrella::device::BlockDevice;
use umbrella::error::Error;
use umbrella::expr::{esc, parse, Arg, Expr, Operator, Process, Program, Side};
use umbrella::inode::Timestamp;
use umbrella::session::{new_fs, new_fs_at, Session};

fn args(words: &[&str]) -> Args {
    Args::new(words.iter().map(|w| w.to_string()).collect())
}

fn other(name: &str, words: &[&str]) -> Process {
    Process { name: Program::Other(name.to_string()), args: args(words) }
}

fn total_to(s: &str, correct: Expr) {
    assert_eq!(parse(s).unwrap(), correct);
}

#[test]
fn mod_esc() {
    assert_eq!(esc("foobar").unwrap(), "foobar".to_string());
    assert_eq!(esc("foobar ").unwrap(), "foobar".to_string());
    assert_eq!(esc("foo\\ bar ").unwrap(), "foo bar".to_string());
}

#[test]
fn expr_esc() {
    assert_eq!(esc("foobar").unwrap(), "foobar".to_string());
    assert_eq!(esc("foobar ").unwrap(), "foobar".to_string());
    assert_eq!(esc("foo\\ bar ").unwrap(), "foo bar".to_string());
}

#[test]
fn mod_command() {
    let cd = Expr::Base(Process { name: Program::Cd, args: Args::empty() });
    total_to("cd", cd);
    let ping = Expr::Base(Process { name: Program::Other("ping".to_string()), args: Args::empty() });
    total_to("ping", ping);
    let args = Args { vec: vec!["-t".to_string(), "5".to_string()] };
    let ping_args = Expr::Base(Process { name: Program::Other("ping".to_string()), args });
    total_to("ping -t 5", ping_args);
}

#[test]
fn expr_command() {
    let cd = Expr::Base(Process { name: Program::Cd, args: Args { vec: vec![] } });
    total_to("cd", cd);
    let cd = Expr::Base(Process { name: Program::Cd, args: Args { vec: vec![] } });
    total_to("cd ", cd);
    let ping = Expr::Base(Process { name: Program::Other("ping".to_string()), args: Args::empty() });
    total_to("ping", ping);
    let ping = Expr::Base(Process { name: Program::Other("ping".to_string()), args: Args::empty() });
    total_to("ping ", ping);
    let ping_args = Expr::Base(Process {
        name: Program::Other("ping".to_string()),
        args: Args { vec: vec!["-t".to_string(), "5".to_string()] },
    });
    total_to("ping -t 5", ping_args);
}

#[test]
fn mod_total() {
    let args = Args {
        vec: vec!["-t".to_string(), "f".to_string(), "--name".to_string(), "result".to_string()],
    };
    let find = Process { name: Program::Other("find".to_string()), args };
    let cat = Process { name: Program::Other("cat".to_string()), args: Args::empty() };
    let comm = Expr::Sequence { left: find, op: Operator::Pipe, right: Box::new(Expr::Base(cat)) };
    let res = Expr::Redirect { expr: Box::new(comm), file: "file.txt".to_string() };
    total_to("find -t f --name result | cat > file.txt", res);
}

#[test]
fn expr_total() {
    let find = other("find", &["-t", "f", "--name", "result"]);
    let cat = other("cat", &[]);
    let comm = Expr::Sequence { left: find, op: Operator::Pipe, right: Box::new(Expr::Base(cat)) };
    let res = Expr::Redirect { expr: Box::new(comm), file: "file.txt".to_string() };
    total_to("find -t f --name result | cat > file.txt", res);
}

#[test]
fn the_commands_of_the_shell_are_read_by_name() {
    for (text, program) in [
        ("cd", Program::Cd),
        ("newfs", Program::NewFS),
        ("mount", Program::Mount),
        ("blockmap", Program::BlockMap),
        ("alloc_block", Program::AllocBlock),
        ("free_block", Program::FreeBlock),
        ("inode_map", Program::INodeMap),
        ("alloc_inode", Program::AllocINode),
        ("free_inode", Program::FreeINode),
        ("unmount", Program::Unmount),
        ("exit", Program::Exit),
    ] {
        assert_eq!(program.name(), text);
        total_to(text, Expr::Base(Process { name: program, args: Args::empty() }));
    }
    total_to(
        "newfs mydev 16 128",
        Expr::Base(Process { name: Program::NewFS, args: args(&["mydev", "16", "128"]) }),
    );
    total_to(
        "cdrom x",
        Expr::Base(Process { name: Program::Cd, args: args(&["rom", "x"]) }),
    );
    total_to("c", Expr::Base(other("c", &[])));
    total_to("alloc_", Expr::Base(other("alloc_", &[])));
}

#[test]
fn operators_join_commands_from_the_left() {
    let chain = Expr::Sequence {
        left: other("a", &["1"]),
        op: Operator::And,
        right: Box::new(Expr::Sequence {
            left: other("b", &[]),
            op: Operator::Or,
            right: Box::new(Expr::Sequence {
                left: other("c", &["2", "3"]),
                op: Operator::Pipe,
                right: Box::new(Expr::Base(other("d", &[]))),
            }),
        }),
    };
    total_to("a 1 && b||c 2 3 |d", chain);
    total_to(
        "a |",
        Expr::Sequence {
            left: other("a", &[]),
            op: Operator::Pipe,
            right: Box::new(Expr::Base(other("", &[]))),
        },
    );
    total_to("a & b", Expr::Base(other("a", &[])));
    total_to(
        "a ||| b",
        Expr::Sequence {
            left: other("a", &[]),
            op: Operator::Or,
            right: Box::new(Expr::Sequence {
                left: other("", &[]),
                op: Operator::Pipe,
                right: Box::new(Expr::Base(other("b", &[]))),
            }),
        },
    );
}

#[test]
fn what_cannot_be_read_is_left_over() {
    total_to("", Expr::Base(other("", &[])));
    total_to("   ", Expr::Base(other("", &[])));
    total_to("\"quoted\"", Expr::Base(other("", &[])));
    total_to("cat > ", Expr::Redirect {
        expr: Box::new(Expr::Base(other("cat", &[]))),
        file: "".to_string(),
    });
    total_to("cat > | x", Expr::Base(other("cat", &[])));
    total_to("cat > a b c", Expr::Redirect {
        expr: Box::new(Expr::Base(other("cat", &[]))),
        file: "a".to_string(),
    });
    total_to("cat x\\", Expr::Base(other("cat", &[])));
    total_to("cat x\\y z", Expr::Base(other("cat", &[])));
    total_to("cat a b\\", Expr::Base(other("cat", &["a"])));
    total_to("cat a\tb \t c\n", Expr::Base(other("cat", &["a", "b", "c"])));
    total_to("cat\\ x", Expr::Base(other("cat", &[" x"])));
    total_to("\u{e9}t\u{e9} \u{fc}", Expr::Base(other("\u{e9}t\u{e9}", &["\u{fc}"])));
}

#[test]
fn escapes_keep_the_character_behind_the_backslash() {
    assert_eq!(esc("a\\|b\\>c\\\\d\\\"e\\\tf\\\ng\\\rh").unwrap(), "a|b>c\\d\"e\tf\ng\rh");
    assert_eq!(esc("").unwrap(), "");
    assert_eq!(esc("\\ ").unwrap(), " ");
    assert_eq!(esc("ab|cd").unwrap(), "ab");
    assert!(matches!(esc(" x"), Err(Error::Parse)));
    assert!(matches!(esc("|x"), Err(Error::Parse)));
    assert!(matches!(esc("&"), Err(Error::Parse)));
    assert!(matches!(esc("x\\"), Err(Error::Parse)));
    assert!(matches!(esc("\\"), Err(Error::Parse)));
    assert!(matches!(esc("x\\&"), Err(Error::Parse)));
    assert!(matches!(esc("x\\y"), Err(Error::Parse)));
    assert_eq!(esc("x&y").unwrap(), "x");
}

#[test]
fn command_lines_are_shown_with_single_blanks() {
    assert_eq!(parse("cd").unwrap().render(), "cd ");
    assert_eq!(parse("ping  -t   5").unwrap().render(), "ping -t 5");
    assert_eq!(
        parse("find -t f --name result|cat>file.txt").unwrap().render(),
        "find -t f --name result | cat  > file.txt"
    );
    assert_eq!(parse("a&&b").unwrap().render(), "a  && b ");
    assert_eq!(parse("a||b x").unwrap().render(), "a  || b x");
    assert_eq!(Operator::Pipe.render(), "|");
    assert_eq!(args(&["a", "b c", ""]).render(), "a b c ");
    assert_eq!(Args::empty().render(), "");
}

#[test]
fn no_places_take_no_arguments() {
    let parsed = Args::empty().parse(Parser::new(vec![])).unwrap();
    assert_eq!(parsed, Parsed { types: vec![] });
}

#[test]
fn no_places_give_nothing_read() {
    let vec: Vec<String> = vec![];
    let parsed = Args::new(vec).parse(Parser::new(vec![])).unwrap();
    assert_eq!(parsed.types.len(), 0);
}

fn many() -> Parser {
    Parser::new(vec![
        Argument::string(),
        Argument::number(),
        Argument::Optional(Kind::Nat),
        Argument::string(),
    ])
}

#[test]
fn places_are_matched_in_order() {
    let vec = vec!["foobar".to_string(), "2".to_string(), "not-a-number".to_string()];
    let parsed = Args::new(vec).parse(many()).unwrap();
    assert_eq!(
        parsed,
        Parsed {
            types: vec![
                ParsedArgument::Required(Type::String("foobar".to_string())),
                ParsedArgument::Required(Type::Nat(2)),
                ParsedArgument::Optional(Optional { option: None }),
                ParsedArgument::Required(Type::String("not-a-number".to_string())),
            ]
        }
    );
}

#[test]
fn read_arguments_are_taken_by_place() {
    let parsed = args(&["foobar", "2", "not-a-number"]).parse(many()).unwrap();
    assert_eq!(parsed.at(0).string(), "foobar");
    assert_eq!(parsed.at(1).number(), 2);
    assert_eq!(parsed.optional(2).number(), None);
    assert_eq!(parsed.at(3).string(), "not-a-number");
}

#[test]
fn optional_arguments_take_what_fits() {
    let parsed = args(&["foobar", "2", "7", "x"]).parse(many()).unwrap();
    assert_eq!(parsed.optional(2).number(), Some(7));
    assert_eq!(parsed.at(3).string(), "x");
    let parser = Parser::new(vec![Argument::string(), Argument::Optional(Kind::Nat)]);
    let parsed = args(&["d"]).parse(parser).unwrap();
    assert_eq!(parsed.optional(1), Optional { option: None });
    let parser = Parser::new(vec![Argument::Optional(Kind::String), Argument::Optional(Kind::Nat)]);
    let parsed = args(&["5", "6", "left over"]).parse(parser).unwrap();
    assert_eq!(parsed.optional(0).option, Some(Type::String("5".to_string())));
    assert_eq!(parsed.optional(1).number(), Some(6));
}

#[test]
fn missing_and_malformed_arguments() {
    let err = args(&["foobar"]).parse(many()).unwrap_err();
    assert_eq!(err, ArgsError::MissingArguments);
    assert_eq!(err.render("newfs"), "ERROR: newfs needs more arguments");
    let err = args(&["foobar", "two", "3"]).parse(many()).unwrap_err();
    assert_eq!(err, ArgsError::Nat { failed: "two".to_string() });
    assert_eq!(err.render("newfs"), "ERROR: two needs to be a nonnegative integer");
    let err = args(&["foobar", "2"]).parse(many()).unwrap_err();
    assert_eq!(err, ArgsError::MissingArguments);
    let err = args(&[]).parse(Parser::new(vec![Argument::number()])).unwrap_err();
    assert_eq!(err, ArgsError::MissingArguments);
}

#[test]
fn numbers_are_read_as_the_standard_library_reads_them() {
    for text in ["0", "7", "+7", "007", "18446744073709551615", "+0018446744073709551615"] {
        let expected: u64 = text.parse().unwrap();
        assert_eq!(Kind::Nat.parse(text.to_string()).unwrap(), Type::Nat(expected));
    }
    for text in ["", "+", "-1", "1 ", " 1", "1_0", "0x10", "18446744073709551616", "++1", "1+", "٣"] {
        assert!(text.parse::<u64>().is_err());
        assert_eq!(
            Kind::Nat.parse(text.to_string()).unwrap_err(),
            ArgsError::Nat { failed: text.to_string() }
        );
    }
    assert_eq!(Kind::String.parse("".to_string()).unwrap(), Type::String("".to_string()));
}

#[test]
fn newfs_makes_an_image_of_the_size_of_the_device() {
    let device = new_fs("mydev", 16, Some(128)).unwrap();
    assert_eq!(device.config.file(), "mydev.128.dev");
    assert_eq!(device.config.block_count, 16);
    assert_eq!(device.image_len(), 2048);
    let device = new_fs("mydev", 20, None).unwrap();
    assert_eq!(device.config.file(), "mydev.1024.dev");
    assert_eq!(device.image_len(), 20 * 1024);
    let device = new_fs_at("d", 5000, Some(130), Timestamp { secs: 1, nanos: 2 }).unwrap();
    assert_eq!(device.image_len(), 5000 * 130);
    assert_eq!(device.config.block_size, 130);
}

#[test]
fn newfs_refuses_small_blocks_and_small_devices() {
    for (count, size, text) in [
        (16u64, Some(127u16), "The block size must be at least 128 you gave: 127"),
        (16, Some(1), "The block size must be at least 128 you gave: 1"),
        (16, Some(0), "create: block_size [0] is less than 1"),
        (0, Some(128), "create: block_count [0] is less than 1"),
        (0, Some(5), "create: block_count [0] is less than 1"),
        (0, None, "create: block_count [0] is less than 1"),
        (11, Some(128), "The device needs room for its tables, more than the blocks you gave: 11"),
        (1, None, "The device needs room for its tables, more than the blocks you gave: 1"),
        (u64::MAX, Some(128), "The device is too large"),
    ] {
        match new_fs("d", count, size) {
            Err(Error::Size(message)) => assert_eq!(message, text),
            _ => panic!("newfs took {} blocks of {:?} bytes", count, size),
        }
    }
    assert!(new_fs("d", 12, Some(128)).is_ok());
}

#[test]
fn a_session_mounts_allocates_frees_and_unmounts() {
    let image = new_fs("mydev", 16, Some(128)).unwrap().into_image();
    let mut session = Session::new();
    assert!(!session.is_mounted());
    assert!(session.block_map().is_none());
    assert!(session.alloc_block().is_none());
    assert!(session.free_block(BlockNumber::new(1)).is_none());
    assert!(session.unmount().is_none());
    assert_eq!(session.mount("mydev.128.dev", image).unwrap(), true);
    assert!(session.is_mounted());
    assert_eq!(session.block_map().unwrap(), "11111111|11110000|\n");
    assert_eq!(session.alloc_block().unwrap().unwrap().number, 12);
    assert_eq!(session.block_map().unwrap(), "11111111|11111000|\n");
    for expected in [13u64, 14, 15] {
        assert_eq!(session.alloc_block().unwrap().unwrap().number, expected);
    }
    match session.alloc_block().unwrap() {
        Err(Error::Size(text)) => assert_eq!(text, "out of blocks"),
        _ => panic!("a fifth block was handed out"),
    }
    session.free_block(BlockNumber::new(12)).unwrap().unwrap();
    assert_eq!(session.alloc_block().unwrap().unwrap().number, 12);
    session.free_block(BlockNumber::new(14)).unwrap().unwrap();
    match session.free_block(BlockNumber::new(16)).unwrap() {
        Err(Error::Size(text)) => assert_eq!(
            text,
            "create: block_count [16] is less than the requested block number [16]"
        ),
        _ => panic!("a block past the end was freed"),
    }
    let device = session.unmount().unwrap().unwrap();
    assert!(!session.is_mounted());
    assert!(session.unmount().is_none());
    let image = device.into_image();
    assert_eq!(&image[128..130], &[0xff, 0xfd]);
    assert_eq!(session.mount("mydev.128.dev", image).unwrap(), true);
    assert_eq!(session.block_map().unwrap(), "11111111|11111101|\n");
}

#[test]
fn a_failed_mount_keeps_what_was_mounted() {
    let image = new_fs("mydev", 16, Some(128)).unwrap().into_image();
    let mut session = Session::new();
    assert!(matches!(session.mount("mydev", image.clone()), Err(Error::Parse)));
    assert!(!session.is_mounted());
    assert!(matches!(session.mount("mydev.256.dev", image.clone()), Err(Error::Size(_))));
    assert!(matches!(session.mount("mydev.0.dev", image.clone()), Err(Error::Size(_))));
    assert!(matches!(session.mount("mydev.16.dev", image.clone()), Err(Error::Bincode(_))));
    session.mount("mydev.128.dev", image.clone()).unwrap();
    session.alloc_block().unwrap().unwrap();
    assert!(session.mount("mydev.64.dev", image.clone()).is_err());
    assert_eq!(session.block_map().unwrap(), "11111111|11111000|\n");
    session.mount("mydev.128.dev", image).unwrap();
    assert_eq!(session.block_map().unwrap(), "11111111|11110000|\n");
}

#[test]
fn a_device_that_was_left_mounted_mounts_as_unclean() {
    let image = new_fs("d", 16, Some(128)).unwrap().into_image();
    let mut first = Session::new();
    assert!(first.mount("d.128.dev", image.clone()).unwrap());
    let device = BlockDevice::open("d.128.dev", image).unwrap();
    let left = umbrella::fs::FileSystem::read(device).unwrap().file_system.cache.device;
    let mut second = Session::new();
    assert!(!second.mount("d.128.dev", left.into_image()).unwrap());
    let closed = second.unmount().unwrap().unwrap();
    let mut third = Session::new();
    assert!(third.mount("d.128.dev", closed.into_image()).unwrap());
}

#[test]
fn operators_hand_on_one_of_two_commands() {
    assert_eq!(Operator::Or.hands_on(true), Side::Left);
    assert_eq!(Operator::Or.hands_on(false), Side::Right);
    assert_eq!(Operator::And.hands_on(true), Side::Right);
    assert_eq!(Operator::And.hands_on(false), Side::Left);
    assert_eq!(Operator::Pipe.hands_on(true), Side::Right);
    assert_eq!(Operator::Pipe.hands_on(false), Side::Right);
    assert_eq!(Operator::Or.render(), "||");
    assert_eq!(Operator::And.render(), "&&");
}

#[test]
fn arguments_in_three_forms() {
    assert_eq!(Arg::Short("t".to_string()).render(), "-t");
    assert_eq!(Arg::Long("name".to_string()).render(), "--name");
    assert_eq!(Arg::Name("result".to_string()).render(), "result");
    assert_eq!(Arg::Name("".to_string()).render(), "");
}

#[test]
fn a_session_gives_the_image_and_the_file_of_its_device() {
    let image = new_fs("mydev", 16, Some(128)).unwrap().into_image();
    let mut session = Session::new();
    assert_eq!(session.device_image(), None);
    assert_eq!(session.device_file(), None);
    session.mount("mydev.128.dev", image.clone()).unwrap();
    assert_eq!(session.device_file().unwrap(), "mydev.128.dev");
    let mounted = session.device_image().unwrap();
    assert_eq!(mounted.len(), image.len());
    assert_eq!(image[28], 0x80);
    assert_eq!(mounted[28], 0);
    assert_eq!(&mounted[..28], &image[..28]);
    assert_eq!(&mounted[29..], &image[29..]);
}
