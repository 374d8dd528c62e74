use mini_slcan::read::{Command, CommandBuf};
use mini_slcan::{Bitrate, ErrorKind, ExtIdentifier, Identifier};

fn ok(input: &str, expected: Command) {
    assert_eq!(Command::decode(input.as_bytes()).unwrap(), expected);
}

fn err(input: &str, expected: ErrorKind) {
    assert_eq!(
        Command::decode(input.as_bytes()).unwrap_err().kind(),
        expected,
    );
}

#[test]
fn decode_simple_cmds() {
    ok("O\r", Command::Open);
    ok("C\r", Command::Close);
    err("C\n", ErrorKind::Decode);
    err("C", ErrorKind::Eof);
    err("", ErrorKind::Eof);
}

#[test]
fn decode_setup_cmds() {
    ok(
        "S0\r",
        Command::SetupWithBitrate {
            bitrate: Bitrate::_10kbit,
        },
    );
    ok(
        "S8\r",
        Command::SetupWithBitrate {
            bitrate: Bitrate::_1mbit,
        },
    );

    err("S9\r", ErrorKind::Decode);
}

#[test]
fn decode_tx_cmds() {
    ok(
        "t7FF0\r",
        Command::TxStandard {
            identifier: Identifier::from_raw(0x7FF).unwrap(),
            frame: [].into(),
        },
    );
    ok(
        "t0000\r",
        Command::TxStandard {
            identifier: Identifier::from_raw(0).unwrap(),
            frame: [].into(),
        },
    );
    ok(
        "t7FF1AA\r",
        Command::TxStandard {
            identifier: Identifier::from_raw(0x7FF).unwrap(),
            frame: [0xAA].into(),
        },
    );
    err("t8000\r", ErrorKind::Decode);
    err("t800\r", ErrorKind::Decode);
    err("t80\r", ErrorKind::Decode);

    ok(
        "T1FFFFFFF80001020304050607\r",
        Command::TxExt {
            identifier: ExtIdentifier::from_raw(0x1FFF_FFFF).unwrap(),
            frame: [0, 1, 2, 3, 4, 5, 6, 7].into(),
        },
    );
    ok(
        "T1111111184142434445464748\r",
        Command::TxExt {
            identifier: ExtIdentifier::from_raw(0x1111_1111).unwrap(),
            frame: (*b"ABCDEFGH").into(),
        },
    );

    ok(
        "R1FFFFFFF8\r",
        Command::TxExtRtr {
            identifier: ExtIdentifier::from_raw(0x1FFF_FFFF).unwrap(),
            len: 8,
        },
    );

    err("R1FFFFFFF9\r", ErrorKind::Decode);
}

#[test]
fn mismatched_len() {
    err("t7FF1\r", ErrorKind::Decode);
    err("t7FF1AABB\r", ErrorKind::Decode);
}

fn cmdbuf_decode(chunks: &[&[u8]], res: &[Result<Command, ErrorKind>]) {
    let mut expected = res.iter();
    let mut buf = CommandBuf::new();
    for chunk in chunks {
        buf.tail_mut()[..chunk.len()].copy_from_slice(chunk);

        for res in buf.advance_by(chunk.len() as u8) {
            let exp = expected.next().expect("too few expected results");
            let res = res.map_err(|e| e.kind());
            assert_eq!(&res, exp);
        }
    }
    assert!(expected.next().is_none(), "too many expected results");
}

#[test]
fn cmdbuf() {
    cmdbuf_decode(
        &[b"T1111111184142434445464748\r"],
        &[Ok(Command::TxExt {
            identifier: ExtIdentifier::from_raw(0x1111_1111).unwrap(),
            frame: (*b"ABCDEFGH").into(),
        })],
    );
    cmdbuf_decode(
        &[b"T11111111841424344454", b"64748", b"\r"],
        &[Ok(Command::TxExt {
            identifier: ExtIdentifier::from_raw(0x1111_1111).unwrap(),
            frame: (*b"ABCDEFGH").into(),
        })],
    );
    cmdbuf_decode(
        &[b"T11111111841424344454", b"64748", b"\r", b"S0\r"],
        &[
            Ok(Command::TxExt {
                identifier: ExtIdentifier::from_raw(0x1111_1111).unwrap(),
                frame: (*b"ABCDEFGH").into(),
            }),
            Ok(Command::SetupWithBitrate {
                bitrate: Bitrate::_10kbit,
            }),
        ],
    );
    cmdbuf_decode(
        &[b"S0\rS0"],
        &[Ok(Command::SetupWithBitrate {
            bitrate: Bitrate::_10kbit,
        })],
    );
    cmdbuf_decode(
        &[b"\rS0\r"],
        &[
            Err(ErrorKind::Decode),
            Ok(Command::SetupWithBitrate {
                bitrate: Bitrate::_10kbit,
            }),
        ],
    );
    cmdbuf_decode(
        &[b"INVALID\rS0", b"\r"],
        &[
            Err(ErrorKind::Decode),
            Ok(Command::SetupWithBitrate {
                bitrate: Bitrate::_10kbit,
            }),
        ],
    );
}

#[test]
fn decode_other_cmds() {
    ok("F\r", Command::ReadStatus);
    ok("V\r", Command::ReadVersion);
    ok("N\r", Command::ReadSerial);
    ok("Z0\r", Command::SetRxTimestamp { timestamp: false });
    ok("Z1\r", Command::SetRxTimestamp { timestamp: true });
    err("Z2\r", ErrorKind::Decode);
    err("Z", ErrorKind::Eof);
    ok(
        "r1232\r",
        Command::TxStandardRtr {
            identifier: Identifier::from_raw(0x123).unwrap(),
            len: 2,
        },
    );
    err("r1239\r", ErrorKind::Decode);
    err("I\r", ErrorKind::Decode);
}

#[test]
fn decode_every_bitrate() {
    let codes = ["S0\r", "S1\r", "S2\r", "S3\r", "S4\r", "S5\r", "S6\r", "S7\r", "S8\r"];
    let kbps = [10, 20, 50, 100, 125, 250, 500, 800, 1000];
    for (code, speed) in codes.iter().zip(kbps.iter()) {
        match Command::decode(code.as_bytes()).unwrap() {
            Command::SetupWithBitrate { bitrate } => assert_eq!(bitrate.kbps(), *speed),
            other => panic!("unexpected {:?}", other),
        }
    }
}

#[test]
fn decode_truncated_fields() {
    err("S", ErrorKind::Eof);
    err("t7F", ErrorKind::Eof);
    err("t7FF", ErrorKind::Eof);
    err("t7FF2AA", ErrorKind::Eof);
    err("T1FFFFFF", ErrorKind::Eof);
    err("O", ErrorKind::Eof);
}

#[test]
fn decode_rejects_bad_digits_and_trailing_bytes() {
    err("t7fF0\r", ErrorKind::Decode);
    err("t7FF1aa\r", ErrorKind::Decode);
    err("t7G", ErrorKind::Decode);
    err("O\rO", ErrorKind::Decode);
    err("Ox", ErrorKind::Decode);
    err("T2000000000\r", ErrorKind::Decode);
}

#[test]
fn cmdbuf_full_without_terminator_resyncs() {
    let junk = [b'A'; 27];
    cmdbuf_decode(
        &[&junk, b"S0\r"],
        &[
            Err(ErrorKind::Decode),
            Ok(Command::SetupWithBitrate {
                bitrate: Bitrate::_10kbit,
            }),
        ],
    );
}

#[test]
fn cmdbuf_keeps_partial_command() {
    let mut buf = CommandBuf::new();
    assert_eq!(buf.tail_mut().len(), 27);
    buf.tail_mut()[..4].copy_from_slice(b"C\rS3");
    let results = buf.advance_by(4);
    assert_eq!(results.len(), 1);
    assert_eq!(buf.tail_mut().len(), 25);
    buf.tail_mut()[..1].copy_from_slice(b"\r");
    let results = buf.advance_by(1);
    assert_eq!(results.len(), 1);
    assert_eq!(
        results[0].as_ref().unwrap(),
        &Command::SetupWithBitrate {
            bitrate: Bitrate::_100kbit,
        }
    );
    assert_eq!(buf.tail_mut().len(), 27);
}

#[test]
fn cmdbuf_byte_by_byte_matches_whole() {
    let input = b"t1232ABCD\rr7FF8\rO\r";
    let mut whole = CommandBuf::new();
    whole.tail_mut()[..input.len()].copy_from_slice(input);
    let all: Vec<_> = whole
        .advance_by(input.len() as u8)
        .into_iter()
        .map(|r| r.map_err(|e| e.kind()))
        .collect();
    assert_eq!(all.len(), 3);

    let mut bytewise = CommandBuf::new();
    let mut pieces = Vec::new();
    for b in input.iter() {
        bytewise.tail_mut()[0] = *b;
        for r in bytewise.advance_by(1) {
            pieces.push(r.map_err(|e| e.kind()));
        }
    }
    assert_eq!(all, pieces);
}
