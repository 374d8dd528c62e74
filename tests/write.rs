use mini_slcan::read::Command;
use mini_slcan::write::{
    Notification, NotificationBuf, Response, ResponseBuf, TimestampedNotification,
};
use mini_slcan::{ExtIdentifier, Identifier, SerialNumber, Status};

fn enc_response(response: Response, expected: &[u8]) {
    let mut buf = ResponseBuf::new();
    let buf = response.encode(&mut buf).unwrap();
    assert_eq!(expected, buf);
}

fn enc_notif(notif: Notification, expected: &[u8]) {
    let mut buf = NotificationBuf::new();
    let buf = notif.encode(&mut buf).unwrap();
    assert_eq!(expected, buf);
}

#[test]
fn encode_simple_responses() {
    enc_response(Response::Error, b"\x07");
    enc_response(Response::Ack, b"\r");
    enc_response(Response::TxAck, b"z\r");
    enc_response(Response::ExtTxAck, b"Z\r");
}

#[test]
fn encode_status() {
    enc_response(
        Response::Status(Status::from_bits(Status::RX_FIFO_FULL).unwrap()),
        b"F01\r",
    );
}

#[test]
fn encode_version() {
    enc_response(
        Response::Version {
            hardware_version: 1,
            software_version: 2,
        },
        b"V0102\r",
    );
}

#[test]
fn encode_serial() {
    enc_response(
        Response::Serial(SerialNumber::new(*b"TEST").unwrap()),
        b"NTEST\r",
    );
}

#[test]
fn encode_notifs() {
    enc_notif(
        Notification::Rx {
            identifier: Identifier::from_raw(0x100).unwrap(),
            frame: [0x11, 0x33].into(),
        },
        b"t10021133",
    );
    enc_notif(
        Notification::Rx {
            identifier: Identifier::from_raw(0x7FF).unwrap(),
            frame: [].into(),
        },
        b"t7FF0",
    );
    enc_notif(
        Notification::RxExtRtr {
            identifier: ExtIdentifier::from_raw(0).unwrap(),
            len: 5,
        },
        b"R000000005",
    );
}

#[test]
fn encode_status_flags_in_hex() {
    let all = Status::RX_FIFO_FULL
        | Status::TX_FIFO_FULL
        | Status::ERROR_WARNING
        | Status::DATA_OVERRUN
        | Status::ERROR_PASSIVE
        | Status::ARBITRATION_LOST
        | Status::BUS_ERROR;
    enc_response(Response::Status(Status::from_bits(all).unwrap()), b"FEF\r");
    enc_response(Response::Status(Status::empty()), b"F00\r");
    assert!(Status::from_bits(0x10).is_none());
}

#[test]
fn encode_version_uppercase_hex() {
    enc_response(
        Response::Version {
            hardware_version: 0xAB,
            software_version: 0xF0,
        },
        b"VABF0\r",
    );
}

#[test]
fn encode_longest_notifications() {
    let full = [0xDE, 0xAD, 0xBE, 0xEF, 0x01, 0x23, 0x45, 0x67];
    enc_notif(
        Notification::RxExt {
            identifier: ExtIdentifier::from_raw(0x1FFF_FFFF).unwrap(),
            frame: full.into(),
        },
        b"T1FFFFFFF8DEADBEEF01234567",
    );
    let mut buf = NotificationBuf::new();
    let stamped = TimestampedNotification::new(
        Notification::RxExt {
            identifier: ExtIdentifier::from_raw(0x1FFF_FFFF).unwrap(),
            frame: full.into(),
        },
        0xEA5F,
    );
    let out = stamped.encode(&mut buf).unwrap();
    assert_eq!(out, b"T1FFFFFFF8DEADBEEF01234567EA5F");
    assert!(out.len() <= 31);
}

#[test]
fn encode_timestamped_remote() {
    let mut buf = NotificationBuf::new();
    let stamped = TimestampedNotification::new(
        Notification::RxRtr {
            identifier: Identifier::from_raw(0x0AB).unwrap(),
            len: 0,
        },
        0x0102,
    );
    assert_eq!(stamped.encode(&mut buf).unwrap(), b"r0AB00102");
}

#[test]
fn notification_decodes_as_command() {
    let cases = [
        (
            Notification::Rx {
                identifier: Identifier::from_raw(0x100).unwrap(),
                frame: [0x11, 0x33].into(),
            },
            Command::TxStandard {
                identifier: Identifier::from_raw(0x100).unwrap(),
                frame: [0x11, 0x33].into(),
            },
        ),
        (
            Notification::RxExt {
                identifier: ExtIdentifier::from_raw(0x0123_4567).unwrap(),
                frame: (*b"ABCDEFGH").into(),
            },
            Command::TxExt {
                identifier: ExtIdentifier::from_raw(0x0123_4567).unwrap(),
                frame: (*b"ABCDEFGH").into(),
            },
        ),
        (
            Notification::RxRtr {
                identifier: Identifier::from_raw(0x7FF).unwrap(),
                len: 8,
            },
            Command::TxStandardRtr {
                identifier: Identifier::from_raw(0x7FF).unwrap(),
                len: 8,
            },
        ),
        (
            Notification::RxExtRtr {
                identifier: ExtIdentifier::from_raw(0).unwrap(),
                len: 0,
            },
            Command::TxExtRtr {
                identifier: ExtIdentifier::from_raw(0).unwrap(),
                len: 0,
            },
        ),
    ];
    for (notif, cmd) in cases {
        let mut buf = NotificationBuf::new();
        let mut text = notif.encode(&mut buf).unwrap().to_vec();
        text.push(b'\r');
        assert_eq!(Command::decode(&text).unwrap(), cmd);
    }
}

#[test]
fn response_buf_slices() {
    let mut buf = ResponseBuf::new();
    assert_eq!(buf.as_slice(), &[0; 6]);
    buf.as_slice_mut()[0] = 7;
    assert_eq!(buf.as_slice()[0], 7);
    assert_eq!(ResponseBuf::LEN, 6);
}

#[test]
fn encode_leaves_rest_of_buffer() {
    let mut buf = ResponseBuf::new();
    for b in buf.as_slice_mut().iter_mut() {
        *b = 0xEE;
    }
    let n = Response::TxAck.encode(&mut buf).unwrap().len();
    assert_eq!(n, 2);
    assert_eq!(buf.as_slice(), &[b'z', b'\r', 0xEE, 0xEE, 0xEE, 0xEE]);
}
