use mini_slcan::{Bitrate, CanFrame, ErrorKind, ExtIdentifier, Identifier, SerialNumber};

#[test]
fn identifier_ranges() {
    assert_eq!(Identifier::from_raw(0x7FF).unwrap().as_raw(), 0x7FF);
    assert!(Identifier::from_raw(0x800).is_none());
    assert_eq!(ExtIdentifier::from_raw(0x1FFF_FFFF).unwrap().as_raw(), 0x1FFF_FFFF);
    assert!(ExtIdentifier::from_raw(0x2000_0000).is_none());
    assert_eq!(Identifier::from_raw(0).unwrap().as_raw(), 0);
}

#[test]
fn bitrate_speeds() {
    let all = [
        (Bitrate::_10kbit, 10),
        (Bitrate::_20kbit, 20),
        (Bitrate::_50kbit, 50),
        (Bitrate::_100kbit, 100),
        (Bitrate::_125kbit, 125),
        (Bitrate::_250kbit, 250),
        (Bitrate::_500kbit, 500),
        (Bitrate::_800kbit, 800),
        (Bitrate::_1mbit, 1000),
    ];
    for (b, kbps) in all {
        assert_eq!(b.kbps(), kbps);
    }
    assert_eq!(Bitrate::from_code(b'4'), Some(Bitrate::_125kbit));
    assert_eq!(Bitrate::from_code(b'9'), None);
}

#[test]
fn serial_number_rejects_space_anywhere() {
    for i in 0..4 {
        let mut raw = *b"AB12";
        raw[i] = 0x20;
        assert!(SerialNumber::new(raw).is_none());
    }
    assert!(SerialNumber::new(*b"a-bc").is_none());
    let serial = SerialNumber::new(*b"z9Q0").unwrap();
    assert_eq!(serial.bytes(), *b"z9Q0");
    assert_eq!(SerialNumber::new_const(*b"TEST"), SerialNumber::new(*b"TEST").unwrap());
}

#[test]
fn frame_push_until_full() {
    let mut frame = CanFrame::new();
    assert_eq!(frame.len(), 0);
    for i in 0..8u8 {
        frame.push(i).unwrap();
    }
    assert_eq!(frame.len(), 8);
    assert_eq!(frame.push(8).unwrap_err().kind(), ErrorKind::Eof);
    assert_eq!(frame.data(), &[0, 1, 2, 3, 4, 5, 6, 7]);
    frame.data_mut()[0] = 0xFF;
    assert_eq!(frame.data()[0], 0xFF);
    assert_eq!(frame.len(), 8);
}

#[test]
fn frame_from_slice() {
    assert_eq!(CanFrame::from_slice(&[1, 2, 3]).unwrap().data(), &[1, 2, 3]);
    assert_eq!(
        CanFrame::from_slice(&[0; 9]).unwrap_err().kind(),
        ErrorKind::Eof
    );
    assert_eq!(CanFrame::from_slice(&[]).unwrap(), CanFrame::default());
}

#[test]
fn frame_from_arrays() {
    let empty: CanFrame = [].into();
    assert_eq!(empty, CanFrame::new());
    let three: CanFrame = [7, 8, 9].into();
    assert_eq!(three.data(), &[7, 8, 9]);
    assert_eq!(three, CanFrame::from_slice(&[7, 8, 9]).unwrap());
    let full: CanFrame = (*b"ABCDEFGH").into();
    assert_eq!(full.len(), 8);
    assert_eq!(full.data(), b"ABCDEFGH");
}
