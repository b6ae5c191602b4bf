use genetic_algorithm::encodings::{BinaryCode, GrayCode};

#[test]
fn converts_bin_to_gray() {
    assert_eq!(
        GrayCode::from(BinaryCode(0b0000_0000_0000_0000)),
        GrayCode(0b0000_0000_0000_0000)
    );
    assert_eq!(
        GrayCode::from(BinaryCode(0b0000_0000_0000_0001)),
        GrayCode(0b0000_0000_0000_0001)
    );
    assert_eq!(
        GrayCode::from(BinaryCode(0b0000_0000_0000_0010)),
        GrayCode(0b0000_0000_0000_0011)
    );
    assert_eq!(
        GrayCode::from(BinaryCode(0b0000_0000_0000_0011)),
        GrayCode(0b0000_0000_0000_0010)
    );
}

#[test]
fn converts_gray_to_bin() {
    assert_eq!(
        BinaryCode::from(GrayCode(0b0000_0000_0000_0000)),
        BinaryCode(0b0000_0000_0000_0000)
    );
    assert_eq!(
        BinaryCode::from(GrayCode(0b0000_0000_0000_0001)),
        BinaryCode(0b0000_0000_0000_0001)
    );
    assert_eq!(
        BinaryCode::from(GrayCode(0b0000_0000_0000_0011)),
        BinaryCode(0b0000_0000_0000_0010)
    );
    assert_eq!(
        BinaryCode::from(GrayCode(0b0000_0000_0000_0010)),
        BinaryCode(0b0000_0000_0000_0011)
    );
}

#[test]
fn round_trips_every_pattern() {
    for bits in 0..=u16::MAX {
        let gray = GrayCode::from(BinaryCode(bits));
        assert_eq!(BinaryCode::from(gray), BinaryCode(bits));
        let binary = BinaryCode::from(GrayCode(bits));
        assert_eq!(GrayCode::from(binary), GrayCode(bits));
    }
}

#[test]
fn neighbours_differ_in_one_bit() {
    for magnitude in 0..u16::MAX {
        let here = GrayCode::from(BinaryCode(magnitude)).0;
        let next = GrayCode::from(BinaryCode(magnitude + 1)).0;
        assert_eq!((here ^ next).count_ones(), 1);
    }
}
