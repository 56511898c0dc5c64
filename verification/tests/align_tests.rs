
use uefi_engine::builder::align::{align4, align8, pad_to};

#[test]
fn align_up_rounds_to_boundary() {
    assert_eq!(align8(0), 0);
    assert_eq!(align8(1), 8);
    assert_eq!(align8(8), 8);
    assert_eq!(align8(9), 16);
    assert_eq!(align4(3), 4);
    assert_eq!(align4(4), 4);
}

#[test]
fn pad_to_grows_with_fill() {
    let mut buf = vec![0x01u8, 0x02];
    pad_to(&mut buf, 4, 0xFF);
    assert_eq!(buf, vec![0x01, 0x02, 0xFF, 0xFF]);
    pad_to(&mut buf, 2, 0x00);
    assert_eq!(buf.len(), 4);
}
