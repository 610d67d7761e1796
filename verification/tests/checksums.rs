use ds::map::{adler32, hashcode};

#[test]
fn adler32_known_values() {
    assert_eq!(1, adler32(b""));
    assert_eq!(38600999, adler32(b"abc"));
    assert_eq!(0x11E60398, adler32(b"Wikipedia"));
}

#[test]
fn hashcode_known_values() {
    assert_eq!(0, hashcode(b""));
    assert_eq!(404, hashcode(b"abc"));
    assert_eq!(24809, hashcode(b"Wikipedia"));
}
