use algods::algorithms::murmur::{murmur3_32, murmur3_32_seed};

#[test]
fn murmur_basic_tests() {
    assert_eq!(0, murmur3_32("".as_bytes()));
    assert_eq!(3530670207, murmur3_32("0".as_bytes()));
    assert_eq!(1642882560, murmur3_32("01".as_bytes()));
    assert_eq!(3966566284, murmur3_32("012".as_bytes()));
    assert_eq!(3558446240, murmur3_32("0123".as_bytes()));
    assert_eq!(433070448, murmur3_32("01234".as_bytes()));
    assert_eq!(1364076727, murmur3_32_seed("".as_bytes(), 1));
    assert_eq!(
        2832214938,
        murmur3_32("I will not buy this record, it is scratched.".as_bytes())
    );
}
