use dystopia_core::localization::number::i128_to_decimal;
use dystopia_core::localization::{LangFile, Localizable, LocalizablePrimitive};

fn lang() -> LangFile {
    LangFile(vec![])
}

#[test]
fn integers_localize_to_decimal() {
    let l = lang();
    assert_eq!(0u8.localize(&l), "0");
    assert_eq!(254u8.localize(&l), "254");
    assert_eq!(1234u32.localize(&l), "1234");
    assert_eq!(u64::MAX.wrapping_sub(1).localize(&l), "18446744073709551614");
    assert_eq!((-5i32).localize(&l), "-5");
    assert_eq!(i8::MIN.localize(&l), "-128");
    assert_eq!(i128::MIN.localize(&l), "-170141183460469231731687303715884105728");
    assert_eq!(42i64.localize(&l), "42");
}

#[test]
fn the_largest_value_is_not_a_number() {
    let l = lang();
    assert_eq!(u8::MAX.localize(&l), "NaN");
    assert_eq!(u128::MAX.localize(&l), "NaN");
    assert_eq!(i16::MAX.localize(&l), "NaN");
    assert_eq!(i32::MAX.localize(&l), "NaN");
}

#[test]
fn signed_decimal_strings() {
    assert_eq!(i128_to_decimal(0), "0");
    assert_eq!(i128_to_decimal(-10), "-10");
    assert_eq!(i128_to_decimal(99), "99");
}

#[test]
fn localizable_values() {
    let l = lang();
    let mut v = Localizable::raw(17u16);
    v.localize(&l);
    assert_eq!(v.localized(), "17");
    v.localize(&l);
    assert_eq!(v.localized(), "17");
    let mut n: Localizable<u32> = Localizable::Localized("already".to_string());
    n.localize(&l);
    assert_eq!(n.localized(), "already");
}
