//! The localization of integers: the number in decimal, or `NaN` for the
//! type's largest value, which stands for a value that is not known.

use vstd::prelude::*;

use crate::localization::{LangFile, LocalizablePrimitive};
use crate::map::serde::{decimal, digit_char, digits_value, is_digit, u128_to_decimal};
use vstd::string::StringExecFns;

verus! {

/// The text `NaN`.
pub open spec fn nan_text() -> Seq<char> {
    seq!['N', 'a', 'N']
}

/// `x` in decimal, with a `-` before a negative number.
pub open spec fn signed_decimal(x: int) -> Seq<char> {
    if x < 0 {
        seq!['-'] + decimal((-x) as nat)
    } else {
        decimal(x as nat)
    }
}

fn nan() -> (r: String)
    ensures
        r@ == nan_text(),
{
    proof {
        reveal_strlit("NaN");
    }
    String::from_str("NaN")
}

/// `x` in decimal, as `i128`'s `Display` writes it.
pub fn i128_to_decimal(x: i128) -> (r: String)
    ensures
        r@ == signed_decimal(x as int),
{
    if x < 0 {
        let m: u128 = if x == i128::MIN {
            170141183460469231731687303715884105728u128
        } else {
            (-x) as u128
        };
        proof {
            reveal_strlit("-");
        }
        let r = String::from_str("-").concat(u128_to_decimal(m).as_str());
        assert(r@ =~= seq!['-'] + decimal((-x) as nat));
        r
    } else {
        u128_to_decimal(x as u128)
    }
}

impl LocalizablePrimitive for u8 {
    open spec fn spec_localized(&self) -> Seq<char> {
        if *self == u8::MAX {
            nan_text()
        } else {
            decimal(*self as nat)
        }
    }

    fn localize(&self, lang: &LangFile) -> (r: String) {
        if *self == u8::MAX {
            nan()
        } else {
            u128_to_decimal(*self as u128)
        }
    }
}

impl LocalizablePrimitive for u16 {
    open spec fn spec_localized(&self) -> Seq<char> {
        if *self == u16::MAX {
            nan_text()
        } else {
            decimal(*self as nat)
        }
    }

    fn localize(&self, lang: &LangFile) -> (r: String) {
        if *self == u16::MAX {
            nan()
        } else {
            u128_to_decimal(*self as u128)
        }
    }
}

impl LocalizablePrimitive for u32 {
    open spec fn spec_localized(&self) -> Seq<char> {
        if *self == u32::MAX {
            nan_text()
        } else {
            decimal(*self as nat)
        }
    }

    fn localize(&self, lang: &LangFile) -> (r: String) {
        if *self == u32::MAX {
            nan()
        } else {
            u128_to_decimal(*self as u128)
        }
    }
}

impl LocalizablePrimitive for u64 {
    open spec fn spec_localized(&self) -> Seq<char> {
        if *self == u64::MAX {
            nan_text()
        } else {
            decimal(*self as nat)
        }
    }

    fn localize(&self, lang: &LangFile) -> (r: String) {
        if *self == u64::MAX {
            nan()
        } else {
            u128_to_decimal(*self as u128)
        }
    }
}

impl LocalizablePrimitive for u128 {
    open spec fn spec_localized(&self) -> Seq<char> {
        if *self == u128::MAX {
            nan_text()
        } else {
            decimal(*self as nat)
        }
    }

    fn localize(&self, lang: &LangFile) -> (r: String) {
        if *self == u128::MAX {
            nan()
        } else {
            u128_to_decimal(*self as u128)
        }
    }
}

impl LocalizablePrimitive for i8 {
    open spec fn spec_localized(&self) -> Seq<char> {
        if *self == i8::MAX {
            nan_text()
        } else {
            signed_decimal(*self as int)
        }
    }

    fn localize(&self, lang: &LangFile) -> (r: String) {
        if *self == i8::MAX {
            nan()
        } else {
            i128_to_decimal(*self as i128)
        }
    }
}

impl LocalizablePrimitive for i16 {
    open spec fn spec_localized(&self) -> Seq<char> {
        if *self == i16::MAX {
            nan_text()
        } else {
            signed_decimal(*self as int)
        }
    }

    fn localize(&self, lang: &LangFile) -> (r: String) {
        if *self == i16::MAX {
            nan()
        } else {
            i128_to_decimal(*self as i128)
        }
    }
}

impl LocalizablePrimitive for i32 {
    open spec fn spec_localized(&self) -> Seq<char> {
        if *self == i32::MAX {
            nan_text()
        } else {
            signed_decimal(*self as int)
        }
    }

    fn localize(&self, lang: &LangFile) -> (r: String) {
        if *self == i32::MAX {
            nan()
        } else {
            i128_to_decimal(*self as i128)
        }
    }
}

impl LocalizablePrimitive for i64 {
    open spec fn spec_localized(&self) -> Seq<char> {
        if *self == i64::MAX {
            nan_text()
        } else {
            signed_decimal(*self as int)
        }
    }

    fn localize(&self, lang: &LangFile) -> (r: String) {
        if *self == i64::MAX {
            nan()
        } else {
            i128_to_decimal(*self as i128)
        }
    }
}

impl LocalizablePrimitive for i128 {
    open spec fn spec_localized(&self) -> Seq<char> {
        if *self == i128::MAX {
            nan_text()
        } else {
            signed_decimal(*self as int)
        }
    }

    fn localize(&self, lang: &LangFile) -> (r: String) {
        if *self == i128::MAX {
            nan()
        } else {
            i128_to_decimal(*self as i128)
        }
    }
}

/// The text an integer of a type whose largest value is `max` is shown as:
/// `NaN` for `max`, its decimal text otherwise.
pub open spec fn integer_text(x: int, max: int) -> Seq<char> {
    if x == max {
        nan_text()
    } else {
        signed_decimal(x)
    }
}

/// Every integer type shows a value other than its largest as the value in
/// decimal, a negative one after a `-`, and its largest value as `NaN`.
pub proof fn law_integers_localized(
    a: u8,
    b: u16,
    c: u32,
    d: u64,
    e: u128,
    f: i8,
    g: i16,
    h: i32,
    i: i64,
    j: i128,
)
    ensures
        a.spec_localized() == integer_text(a as int, u8::MAX as int),
        b.spec_localized() == integer_text(b as int, u16::MAX as int),
        c.spec_localized() == integer_text(c as int, u32::MAX as int),
        d.spec_localized() == integer_text(d as int, u64::MAX as int),
        e.spec_localized() == integer_text(e as int, u128::MAX as int),
        f.spec_localized() == integer_text(f as int, i8::MAX as int),
        g.spec_localized() == integer_text(g as int, i16::MAX as int),
        h.spec_localized() == integer_text(h as int, i32::MAX as int),
        i.spec_localized() == integer_text(i as int, i64::MAX as int),
        j.spec_localized() == integer_text(j as int, i128::MAX as int),
{
}

/// The decimal text of `n` is digits only, with no leading zero, and reads
/// back as `n`.
proof fn lemma_decimal_reads_back(n: nat)
    ensures
        decimal(n).len() >= 1,
        forall|i: int| 0 <= i < decimal(n).len() ==> is_digit(#[trigger] decimal(n)[i]),
        decimal(n).len() > 1 ==> decimal(n)[0] != '0',
        digits_value(decimal(n)) == n,
    decreases n,
{
    let d = n % 10;
    assert(digit_char(d) as nat - '0' as nat == d);
    assert(decimal(n).last() == digit_char(d));
    assert(digits_value(decimal(n)) == digits_value(decimal(n).drop_last()) * 10 + d);
    if n < 10 {
        assert(decimal(n).drop_last() =~= Seq::<char>::empty());
    } else {
        lemma_decimal_reads_back(n / 10);
        let prev = decimal(n / 10);
        assert(decimal(n).drop_last() =~= prev);
        assert(decimal(n)[0] == prev[0]);
        assert forall|i: int| 0 <= i < decimal(n).len() implies is_digit(#[trigger] decimal(n)[i]) by {
            if i < prev.len() {
                assert(decimal(n)[i] == prev[i]);
            }
        }
        if prev.len() == 1 {
            assert(digits_value(prev.drop_last()) == 0) by {
                assert(prev.drop_last() =~= Seq::<char>::empty());
            }
            assert(prev[0] != '0');
        }
        assert(n == (n / 10) * 10 + d);
    }
}

/// The signed decimal text of `x` starts with `-` exactly where `x` is
/// negative, and the rest is digits only, with no leading zero, that read
/// back as the magnitude of `x`.
pub proof fn law_signed_decimal_reads_back(x: int)
    ensures
        signed_decimal(x).len() >= 1,
        (signed_decimal(x)[0] == '-') <==> x < 0,
        ({
            let digits = if x < 0 { signed_decimal(x).drop_first() } else { signed_decimal(x) };
            &&& digits.len() >= 1
            &&& forall|i: int| 0 <= i < digits.len() ==> is_digit(#[trigger] digits[i])
            &&& digits.len() > 1 ==> digits[0] != '0'
            &&& digits_value(digits) == if x < 0 { -x } else { x }
        }),
{
    if x < 0 {
        lemma_decimal_reads_back((-x) as nat);
        assert(signed_decimal(x).drop_first() =~= decimal((-x) as nat));
    } else {
        lemma_decimal_reads_back(x as nat);
        assert(is_digit(decimal(x as nat)[0]));
    }
}

} // verus!
