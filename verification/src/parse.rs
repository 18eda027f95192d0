//! Human-readable size strings: a decimal count followed by a one-letter
//! unit, `K`, `M` or `G` (case-insensitive), resolved to a byte count.

use vstd::prelude::*;

use vstd::arithmetic::div_mod::lemma_fundamental_div_mod;
use vstd::string::StrSliceExecFns;
use vstd::string::StringSliceAdditionalSpecFns;

verus! {

/// ASCII code points used by the grammar.
pub const ASCII_ZERO: u8 = 48;

pub const ASCII_NINE: u8 = 57;

pub const ASCII_PLUS: u8 = 43;

pub const ASCII_UPPER_K: u8 = 75;

pub const ASCII_LOWER_K: u8 = 107;

pub const ASCII_UPPER_M: u8 = 77;

pub const ASCII_LOWER_M: u8 = 109;

pub const ASCII_UPPER_G: u8 = 71;

pub const ASCII_LOWER_G: u8 = 103;


/// An ASCII decimal digit.
pub open spec fn is_digit(b: u8) -> bool {
    ASCII_ZERO <= b <= ASCII_NINE
}

/// The digit region of a number token: an optional leading plus sign is
/// skipped, as the standard integer parser does.
pub open spec fn digits_of(s: Seq<u8>) -> Seq<u8> {
    if s.len() > 0 && s[0] == ASCII_PLUS {
        s.drop_first()
    } else {
        s
    }
}

/// Every byte is a decimal digit.
pub open spec fn all_digits(s: Seq<u8>) -> bool {
    forall|i: int| 0 <= i < s.len() ==> is_digit(#[trigger] s[i])
}

/// The value of a digit string, most significant digit first.
pub open spec fn digits_value(s: Seq<u8>) -> int
    recommends
        all_digits(s),
    decreases s.len(),
{
    if s.len() == 0 {
        0
    } else {
        digits_value(s.drop_last()) * 10 + (s.last() - ASCII_ZERO)
    }
}

/// The factor a unit suffix stands for; 0 marks an unrecognised unit.
pub open spec fn unit_factor(b: u8) -> int {
    if b == ASCII_UPPER_K || b == ASCII_LOWER_K {
        1024
    } else if b == ASCII_UPPER_M || b == ASCII_LOWER_M {
        0x100000
    } else if b == ASCII_UPPER_G || b == ASCII_LOWER_G {
        0x40000000
    } else {
        0
    }
}

/// Whether everything before the unit is a number the machine can hold.
pub open spec fn number_ok(num: Seq<u8>) -> bool {
    let d = digits_of(num);
    d.len() > 0 && all_digits(d) && digits_value(d) <= usize::MAX
}

/// The byte count a well-formed size string denotes.
pub open spec fn size_value(b: Seq<u8>) -> int
    recommends
        b.len() >= 2,
{
    digits_value(digits_of(b.subrange(0, b.len() - 1))) * unit_factor(b[b.len() - 1])
}

/// Whether a size string parses: at least two bytes, a valid number, a known
/// unit, and a product that fits in the machine word.
pub open spec fn size_ok(b: Seq<u8>) -> bool {
    &&& b.len() >= 2
    &&& number_ok(b.subrange(0, b.len() - 1))
    &&& unit_factor(b[b.len() - 1]) != 0
    &&& size_value(b) <= usize::MAX
}

/// The value of a digit string is never negative.
proof fn lemma_digits_value_nonneg(s: Seq<u8>)
    requires
        all_digits(s),
    ensures
        digits_value(s) >= 0,
    decreases s.len(),
{
    if s.len() > 0 {
        assert(all_digits(s.drop_last()));
        lemma_digits_value_nonneg(s.drop_last());
    }
}

/// Appending digits never shrinks the value of a digit string.
proof fn lemma_digits_value_extend(s: Seq<u8>, k: int)
    requires
        all_digits(s),
        0 <= k <= s.len(),
    ensures
        digits_value(s) >= digits_value(s.subrange(0, k)),
    decreases s.len() - k,
{
    if k == s.len() {
        assert(s.subrange(0, k) =~= s);
    } else {
        let shorter = s.subrange(0, k);
        let longer = s.subrange(0, k + 1);
        assert(longer.drop_last() =~= shorter);
        assert(all_digits(shorter));
        lemma_digits_value_nonneg(shorter);
        lemma_digits_value_extend(s, k + 1);
    }
}

/// Parse a size string such as `64K`, `8M` or `2G` into a byte count. The
/// last byte names the unit; everything before it must be a decimal count.
/// Each failure is reported as the malformed part: too short, a bad or
/// oversized number, or an unknown unit.
pub fn parse_size(size_str: &str) -> (r: Result<usize, String>)
    ensures
        size_ok(size_str.spec_bytes()) ==> (r matches Ok(v) && v as int == size_value(
            size_str.spec_bytes(),
        )),
        size_str.spec_bytes().len() < 2 ==> (r matches Err(e) && e@ == "Invalid size format"@),
        size_str.spec_bytes().len() >= 2 && !number_ok(
            size_str.spec_bytes().subrange(0, size_str.spec_bytes().len() - 1),
        ) ==> (r matches Err(e) && e@ == "Invalid number"@),
        size_str.spec_bytes().len() >= 2 && number_ok(
            size_str.spec_bytes().subrange(0, size_str.spec_bytes().len() - 1),
        ) && unit_factor(size_str.spec_bytes().last()) == 0 ==> (r matches Err(e) && e@
            == "Invalid unit (use K, M, or G)"@),
        size_str.spec_bytes().len() >= 2 && number_ok(
            size_str.spec_bytes().subrange(0, size_str.spec_bytes().len() - 1),
        ) && unit_factor(size_str.spec_bytes().last()) != 0 && size_value(size_str.spec_bytes())
            > usize::MAX ==> (r matches Err(e) && e@ == "Invalid number"@),
{
    let bytes = size_str.as_bytes_vec();
    let n = bytes.len();
    if n < 2 {
        return Err("Invalid size format".to_owned());
    }
    let ghost num = bytes@.subrange(0, n - 1);
    let start: usize = if bytes[0] == ASCII_PLUS {
        1
    } else {
        0
    };
    let ghost digits = digits_of(num);
    proof {
        if start == 1 {
            assert(digits =~= bytes@.subrange(1, n - 1));
        } else {
            assert(digits =~= bytes@.subrange(0, n - 1));
        }
    }
    if start == n - 1 {
        return Err("Invalid number".to_owned());
    }
    let mut acc: usize = 0;
    let mut i: usize = start;
    proof {
        assert(digits.subrange(0, 0) =~= Seq::<u8>::empty());
    }
    while i < n - 1
        invariant
            bytes@ == size_str.spec_bytes(),
            n == bytes@.len(),
            2 <= n,
            start <= 1,
            start <= i <= n - 1,
            start < n - 1,
            num == bytes@.subrange(0, n - 1),
            digits == digits_of(num),
            digits.len() == n - 1 - start,
            forall|j: int| 0 <= j < digits.len() ==> digits[j] == bytes@[start + j],
            forall|j: int| 0 <= j < i - start ==> is_digit(#[trigger] digits[j]),
            acc as int == digits_value(digits.subrange(0, i - start)),
        decreases n - 1 - i,
    {
        let d = bytes[i];
        if d < ASCII_ZERO || d > ASCII_NINE {
            proof {
                assert(!is_digit(digits[i - start]));
            }
            return Err("Invalid number".to_owned());
        }
        let dv = (d - ASCII_ZERO) as usize;
        let limit = (usize::MAX - dv) / 10;
        proof {
            assert(digits.subrange(0, i - start + 1).drop_last() =~= digits.subrange(
                0,
                i - start,
            ));
            assert(digits.subrange(0, i - start + 1).last() == d);
        }
        if acc > limit {
            proof {
                let maxd = (usize::MAX - dv) as int;
                lemma_fundamental_div_mod(maxd, 10);
                assert(acc * 10 + dv > usize::MAX) by (nonlinear_arith)
                    requires
                        maxd == 10 * (maxd / 10) + maxd % 10,
                        0 <= maxd % 10 < 10,
                        acc > maxd / 10,
                        maxd == usize::MAX - dv,
                ;
                if all_digits(digits) {
                    lemma_digits_value_extend(digits, i - start + 1);
                }
            }
            return Err("Invalid number".to_owned());
        }
        proof {
            let maxd = (usize::MAX - dv) as int;
            lemma_fundamental_div_mod(maxd, 10);
            assert(acc * 10 + dv <= usize::MAX) by (nonlinear_arith)
                requires
                    maxd == 10 * (maxd / 10) + maxd % 10,
                    0 <= maxd % 10 < 10,
                    acc <= maxd / 10,
                    maxd == usize::MAX - dv,
            ;
        }
        acc = acc * 10 + dv;
        i = i + 1;
    }
    proof {
        assert(digits.subrange(0, digits.len() as int) =~= digits);
        assert(number_ok(num));
    }
    let unit = bytes[n - 1];
    let mult: usize = if unit == ASCII_UPPER_K || unit == ASCII_LOWER_K {
        1024
    } else if unit == ASCII_UPPER_M || unit == ASCII_LOWER_M {
        1048576
    } else if unit == ASCII_UPPER_G || unit == ASCII_LOWER_G {
        1073741824
    } else {
        return Err("Invalid unit (use K, M, or G)".to_owned());
    };
    proof {
        assert(unit_factor(bytes@.last()) == mult as int);
    }
    let cap = usize::MAX / mult;
    if acc > cap {
        proof {
            let maxv = usize::MAX as int;
            let m = mult as int;
            lemma_fundamental_div_mod(maxv, m);
            assert(acc * mult > usize::MAX) by (nonlinear_arith)
                requires
                    maxv == m * (maxv / m) + maxv % m,
                    0 <= maxv % m < m,
                    acc > maxv / m,
                    m > 0,
                    m == mult,
                    maxv == usize::MAX,
            ;
        }
        return Err("Invalid number".to_owned());
    }
    proof {
        let maxv = usize::MAX as int;
        let m = mult as int;
        lemma_fundamental_div_mod(maxv, m);
        assert(acc * mult <= usize::MAX) by (nonlinear_arith)
            requires
                maxv == m * (maxv / m) + maxv % m,
                0 <= maxv % m < m,
                acc <= maxv / m,
                m > 0,
                m == mult,
                maxv == usize::MAX,
        ;
    }
    Ok(acc * mult)
}

} // verus!
