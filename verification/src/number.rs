//! Numbers in text: reading digits in a base, writing decimal and hexadecimal.

use vstd::arithmetic::power::pow;
use vstd::prelude::*;

use crate::text::chars_of;

verus! {

/// Why a text is no number.
#[derive(Clone, Copy, Debug, PartialEq, Eq, Structural)]
pub enum IntFault {
    /// There is no text at all.
    Empty,
    /// A character is no digit of the base.
    InvalidDigit,
    /// The number is over the limit.
    PosOverflow,
}

/// What a fault reads as.
pub open spec fn fault_text(fault: IntFault) -> Seq<char> {
    match fault {
        IntFault::Empty => "cannot parse integer from empty string"@,
        IntFault::InvalidDigit => "invalid digit found in string"@,
        IntFault::PosOverflow => "number too large to fit in target type"@,
    }
}

impl IntFault {
    /// What the fault reads as.
    pub fn text(&self) -> (r: &'static str)
        ensures
            r@ == fault_text(*self),
    {
        match self {
            IntFault::Empty => "cannot parse integer from empty string",
            IntFault::InvalidDigit => "invalid digit found in string",
            IntFault::PosOverflow => "number too large to fit in target type",
        }
    }
}

/// What `c` stands for as a digit, in either case, if it is below the base.
pub open spec fn digit_value(c: char, radix: nat) -> Option<nat> {
    let n = c as u32;
    let v: int = if 48 <= n <= 57 {
        n - 48
    } else if 97 <= n <= 122 {
        n - 87
    } else if 65 <= n <= 90 {
        n - 55
    } else {
        radix as int
    };
    if v < radix {
        Some(v as nat)
    } else {
        None
    }
}

/// What `c` stands for as a digit.
fn digit_of(c: char, radix: u32) -> (r: Option<u32>)
    ensures
        match r {
            Some(v) => digit_value(c, radix as nat) == Some(v as nat),
            None => digit_value(c, radix as nat) is None,
        },
{
    let n: u32 = c as u32;
    let v: u32 = if 48 <= n && n <= 57 {
        n - 48
    } else if 97 <= n && n <= 122 {
        n - 87
    } else if 65 <= n && n <= 90 {
        n - 55
    } else {
        radix
    };
    if v < radix {
        Some(v)
    } else {
        None
    }
}

/// The value of a run of digits read from the left, up to `max`; the first digit that does
/// not fit decides the fault.
pub open spec fn digits_value(s: Seq<char>, radix: nat, max: nat) -> Result<nat, IntFault>
    decreases s.len(),
{
    if s.len() == 0 {
        Ok(0)
    } else {
        match digits_value(s.drop_last(), radix, max) {
            Err(fault) => Err(fault),
            Ok(high) => match digit_value(s.last(), radix) {
                None => Err(IntFault::InvalidDigit),
                Some(d) => if high * radix + d > max {
                    Err(IntFault::PosOverflow)
                } else {
                    Ok(high * radix + d)
                },
            },
        }
    }
}

/// An unsigned number: an optional `+`, then at least one digit.
pub open spec fn number_value(s: Seq<char>, radix: nat, max: nat) -> Result<nat, IntFault> {
    if s.len() == 0 {
        Err(IntFault::Empty)
    } else if s.len() == 1 && s[0] == '+' {
        Err(IntFault::InvalidDigit)
    } else if s[0] == '+' {
        digits_value(s.drop_first(), radix, max)
    } else {
        digits_value(s, radix, max)
    }
}

/// A fault in the front of a run of digits is the fault of the whole run.
proof fn lemma_fault_stays(s: Seq<char>, k: int, radix: nat, max: nat)
    requires
        0 <= k <= s.len(),
        digits_value(s.take(k), radix, max) is Err,
    ensures
        digits_value(s, radix, max) == digits_value(s.take(k), radix, max),
    decreases s.len() - k,
{
    if k == s.len() {
        assert(s.take(k) =~= s);
    } else {
        assert(s.take(k + 1).drop_last() =~= s.take(k));
        lemma_fault_stays(s, k + 1, radix, max);
    }
}

/// Reads an unsigned number in base `radix` that is at most `max`.
pub fn parse_number(s: &str, radix: u32, max: u64) -> (r: Result<u64, IntFault>)
    requires
        2 <= radix <= 36,
    ensures
        match r {
            Ok(v) => number_value(s@, radix as nat, max as nat) == Ok::<nat, IntFault>(v as nat),
            Err(fault) => number_value(s@, radix as nat, max as nat) == Err::<nat, IntFault>(fault),
        },
{
    let v: Vec<char> = chars_of(s);
    if v.len() == 0 {
        return Err(IntFault::Empty);
    }
    let signed: bool = v[0] == '+';
    if signed && v.len() == 1 {
        return Err(IntFault::InvalidDigit);
    }
    let start: usize = if signed {
        1
    } else {
        0
    };
    let ghost digits = v@.skip(start as int);
    assert(signed ==> digits =~= s@.drop_first());
    assert(!signed ==> digits =~= s@);
    let mut i: usize = start;
    let mut total: u64 = 0;
    assert(digits.take(0) =~= Seq::<char>::empty());
    while i < v.len()
        invariant
            2 <= radix <= 36,
            start <= i <= v.len(),
            digits == v@.skip(start as int),
            number_value(s@, radix as nat, max as nat) == digits_value(
                digits,
                radix as nat,
                max as nat,
            ),
            digits_value(digits.take(i - start), radix as nat, max as nat) == Ok::<nat, IntFault>(
                total as nat,
            ),
        decreases v.len() - i,
    {
        let ghost k = i - start;
        assert(digits.take(k + 1).drop_last() =~= digits.take(k));
        assert(digits.take(k + 1).last() == v@[i as int]);
        match digit_of(v[i], radix) {
            None => {
                proof {
                    lemma_fault_stays(digits, k + 1, radix as nat, max as nat);
                }
                return Err(IntFault::InvalidDigit);
            },
            Some(d) => {
                assert(total as int * radix as int <= u64::MAX * 36) by (nonlinear_arith)
                    requires
                        total <= u64::MAX,
                        radix <= 36,
                ;
                let next: u128 = total as u128 * radix as u128 + d as u128;
                if next > max as u128 {
                    proof {
                        lemma_fault_stays(digits, k + 1, radix as nat, max as nat);
                    }
                    return Err(IntFault::PosOverflow);
                }
                total = next as u64;
            },
        }
        i = i + 1;
    }
    assert(digits.take(digits.len() as int) =~= digits);
    Ok(total)
}

/// The digit that writes `d`.
pub open spec fn digit_char(d: nat) -> char {
    if d < 10 {
        (48 + d) as char
    } else {
        (87 + d) as char
    }
}

/// The digit that writes `d`.
pub fn digit_for(d: u8) -> (r: char)
    requires
        d < 36,
    ensures
        r == digit_char(d as nat),
{
    if d < 10 {
        (48 + d) as char
    } else {
        (87 + d) as char
    }
}

/// `n` in decimal, without leading zeros.
pub open spec fn decimal(n: nat) -> Seq<char>
    decreases n,
{
    if n < 10 {
        seq![digit_char(n)]
    } else {
        decimal(n / 10).push(digit_char(n % 10))
    }
}

/// `n` in decimal, without leading zeros.
pub fn decimal_text(n: u64) -> (r: String)
    ensures
        r@ == decimal(n as nat),
    decreases n,
{
    if n < 10 {
        let mut r: String = String::new();
        r.push(digit_for(n as u8));
        assert(r@ =~= seq![digit_char(n as nat)]);
        r
    } else {
        let mut r: String = decimal_text(n / 10);
        r.push(digit_for((n % 10) as u8));
        r
    }
}

/// `n` in decimal with leading zeros up to `width` digits.
pub open spec fn padded(n: nat, width: nat) -> Seq<char> {
    let digits = decimal(n);
    if digits.len() < width {
        Seq::new((width - digits.len()) as nat, |i: int| '0') + digits
    } else {
        digits
    }
}

/// `n` in decimal with leading zeros up to `width` digits.
pub fn padded_text(n: u64, width: usize) -> (r: String)
    ensures
        r@ == padded(n as nat, width as nat),
{
    let digits: String = decimal_text(n);
    let have: usize = chars_of(digits.as_str()).len();
    let mut r: String = String::new();
    let mut i: usize = have;
    while i < width
        invariant
            i <= width || i == have,
            have <= i,
            r@ == Seq::new((i - have) as nat, |j: int| '0'),
        decreases width - i,
    {
        r.push('0');
        i = i + 1;
        assert(r@ =~= Seq::new((i - have) as nat, |j: int| '0'));
    }
    r.append(digits.as_str());
    assert(have >= width ==> r@ =~= digits@);
    r
}

/// The `width` low hexadecimal digits of `n`.
pub open spec fn hex_digits(n: nat, width: nat) -> Seq<char>
    decreases width,
{
    if width == 0 {
        Seq::empty()
    } else {
        hex_digits(n / 16, (width - 1) as nat).push(digit_char(n % 16))
    }
}

/// The `width` low hexadecimal digits of `n`.
pub fn hex_text(n: u64, width: usize) -> (r: String)
    ensures
        r@ == hex_digits(n as nat, width as nat),
    decreases width,
{
    if width == 0 {
        String::new()
    } else {
        let mut r: String = hex_text(n / 16, width - 1);
        r.push(digit_for((n % 16) as u8));
        r
    }
}

/// A digit reads back as what it was written for.
pub proof fn lemma_digit_reads_back(d: nat, radix: nat)
    requires
        d < radix <= 36,
    ensures
        digit_value(digit_char(d), radix) == Some(d),
{
}

/// Decimal text reads back as the number it was written for, under every limit that
/// the number keeps.
pub proof fn law_decimal_reads_back(n: nat, max: nat)
    requires
        n <= max,
    ensures
        number_value(decimal(n), 10, max) == Ok::<nat, IntFault>(n),
{
    lemma_decimal_digits(n, max);
    lemma_decimal_first(n);
}

proof fn lemma_decimal_digits(n: nat, max: nat)
    requires
        n <= max,
    ensures
        digits_value(decimal(n), 10, max) == Ok::<nat, IntFault>(n),
    decreases n,
{
    if n < 10 {
        assert(decimal(n).drop_last() =~= Seq::<char>::empty());
        lemma_digit_reads_back(n, 10);
        assert(digits_value(Seq::empty(), 10, max) == Ok::<nat, IntFault>(0));
    } else {
        lemma_decimal_digits(n / 10, max);
        lemma_digit_reads_back(n % 10, 10);
        assert(decimal(n).drop_last() =~= decimal(n / 10));
    }
}

proof fn lemma_decimal_first(n: nat)
    ensures
        decimal(n).len() > 0,
        decimal(n)[0] != '+',
    decreases n,
{
    if n >= 10 {
        lemma_decimal_first(n / 10);
    }
}

/// Decimal text is written with the ten digits: a number below ten is its digit, and ten times a
/// number and a digit is the number followed by that digit.
pub proof fn law_decimal_is_positional(n: nat, d: nat)
    requires
        d < 10,
    ensures
        decimal(d) == seq!["0123456789"@[d as int]],
        n > 0 ==> decimal(10 * n + d) == decimal(n).push("0123456789"@[d as int]),
{
    reveal_strlit("0123456789");
    let c = "0123456789"@[d as int];
    assert(digit_char(d) == c) by {
        lemma_ten_digits(d);
    }
    assert((10 * n + d) / 10 == n);
    assert((10 * n + d) % 10 == d);
}

proof fn lemma_ten_digits(d: nat)
    requires
        d < 10,
    ensures
        digit_char(d) == "0123456789"@[d as int],
{
    reveal_strlit("0123456789");
}

/// A digit of a base up to sixteen counts its place among the sixteen digits, in either case, and
/// a character that is none of the base's digits counts nothing.
pub proof fn law_digits_count(c: char, radix: nat)
    requires
        2 <= radix <= 16,
    ensures
        forall|d: int|
            0 <= d < radix ==> digit_value(#[trigger] "0123456789abcdef"@[d], radix) == Some(
                d as nat,
            ),
        forall|d: int|
            0 <= d < radix ==> digit_value(#[trigger] "0123456789ABCDEF"@[d], radix) == Some(
                d as nat,
            ),
        digit_value(c, radix) is None <==> (forall|d: int|
            0 <= d < radix ==> c != #[trigger] "0123456789abcdef"@[d] && c
                != "0123456789ABCDEF"@[d]),
{
    reveal_strlit("0123456789abcdef");
    reveal_strlit("0123456789ABCDEF");
    let low = "0123456789abcdef"@;
    let high = "0123456789ABCDEF"@;
    assert forall|d: int| 0 <= d < radix implies digit_value(#[trigger] low[d], radix) == Some(
        d as nat,
    ) by {}
    assert forall|d: int| 0 <= d < radix implies digit_value(#[trigger] high[d], radix) == Some(
        d as nat,
    ) by {}
    if let Some(v) = digit_value(c, radix) {
        assert(c == low[v as int] || c == high[v as int]);
    }
}

/// A number grows digit by digit: what is read before a further digit counts the base times as
/// much as that digit, and a character that is no digit makes the whole no number. What is no
/// number does not become one by going on.
pub proof fn law_numbers_grow_by_digits(s: Seq<char>, c: char, radix: nat, max: nat)
    requires
        s.len() > 0,
        s != seq!['+'],
    ensures
        number_value(s, radix, max) is Err ==> number_value(s.push(c), radix, max) == number_value(
            s,
            radix,
            max,
        ),
        number_value(s, radix, max) is Ok ==> match digit_value(c, radix) {
            None => number_value(s.push(c), radix, max) == Err::<nat, IntFault>(
                IntFault::InvalidDigit,
            ),
            Some(d) => number_value(s.push(c), radix, max) == (if number_value(
                s,
                radix,
                max,
            )->Ok_0 * radix + d <= max {
                Ok::<nat, IntFault>((number_value(s, radix, max)->Ok_0 * radix + d) as nat)
            } else {
                Err::<nat, IntFault>(IntFault::PosOverflow)
            }),
        },
{
    let t = s.push(c);
    assert(s.len() == 1 && s[0] == '+' ==> s =~= seq!['+']);
    if s[0] == '+' {
        assert(t.drop_first().drop_last() =~= s.drop_first());
        assert(t.drop_first().last() == c);
    } else {
        assert(t.drop_last() =~= s);
    }
}

/// Nothing is no number and neither is a sign alone; one digit is a number, and a sign before
/// digits changes nothing.
pub proof fn law_numbers_start_with_a_digit(c: char, s: Seq<char>, radix: nat, max: nat)
    requires
        radix <= max,
        2 <= radix <= 36,
    ensures
        number_value(Seq::empty(), radix, max) == Err::<nat, IntFault>(IntFault::Empty),
        number_value(seq!['+'], radix, max) == Err::<nat, IntFault>(IntFault::InvalidDigit),
        number_value(seq![c], radix, max) == match digit_value(c, radix) {
            Some(d) => Ok::<nat, IntFault>(d),
            None => Err::<nat, IntFault>(IntFault::InvalidDigit),
        },
        s.len() > 0 && s[0] != '+' ==> number_value(seq!['+'] + s, radix, max) == number_value(
            s,
            radix,
            max,
        ),
{
    let one = seq![c];
    assert(one.drop_last() =~= Seq::<char>::empty());
    assert(digits_value(Seq::<char>::empty(), radix, max) == Ok::<nat, IntFault>(0));
    assert(digit_value('+', radix) is None);
    assert(0 * radix == 0) by (nonlinear_arith);
    if s.len() > 0 {
        assert((seq!['+'] + s).drop_first() =~= s);
    }
}

/// Padded text is as wide as asked, longer only where the number is, and still reads as the
/// number.
pub proof fn law_padded_reads_back(n: nat, width: nat, max: nat)
    requires
        n <= max,
    ensures
        padded(n, width).len() == (if decimal(n).len() < width {
            width
        } else {
            decimal(n).len()
        }),
        number_value(padded(n, width), 10, max) == Ok::<nat, IntFault>(n),
        forall|i: int| 0 <= i < padded(n, width).len() - decimal(n).len() ==> padded(n, width)[i]
            == '0',
{
    lemma_decimal_digits(n, max);
    lemma_decimal_first(n);
    if decimal(n).len() < width {
        let zeros = Seq::new((width - decimal(n).len()) as nat, |i: int| '0');
        lemma_zeros_in_front(zeros, decimal(n), 10, max);
    }
}

/// Zeros in front change nothing about a number.
pub proof fn lemma_zeros_in_front(zeros: Seq<char>, s: Seq<char>, radix: nat, max: nat)
    requires
        radix > 0,
        forall|i: int| 0 <= i < zeros.len() ==> zeros[i] == '0',
    ensures
        digits_value(zeros + s, radix, max) == digits_value(s, radix, max),
    decreases zeros.len() + s.len(),
{
    if s.len() > 0 {
        assert((zeros + s).drop_last() =~= zeros + s.drop_last());
        lemma_zeros_in_front(zeros, s.drop_last(), radix, max);
    } else if zeros.len() > 0 {
        assert((zeros + s).drop_last() =~= zeros.drop_last() + s);
        lemma_zeros_in_front(zeros.drop_last(), s, radix, max);
        assert(digit_value('0', radix) == Some(0nat));
        assert(0 * radix == 0) by (nonlinear_arith);
    } else {
        assert(zeros + s =~= s);
    }
}

/// `n` in octal, without leading zeros.
pub open spec fn octal(n: nat) -> Seq<char>
    decreases n,
{
    if n < 8 {
        seq![digit_char(n)]
    } else {
        octal(n / 8).push(digit_char(n % 8))
    }
}

/// Octal text reads back as the number it was written for, and starts with a digit.
pub proof fn lemma_octal_reads_back(n: nat, max: nat)
    requires
        n <= max,
    ensures
        digits_value(octal(n), 8, max) == Ok::<nat, IntFault>(n),
        number_value(octal(n), 8, max) == Ok::<nat, IntFault>(n),
        octal(n).len() > 0,
        forall|i: int| 0 <= i < octal(n).len() ==> '0' <= #[trigger] octal(n)[i] <= '7',
    decreases n,
{
    if n < 8 {
        assert(octal(n).drop_last() =~= Seq::<char>::empty());
        lemma_digit_reads_back(n, 8);
        assert(digits_value(Seq::empty(), 8, max) == Ok::<nat, IntFault>(0));
    } else {
        lemma_octal_reads_back(n / 8, max);
        lemma_digit_reads_back(n % 8, 8);
        assert(octal(n).drop_last() =~= octal(n / 8));
    }
}

/// The low hexadecimal digits of a number read back as the number, where they are enough for it.
pub proof fn law_hex_digits_read_back(n: nat, width: nat, max: nat)
    requires
        n <= max,
    ensures
        hex_digits(n, width).len() == width,
        n < pow(16, width) ==> digits_value(hex_digits(n, width), 16, max) == Ok::<nat, IntFault>(
            n,
        ),
    decreases width,
{
    reveal(pow);
    if width > 0 {
        law_hex_digits_read_back(n / 16, (width - 1) as nat, max);
        lemma_digit_reads_back(n % 16, 16);
        assert(hex_digits(n, width).drop_last() =~= hex_digits(n / 16, (width - 1) as nat));
        assert(pow(16, width) == 16 * pow(16, (width - 1) as nat));
    }
}

} // verus!
