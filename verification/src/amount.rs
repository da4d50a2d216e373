//! Money amounts in centavos: reading them from ledger cells and writing
//! them back as decimal text.
//!
//! An amount is a signed whole number of centavos, so that sums are exact.
//! A cell is read by dropping the currency decorations and then reading a
//! numeral: an optional sign, digits with an optional point among them, and
//! an optional exponent of ten, as in `1,000.50`, `-.5` or `2.5E-1`. The
//! number it writes is rounded to the nearest centavo, a half away from
//! zero. Text that writes no finite number, or one of more than `i64::MAX`
//! centavos, is unreadable.

use vstd::prelude::*;
use crate::text::{digit_char, first_position, lemma_first_position, nat_text, push_nat};

verus! {

/// The currency glyph and the thousands separator, which carry no value.
pub open spec fn is_decoration(c: char) -> bool {
    c == '\u{20B1}' || c == ','
}

/// `cell` without its currency decorations.
pub open spec fn strip_decorations(cell: Seq<char>) -> Seq<char> {
    cell.filter(|c: char| !is_decoration(c))
}

/// `c` is one of the ten decimal digits.
pub open spec fn is_digit(c: char) -> bool {
    c == '0' || c == '1' || c == '2' || c == '3' || c == '4' || c == '5' || c == '6' || c == '7'
        || c == '8' || c == '9'
}

/// The value of the digit `c`.
pub open spec fn digit_value(c: char) -> int {
    if c == '1' {
        1
    } else if c == '2' {
        2
    } else if c == '3' {
        3
    } else if c == '4' {
        4
    } else if c == '5' {
        5
    } else if c == '6' {
        6
    } else if c == '7' {
        7
    } else if c == '8' {
        8
    } else if c == '9' {
        9
    } else {
        0
    }
}

/// Every character of `s` is a decimal digit.
pub open spec fn all_digits(s: Seq<char>) -> bool {
    forall|i: int| 0 <= i < s.len() ==> is_digit(#[trigger] s[i])
}

/// The number written by the digits `s`, most significant first.
pub open spec fn digits_value(s: Seq<char>) -> nat
    decreases s.len(),
{
    if s.len() == 0 {
        0
    } else {
        (digits_value(s.drop_last()) * 10 + digit_value(s.last())) as nat
    }
}

/// Whether the numeral starts with a sign.
pub open spec fn has_sign(s: Seq<char>) -> bool {
    s.len() > 0 && (s[0] == '-' || s[0] == '+')
}

/// The numeral without its sign.
pub open spec fn unsigned_part(s: Seq<char>) -> Seq<char> {
    if has_sign(s) {
        s.skip(1)
    } else {
        s
    }
}

/// `c` introduces the exponent of a numeral.
pub open spec fn is_exponent_mark(c: char) -> bool {
    c == 'e' || c == 'E'
}

/// The position of the first exponent mark in `body`, or its length if
/// there is none.
pub open spec fn mark_position(body: Seq<char>) -> int {
    first_position(body.map_values(|c: char| is_exponent_mark(c)), true)
}

/// The part of an unsigned numeral before its exponent mark.
pub open spec fn mantissa_part(body: Seq<char>) -> Seq<char> {
    body.take(mark_position(body))
}

/// The part of an unsigned numeral after its exponent mark, if it has one.
pub open spec fn exponent_part(body: Seq<char>) -> Option<Seq<char>> {
    if mark_position(body) < body.len() {
        Some(body.skip(mark_position(body) + 1))
    } else {
        None
    }
}

/// The position of the first decimal point in `mantissa`, or its length if
/// there is none.
pub open spec fn point_position(mantissa: Seq<char>) -> int {
    first_position(mantissa, '.')
}

/// The digits before the decimal point.
pub open spec fn whole_digits(mantissa: Seq<char>) -> Seq<char> {
    mantissa.take(point_position(mantissa))
}

/// The digits after the decimal point; empty if there is no point.
pub open spec fn fraction_digits(mantissa: Seq<char>) -> Seq<char> {
    if point_position(mantissa) < mantissa.len() {
        mantissa.skip(point_position(mantissa) + 1)
    } else {
        Seq::empty()
    }
}

/// The digits of a mantissa, the point left out.
pub open spec fn significant_digits(mantissa: Seq<char>) -> Seq<char> {
    whole_digits(mantissa) + fraction_digits(mantissa)
}

/// `mantissa` is digits, optionally a point, and digits, with at least one
/// digit.
pub open spec fn is_decimal(mantissa: Seq<char>) -> bool {
    &&& all_digits(whole_digits(mantissa))
    &&& all_digits(fraction_digits(mantissa))
    &&& significant_digits(mantissa).len() > 0
}

/// `exponent` is an optional sign and at least one digit.
pub open spec fn is_exponent(exponent: Seq<char>) -> bool {
    unsigned_part(exponent).len() > 0 && all_digits(unsigned_part(exponent))
}

/// The whole number that an exponent writes.
pub open spec fn exponent_value(exponent: Seq<char>) -> int {
    if exponent.len() > 0 && exponent[0] == '-' {
        -(digits_value(unsigned_part(exponent)) as int)
    } else {
        digits_value(unsigned_part(exponent)) as int
    }
}

/// `body` is a decimal mantissa, optionally followed by an exponent mark
/// and an exponent.
pub open spec fn is_numeral(body: Seq<char>) -> bool {
    &&& is_decimal(mantissa_part(body))
    &&& exponent_part(body) matches Some(exponent) ==> is_exponent(exponent)
}

/// Ten to the power of `n`.
pub open spec fn power_of_ten(n: nat) -> nat
    decreases n,
{
    if n == 0 {
        1
    } else {
        10 * power_of_ten((n - 1) as nat)
    }
}

/// The number that `digits` write with the point after the first `cut` of
/// them, rounded to the nearest whole number, a half upwards. Where `cut`
/// is negative or more than the number of digits, zeros fill the gap.
pub open spec fn rounded_at(digits: Seq<char>, cut: int) -> int {
    if cut < 0 {
        0
    } else if cut <= digits.len() {
        digits_value(digits.take(cut)) + if cut < digits.len() && digit_value(digits[cut]) >= 5 {
            1int
        } else {
            0int
        }
    } else {
        (digits_value(digits) * power_of_ten((cut - digits.len()) as nat)) as int
    }
}

/// How many of the significant digits of an unsigned numeral stand before
/// the point once the number is written in centavos: the whole digits, as
/// many more as the exponent says, and two for the centavos.
pub open spec fn centavo_cut(body: Seq<char>) -> int {
    whole_digits(mantissa_part(body)).len() + (match exponent_part(body) {
        Some(exponent) => exponent_value(exponent),
        None => 0,
    }) + 2
}

/// The number that an unsigned numeral writes, in centavos, rounded to the
/// nearest centavo, a half upwards.
pub open spec fn body_centavos(body: Seq<char>) -> int {
    rounded_at(significant_digits(mantissa_part(body)), centavo_cut(body))
}

/// The amount that the numeral `s` writes, in centavos, rounded to the
/// nearest centavo, a half away from zero: `None` if `s` is no numeral or
/// its magnitude is more than `i64::MAX` centavos.
pub open spec fn numeral_centavos(s: Seq<char>) -> Option<int> {
    let body = unsigned_part(s);
    if is_numeral(body) && body_centavos(body) <= i64::MAX {
        if s[0] == '-' {
            Some(-body_centavos(body))
        } else {
            Some(body_centavos(body))
        }
    } else {
        None
    }
}

/// Nothing is lost where `digits` are cut after the first `cut` of them:
/// every digit from there on is a zero.
pub open spec fn exact_at(digits: Seq<char>, cut: int) -> bool {
    forall|j: int| 0 <= j < digits.len() && cut <= j ==> #[trigger] digits[j] == '0'
}

/// The numeral `s` writes an amount that is no whole number of centavos,
/// so that reading it rounds.
pub open spec fn numeral_is_rounded(s: Seq<char>) -> bool {
    let body = unsigned_part(s);
    numeral_centavos(s) is Some && !exact_at(
        significant_digits(mantissa_part(body)),
        centavo_cut(body),
    )
}

/// The amount that a ledger cell holds, in centavos: the numeral left after
/// the decorations are dropped, or zero where that is no numeral.
pub open spec fn cell_centavos(cell: Seq<char>) -> int {
    match numeral_centavos(strip_decorations(cell)) {
        Some(v) => v,
        None => 0,
    }
}

/// Whether a ledger cell holds a readable amount.
pub open spec fn cell_is_amount(cell: Seq<char>) -> bool {
    numeral_centavos(strip_decorations(cell)) is Some
}

/// Whether a ledger cell holds an amount that is rounded when read.
pub open spec fn cell_is_rounded(cell: Seq<char>) -> bool {
    numeral_is_rounded(strip_decorations(cell))
}

/// The decimal text of an amount in pesos: the whole pesos, then the
/// centavos after a point unless they are zero, a trailing zero dropped.
pub open spec fn amount_text(centavos: int) -> Seq<char> {
    let magnitude = if centavos < 0 {
        -centavos
    } else {
        centavos
    };
    let sign = if centavos < 0 {
        seq!['-']
    } else {
        Seq::<char>::empty()
    };
    let part = magnitude % 100;
    let fraction = if part == 0 {
        Seq::<char>::empty()
    } else if part % 10 == 0 {
        seq!['.', digit_char(part / 10)]
    } else {
        seq!['.', digit_char(part / 10), digit_char(part % 10)]
    };
    sign + nat_text((magnitude / 100) as nat) + fraction
}

/// The value of the digit `c`, if it is one.
fn digit_of(c: char) -> (d: Option<u8>)
    ensures
        d is Some <==> is_digit(c),
        d matches Some(v) ==> v == digit_value(c) && v < 10,
{
    if c == '0' {
        Some(0)
    } else if c == '1' {
        Some(1)
    } else if c == '2' {
        Some(2)
    } else if c == '3' {
        Some(3)
    } else if c == '4' {
        Some(4)
    } else if c == '5' {
        Some(5)
    } else if c == '6' {
        Some(6)
    } else if c == '7' {
        Some(7)
    } else if c == '8' {
        Some(8)
    } else if c == '9' {
        Some(9)
    } else {
        None
    }
}

/// Drops the currency glyph and the thousands separators from a cell.
pub fn strip_currency(cell: &Vec<char>) -> (plain: Vec<char>)
    ensures
        plain@ == strip_decorations(cell@),
{
    let mut plain: Vec<char> = Vec::new();
    let mut i: usize = 0;
    assert(cell@.take(0) =~= Seq::<char>::empty());
    while i < cell.len()
        invariant
            i <= cell.len(),
            plain@ == strip_decorations(cell@.take(i as int)),
        decreases cell.len() - i,
    {
        let c = cell[i];
        proof {
            assert(cell@.take(i + 1) =~= cell@.take(i as int).push(c));
            cell@.take(i as int).lemma_filter_push(c, |c: char| !is_decoration(c));
        }
        if !(c == '\u{20B1}' || c == ',') {
            plain.push(c);
        }
        i = i + 1;
    }
    assert(cell@.take(cell.len() as int) =~= cell@);
    plain
}

/// The largest magnitude of an amount, in centavos.
const AMOUNT_LIMIT: u64 = 0x7FFF_FFFF_FFFF_FFFF;

/// Past this magnitude an exponent is only known to be large.
const EXPONENT_CAP: i128 = 0x40_0000_0000_0000_0000;

/// An exponent, or the first whole number past the cap on its side where
/// it lies past the cap.
spec fn clamped_exponent(e: int) -> int {
    if e > EXPONENT_CAP {
        EXPONENT_CAP + 1
    } else if e < -EXPONENT_CAP {
        -EXPONENT_CAP - 1
    } else {
        e
    }
}

/// One more digit at the end multiplies the number by ten and adds the
/// digit.
proof fn lemma_digits_value_step(digits: Seq<char>, k: int)
    requires
        0 <= k < digits.len(),
    ensures
        digits_value(digits.take(k + 1)) == digits_value(digits.take(k)) * 10 + digit_value(
            digits[k],
        ),
        digits_value(digits.take(k + 1)) >= digits_value(digits.take(k)),
{
    assert(digits.take(k + 1).drop_last() =~= digits.take(k));
    assert(digits.take(k + 1).last() == digits[k]);
}

/// Powers of ten are positive, and from the nineteenth on they are more
/// than any amount.
proof fn lemma_power_of_ten_grows(n: nat)
    ensures
        power_of_ten(n) >= 1,
        n >= 19 ==> power_of_ten(n) >= 10_000_000_000_000_000_000,
    decreases n,
{
    if n == 0 {
    } else if n == 19 {
        reveal_with_fuel(power_of_ten, 20);
    } else {
        lemma_power_of_ten_grows((n - 1) as nat);
    }
}

/// Two cuts that both lie before the digits, or both far behind them, give
/// the same amount where either gives one.
proof fn lemma_far_cuts_agree(digits: Seq<char>, cut: int, other: int)
    requires
        (cut < 0 && other < 0) || (cut >= digits.len() + 19 && other >= digits.len() + 19),
    ensures
        rounded_at(digits, cut) <= AMOUNT_LIMIT <==> rounded_at(digits, other) <= AMOUNT_LIMIT,
        rounded_at(digits, cut) <= AMOUNT_LIMIT ==> rounded_at(digits, cut) == rounded_at(
            digits,
            other,
        ),
{
    if cut >= 0 {
        let value = digits_value(digits);
        let p = power_of_ten((cut - digits.len()) as nat);
        let q = power_of_ten((other - digits.len()) as nat);
        lemma_power_of_ten_grows((cut - digits.len()) as nat);
        lemma_power_of_ten_grows((other - digits.len()) as nat);
        if value > 0 {
            assert(value * p >= 10_000_000_000_000_000_000) by (nonlinear_arith)
                requires
                    value >= 1,
                    p >= 10_000_000_000_000_000_000,
            ;
            assert(value * q >= 10_000_000_000_000_000_000) by (nonlinear_arith)
                requires
                    value >= 1,
                    q >= 10_000_000_000_000_000_000,
            ;
        } else {
            assert(value * p == 0) by (nonlinear_arith)
                requires
                    value == 0,
            ;
            assert(value * q == 0) by (nonlinear_arith)
                requires
                    value == 0,
            ;
        }
    }
}

/// Where the first exponent mark stands at or after `start`, or the length
/// of `s` if there is none.
fn find_mark(s: &Vec<char>, start: usize) -> (mark: usize)
    requires
        start <= s.len(),
    ensures
        start <= mark <= s.len(),
        mark - start == mark_position(s@.skip(start as int)),
{
    let ghost body = s@.skip(start as int);
    let ghost marks = body.map_values(|c: char| is_exponent_mark(c));
    let mut mark: usize = start;
    while mark < s.len() && !(s[mark] == 'e' || s[mark] == 'E')
        invariant
            start <= mark <= s.len(),
            body == s@.skip(start as int),
            marks == body.map_values(|c: char| is_exponent_mark(c)),
            forall|j: int| 0 <= j < mark - start ==> !#[trigger] marks[j],
        decreases s.len() - mark,
    {
        assert(marks[mark - start] == is_exponent_mark(s@[mark as int]));
        mark = mark + 1;
    }
    proof {
        lemma_first_position(marks, true);
        if mark < s.len() {
            assert(marks[mark - start] == is_exponent_mark(s@[mark as int]));
        }
    }
    mark
}

/// Reads the exponent that stands from `from` to the end of `s`.
fn read_exponent(s: &Vec<char>, from: usize) -> (exponent: Option<i128>)
    requires
        from <= s.len(),
    ensures
        exponent is Some <==> is_exponent(s@.skip(from as int)),
        exponent matches Some(e) ==> e == clamped_exponent(
            exponent_value(s@.skip(from as int)),
        ),
{
    let n: usize = s.len();
    let ghost text = s@.skip(from as int);
    let negative: bool = from < n && s[from] == '-';
    let start: usize = if from < n && (s[from] == '-' || s[from] == '+') {
        from + 1
    } else {
        from
    };
    let ghost digits = unsigned_part(text);
    proof {
        assert(digits.len() == n - start);
        assert(forall|j: int| 0 <= j < digits.len() ==> digits[j] == s@[start + j]);
    }
    if start == n {
        return None;
    }
    let mut magnitude: i128 = 0;
    let mut huge: bool = false;
    let mut i: usize = start;
    assert(digits.take(0) =~= Seq::<char>::empty());
    while i < n
        invariant
            start <= i <= n,
            n == s.len(),
            text == s@.skip(from as int),
            digits == unsigned_part(text),
            digits.len() == n - start,
            forall|j: int| 0 <= j < digits.len() ==> digits[j] == s@[start + j],
            forall|j: int| 0 <= j < i - start ==> is_digit(#[trigger] digits[j]),
            !huge ==> magnitude == digits_value(digits.take(i - start)) && magnitude
                <= EXPONENT_CAP,
            huge ==> digits_value(digits.take(i - start)) > EXPONENT_CAP,
        decreases n - i,
    {
        proof {
            lemma_digits_value_step(digits, i - start);
        }
        match digit_of(s[i]) {
            None => {
                assert(!is_digit(digits[i - start]));
                return None;
            },
            Some(d) => {
                if !huge {
                    let next: i128 = magnitude * 10 + d as i128;
                    if next > EXPONENT_CAP {
                        huge = true;
                    } else {
                        magnitude = next;
                    }
                }
            },
        }
        i = i + 1;
    }
    assert(digits.take(digits.len() as int) =~= digits);
    let size: i128 = if huge {
        EXPONENT_CAP + 1
    } else {
        magnitude
    };
    if negative {
        Some(-size)
    } else {
        Some(size)
    }
}

/// Reads the mantissa that stands in `s` from `start` up to `mark`: its
/// digits with the point left out, and how many of them stand before the
/// point.
fn read_mantissa(s: &Vec<char>, start: usize, mark: usize) -> (read: Option<(Vec<char>, usize)>)
    requires
        start <= mark <= s.len(),
    ensures
        read is Some <==> is_decimal(s@.subrange(start as int, mark as int)),
        read matches Some((digits, whole)) ==> {
            &&& digits@ == significant_digits(s@.subrange(start as int, mark as int))
            &&& whole == whole_digits(s@.subrange(start as int, mark as int)).len()
            &&& all_digits(digits@)
        },
{
    let ghost mantissa = s@.subrange(start as int, mark as int);
    proof {
        lemma_first_position(mantissa, '.');
    }
    let mut digits: Vec<char> = Vec::new();
    let mut i: usize = start;
    assert(mantissa.take(0) =~= Seq::<char>::empty());
    while i < mark && s[i] != '.'
        invariant
            start <= i <= mark <= s.len(),
            mantissa == s@.subrange(start as int, mark as int),
            forall|j: int| 0 <= j < i - start ==> #[trigger] mantissa[j] != '.',
            digits@ == mantissa.take(i - start),
            all_digits(digits@),
        decreases mark - i,
    {
        let c = s[i];
        assert(mantissa[i - start] == c);
        match digit_of(c) {
            None => {
                proof {
                    lemma_first_position(mantissa, '.');
                    assert(point_position(mantissa) > i - start);
                    assert(whole_digits(mantissa)[i - start] == c);
                }
                return None;
            },
            Some(_) => {
                digits.push(c);
                assert(digits@ =~= mantissa.take(i - start + 1));
            },
        }
        i = i + 1;
    }
    let point: usize = i;
    proof {
        lemma_first_position(mantissa, '.');
        if point < mark {
            assert(mantissa[point - start] == s@[point as int]);
        }
        assert(point_position(mantissa) == point - start);
        assert(digits@ =~= whole_digits(mantissa));
    }
    let whole: usize = point - start;
    let first: usize = if point < mark {
        point + 1
    } else {
        mark
    };
    let ghost fraction = fraction_digits(mantissa);
    proof {
        assert(fraction.len() == mark - first);
        assert(forall|j: int| 0 <= j < fraction.len() ==> fraction[j] == s@[first + j]);
        assert(fraction.take(0) =~= Seq::<char>::empty());
        assert(digits@ =~= whole_digits(mantissa) + fraction.take(0));
    }
    let mut f: usize = first;
    while f < mark
        invariant
            first <= f <= mark <= s.len(),
            mantissa == s@.subrange(start as int, mark as int),
            fraction == fraction_digits(mantissa),
            fraction.len() == mark - first,
            forall|j: int| 0 <= j < fraction.len() ==> fraction[j] == s@[first + j],
            digits@ == whole_digits(mantissa) + fraction.take(f - first),
            all_digits(whole_digits(mantissa)),
            all_digits(digits@),
            whole == whole_digits(mantissa).len(),
        decreases mark - f,
    {
        let c = s[f];
        match digit_of(c) {
            None => {
                assert(!is_digit(fraction[f - first]));
                return None;
            },
            Some(_) => {
                digits.push(c);
                assert(fraction.take(f - first + 1) =~= fraction.take(f - first).push(c));
                assert(digits@ =~= whole_digits(mantissa) + fraction.take(f - first + 1));
            },
        }
        f = f + 1;
    }
    proof {
        assert(fraction.take(fraction.len() as int) =~= fraction);
        assert forall|j: int| 0 <= j < fraction.len() implies is_digit(#[trigger] fraction[j]) by {
            assert(digits@[whole + j] == fraction[j]);
        }
    }
    if digits.len() == 0 {
        return None;
    }
    Some((digits, whole))
}

/// The number that `digits` write with the point after the first `cut` of
/// them, rounded to the nearest whole number; `None` where it is more than
/// the largest amount.
fn round_digits(digits: &Vec<char>, cut: i128) -> (rounded: Option<u64>)
    requires
        all_digits(digits@),
    ensures
        rounded is Some <==> rounded_at(digits@, cut as int) <= AMOUNT_LIMIT,
        rounded matches Some(v) ==> v == rounded_at(digits@, cut as int),
{
    if cut < 0 {
        return Some(0);
    }
    let count: usize = digits.len();
    let take: usize = if cut <= count as i128 {
        cut as usize
    } else {
        count
    };
    let mut kept: u64 = 0;
    let mut large: bool = false;
    let mut j: usize = 0;
    assert(digits@.take(0) =~= Seq::<char>::empty());
    while j < take
        invariant
            j <= take <= count,
            count == digits.len(),
            all_digits(digits@),
            !large ==> kept == digits_value(digits@.take(j as int)) && kept <= AMOUNT_LIMIT,
            large ==> digits_value(digits@.take(j as int)) > AMOUNT_LIMIT,
        decreases take - j,
    {
        proof {
            lemma_digits_value_step(digits@, j as int);
        }
        let d: u8 = match digit_of(digits[j]) {
            Some(d) => d,
            None => 0,
        };
        if !large {
            let next: u128 = kept as u128 * 10 + d as u128;
            if next > AMOUNT_LIMIT as u128 {
                large = true;
            } else {
                kept = next as u64;
            }
        }
        j = j + 1;
    }
    if cut <= count as i128 {
        if large {
            return None;
        }
        let up: u64 = if take < count {
            match digit_of(digits[take]) {
                Some(d) => if d >= 5 {
                    1
                } else {
                    0
                },
                None => 0,
            }
        } else {
            0
        };
        let total: u64 = kept + up;
        if total > AMOUNT_LIMIT {
            None
        } else {
            Some(total)
        }
    } else {
        proof {
            assert(digits@.take(count as int) =~= digits@);
            lemma_power_of_ten_grows((cut - count) as nat);
        }
        let ghost value = digits_value(digits@);
        let ghost zeros = (cut - count) as nat;
        if large {
            assert(value * power_of_ten(zeros) > AMOUNT_LIMIT) by (nonlinear_arith)
                requires
                    value > AMOUNT_LIMIT,
                    power_of_ten(zeros) >= 1,
            ;
            return None;
        }
        if kept == 0 {
            assert(value * power_of_ten(zeros) == 0) by (nonlinear_arith)
                requires
                    value == 0,
            ;
            return Some(0);
        }
        let mut left: i128 = cut - count as i128;
        assert(kept * power_of_ten(left as nat) == value * power_of_ten(zeros));
        while left > 0
            invariant
                0 <= left <= zeros,
                1 <= kept <= AMOUNT_LIMIT,
                count == digits.len(),
                cut > count,
                zeros == cut - count,
                value == digits_value(digits@),
                kept * power_of_ten(left as nat) == value * power_of_ten(zeros),
            decreases left,
        {
            proof {
                lemma_power_of_ten_grows((left - 1) as nat);
                assert(kept * power_of_ten(left as nat) == (kept * 10) * power_of_ten(
                    (left - 1) as nat,
                )) by (nonlinear_arith)
                    requires
                        power_of_ten(left as nat) == 10 * power_of_ten((left - 1) as nat),
                ;
            }
            let next: u128 = kept as u128 * 10;
            if next > AMOUNT_LIMIT as u128 {
                assert((kept * 10) * power_of_ten((left - 1) as nat) > AMOUNT_LIMIT)
                    by (nonlinear_arith)
                    requires
                        kept * 10 > AMOUNT_LIMIT,
                        power_of_ten((left - 1) as nat) >= 1,
                ;
                return None;
            }
            kept = next as u64;
            left = left - 1;
        }
        assert(kept * power_of_ten(0) == kept) by (nonlinear_arith)
            requires
                power_of_ten(0) == 1,
        ;
        Some(kept)
    }
}

/// Whether every digit from the first `cut` on is a zero.
fn digits_exact(digits: &Vec<char>, cut: i128) -> (exact: bool)
    ensures
        exact == exact_at(digits@, cut as int),
{
    let count: usize = digits.len();
    let from: usize = if cut <= 0 {
        0
    } else if cut >= count as i128 {
        count
    } else {
        cut as usize
    };
    let mut j: usize = from;
    while j < count
        invariant
            from <= j <= count,
            count == digits.len(),
            cut <= from || from == count,
            from <= cut || from == 0,
            forall|k: int| from <= k < j ==> #[trigger] digits@[k] == '0',
        decreases count - j,
    {
        if digits[j] != '0' {
            return false;
        }
        j = j + 1;
    }
    true
}

/// Reads a numeral as centavos, rounded to the nearest centavo, and says
/// whether it had to round.
pub fn parse_numeral_noting(s: &Vec<char>) -> (read: Option<(i64, bool)>)
    ensures
        read is Some <==> numeral_centavos(s@) is Some,
        read matches Some((v, rounded)) ==> numeral_centavos(s@) == Some(v as int) && rounded
            == numeral_is_rounded(s@),
{
    let n: usize = s.len();
    let negative: bool = n > 0 && s[0] == '-';
    let start: usize = if n > 0 && (s[0] == '-' || s[0] == '+') {
        1
    } else {
        0
    };
    let ghost body = unsigned_part(s@);
    assert(body =~= s@.skip(start as int));
    let mark = find_mark(s, start);
    let ghost mantissa = mantissa_part(body);
    proof {
        assert(mantissa =~= s@.subrange(start as int, mark as int));
        if mark < n {
            assert(body.skip(mark - start + 1) =~= s@.skip(mark + 1));
        }
    }
    let exponent: i128 = if mark < n {
        match read_exponent(s, mark + 1) {
            Some(e) => e,
            None => {
                return None;
            },
        }
    } else {
        0
    };
    let (digits, whole) = match read_mantissa(s, start, mark) {
        Some(read) => read,
        None => {
            return None;
        },
    };
    assert(is_numeral(body));
    let cut: i128 = whole as i128 + exponent + 2;
    let rounded = round_digits(&digits, cut);
    let exact = digits_exact(&digits, cut);
    proof {
        let true_cut = centavo_cut(body);
        if true_cut != cut {
            lemma_far_cuts_agree(digits@, cut as int, true_cut);
        }
        assert(body_centavos(body) == rounded_at(digits@, true_cut));
        assert(exact == exact_at(digits@, true_cut));
    }
    match rounded {
        Some(magnitude) => {
            if negative {
                Some((-(magnitude as i64), !exact))
            } else {
                Some((magnitude as i64, !exact))
            }
        },
        None => None,
    }
}

/// Reads a numeral as centavos, rounded to the nearest centavo.
pub fn parse_numeral(s: &Vec<char>) -> (amount: Option<i64>)
    ensures
        amount is Some <==> numeral_centavos(s@) is Some,
        amount matches Some(v) ==> numeral_centavos(s@) == Some(v as int),
{
    match parse_numeral_noting(s) {
        Some((v, _)) => Some(v),
        None => None,
    }
}

/// Reads the amount that a ledger cell holds, in centavos; `None` where the
/// cell holds no readable amount.
pub fn read_amount(cell: &str) -> (amount: Option<i64>)
    ensures
        amount is Some <==> cell_is_amount(cell@),
        amount matches Some(v) ==> v == cell_centavos(cell@),
{
    let raw = crate::text::chars_of(cell);
    let plain = strip_currency(&raw);
    parse_numeral(&plain)
}

/// Reads the amount that a ledger cell holds, in centavos, and says whether
/// it had to round; `None` where the cell holds no readable amount.
pub fn read_amount_noting(cell: &str) -> (read: Option<(i64, bool)>)
    ensures
        read is Some <==> cell_is_amount(cell@),
        read matches Some((v, rounded)) ==> v == cell_centavos(cell@) && rounded
            == cell_is_rounded(cell@),
{
    let raw = crate::text::chars_of(cell);
    let plain = strip_currency(&raw);
    parse_numeral_noting(&plain)
}

/// Appends the decimal text of an amount to `out`.
pub fn push_amount(out: &mut Vec<char>, centavos: i64)
    ensures
        final(out)@ == old(out)@ + amount_text(centavos as int),
{
    if centavos < 0 {
        out.push('-');
    }
    let magnitude: u64 = if centavos == i64::MIN {
        0x8000_0000_0000_0000u64
    } else if centavos < 0 {
        (-centavos) as u64
    } else {
        centavos as u64
    };
    push_nat(out, magnitude / 100);
    let part: u64 = magnitude % 100;
    if part != 0 {
        out.push('.');
        push_nat(out, part / 10);
        if part % 10 != 0 {
            push_nat(out, part % 10);
        }
    }
    assert(out@ =~= old(out)@ + amount_text(centavos as int));
}

/// The decimal text of an amount.
pub fn format_amount(centavos: i64) -> (text: String)
    ensures
        text@ == amount_text(centavos as int),
{
    let mut out: Vec<char> = Vec::new();
    push_amount(&mut out, centavos);
    assert(out@ =~= amount_text(centavos as int));
    crate::text::string_of(&out)
}

} // verus!
