use vstd::prelude::*;

verus! {

/// The character of decimal digit `d`.
pub open spec fn digit_char(d: nat) -> char {
    if d == 0 {
        '0'
    } else if d == 1 {
        '1'
    } else if d == 2 {
        '2'
    } else if d == 3 {
        '3'
    } else if d == 4 {
        '4'
    } else if d == 5 {
        '5'
    } else if d == 6 {
        '6'
    } else if d == 7 {
        '7'
    } else if d == 8 {
        '8'
    } else {
        '9'
    }
}

/// The decimal digits of `n`, most significant first, without leading zeros.
pub open spec fn decimal(n: nat) -> Seq<char>
    decreases n,
{
    if n < 10 {
        seq![digit_char(n)]
    } else {
        decimal(n / 10).push(digit_char(n % 10))
    }
}

/// The decimal text of a signed number: a minus sign before negatives.
pub open spec fn signed_decimal(n: int) -> Seq<char> {
    if n < 0 {
        seq!['-'] + decimal((-n) as nat)
    } else {
        decimal(n as nat)
    }
}

/// A one-character string holding the digit `d`.
fn digit_str(d: u64) -> (r: &'static str)
    requires
        d < 10,
    ensures
        r@ == seq![digit_char(d as nat)],
{
    proof {
        reveal_strlit("0");
        reveal_strlit("1");
        reveal_strlit("2");
        reveal_strlit("3");
        reveal_strlit("4");
        reveal_strlit("5");
        reveal_strlit("6");
        reveal_strlit("7");
        reveal_strlit("8");
        reveal_strlit("9");
    }
    if d == 0 {
        "0"
    } else if d == 1 {
        "1"
    } else if d == 2 {
        "2"
    } else if d == 3 {
        "3"
    } else if d == 4 {
        "4"
    } else if d == 5 {
        "5"
    } else if d == 6 {
        "6"
    } else if d == 7 {
        "7"
    } else if d == 8 {
        "8"
    } else {
        "9"
    }
}

/// Appends the decimal digits of `n` to `s`.
pub fn append_decimal(s: &mut String, n: u64)
    ensures
        final(s)@ == old(s)@ + decimal(n as nat),
    decreases n,
{
    if n >= 10 {
        append_decimal(s, n / 10);
    }
    s.append(digit_str(n % 10));
    proof {
        if n < 10 {
            assert(s@ =~= old(s)@ + decimal(n as nat));
        }
    }
}

/// Appends the decimal text of the signed number `n` to `s`.
pub fn append_signed(s: &mut String, n: i32)
    ensures
        final(s)@ == old(s)@ + signed_decimal(n as int),
{
    if n < 0 {
        proof {
            reveal_strlit("-");
        }
        s.append("-");
        let magnitude: i64 = -(n as i64);
        append_decimal(s, magnitude as u64);
        assert(s@ =~= old(s)@ + signed_decimal(n as int));
    } else {
        append_decimal(s, n as u64);
    }
}

/// Bytes in one kilobyte, megabyte, gigabyte and terabyte (powers of 1024).
pub open spec fn unit_scale(k: nat) -> nat {
    if k == 1 {
        1024
    } else if k == 2 {
        1048576
    } else if k == 3 {
        1073741824
    } else {
        1099511627776
    }
}

/// The largest unit (0 for bytes up to 4 for terabytes) whose scale `bytes` reaches.
pub open spec fn unit_index(bytes: nat) -> nat {
    if bytes >= unit_scale(4) {
        4
    } else if bytes >= unit_scale(3) {
        3
    } else if bytes >= unit_scale(2) {
        2
    } else if bytes >= unit_scale(1) {
        1
    } else {
        0
    }
}

/// The name of unit `k`.
pub open spec fn unit_name(k: nat) -> Seq<char> {
    if k == 0 {
        "B"@
    } else if k == 1 {
        "KB"@
    } else if k == 2 {
        "MB"@
    } else if k == 3 {
        "GB"@
    } else {
        "TB"@
    }
}

/// `num / d` rounded to the nearest whole number, an exact half going to the even one.
pub open spec fn round_div(num: nat, d: nat) -> nat {
    let q = num / d;
    let r = num % d;
    if 2 * r > d || (2 * r == d && q % 2 == 1) {
        q + 1
    } else {
        q
    }
}

/// A byte count for display: plain bytes below one kilobyte, otherwise the
/// value in the largest reached unit with one decimal.
pub open spec fn bytes_text(bytes: nat) -> Seq<char> {
    let k = unit_index(bytes);
    if k == 0 {
        decimal(bytes) + " B"@
    } else {
        let tenths = round_div(bytes * 10, unit_scale(k));
        decimal(tenths / 10) + "."@ + decimal(tenths % 10) + " "@ + unit_name(k)
    }
}

/// Formats a byte count as `"512 B"`, `"1.5 KB"`, `"3.2 GB"` and so on.
pub fn format_bytes(bytes: u64) -> (r: String)
    ensures
        r@ == bytes_text(bytes as nat),
{
    proof {
        reveal_strlit(" B");
        reveal_strlit(".");
        reveal_strlit(" ");
        reveal_strlit("KB");
        reveal_strlit("MB");
        reveal_strlit("GB");
        reveal_strlit("TB");
        reveal_strlit("B");
    }
    let mut s = String::new();
    if bytes < 1024 {
        append_decimal(&mut s, bytes);
        s.append(" B");
        return s;
    }
    let (d, unit): (u64, &str) = if bytes >= 1099511627776 {
        (1099511627776, "TB")
    } else if bytes >= 1073741824 {
        (1073741824, "GB")
    } else if bytes >= 1048576 {
        (1048576, "MB")
    } else {
        (1024, "KB")
    };
    let ghost k = unit_index(bytes as nat);
    assert(d == unit_scale(k) && unit@ == unit_name(k));
    let whole = bytes / d;
    assert(whole <= 18014398509481983) by (nonlinear_arith)
        requires
            d >= 1024,
            whole == bytes / d,
            bytes <= 18446744073709551615,
    ;
    let rest = bytes % d;
    let scaled = rest * 10;
    let digit = scaled / d;
    let left = scaled % d;
    let mut tenths = whole * 10 + digit;
    if 2 * left > d || (2 * left == d && digit % 2 == 1) {
        tenths = tenths + 1;
    }
    proof {
        lemma_tenths(bytes as nat, d as nat);
    }
    append_decimal(&mut s, tenths / 10);
    s.append(".");
    append_decimal(&mut s, tenths % 10);
    s.append(" ");
    s.append(unit);
    s
}

/// The rounded tenths of `bytes / d` computed from the whole part and the
/// rounded tenths of the remainder.
proof fn lemma_tenths(bytes: nat, d: nat)
    requires
        d >= 1024,
        d <= 1099511627776,
    ensures
        ({
            let whole = bytes / d;
            let scaled = (bytes % d) * 10;
            let digit = scaled / d;
            let left = scaled % d;
            let up = 2 * left > d || (2 * left == d && digit % 2 == 1);
            round_div(bytes * 10, d) == whole * 10 + digit + if up { 1int } else { 0int }
        }),
{
    let di = d as int;
    let whole = bytes / d;
    let rest = bytes % d;
    let scaled = rest * 10;
    let digit = scaled / d;
    let left = scaled % d;
    vstd::arithmetic::div_mod::lemma_fundamental_div_mod(bytes as int, di);
    vstd::arithmetic::div_mod::lemma_fundamental_div_mod(scaled as int, di);
    assert(bytes * 10 == (whole * 10 + digit) * di + left) by (nonlinear_arith)
        requires
            bytes == di * whole + rest,
            scaled == rest * 10,
            scaled == di * digit + left,
    ;
    vstd::arithmetic::div_mod::lemma_fundamental_div_mod_converse(
        (bytes * 10) as int,
        di,
        (whole * 10 + digit) as int,
        left as int,
    );
    assert((whole * 10 + digit) % 2 == digit % 2) by (nonlinear_arith);
}

/// Signal strength in dBm mapped onto 0..=100: -90 dBm and below is 0,
/// -30 dBm and above is 100, linear in between, rounded to the nearest whole
/// percent.
pub open spec fn signal_percent(dbm: int) -> int {
    let clamped = if dbm < -90 {
        -90
    } else if dbm > -30 {
        -30
    } else {
        dbm
    };
    ((clamped + 90) * 100 + 30) / 60
}

/// Converts a signal level in dBm to a percentage.
pub fn dbm_to_percent(dbm: i32) -> (r: u8)
    ensures
        r as int == signal_percent(dbm as int),
        r <= 100,
{
    let clamped: i32 = if dbm < -90 {
        -90
    } else if dbm > -30 {
        -30
    } else {
        dbm
    };
    let span: u32 = (clamped + 90) as u32;
    let pct: u32 = (span * 100 + 30) / 60;
    pct as u8
}

/// Text of a used/total pair of byte counts, as `"1.5 GB / 8.0 GB"`.
pub open spec fn usage_text(used: nat, total: nat) -> Seq<char> {
    bytes_text(used) + " / "@ + bytes_text(total)
}

/// Formats a used/total pair of byte counts.
pub fn usage_label(used: u64, total: u64) -> (r: String)
    ensures
        r@ == usage_text(used as nat, total as nat),
{
    proof {
        reveal_strlit(" / ");
    }
    let mut s = format_bytes(used);
    let t = format_bytes(total);
    s.append(" / ");
    s.append(t.as_str());
    s
}

/// Signal percentages lie in 0..=100 and never fall as the signal grows.
pub proof fn lemma_signal_percent_monotone(a: int, b: int)
    requires
        a <= b,
    ensures
        0 <= signal_percent(a) <= signal_percent(b) <= 100,
{
    let ca = if a < -90 { -90 } else if a > -30 { -30 } else { a };
    let cb = if b < -90 { -90 } else if b > -30 { -30 } else { b };
    assert(ca <= cb);
    assert(((ca + 90) * 100 + 30) / 60 <= ((cb + 90) * 100 + 30) / 60) by (nonlinear_arith)
        requires
            0 <= ca + 90 <= cb + 90,
    ;
    assert(0 <= ((ca + 90) * 100 + 30) / 60) by (nonlinear_arith)
        requires
            0 <= ca + 90,
    ;
    assert(((cb + 90) * 100 + 30) / 60 <= 100) by (nonlinear_arith)
        requires
            cb + 90 <= 60,
    ;
}

/// The percentage is the whole number nearest to where the signal lies
/// between -90 dBm (0%) and -30 dBm (100%); weaker signals read 0% and
/// stronger ones 100%.
pub proof fn lemma_signal_percent_nearest(dbm: int)
    ensures
        -90 <= dbm <= -30 ==> -30 <= 60 * signal_percent(dbm) - 100 * (dbm + 90) < 30,
        dbm <= -90 ==> signal_percent(dbm) == 0,
        dbm >= -30 ==> signal_percent(dbm) == 100,
{
    if -90 <= dbm <= -30 {
        let x = (dbm + 90) * 100 + 30;
        vstd::arithmetic::div_mod::lemma_fundamental_div_mod(x, 60);
        vstd::arithmetic::div_mod::lemma_mod_pos_bound(x, 60);
    }
}

/// The decimal text of `n`.
pub fn decimal_string(n: u64) -> (r: String)
    ensures
        r@ == decimal(n as nat),
{
    let mut s = String::new();
    append_decimal(&mut s, n);
    assert(s@ =~= decimal(n as nat));
    s
}

/// The unit of a byte count is the largest power of 1024 (up to 1024^4, TB)
/// not above it, and the number is the count in that unit to one decimal:
/// below 1024 plain bytes, from 1024 KB, from 1024^2 MB, from 1024^3 GB and
/// from 1024^4 TB.
pub proof fn lemma_bytes_text_units(b: nat)
    ensures
        b < 1024 ==> bytes_text(b) == decimal(b) + " B"@,
        1024 <= b < 1048576 ==> bytes_text(b) == decimal(round_div(b * 10, 1024) / 10) + "."@
            + decimal(round_div(b * 10, 1024) % 10) + " "@ + "KB"@,
        1048576 <= b < 1073741824 ==> bytes_text(b) == decimal(round_div(b * 10, 1048576) / 10)
            + "."@ + decimal(round_div(b * 10, 1048576) % 10) + " "@ + "MB"@,
        1073741824 <= b < 1099511627776 ==> bytes_text(b) == decimal(
            round_div(b * 10, 1073741824) / 10,
        ) + "."@ + decimal(round_div(b * 10, 1073741824) % 10) + " "@ + "GB"@,
        1099511627776 <= b ==> bytes_text(b) == decimal(round_div(b * 10, 1099511627776) / 10)
            + "."@ + decimal(round_div(b * 10, 1099511627776) % 10) + " "@ + "TB"@,
        1024 <= b ==> unit_scale(unit_index(b)) <= b,
        1024 <= b < 1099511627776 ==> b < 1024 * unit_scale(unit_index(b)),
{
}

/// `round_div(num, d)` is a nearest whole number to `num / d`: it is off by
/// at most half of `d`, and an exact half goes to the even neighbour.
pub proof fn lemma_round_div_nearest(num: nat, d: nat)
    requires
        d > 0,
    ensures
        2 * (round_div(num, d) * d - num) <= d,
        2 * (num - round_div(num, d) * d) <= d,
        (2 * (round_div(num, d) * d - num) == d || 2 * (num - round_div(num, d) * d) == d)
            ==> round_div(num, d) % 2 == 0,
{
    let q = num / d;
    let r = num % d;
    vstd::arithmetic::div_mod::lemma_fundamental_div_mod(num as int, d as int);
    vstd::arithmetic::div_mod::lemma_mod_pos_bound(num as int, d as int);
    assert(num == q * d + r) by (nonlinear_arith)
        requires
            num == d * q + r,
    ;
    assert((q + 1) * d == q * d + d) by (nonlinear_arith);
}

/// The digits of a number: one digit below ten, otherwise the digits of the
/// tens followed by the last digit; so `decimal` has no leading zero and
/// reads back as the number.
pub proof fn lemma_decimal_digits(n: nat)
    ensures
        n < 10 ==> decimal(n) == seq![digit_char(n)],
        n >= 10 ==> decimal(n) == decimal(n / 10) + seq![digit_char(n % 10)],
        decimal(n).len() >= 1,
        decimal_value(decimal(n)) == n,
        n >= 10 ==> decimal(n)[0] != '0',
    decreases n,
{
    lemma_digit_of(n % 10);
    if n < 10 {
        assert(decimal(n).drop_last() =~= Seq::<char>::empty());
        assert(decimal_value(Seq::<char>::empty()) == 0);
        assert(decimal(n).last() == digit_char(n));
        assert(decimal_value(decimal(n)) == decimal_value(decimal(n).drop_last()) * 10 + digit_of(
            digit_char(n),
        ));
    }
    if n >= 10 {
        lemma_decimal_digits(n / 10);
        assert(decimal(n) =~= decimal(n / 10) + seq![digit_char(n % 10)]);
        assert(decimal(n).drop_last() =~= decimal(n / 10));
        assert(decimal(n)[0] == decimal(n / 10)[0]);
        assert(decimal(n).last() == digit_char(n % 10));
        assert(decimal_value(decimal(n)) == decimal_value(decimal(n / 10)) * 10 + digit_of(
            digit_char(n % 10),
        ));
        assert(n == (n / 10) * 10 + n % 10);
    }
}

/// Each digit character reads back as its digit.
proof fn lemma_digit_of(d: nat)
    requires
        d < 10,
    ensures
        digit_of(digit_char(d)) == d,
{
    assert(('0' as int) == 48);
    assert(('1' as int) == 49);
    assert(('2' as int) == 50);
    assert(('3' as int) == 51);
    assert(('4' as int) == 52);
    assert(('5' as int) == 53);
    assert(('6' as int) == 54);
    assert(('7' as int) == 55);
    assert(('8' as int) == 56);
    assert(('9' as int) == 57);
}

/// The value of decimal digits read left to right.
pub open spec fn decimal_value(digits: Seq<char>) -> int
    decreases digits.len(),
{
    if digits.len() == 0 {
        0
    } else {
        decimal_value(digits.drop_last()) * 10 + digit_of(digits.last())
    }
}

/// The value of one decimal digit character.
pub open spec fn digit_of(c: char) -> int {
    (c as int) - ('0' as int)
}

} // verus!
