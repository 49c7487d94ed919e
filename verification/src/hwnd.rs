//! Window handles as text: parsing a handle given in hexadecimal
//! (`0x…`/`0X…`) or decimal, and formatting a handle as `0x` followed by
//! sixteen upper-case hexadecimal digits.
use vstd::prelude::*;
use vstd::string::*;
use crate::error::AppError;
use crate::text::{
    ascii_lower_char, ascii_lower_spec, decimal_digit_char, decimal_spec,
    lemma_ascii_lower_char_values, lemma_lex_lt_common_prefix, lemma_lex_lt_irreflexive,
    lemma_lex_lt_push, lex_lt, push_char,
};

verus! {

/// Why a number could not be read (the kinds of `ParseIntError` that an
/// unsigned parse can give).
#[derive(Clone, Copy, Debug, PartialEq, Eq)]
pub enum IntErrorKind {
    Empty,
    InvalidDigit,
    PosOverflow,
}

/// The text that `ParseIntError`'s `Display` shows for each kind.
pub open spec fn int_error_message(k: IntErrorKind) -> Seq<char> {
    match k {
        IntErrorKind::Empty => "cannot parse integer from empty string"@,
        IntErrorKind::InvalidDigit => "invalid digit found in string"@,
        IntErrorKind::PosOverflow => "number too large to fit in target type"@,
    }
}

impl IntErrorKind {
    /// The message of this kind of parse failure.
    pub fn message(&self) -> (s: String)
        ensures
            s@ == int_error_message(*self),
    {
        match self {
            IntErrorKind::Empty => String::from_str("cannot parse integer from empty string"),
            IntErrorKind::InvalidDigit => String::from_str("invalid digit found in string"),
            IntErrorKind::PosOverflow => String::from_str("number too large to fit in target type"),
        }
    }
}

/// The radix: sixteen for hexadecimal, ten otherwise.
pub open spec fn radix(hex: bool) -> int {
    if hex {
        16
    } else {
        10
    }
}

/// The value of one digit (`char::to_digit`): `0`..`9`, and in
/// hexadecimal also `a`..`f` and `A`..`F`.
pub open spec fn digit_value(c: char, hex: bool) -> Option<int> {
    if '0' <= c && c <= '9' {
        Some((c as u32) - ('0' as u32))
    } else if hex && 'a' <= c && c <= 'f' {
        Some((c as u32) - ('a' as u32) + 10)
    } else if hex && 'A' <= c && c <= 'F' {
        Some((c as u32) - ('A' as u32) + 10)
    } else {
        None
    }
}

/// Reads the digits `d` left to right in the given radix: the value, or
/// the first failure met on the way (an invalid digit, or a prefix whose
/// value no longer fits in a `usize`).
pub open spec fn scan_digits(d: Seq<char>, hex: bool) -> Result<int, IntErrorKind>
    decreases d.len(),
{
    if d.len() == 0 {
        Ok(0)
    } else {
        match scan_digits(d.drop_last(), hex) {
            Err(e) => Err(e),
            Ok(p) => match digit_value(d.last(), hex) {
                None => Err(IntErrorKind::InvalidDigit),
                Some(x) => if p * radix(hex) + x > usize::MAX {
                    Err(IntErrorKind::PosOverflow)
                } else {
                    Ok(p * radix(hex) + x)
                },
            },
        }
    }
}

/// What `usize::from_str_radix(s, radix)` gives: an empty text is
/// `Empty`; a lone sign is an invalid digit; one leading `+` is
/// skipped; the rest must be digits whose value fits in a `usize`.
pub open spec fn parse_usize_spec(s: Seq<char>, hex: bool) -> Result<int, IntErrorKind> {
    if s.len() == 0 {
        Err(IntErrorKind::Empty)
    } else if s.len() == 1 && (s[0] == '+' || s[0] == '-') {
        Err(IntErrorKind::InvalidDigit)
    } else if s[0] == '+' {
        scan_digits(s.drop_first(), hex)
    } else {
        scan_digits(s, hex)
    }
}

/// A failure in a prefix of the digits is the failure of the whole.
proof fn lemma_scan_prefix_error(d: Seq<char>, hex: bool, i: int)
    requires
        0 <= i <= d.len(),
        scan_digits(d.take(i), hex) is Err,
    ensures
        scan_digits(d, hex) == scan_digits(d.take(i), hex),
    decreases d.len() - i,
{
    if i < d.len() {
        assert(d.take(i + 1).drop_last() =~= d.take(i));
        lemma_scan_prefix_error(d, hex, i + 1);
    } else {
        assert(d.take(i) =~= d);
    }
}

/// The value of one digit character.
fn digit_of(c: char, hex: bool) -> (r: Option<usize>)
    ensures
        match r {
            Some(x) => digit_value(c, hex) == Some(x as int),
            None => digit_value(c, hex) is None,
        },
{
    if '0' <= c && c <= '9' {
        Some((c as u32 - '0' as u32) as usize)
    } else if hex && 'a' <= c && c <= 'f' {
        Some((c as u32 - 'a' as u32 + 10) as usize)
    } else if hex && 'A' <= c && c <= 'F' {
        Some((c as u32 - 'A' as u32 + 10) as usize)
    } else {
        None
    }
}

/// Reads a `usize` in radix ten or sixteen (`usize::from_str_radix`).
pub fn parse_usize(s: &str, hex: bool) -> (r: Result<usize, IntErrorKind>)
    ensures
        match r {
            Ok(v) => parse_usize_spec(s@, hex) == Ok::<int, IntErrorKind>(v as int),
            Err(k) => parse_usize_spec(s@, hex) == Err::<int, IntErrorKind>(k),
        },
{
    let n = s.unicode_len();
    if n == 0 {
        return Err(IntErrorKind::Empty);
    }
    let c0 = s.get_char(0);
    if n == 1 && (c0 == '+' || c0 == '-') {
        return Err(IntErrorKind::InvalidDigit);
    }
    let start: usize = if c0 == '+' {
        1
    } else {
        0
    };
    let d = s.substring_char(start, n);
    assert(d@ == if c0 == '+' { s@.drop_first() } else { s@ });
    let m = d.unicode_len();
    let r: usize = if hex {
        16
    } else {
        10
    };
    let mut acc: usize = 0;
    assert(d@.take(0) =~= Seq::<char>::empty());
    for i in 0..m
        invariant
            m == d@.len(),
            parse_usize_spec(s@, hex) == scan_digits(d@, hex),
            r == radix(hex),
            scan_digits(d@.take(i as int), hex) == Ok::<int, IntErrorKind>(acc as int),
    {
        let c = d.get_char(i);
        assert(d@.take(i + 1).drop_last() =~= d@.take(i as int));
        assert(d@.take(i + 1).last() == c);
        match digit_of(c, hex) {
            None => {
                proof {
                    lemma_scan_prefix_error(d@, hex, i + 1);
                }
                return Err(IntErrorKind::InvalidDigit);
            },
            Some(x) => {
                let next = match acc.checked_mul(r) {
                    Some(p) => p.checked_add(x),
                    None => None,
                };
                match next {
                    Some(v) => {
                        acc = v;
                    },
                    None => {
                        proof {
                            lemma_scan_prefix_error(d@, hex, i + 1);
                        }
                        return Err(IntErrorKind::PosOverflow);
                    },
                }
            },
        }
    }
    assert(d@.take(m as int) =~= d@);
    Ok(acc)
}

/// Whether the text starts with `0x` or `0X`.
pub open spec fn hex_prefixed(s: Seq<char>) -> bool {
    s.len() >= 2 && s[0] == '0' && (s[1] == 'x' || s[1] == 'X')
}

/// Why a text is no window handle.
#[derive(Clone, Copy, Debug, PartialEq, Eq)]
pub enum HwndError {
    /// The text is no number.
    Number(IntErrorKind),
    /// The number is zero, which is no window.
    Zero,
}

/// The handle that a text names: hexadecimal after a `0x` or `0X`
/// prefix, decimal otherwise, and never zero.
pub open spec fn hwnd_value(s: Seq<char>) -> Result<int, HwndError> {
    let parsed = if hex_prefixed(s) {
        parse_usize_spec(s.skip(2), true)
    } else {
        parse_usize_spec(s, false)
    };
    match parsed {
        Err(k) => Err(HwndError::Number(k)),
        Ok(v) => if v == 0 {
            Err(HwndError::Zero)
        } else {
            Ok(v)
        },
    }
}

/// The error reported for a handle text `raw` that fails with `err`:
/// `无效的 HWND: <raw>` with the parse failure as its cause, or
/// `HWND 不能为 0`.
pub open spec fn hwnd_error_reported(e: AppError, raw: Seq<char>, err: HwndError) -> bool {
    match err {
        HwndError::Number(k) => {
            &&& e.summary@ == "无效的 HWND: "@ + raw
            &&& e.detail@ == "无效的 HWND: "@ + raw + ": "@ + int_error_message(k)
        },
        HwndError::Zero => {
            &&& e.summary@ == "HWND 不能为 0"@
            &&& e.detail@ == "HWND 不能为 0"@
        },
    }
}

/// Reads the handle in `text`, reporting a failure in terms of `raw`.
pub(crate) fn parse_hwnd_text(text: &str, raw: &str) -> (r: Result<usize, AppError>)
    ensures
        match r {
            Ok(v) => hwnd_value(text@) == Ok::<int, HwndError>(v as int),
            Err(e) => match hwnd_value(text@) {
                Ok(_) => false,
                Err(err) => hwnd_error_reported(e, raw@, err),
            },
        },
{
    let n = text.unicode_len();
    let is_hex = n >= 2 && text.get_char(0) == '0' && (text.get_char(1) == 'x' || text.get_char(1)
        == 'X');
    let parsed = if is_hex {
        let digits = text.substring_char(2, n);
        assert(digits@ =~= text@.skip(2));
        parse_usize(digits, true)
    } else {
        parse_usize(text, false)
    };
    match parsed {
        Err(k) => {
            let mut summary = String::from_str("无效的 HWND: ");
            summary.append(raw);
            let cause = AppError::from_text(k.message());
            Err(AppError::from_text(summary).context_text(cause))
        },
        Ok(v) => {
            if v == 0 {
                Err(AppError::msg("HWND 不能为 0"))
            } else {
                Ok(v)
            }
        },
    }
}

/// Reads a window handle: `0x`/`0X` and hexadecimal digits, or decimal
/// digits; a leading `+` is accepted after the prefix, as
/// `usize::from_str_radix` accepts it; zero is refused.
pub fn parse_hwnd(raw: &str) -> (r: Result<usize, AppError>)
    ensures
        match r {
            Ok(v) => hwnd_value(raw@) == Ok::<int, HwndError>(v as int),
            Err(e) => match hwnd_value(raw@) {
                Ok(_) => false,
                Err(err) => hwnd_error_reported(e, raw@, err),
            },
        },
{
    parse_hwnd_text(raw, raw)
}

/// The upper-case hexadecimal digit for `d < 16`.
pub open spec fn hex_digit_char(d: int) -> char {
    if d == 0 {
        '0'
    } else if d == 1 {
        '1'
    } else if d == 2 {
        '2'
    } else if d == 3 {
        '3'
    } else if d == 4 {
        '4'
    } else if d == 5 {
        '5'
    } else if d == 6 {
        '6'
    } else if d == 7 {
        '7'
    } else if d == 8 {
        '8'
    } else if d == 9 {
        '9'
    } else if d == 10 {
        'A'
    } else if d == 11 {
        'B'
    } else if d == 12 {
        'C'
    } else if d == 13 {
        'D'
    } else if d == 14 {
        'E'
    } else {
        'F'
    }
}

/// The last `n` hexadecimal digits of `v`, most significant first.
pub open spec fn hex_fixed(v: nat, n: nat) -> Seq<char>
    decreases n,
{
    if n == 0 {
        Seq::<char>::empty()
    } else {
        hex_fixed(v / 16, (n - 1) as nat).push(hex_digit_char((v % 16) as int))
    }
}

/// A handle as text: `0x` and sixteen upper-case hexadecimal digits.
pub open spec fn format_hwnd_spec(v: nat) -> Seq<char> {
    seq!['0', 'x'] + hex_fixed(v, 16)
}

fn hex_digit(d: usize) -> (c: char)
    requires
        d < 16,
    ensures
        c == hex_digit_char(d as int),
{
    if d == 0 {
        '0'
    } else if d == 1 {
        '1'
    } else if d == 2 {
        '2'
    } else if d == 3 {
        '3'
    } else if d == 4 {
        '4'
    } else if d == 5 {
        '5'
    } else if d == 6 {
        '6'
    } else if d == 7 {
        '7'
    } else if d == 8 {
        '8'
    } else if d == 9 {
        '9'
    } else if d == 10 {
        'A'
    } else if d == 11 {
        'B'
    } else if d == 12 {
        'C'
    } else if d == 13 {
        'D'
    } else if d == 14 {
        'E'
    } else {
        'F'
    }
}

fn push_hex_fixed(out: &mut String, v: usize, n: usize)
    ensures
        final(out)@ == old(out)@ + hex_fixed(v as nat, n as nat),
    decreases n,
{
    if n == 0 {
        assert(old(out)@ + Seq::<char>::empty() =~= old(out)@);
    } else {
        push_hex_fixed(out, v / 16, n - 1);
        push_char(out, hex_digit(v % 16));
        assert(old(out)@ + hex_fixed(v as nat, n as nat) =~= old(out)@ + hex_fixed(
            (v / 16) as nat,
            (n - 1) as nat,
        ) + seq![hex_digit_char((v % 16) as int)]);
    }
}

/// Formats a handle as `0x` and sixteen upper-case hexadecimal digits
/// (`format!("0x{:016X}", value)`).
pub fn format_hwnd(value: usize) -> (s: String)
    ensures
        s@ == format_hwnd_spec(value as nat),
{
    let mut out = String::new();
    push_char(&mut out, '0');
    push_char(&mut out, 'x');
    push_hex_fixed(&mut out, value, 16);
    out
}


/// Sixteen to the power `n`.
pub open spec fn pow16(n: nat) -> nat
    decreases n,
{
    if n == 0 {
        1
    } else {
        16 * pow16((n - 1) as nat)
    }
}

proof fn lemma_pow16_positive(n: nat)
    ensures
        pow16(n) > 0,
    decreases n,
{
    if n > 0 {
        lemma_pow16_positive((n - 1) as nat);
    }
}

proof fn lemma_hex_digit_value(d: int)
    requires
        0 <= d < 16,
    ensures
        digit_value(hex_digit_char(d), true) == Some(d),
        hex_digit_char(d) != '+',
{
}

/// The last `n` hexadecimal digits of `v` read back give `v` modulo
/// `16^n`, and none of them is a sign.
proof fn lemma_scan_hex_fixed(v: nat, n: nat)
    requires
        v % pow16(n) <= usize::MAX,
    ensures
        hex_fixed(v, n).len() == n,
        scan_digits(hex_fixed(v, n), true) == Ok::<int, IntErrorKind>((v % pow16(n)) as int),
        forall|i: int| 0 <= i < n ==> #[trigger] hex_fixed(v, n)[i] != '+',
    decreases n,
{
    if n == 0 {
    } else {
        let m = (n - 1) as nat;
        let p = pow16(m);
        lemma_pow16_positive(m);
        vstd::arithmetic::div_mod::lemma_mod_breakdown(v as int, 16, p as int);
        assert(v % pow16(n) == 16 * ((v / 16) % p) + v % 16);
        assert((v / 16) % p <= usize::MAX);
        lemma_scan_hex_fixed(v / 16, m);
        let d = (v % 16) as int;
        lemma_hex_digit_value(d);
        let h = hex_fixed(v, n);
        assert(h.drop_last() =~= hex_fixed(v / 16, m));
        assert(h.last() == hex_digit_char(d));
        assert forall|i: int| 0 <= i < n implies #[trigger] h[i] != '+' by {
            if i < m {
                assert(h[i] == hex_fixed(v / 16, m)[i]);
            }
        }
    }
}

/// A handle formatted as text reads back as the same handle: for every
/// nonzero `v`, `parse_hwnd(format_hwnd(v))` gives `v`.
pub proof fn lemma_format_then_parse(v: usize)
    requires
        v != 0,
    ensures
        hwnd_value(format_hwnd_spec(v as nat)) == Ok::<int, HwndError>(v as int),
{
    let s = format_hwnd_spec(v as nat);
    reveal_with_fuel(pow16, 17);
    assert(pow16(16) == 0x1_0000_0000_0000_0000);
    vstd::arithmetic::div_mod::lemma_small_mod(v as nat, pow16(16));
    lemma_scan_hex_fixed(v as nat, 16);
    assert(s.skip(2) =~= hex_fixed(v as nat, 16));
    assert(s.skip(2)[0] != '+');
}


/// Hexadecimal digits read the same in either case: lower-casing a
/// character never changes its value as a hexadecimal digit, so `b` is
/// eleven as `B` is.
pub proof fn lemma_hex_digits_ignore_case(c: char)
    ensures
        digit_value(ascii_lower_char(c), true) == digit_value(c, true),
{
    lemma_ascii_lower_char_values(c);
}

/// The characters that `digit_value` accepts are exactly the digit
/// characters of the radix: `c` has value `x` just when `x` is below the
/// radix and `c` is the digit for `x`, in upper or in lower case.
pub proof fn lemma_digit_value_exact(c: char, hex: bool, x: int)
    ensures
        digit_value(c, hex) == Some(x) <==> (0 <= x < radix(hex) && (c == hex_digit_char(x) || c
            == ascii_lower_char(hex_digit_char(x)))),
{
    if 0 <= x < 16 {
        lemma_ascii_lower_char_values(hex_digit_char(x));
    }
}

/// Every hexadecimal digit value has its upper-case and its lower-case
/// digit character, and both read back as that value.
pub proof fn lemma_hex_digit_chars(d: int)
    requires
        0 <= d < 16,
    ensures
        digit_value(hex_digit_char(d), true) == Some(d),
        digit_value(ascii_lower_char(hex_digit_char(d)), true) == Some(d),
{
    lemma_hex_digits_ignore_case(hex_digit_char(d));
}

/// Lower-casing hexadecimal digits does not change what they read as.
pub proof fn lemma_scan_hex_ignores_case(d: Seq<char>)
    ensures
        scan_digits(ascii_lower_spec(d), true) == scan_digits(d, true),
    decreases d.len(),
{
    if d.len() > 0 {
        let l = ascii_lower_spec(d);
        assert(l.drop_last() =~= ascii_lower_spec(d.drop_last()));
        assert(l.last() == ascii_lower_char(d.last()));
        lemma_scan_hex_ignores_case(d.drop_last());
        lemma_hex_digits_ignore_case(d.last());
    }
}

/// A handle written as `0x` and its sixteen hexadecimal digits in lower
/// case reads back as the same handle, as the upper-case text does.
pub proof fn lemma_lowercase_format_then_parse(v: usize)
    requires
        v != 0,
    ensures
        hwnd_value(seq!['0', 'x'] + ascii_lower_spec(hex_fixed(v as nat, 16))) == Ok::<int, HwndError>(
            v as int,
        ),
{
    let h = hex_fixed(v as nat, 16);
    let s = seq!['0', 'x'] + ascii_lower_spec(h);
    lemma_format_then_parse(v);
    reveal_with_fuel(pow16, 17);
    assert(pow16(16) == 0x1_0000_0000_0000_0000);
    vstd::arithmetic::div_mod::lemma_small_mod(v as nat, pow16(16));
    lemma_scan_hex_fixed(v as nat, 16);
    lemma_scan_hex_ignores_case(h);
    assert(s.skip(2) =~= ascii_lower_spec(h));
    assert(format_hwnd_spec(v as nat).skip(2) =~= h);
    lemma_ascii_lower_char_values(h[0]);
    assert(s.skip(2)[0] == ascii_lower_char(h[0]));
    assert(s.skip(2)[0] != '+');
}

/// Digit characters are ordered as their values: `0`..`9` before
/// `A`..`F`.
proof fn lemma_hex_digit_char_order(d: int, e: int)
    requires
        0 <= d < e < 16,
    ensures
        hex_digit_char(d) < hex_digit_char(e),
{
}

/// The last `n` hexadecimal digits of two numbers are ordered as the
/// numbers modulo `16^n`, and are the same text where those agree.
proof fn lemma_hex_fixed_order(u: nat, v: nat, n: nat)
    ensures
        u % pow16(n) < v % pow16(n) ==> lex_lt(hex_fixed(u, n), hex_fixed(v, n)),
        u % pow16(n) == v % pow16(n) ==> hex_fixed(u, n) == hex_fixed(v, n),
    decreases n,
{
    if n == 0 {
        assert(u % 1 == 0 && v % 1 == 0);
    } else {
        let m = (n - 1) as nat;
        let p = pow16(m);
        lemma_pow16_positive(m);
        vstd::arithmetic::div_mod::lemma_mod_breakdown(u as int, 16, p as int);
        vstd::arithmetic::div_mod::lemma_mod_breakdown(v as int, 16, p as int);
        let qu = (u / 16) % p;
        let qv = (v / 16) % p;
        let ru = u % 16;
        let rv = v % 16;
        assert(u % pow16(n) == 16 * qu + ru);
        assert(v % pow16(n) == 16 * qv + rv);
        lemma_hex_fixed_order(u / 16, v / 16, m);
        let hu = hex_fixed(u / 16, m);
        let hv = hex_fixed(v / 16, m);
        lemma_hex_fixed_len(u / 16, m);
        lemma_hex_fixed_len(v / 16, m);
        lemma_lex_lt_push(hu, hv, hex_digit_char(ru as int), hex_digit_char(rv as int));
        if 16 * qu + ru == 16 * qv + rv {
            assert(qu == qv && ru == rv) by (nonlinear_arith)
                requires
                    16 * qu + ru == 16 * qv + rv,
                    ru < 16,
                    rv < 16,
            ;
        }
        if 16 * qu + ru < 16 * qv + rv {
            assert(qu < qv || (qu == qv && ru < rv)) by (nonlinear_arith)
                requires
                    16 * qu + ru < 16 * qv + rv,
                    ru < 16,
                    rv < 16,
            ;
            if qu < qv {
                lemma_lex_lt_irreflexive(hu);
            } else {
                lemma_hex_digit_char_order(ru as int, rv as int);
            }
        }
    }
}

/// `hex_fixed` has as many characters as it is asked for.
proof fn lemma_hex_fixed_len(v: nat, n: nat)
    ensures
        hex_fixed(v, n).len() == n,
    decreases n,
{
    if n > 0 {
        lemma_hex_fixed_len(v / 16, (n - 1) as nat);
    }
}

/// Formatted handles sort as the handles do: for `u < v` the text of `u`
/// comes first in string order, so ordering windows by their handle text
/// orders them by handle.
pub proof fn lemma_format_hwnd_order(u: usize, v: usize)
    requires
        u < v,
    ensures
        lex_lt(format_hwnd_spec(u as nat), format_hwnd_spec(v as nat)),
{
    reveal_with_fuel(pow16, 17);
    assert(pow16(16) == 0x1_0000_0000_0000_0000);
    vstd::arithmetic::div_mod::lemma_small_mod(u as nat, pow16(16));
    vstd::arithmetic::div_mod::lemma_small_mod(v as nat, pow16(16));
    lemma_hex_fixed_order(u as nat, v as nat, 16);
    lemma_lex_lt_common_prefix(seq!['0', 'x'], hex_fixed(u as nat, 16), hex_fixed(v as nat, 16));
}

proof fn lemma_decimal_digit_value(d: int)
    requires
        0 <= d < 10,
    ensures
        digit_value(decimal_digit_char(d), false) == Some(d),
        decimal_digit_char(d) != '+',
        decimal_digit_char(d) != 'x' && decimal_digit_char(d) != 'X',
{
}

/// The decimal text of `v` reads back as `v` in radix ten, and none of
/// its characters is a sign or an `x`.
proof fn lemma_scan_decimal(v: nat)
    requires
        v <= usize::MAX,
    ensures
        scan_digits(decimal_spec(v), false) == Ok::<int, IntErrorKind>(v as int),
        decimal_spec(v).len() >= 1,
        forall|i: int| 0 <= i < decimal_spec(v).len() ==> #[trigger] decimal_spec(v)[i] != '+'
            && decimal_spec(v)[i] != 'x' && decimal_spec(v)[i] != 'X',
    decreases v,
{
    let s = decimal_spec(v);
    if v < 10 {
        lemma_decimal_digit_value(v as int);
        assert(s.drop_last() =~= Seq::<char>::empty());
        assert(scan_digits(s.drop_last(), false) == Ok::<int, IntErrorKind>(0));
        assert(s.last() == decimal_digit_char(v as int));
    } else {
        lemma_scan_decimal(v / 10);
        lemma_decimal_digit_value((v % 10) as int);
        assert(s.drop_last() =~= decimal_spec(v / 10));
        assert(s.last() == decimal_digit_char((v % 10) as int));
        assert((v / 10) * 10 + v % 10 == v);
        assert forall|i: int| 0 <= i < s.len() implies #[trigger] s[i] != '+' && s[i] != 'x' && s[i] != 'X' by {
            if i < s.len() - 1 {
                assert(s[i] == decimal_spec(v / 10)[i]);
            }
        }
    }
}

/// Decimal and hexadecimal are two spellings of one handle: the decimal
/// text of a nonzero `v` reads as `v`, as `format_hwnd(v)` does.
pub proof fn lemma_decimal_text_is_the_same_handle(v: usize)
    requires
        v != 0,
    ensures
        hwnd_value(decimal_spec(v as nat)) == Ok::<int, HwndError>(v as int),
        hwnd_value(decimal_spec(v as nat)) == hwnd_value(format_hwnd_spec(v as nat)),
{
    lemma_scan_decimal(v as nat);
    lemma_format_then_parse(v);
    let s = decimal_spec(v as nat);
    assert(s[0] != '+');
    if s.len() >= 2 {
        assert(s[1] != 'x' && s[1] != 'X');
    }
}

} // verus!
