//! Numbers as the format writes them.
//!
//! A number is kept as the text that denotes it, together with the fact
//! that the text is well formed. The accepted texts are those of the grammar
//!
//! ```text
//! Number  ::= Sign? ( 'inf' | 'infinity' | 'nan' | Decimal )
//! Decimal ::= ( Digit+ | Digit+ '.' Digit* | Digit* '.' Digit+ ) Exp?
//! Exp     ::= ( 'e' | 'E' ) Sign? Digit+
//! Sign    ::= '+' | '-'
//! ```
//!
//! in which the three words are read without regard to case.
//!
//! Whether a number is zero is decided on its digits, not on a value
//! rounded to some precision: see [`is_zero_text`].

use vstd::prelude::*;
use vstd::string::*;
use crate::text::to_chars;

verus! {

/// A decimal digit.
pub open spec fn is_digit(c: char) -> bool {
    0x30 <= c as u32 <= 0x39
}

/// A sign.
pub open spec fn is_sign(c: char) -> bool {
    c == '+' || c == '-'
}

/// Whether `c` is the lower-case letter `letter` or its upper-case form.
pub open spec fn is_letter(c: char, letter: char) -> bool {
    c == letter || c as u32 + 0x20 == letter as u32
}

/// Whether `s` from position `i` to its end spells `word`, a word of
/// lower-case letters, without regard to case.
pub open spec fn spells(s: Seq<char>, i: int, word: Seq<char>) -> bool {
    &&& s.len() - i == word.len()
    &&& forall|j: int| 0 <= j < word.len() ==> is_letter(#[trigger] s[i + j], word[j])
}

/// The first position at or after `i` that holds no digit, or the length of
/// `s` where there is none.
pub open spec fn digits_end(s: Seq<char>, i: int) -> int
    decreases s.len() - i,
{
    if 0 <= i < s.len() && is_digit(s[i]) {
        digits_end(s, i + 1)
    } else {
        i
    }
}

/// Where the digits of the number start: after the sign, if there is one.
pub open spec fn digits_start(s: Seq<char>) -> int {
    if s.len() > 0 && is_sign(s[0]) {
        1
    } else {
        0
    }
}

/// Where the mantissa that starts at `i` ends: after the digits, and after
/// the point and the digits behind it where a point follows.
pub open spec fn mantissa_end(s: Seq<char>, i: int) -> int {
    let a = digits_end(s, i);
    if a < s.len() && s[a] == '.' {
        digits_end(s, a + 1)
    } else {
        a
    }
}

/// How many digits the mantissa that starts at `i` holds.
pub open spec fn mantissa_digits(s: Seq<char>, i: int) -> int {
    let a = digits_end(s, i);
    if a < s.len() && s[a] == '.' {
        mantissa_end(s, i) - i - 1
    } else {
        a - i
    }
}

/// Whether `s` from position `b` to its end is an exponent: the letter, an
/// optional sign, and at least one digit.
pub open spec fn is_exponent(s: Seq<char>, b: int) -> bool {
    let c = if b + 1 < s.len() && is_sign(s[b + 1]) {
        b + 2
    } else {
        b + 1
    };
    &&& 0 <= b < s.len()
    &&& (s[b] == 'e' || s[b] == 'E')
    &&& c < s.len()
    &&& digits_end(s, c) == s.len()
}

/// Whether `s` from position `i` to its end is a decimal: a mantissa with
/// at least one digit, and an exponent or nothing after it.
pub open spec fn is_decimal(s: Seq<char>, i: int) -> bool {
    let b = mantissa_end(s, i);
    mantissa_digits(s, i) > 0 && (b == s.len() || is_exponent(s, b))
}

/// Whether `s` from position `i` to its end is one of the three words.
pub open spec fn is_special(s: Seq<char>, i: int) -> bool {
    spells(s, i, "inf"@) || spells(s, i, "infinity"@) || spells(s, i, "nan"@)
}

/// Whether `s` denotes a number.
pub open spec fn is_number(s: Seq<char>) -> bool {
    is_decimal(s, digits_start(s)) || is_special(s, digits_start(s))
}

/// Whether `s` denotes zero: a decimal whose mantissa holds no digit but
/// `0`, whatever its sign and exponent.
///
/// This is zero as the text writes it. A text with a digit other than `0`
/// in its mantissa is not zero, however small the number it denotes: `1e-400`
/// is not zero, although it is smaller than every positive number that a
/// floating-point value of 64 bits can hold, so that decoding it into such
/// a value gives zero. The texts on which the two readings differ are the
/// decimals with a mantissa other than zero that denote a number of at most
/// 2 to the power of -1075 in absolute value.
pub open spec fn is_zero_text(s: Seq<char>) -> bool {
    let i = digits_start(s);
    &&& is_decimal(s, i)
    &&& forall|j: int| i <= j < mantissa_end(s, i) ==> #[trigger] s[j] == '0' || s[j] == '.'
}

/// The number that the digits of `s[i..end]` write, read from left to
/// right; a character that is no digit, such as the point, is passed over.
pub open spec fn digits_value(s: Seq<char>, i: int, end: int) -> nat
    decreases end - i,
{
    if i >= end {
        0
    } else if is_digit(s[end - 1]) {
        (digits_value(s, i, end - 1) * 10 + (s[end - 1] as u32 - 0x30)) as nat
    } else {
        digits_value(s, i, end - 1)
    }
}

/// Digits write the number 0 exactly where each of them is `0`.
pub proof fn lemma_digits_value_zero(s: Seq<char>, i: int, end: int)
    requires
        0 <= i <= end <= s.len(),
    ensures
        digits_value(s, i, end) == 0 <==> forall|j: int|
            i <= j < end && is_digit(s[j]) ==> #[trigger] s[j] == '0',
    decreases end - i,
{
    if i < end {
        lemma_digits_value_zero(s, i, end - 1);
        let c = s[end - 1];
        if c as u32 == 0x30 {
            vstd::utf8::char_u32_cast(c, 0x30u32);
            vstd::utf8::char_u32_cast('0', 0x30u32);
        }
        if digits_value(s, i, end) == 0 {
            assert forall|j: int| i <= j < end && is_digit(s[j]) implies #[trigger] s[j]
                == '0' by {
                if j == end - 1 {
                } else {
                    assert(digits_value(s, i, end - 1) == 0);
                }
            }
        }
    }
}

/// Whether `c` is a decimal digit.
fn is_digit_char(c: char) -> (b: bool)
    ensures
        b == is_digit(c),
{
    let u: u32 = c as u32;
    0x30 <= u && u <= 0x39
}

/// The position of the first character at or after `i` that is no digit.
fn scan_digits(v: &Vec<char>, i: usize) -> (a: usize)
    requires
        i <= v.len(),
    ensures
        a == digits_end(v@, i as int),
        i <= a <= v.len(),
{
    let mut a: usize = i;
    while a < v.len() && is_digit_char(v[a])
        invariant
            i <= a <= v.len(),
            digits_end(v@, a as int) == digits_end(v@, i as int),
        decreases v.len() - a,
    {
        a = a + 1;
    }
    a
}

/// Whether `v` from position `i` to its end spells `word`.
fn spells_word(v: &Vec<char>, i: usize, word: &str) -> (b: bool)
    requires
        i <= v.len(),
        forall|j: int| 0 <= j < word@.len() ==> 0x61 <= (#[trigger] word@[j]) as u32 <= 0x7A,
    ensures
        b == spells(v@, i as int, word@),
{
    let w = to_chars(word);
    if v.len() - i != w.len() {
        return false;
    }
    let mut j: usize = 0;
    while j < w.len()
        invariant
            j <= w.len(),
            i <= v.len(),
            v.len() - i == w.len(),
            w@ == word@,
            forall|k: int| 0 <= k < w@.len() ==> 0x61 <= (#[trigger] w@[k]) as u32 <= 0x7A,
            forall|k: int| 0 <= k < j ==> is_letter(#[trigger] v@[i + k], w@[k]),
        decreases w.len() - j,
    {
        let c = v[i + j];
        let l = w[j];
        assert(0x61 <= w@[j as int] as u32 <= 0x7A);
        if !(c == l || c as u32 == l as u32 - 0x20) {
            assert(!is_letter(v@[i + j], word@[j as int]));
            return false;
        }
        j = j + 1;
    }
    true
}

/// Where the mantissa that starts at `i` ends, and how many digits it holds.
fn scan_mantissa(v: &Vec<char>, i: usize) -> (r: (usize, usize))
    requires
        i <= v.len(),
    ensures
        r.0 == mantissa_end(v@, i as int),
        r.1 == mantissa_digits(v@, i as int),
        i <= r.0 <= v.len(),
{
    let a = scan_digits(v, i);
    if a < v.len() && v[a] == '.' {
        let b = scan_digits(v, a + 1);
        (b, b - i - 1)
    } else {
        (a, a - i)
    }
}

/// Whether `v` from position `i` to its end is a decimal.
fn check_decimal(v: &Vec<char>, i: usize) -> (ok: bool)
    requires
        i <= v.len(),
    ensures
        ok == is_decimal(v@, i as int),
{
    let (b, digits) = scan_mantissa(v, i);
    if digits == 0 {
        return false;
    }
    if b == v.len() {
        return true;
    }
    if !(v[b] == 'e' || v[b] == 'E') {
        return false;
    }
    let c: usize = if b + 1 < v.len() && (v[b + 1] == '+' || v[b + 1] == '-') {
        b + 2
    } else {
        b + 1
    };
    if c >= v.len() {
        return false;
    }
    scan_digits(v, c) == v.len()
}

/// Where the digits of the number start.
fn sign_len(v: &Vec<char>) -> (i: usize)
    ensures
        i == digits_start(v@),
        i <= v.len(),
{
    if v.len() > 0 && (v[0] == '+' || v[0] == '-') {
        1
    } else {
        0
    }
}

/// Whether `s` denotes a number.
pub fn check_number(s: &str) -> (ok: bool)
    ensures
        ok == is_number(s@),
{
    let v = to_chars(s);
    let i = sign_len(&v);
    if check_decimal(&v, i) {
        return true;
    }
    proof {
        reveal_strlit("inf");
        reveal_strlit("infinity");
        reveal_strlit("nan");
    }
    spells_word(&v, i, "inf") || spells_word(&v, i, "infinity") || spells_word(&v, i, "nan")
}

/// A number of the document, held as the text that denotes it.
#[derive(Debug, PartialEq, Eq)]
pub struct Number {
    text: String,
}

impl View for Number {
    type V = Seq<char>;

    closed spec fn view(&self) -> Seq<char> {
        self.text@
    }
}

impl Number {
    #[verifier::type_invariant]
    spec fn well_formed(&self) -> bool {
        is_number(self.text@)
    }

    /// Reads a number: `Some` exactly where `s` denotes one, and then the
    /// number holds `s` unchanged.
    pub fn from_text(s: &str) -> (r: Option<Number>)
        ensures
            r is Some <==> is_number(s@),
            r matches Some(n) ==> n@ == s@,
    {
        if check_number(s) {
            Some(Number { text: s.to_owned() })
        } else {
            None
        }
    }

    /// The number zero, written `0`.
    pub fn zero() -> (n: Number)
        ensures
            n@ == "0"@,
    {
        proof {
            reveal_strlit("0");
            let s = "0"@;
            assert(digits_end(s, 1) == 1);
            assert(digits_end(s, 0) == 1);
            assert(is_decimal(s, 0));
        }
        Number { text: "0".to_owned() }
    }

    /// The text of the number.
    pub fn as_str(&self) -> (s: &str)
        ensures
            s@ == self@,
            is_number(s@),
    {
        proof {
            use_type_invariant(self);
        }
        self.text.as_str()
    }

    /// Whether the number is zero: whether it is a decimal and every digit
    /// of its mantissa is `0`. A number such as `1e-400`, which is not zero
    /// and would only round to zero, is not zero.
    pub fn is_zero(&self) -> (b: bool)
        ensures
            b == is_zero_text(self@),
    {
        let v = to_chars(self.text.as_str());
        let i = sign_len(&v);
        if !check_decimal(&v, i) {
            return false;
        }
        let (end, _) = scan_mantissa(&v, i);
        let mut j: usize = i;
        while j < end
            invariant
                i <= j <= end <= v.len(),
                v@ == self@,
                i == digits_start(v@),
                end == mantissa_end(v@, i as int),
                forall|k: int| i <= k < j ==> #[trigger] v@[k] == '0' || v@[k] == '.',
            decreases end - j,
        {
            if !(v[j] == '0' || v[j] == '.') {
                assert(!(self@[j as int] == '0' || self@[j as int] == '.'));
                return false;
            }
            j = j + 1;
        }
        true
    }
}

impl Clone for Number {
    /// A number with the same text.
    fn clone(&self) -> (n: Number)
        ensures
            n@ == self@,
    {
        proof {
            use_type_invariant(self);
        }
        Number { text: self.text.clone() }
    }
}

} // verus!
