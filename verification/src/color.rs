//! sRGB colour stored as `0xRRGGBB`, with its `#rrggbb` text form.
//!
//! The luminance maths of the tool is floating point and lives with the
//! program; this module holds the exact, integer side of a colour.

use vstd::prelude::*;
use vstd::utf8::*;

use crate::text::{
    debug_char, debug_str, is_ascii_upper, is_hex_char, is_hex_digit, is_upper_char, push_char,
    spec_debug_char, spec_debug_str,
};

verus! {

/// An opaque sRGB colour, stored as `0xRRGGBB` so equality is exact and cheap.
#[derive(Debug, Clone, Copy, PartialEq, Eq, Hash, Structural)]
pub struct Color(pub u32);

/// `16^n`.
pub open spec fn pow16(n: nat) -> nat
    decreases n,
{
    if n == 0 {
        1
    } else {
        16 * pow16((n - 1) as nat)
    }
}

/// The value of one hex digit, either case.
pub open spec fn hex_digit_value(c: char) -> nat {
    if '0' <= c && c <= '9' {
        (c as int - '0' as int) as nat
    } else if 'a' <= c && c <= 'f' {
        (c as int - 'a' as int + 10) as nat
    } else if 'A' <= c && c <= 'F' {
        (c as int - 'A' as int + 10) as nat
    } else {
        0
    }
}

/// The number written by a sequence of hex digits, most significant first.
pub open spec fn hex_value(s: Seq<char>) -> nat
    decreases s.len(),
{
    if s.len() == 0 {
        0
    } else {
        hex_value(s.drop_last()) * 16 + hex_digit_value(s.last())
    }
}

/// The lowercase hex digit for `d < 16`.
pub open spec fn hex_digit_char(d: nat) -> char {
    if d < 10 {
        ('0' as int + d) as char
    } else {
        ('a' as int + d - 10) as char
    }
}

/// The last `width` lowercase hex digits of `n`, zero-padded.
pub open spec fn hex_digits(n: nat, width: nat) -> Seq<char>
    decreases width,
{
    if width == 0 {
        seq![]
    } else {
        hex_digits(n / 16, (width - 1) as nat).push(hex_digit_char(n % 16))
    }
}

/// How many hex digits `n` takes written without leading zeros (at least one).
pub open spec fn hex_width(n: nat) -> nat
    decreases n,
{
    if n < 16 {
        1
    } else {
        1 + hex_width(n / 16)
    }
}

/// `n` in lowercase hex, zero-padded to at least six digits: the `{:06x}` form.
pub open spec fn padded_hex(n: nat) -> Seq<char> {
    hex_digits(n, if hex_width(n) < 6 { 6 } else { hex_width(n) })
}

/// `#rrggbb`.
pub open spec fn css_hex(c: Color) -> Seq<char> {
    seq!['#'] + padded_hex(c.0 as nat)
}

/// `0xrrggbb`.
pub open spec fn rust_hex(c: Color) -> Seq<char> {
    seq!['0', 'x'] + padded_hex(c.0 as nat)
}

/// Why a string is not a colour.
#[derive(Debug, Clone, Copy, PartialEq, Eq, Structural)]
pub enum ColorErrorKind {
    /// It does not start with `#`.
    MissingHash,
    /// What follows the `#` is not six bytes long.
    WrongLength,
    /// It holds this character, the first one that is not a hex digit.
    NonHex(char),
    /// It is a hex colour written with uppercase digits.
    Uppercase,
}

/// A rejected colour, with the text that was given.
#[derive(Debug, Clone)]
pub struct ColorError {
    pub input: String,
    pub kind: ColorErrorKind,
}

pub open spec fn starts_with_hash(s: Seq<char>) -> bool {
    s.len() > 0 && s[0] == '#'
}

/// Six bytes after the `#`, as the tool measures length.
pub open spec fn six_bytes_after_hash(s: Seq<char>) -> bool {
    encode_utf8(s.drop_first()).len() == 6
}

pub open spec fn all_hex_after_hash(s: Seq<char>) -> bool {
    forall|i: int| 1 <= i < s.len() ==> is_hex_char(#[trigger] s[i])
}

pub open spec fn some_upper_after_hash(s: Seq<char>) -> bool {
    exists|i: int| 1 <= i < s.len() && is_upper_char(#[trigger] s[i])
}

/// `#rrggbb` with lowercase hex digits.
pub open spec fn is_colour_text(s: Seq<char>) -> bool {
    &&& starts_with_hash(s)
    &&& six_bytes_after_hash(s)
    &&& all_hex_after_hash(s)
    &&& !some_upper_after_hash(s)
}

/// `kind` is the reason the tool gives for rejecting `s`: the checks run in
/// the order `#`, length, hex digits, case, and the first that fails is
/// reported. For a non-hex digit, the first one is named.
pub open spec fn explains(s: Seq<char>, kind: ColorErrorKind) -> bool {
    match kind {
        ColorErrorKind::MissingHash => !starts_with_hash(s),
        ColorErrorKind::WrongLength => starts_with_hash(s) && !six_bytes_after_hash(s),
        ColorErrorKind::NonHex(c) => {
            &&& starts_with_hash(s)
            &&& six_bytes_after_hash(s)
            &&& exists|i: int|
                1 <= i < s.len() && s[i] == c && !is_hex_char(c) && (forall|k: int|
                    1 <= k < i ==> is_hex_char(#[trigger] s[k]))
        },
        ColorErrorKind::Uppercase => {
            &&& starts_with_hash(s)
            &&& six_bytes_after_hash(s)
            &&& all_hex_after_hash(s)
            &&& some_upper_after_hash(s)
        },
    }
}

/// The text of the message that a rejected colour is reported with.
pub open spec fn color_error_message(e: ColorError) -> Seq<char> {
    let q = spec_debug_str(e.input@);
    match e.kind {
        ColorErrorKind::MissingHash => "colour "@ + q + " must start with '#' (expected \"#rrggbb\")"@,
        ColorErrorKind::WrongLength => "colour "@ + q
            + " must have exactly 6 hex digits (expected \"#rrggbb\")"@,
        ColorErrorKind::NonHex(c) => "colour "@ + q + " contains a non-hex character "@
            + spec_debug_char(c),
        ColorErrorKind::Uppercase => "colour "@ + q + " must be lowercase (write \""@ + seq!['#']
            + lowered_tail(e.input@) + "\")"@,
    }
}

/// Everything after the first character, ASCII-lowercased.
pub open spec fn lowered_tail(s: Seq<char>) -> Seq<char> {
    if s.len() >= 1 {
        crate::text::lower_seq(s.skip(1))
    } else {
        seq![]
    }
}

proof fn lemma_hex_value_bound(s: Seq<char>)
    requires
        forall|i: int| 0 <= i < s.len() ==> is_hex_char(#[trigger] s[i]),
    ensures
        hex_value(s) < pow16(s.len()),
    decreases s.len(),
{
    if s.len() > 0 {
        let t = s.drop_last();
        assert forall|i: int| 0 <= i < t.len() implies is_hex_char(#[trigger] t[i]) by {
            assert(t[i] == s[i]);
        }
        lemma_hex_value_bound(t);
        assert(is_hex_char(s[s.len() - 1]));
    }
}

/// Hex digits have one-byte encodings.
proof fn lemma_hex_is_ascii(s: Seq<char>)
    requires
        forall|i: int| 0 <= i < s.len() ==> is_hex_char(#[trigger] s[i]),
    ensures
        is_ascii_chars(s),
        encode_utf8(s).len() == s.len(),
{
    assert forall|i: int| 0 <= i < s.len() implies '\0' <= #[trigger] s[i] <= '\u{7f}' by {
        assert(is_hex_char(s[i]));
    }
    is_ascii_chars_encode_utf8(s);
}

/// The digits read back give the number modulo `16^width`.
proof fn lemma_hex_digits_value(n: nat, width: nat)
    ensures
        hex_value(hex_digits(n, width)) == n % pow16(width),
        hex_digits(n, width).len() == width,
        forall|i: int|
            0 <= i < width ==> {
                let c = #[trigger] hex_digits(n, width)[i];
                is_hex_char(c) && !is_upper_char(c)
            },
    decreases width,
{
    if width > 0 {
        let w1 = (width - 1) as nat;
        lemma_hex_digits_value(n / 16, w1);
        let d = hex_digits(n, width);
        assert(d.drop_last() =~= hex_digits(n / 16, w1));
        let r = n % 16;
        assert(hex_digit_value(hex_digit_char(r)) == r);
        let p = pow16(w1);
        assert(p > 0) by {
            lemma_pow16_positive(w1);
        }
        assert((n / 16) % p * 16 + n % 16 == n % (16 * p)) by (nonlinear_arith)
            requires
                p > 0,
        {
            vstd::arithmetic::div_mod::lemma_breakdown(n as int, 16, p as int);
        }
    }
}

proof fn lemma_pow16_positive(n: nat)
    ensures
        pow16(n) > 0,
    decreases n,
{
    if n > 0 {
        lemma_pow16_positive((n - 1) as nat);
    }
}

/// A number below `16^6` takes at most six digits.
proof fn lemma_hex_width_small(n: nat)
    requires
        n < 0x1000000,
    ensures
        hex_width(n) <= 6,
{
    reveal_with_fuel(hex_width, 7);
}

fn hex_digit_char_exec(d: u32) -> (c: char)
    requires
        d < 16,
    ensures
        c == hex_digit_char(d as nat),
{
    if d < 10 {
        (48u8 + d as u8) as char
    } else {
        (87u8 + d as u8) as char
    }
}

pub(crate) fn hex_digit_value_exec(c: char) -> (v: u32)
    requires
        is_hex_char(c),
    ensures
        v == hex_digit_value(c),
        v < 16,
{
    if '0' <= c && c <= '9' {
        (c as u32) - ('0' as u32)
    } else if 'a' <= c && c <= 'f' {
        (c as u32) - ('a' as u32) + 10
    } else {
        (c as u32) - ('A' as u32) + 10
    }
}

fn hex_width_exec(n: u32) -> (w: usize)
    ensures
        w == hex_width(n as nat),
        w <= 8,
    decreases n,
{
    if n < 16 {
        1
    } else {
        let w = hex_width_exec(n / 16);
        proof {
            reveal_with_fuel(hex_width, 8);
        }
        assert(n / 16 < 0x10000000);
        1 + w
    }
}

fn hex_digits_exec(n: u32, width: usize) -> (s: String)
    ensures
        s@ == hex_digits(n as nat, width as nat),
    decreases width,
{
    if width == 0 {
        String::new()
    } else {
        let mut s = hex_digits_exec(n / 16, width - 1);
        push_char(&mut s, hex_digit_char_exec(n % 16));
        s
    }
}

fn padded_hex_exec(n: u32) -> (s: String)
    ensures
        s@ == padded_hex(n as nat),
{
    let w = hex_width_exec(n);
    hex_digits_exec(n, if w < 6 { 6 } else { w })
}

impl Color {
    /// The red, green and blue bytes.
    pub fn rgb(self) -> (res: (u8, u8, u8))
        ensures
            res.0 == (self.0 / 0x10000) % 0x100,
            res.1 == (self.0 / 0x100) % 0x100,
            res.2 == self.0 % 0x100,
    {
        (
            ((self.0 / 0x10000) % 0x100) as u8,
            ((self.0 / 0x100) % 0x100) as u8,
            (self.0 % 0x100) as u8,
        )
    }

    /// `#rrggbb`, always lowercase — the canonical form used everywhere.
    pub fn to_css_hex(self) -> (s: String)
        ensures
            s@ == css_hex(self),
    {
        let mut s = String::new();
        push_char(&mut s, '#');
        let digits = padded_hex_exec(self.0);
        s.append(digits.as_str());
        s
    }

    /// `0xrrggbb`, for Rust `hex(...)` literals.
    pub fn to_rust_hex(self) -> (s: String)
        ensures
            s@ == rust_hex(self),
    {
        let mut s = String::new();
        push_char(&mut s, '0');
        push_char(&mut s, 'x');
        let digits = padded_hex_exec(self.0);
        s.append(digits.as_str());
        s
    }

    /// Parses `#rrggbb`. The six digits must be lowercase hex: uppercase is
    /// refused rather than silently normalized.
    pub fn parse(s: &str) -> (res: Result<Color, ColorError>)
        ensures
            res is Ok <==> is_colour_text(s@),
            res matches Ok(c) ==> c.0 == hex_value(s@.drop_first()),
            res matches Err(e) ==> e.input@ == s@ && explains(s@, e.kind),
    {
        let n = s.unicode_len();
        if n == 0 || s.get_char(0) != '#' {
            return Err(ColorError { input: s.to_owned(), kind: ColorErrorKind::MissingHash });
        }
        assert(s@.skip(1) =~= s@.drop_first());
        if !crate::text::utf8_len_from_is(s, 1, 6) {
            return Err(ColorError { input: s.to_owned(), kind: ColorErrorKind::WrongLength });
        }
        let mut i: usize = 1;
        while i < n
            invariant
                1 <= i <= n,
                n == s@.len(),
                starts_with_hash(s@),
                six_bytes_after_hash(s@),
                forall|k: int| 1 <= k < i ==> is_hex_char(#[trigger] s@[k]),
            decreases n - i,
        {
            let c = s.get_char(i);
            if !is_hex_digit(c) {
                return Err(ColorError { input: s.to_owned(), kind: ColorErrorKind::NonHex(c) });
            }
            i = i + 1;
        }
        let ghost t = s@.drop_first();
        proof {
            assert forall|k: int| 0 <= k < t.len() implies is_hex_char(#[trigger] t[k]) by {
                assert(t[k] == s@[k + 1]);
            }
            lemma_hex_is_ascii(t);
        }
        assert(n == 7);
        let mut j: usize = 1;
        while j < n
            invariant
                1 <= j <= n,
                n == s@.len(),
                n == 7,
                starts_with_hash(s@),
                six_bytes_after_hash(s@),
                all_hex_after_hash(s@),
                forall|k: int| 1 <= k < j ==> !is_upper_char(#[trigger] s@[k]),
            decreases n - j,
        {
            if is_ascii_upper(s.get_char(j)) {
                return Err(ColorError { input: s.to_owned(), kind: ColorErrorKind::Uppercase });
            }
            j = j + 1;
        }
        let mut v: u32 = 0;
        let mut k: usize = 1;
        while k < n
            invariant
                1 <= k <= n,
                n == s@.len(),
                n == 7,
                all_hex_after_hash(s@),
                v == hex_value(s@.subrange(1, k as int)),
                v < pow16((k - 1) as nat),
            decreases n - k,
        {
            let d = hex_digit_value_exec(s.get_char(k));
            proof {
                let sub = s@.subrange(1, k as int + 1);
                assert(sub.drop_last() =~= s@.subrange(1, k as int));
                assert(sub.last() == s@[k as int]);
                reveal_with_fuel(pow16, 7);
            }
            v = v * 16 + d;
            k = k + 1;
        }
        assert(s@.subrange(1, 7) =~= s@.drop_first());
        Ok(Color(v))
    }
}

impl ColorError {
    /// The message the tool reports this error with.
    pub fn message(&self) -> (m: String)
        ensures
            m@ == color_error_message(*self),
    {
        let mut m = String::from_str("colour ");
        m.append(debug_str(self.input.as_str()).as_str());
        match self.kind {
            ColorErrorKind::MissingHash => {
                m.append(" must start with '#' (expected \"#rrggbb\")");
            },
            ColorErrorKind::WrongLength => {
                m.append(" must have exactly 6 hex digits (expected \"#rrggbb\")");
            },
            ColorErrorKind::NonHex(c) => {
                m.append(" contains a non-hex character ");
                m.append(debug_char(c).as_str());
            },
            ColorErrorKind::Uppercase => {
                m.append(" must be lowercase (write \"");
                push_char(&mut m, '#');
                let input = self.input.as_str();
                let rest = if input.unicode_len() >= 1 {
                    crate::text::ascii_lowercase_from(input, 1)
                } else {
                    String::new()
                };
                m.append(rest.as_str());
                m.append("\")");
            },
        }
        m
    }
}

impl std::str::FromStr for Color {
    type Err = ColorError;

    fn from_str(s: &str) -> (res: Result<Color, ColorError>)
        ensures
            res is Ok <==> is_colour_text(s@),
            res matches Ok(c) ==> c.0 == hex_value(s@.drop_first()),
            res matches Err(e) ==> e.input@ == s@ && explains(s@, e.kind),
    {
        Color::parse(s)
    }
}

/// Writing a colour and reading it back gives the same colour, for every
/// colour that fits in 24 bits.
pub proof fn lemma_css_hex_round_trip(c: Color)
    requires
        c.0 <= 0xffffff,
    ensures
        is_colour_text(css_hex(c)),
        hex_value(css_hex(c).drop_first()) == c.0,
{
    let n = c.0 as nat;
    lemma_hex_width_small(n);
    let d = hex_digits(n, 6);
    assert(padded_hex(n) == d);
    lemma_hex_digits_value(n, 6);
    reveal_with_fuel(pow16, 7);
    assert(pow16(6) == 0x1000000);
    vstd::arithmetic::div_mod::lemma_small_mod(n, 0x1000000);
    assert(hex_value(d) == n);
    let s = css_hex(c);
    assert(s.drop_first() =~= d);
    assert forall|i: int| 1 <= i < s.len() implies is_hex_char(#[trigger] s[i]) by {
        assert(s[i] == d[i - 1]);
    }
    assert(!some_upper_after_hash(s)) by {
        assert forall|i: int| 1 <= i < s.len() implies !is_upper_char(#[trigger] s[i]) by {
            assert(s[i] == d[i - 1]);
        }
    }
    lemma_hex_is_ascii(d);
}

} // verus!
