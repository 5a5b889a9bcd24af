//! Small string helpers shared by the other modules.

use vstd::prelude::*;
use vstd::utf8::*;

verus! {

/// Appends one character to a `String` (`String::push`).
///
/// Trusted: the contract claims only what the standard library documents,
/// that the character is added at the end.
#[verifier::external_body]
pub(crate) fn push_char(s: &mut String, c: char)
    ensures
        final(s)@ == old(s)@.push(c),
{
    s.push(c);
}

/// What `{:?}` writes for a string: the text quoted, with escapes.
pub uninterp spec fn spec_debug_str(s: Seq<char>) -> Seq<char>;

/// What `{:?}` writes for a character: the character in single quotes, with
/// escapes.
pub uninterp spec fn spec_debug_char(c: char) -> Seq<char>;

/// `format!("{:?}", s)` on a string slice.
///
/// Trusted: std's `Debug` for `str`. Its result depends on the text alone; the
/// escaping rules are not restated here, the result is named.
#[verifier::external_body]
pub(crate) fn debug_str(s: &str) -> (res: String)
    ensures
        res@ == spec_debug_str(s@),
{
    format!("{:?}", s)
}

/// `format!("{:?}", c)` on a character.
///
/// Trusted: std's `Debug` for `char`, named rather than restated.
#[verifier::external_body]
pub(crate) fn debug_char(c: char) -> (res: String)
    ensures
        res@ == spec_debug_char(c),
{
    format!("{:?}", c)
}

/// UTF-8 encoding distributes over concatenation.
pub proof fn lemma_encode_utf8_concat(a: Seq<char>, b: Seq<char>)
    ensures
        encode_utf8(a + b) == encode_utf8(a) + encode_utf8(b),
    decreases a.len(),
{
    if a.len() > 0 {
        lemma_encode_utf8_concat(a.drop_first(), b);
        assert((a + b).drop_first() =~= a.drop_first() + b);
        assert(encode_scalar(a[0] as u32) + (encode_utf8(a.drop_first()) + encode_utf8(b))
            =~= (encode_scalar(a[0] as u32) + encode_utf8(a.drop_first())) + encode_utf8(b));
    }
}

/// The number of bytes UTF-8 takes for one character.
pub fn utf8_width(c: char) -> (w: usize)
    ensures
        w == encode_scalar(c as u32).len(),
        1 <= w <= 4,
{
    broadcast use vstd::utf8::char_is_scalar;
    let v = c as u32;
    if v <= 0x7f {
        1
    } else if v <= 0x7ff {
        2
    } else if v <= 0xffff {
        3
    } else {
        4
    }
}

/// Whether the characters of `s` from index `start` on take exactly `want`
/// bytes in UTF-8 (the byte length of that part of the string).
pub fn utf8_len_from_is(s: &str, start: usize, want: usize) -> (res: bool)
    requires
        start <= s@.len(),
        want < usize::MAX - 4,
    ensures
        res == (encode_utf8(s@.skip(start as int)).len() == want),
{
    let n = s.unicode_len();
    let mut total: usize = 0;
    let mut i = start;
    while i < n && total <= want
        invariant
            start <= i <= n,
            n == s@.len(),
            want < usize::MAX - 4,
            total <= want + 4,
            total == encode_utf8(s@.subrange(start as int, i as int)).len(),
        decreases n - i,
    {
        let c = s.get_char(i);
        proof {
            let a = s@.subrange(start as int, i as int);
            assert(s@.subrange(start as int, i + 1) =~= a + seq![c]);
            lemma_encode_utf8_concat(a, seq![c]);
            assert(seq![c].drop_first() =~= Seq::<char>::empty());
            reveal_with_fuel(encode_utf8, 2);
            assert(encode_utf8(seq![c]) =~= encode_scalar(c as u32));
        }
        total = total + utf8_width(c);
        i = i + 1;
    }
    proof {
        let a = s@.subrange(start as int, i as int);
        let b = s@.subrange(i as int, n as int);
        assert(s@.skip(start as int) =~= a + b);
        lemma_encode_utf8_concat(a, b);
    }
    total == want && i == n
}

/// Characters `'0'..='9'`, `'a'..='f'` and `'A'..='F'`.
pub open spec fn is_hex_char(c: char) -> bool {
    ('0' <= c && c <= '9') || ('a' <= c && c <= 'f') || ('A' <= c && c <= 'F')
}

/// ASCII `'A'..='Z'`.
pub open spec fn is_upper_char(c: char) -> bool {
    'A' <= c && c <= 'Z'
}

/// ASCII `'0'..='9'`.
pub open spec fn is_digit_char(c: char) -> bool {
    '0' <= c && c <= '9'
}

/// ASCII lowercasing of one character; everything else is kept.
pub open spec fn lower_char(c: char) -> char {
    if is_upper_char(c) {
        (c as int + 32) as char
    } else {
        c
    }
}

pub fn is_hex_digit(c: char) -> (res: bool)
    ensures
        res == is_hex_char(c),
{
    ('0' <= c && c <= '9') || ('a' <= c && c <= 'f') || ('A' <= c && c <= 'F')
}

pub fn is_ascii_upper(c: char) -> (res: bool)
    ensures
        res == is_upper_char(c),
{
    'A' <= c && c <= 'Z'
}

pub fn is_ascii_digit(c: char) -> (res: bool)
    ensures
        res == is_digit_char(c),
{
    '0' <= c && c <= '9'
}

pub fn to_lower(c: char) -> (res: char)
    ensures
        res == lower_char(c),
{
    if 'A' <= c && c <= 'Z' {
        ((c as u32) + 32) as u8 as char
    } else {
        c
    }
}

/// The characters of `s` from index `start` on, ASCII-lowercased.
pub fn ascii_lowercase_from(s: &str, start: usize) -> (res: String)
    requires
        start <= s@.len(),
    ensures
        res@ == lower_seq(s@.skip(start as int)),
{
    let n = s.unicode_len();
    let mut res = String::new();
    let mut i = start;
    while i < n
        invariant
            start <= i <= n,
            n == s@.len(),
            res@ == lower_seq(s@.subrange(start as int, i as int)),
        decreases n - i,
    {
        let c = s.get_char(i);
        push_char(&mut res, to_lower(c));
        proof {
            assert(lower_seq(s@.subrange(start as int, i + 1)) =~= lower_seq(
                s@.subrange(start as int, i as int),
            ).push(lower_char(c)));
        }
        i = i + 1;
    }
    assert(s@.subrange(start as int, n as int) =~= s@.skip(start as int));
    res
}

} // verus!

verus! {

/// Unicode `White_Space`, the set `char::is_whitespace` tests.
pub open spec fn is_ws_char(c: char) -> bool {
    ||| ('\u{9}' <= c && c <= '\u{d}')
    ||| c == ' '
    ||| c == '\u{85}'
    ||| c == '\u{a0}'
    ||| c == '\u{1680}'
    ||| ('\u{2000}' <= c && c <= '\u{200a}')
    ||| c == '\u{2028}'
    ||| c == '\u{2029}'
    ||| c == '\u{202f}'
    ||| c == '\u{205f}'
    ||| c == '\u{3000}'
}

pub fn is_whitespace(c: char) -> (res: bool)
    ensures
        res == is_ws_char(c),
{
    ('\u{9}' <= c && c <= '\u{d}') || c == ' ' || c == '\u{85}' || c == '\u{a0}' || c
        == '\u{1680}' || ('\u{2000}' <= c && c <= '\u{200a}') || c == '\u{2028}' || c
        == '\u{2029}' || c == '\u{202f}' || c == '\u{205f}' || c == '\u{3000}'
}

/// Leading whitespace removed.
pub open spec fn trim_start(s: Seq<char>) -> Seq<char>
    decreases s.len(),
{
    if s.len() > 0 && is_ws_char(s[0]) {
        trim_start(s.drop_first())
    } else {
        s
    }
}

/// Trailing whitespace removed.
pub open spec fn trim_end(s: Seq<char>) -> Seq<char>
    decreases s.len(),
{
    if s.len() > 0 && is_ws_char(s.last()) {
        trim_end(s.drop_last())
    } else {
        s
    }
}

/// `str::trim`.
pub open spec fn trim(s: Seq<char>) -> Seq<char> {
    trim_end(trim_start(s))
}

/// Every character is whitespace, so the trimmed text is empty.
pub open spec fn is_blank_seq(s: Seq<char>) -> bool {
    forall|i: int| 0 <= i < s.len() ==> is_ws_char(#[trigger] s[i])
}

/// ASCII lowercasing of every character.
pub open spec fn lower_seq(s: Seq<char>) -> Seq<char> {
    s.map_values(|c: char| lower_char(c))
}

proof fn lemma_trim_start_skip(s: Seq<char>, i: int)
    requires
        0 <= i <= s.len(),
        forall|k: int| 0 <= k < i ==> is_ws_char(#[trigger] s[k]),
        i == s.len() || !is_ws_char(s[i]),
    ensures
        trim_start(s) == s.skip(i),
    decreases i,
{
    if i == 0 {
        assert(s.skip(0) =~= s);
    } else {
        assert(is_ws_char(s[0]));
        let t = s.drop_first();
        assert forall|k: int| 0 <= k < i - 1 implies is_ws_char(#[trigger] t[k]) by {
            assert(t[k] == s[k + 1]);
        }
        lemma_trim_start_skip(t, i - 1);
        assert(t.skip(i - 1) =~= s.skip(i));
    }
}

proof fn lemma_trim_end_take(s: Seq<char>, j: int)
    requires
        0 <= j <= s.len(),
        forall|k: int| j <= k < s.len() ==> is_ws_char(#[trigger] s[k]),
        j == 0 || !is_ws_char(s[j - 1]),
    ensures
        trim_end(s) == s.take(j),
    decreases s.len() - j,
{
    if j == s.len() {
        assert(s.take(j) =~= s);
    } else {
        assert(is_ws_char(s.last()));
        let t = s.drop_last();
        assert forall|k: int| j <= k < t.len() implies is_ws_char(#[trigger] t[k]) by {
            assert(t[k] == s[k]);
        }
        lemma_trim_end_take(t, j);
        assert(t.take(j) =~= s.take(j));
    }
}

/// Whether the text is empty once trimmed.
pub fn is_blank(s: &str) -> (res: bool)
    ensures
        res == is_blank_seq(s@),
        res == (trim(s@).len() == 0),
{
    let n = s.unicode_len();
    let mut i: usize = 0;
    while i < n
        invariant
            i <= n,
            n == s@.len(),
            forall|k: int| 0 <= k < i ==> is_ws_char(#[trigger] s@[k]),
        decreases n - i,
    {
        if !is_whitespace(s.get_char(i)) {
            proof {
                lemma_trim_start_skip(s@, i as int);
                let t = s@.skip(i as int);
                assert(t[0] == s@[i as int]);
                assert(trim_end(t).len() > 0) by {
                    let m = t.len();
                    let mut j = m;
                    lemma_trim_end_nonempty(t);
                }
            }
            return false;
        }
        i = i + 1;
    }
    proof {
        lemma_trim_start_skip(s@, n as int);
        assert(s@.skip(n as int).len() == 0);
        assert(trim_end(s@.skip(n as int)) =~= s@.skip(n as int));
    }
    true
}

proof fn lemma_trim_end_nonempty(t: Seq<char>)
    requires
        t.len() > 0,
        !is_ws_char(t[0]),
    ensures
        trim_end(t).len() > 0,
    decreases t.len(),
{
    if is_ws_char(t.last()) {
        assert(t.len() > 1);
        let u = t.drop_last();
        assert(u[0] == t[0]);
        lemma_trim_end_nonempty(u);
    }
}

/// `s.trim().to_ascii_lowercase()`.
pub fn trim_lowercase(s: &str) -> (res: String)
    ensures
        res@ == lower_seq(trim(s@)),
{
    let n = s.unicode_len();
    let mut i: usize = 0;
    while i < n && is_whitespace(s.get_char(i))
        invariant
            i <= n,
            n == s@.len(),
            forall|k: int| 0 <= k < i ==> is_ws_char(#[trigger] s@[k]),
        decreases n - i,
    {
        i = i + 1;
    }
    proof {
        lemma_trim_start_skip(s@, i as int);
    }
    let ghost t = s@.skip(i as int);
    let mut j: usize = n;
    while j > i && is_whitespace(s.get_char(j - 1))
        invariant
            i <= j <= n,
            n == s@.len(),
            t == s@.skip(i as int),
            forall|k: int| j <= k < n ==> is_ws_char(#[trigger] s@[k]),
        decreases j,
    {
        j = j - 1;
    }
    proof {
        let jj = (j - i) as int;
        assert forall|k: int| jj <= k < t.len() implies is_ws_char(#[trigger] t[k]) by {
            assert(t[k] == s@[k + i]);
        }
        if jj > 0 {
            assert(t[jj - 1] == s@[j - 1]);
        }
        lemma_trim_end_take(t, jj);
    }
    let mut res = String::new();
    let mut k: usize = i;
    while k < j
        invariant
            i <= k <= j,
            j <= n,
            n == s@.len(),
            res@ == lower_seq(s@.subrange(i as int, k as int)),
        decreases j - k,
    {
        let c = s.get_char(k);
        push_char(&mut res, to_lower(c));
        proof {
            assert(lower_seq(s@.subrange(i as int, k + 1)) =~= lower_seq(
                s@.subrange(i as int, k as int),
            ).push(lower_char(c)));
        }
        k = k + 1;
    }
    assert(s@.subrange(i as int, j as int) =~= t.take((j - i) as int));
    res
}

/// Whether two strings hold the same characters.
pub fn str_eq(a: &str, b: &str) -> (res: bool)
    ensures
        res == (a@ == b@),
{
    let n = a.unicode_len();
    if n != b.unicode_len() {
        return false;
    }
    let mut i: usize = 0;
    while i < n
        invariant
            i <= n,
            n == a@.len(),
            n == b@.len(),
            a@.take(i as int) == b@.take(i as int),
        decreases n - i,
    {
        if a.get_char(i) != b.get_char(i) {
            return false;
        }
        assert(a@.take(i + 1) =~= a@.take(i as int).push(a@[i as int]));
        assert(b@.take(i + 1) =~= b@.take(i as int).push(b@[i as int]));
        i = i + 1;
    }
    assert(a@.take(n as int) =~= a@);
    assert(b@.take(n as int) =~= b@);
    true
}

/// Strict lexicographic order on characters. For `String` this is the
/// order of `Ord`, since UTF-8 keeps code-point order byte by byte.
pub open spec fn seq_lt(a: Seq<char>, b: Seq<char>) -> bool
    decreases a.len(),
{
    if a.len() == 0 {
        b.len() > 0
    } else if b.len() == 0 {
        false
    } else if a[0] != b[0] {
        a[0] < b[0]
    } else {
        seq_lt(a.drop_first(), b.drop_first())
    }
}

pub proof fn lemma_seq_lt_irreflexive(a: Seq<char>)
    ensures
        !seq_lt(a, a),
    decreases a.len(),
{
    if a.len() > 0 {
        lemma_seq_lt_irreflexive(a.drop_first());
    }
}

pub proof fn lemma_seq_lt_transitive(a: Seq<char>, b: Seq<char>, c: Seq<char>)
    requires
        seq_lt(a, b),
        seq_lt(b, c),
    ensures
        seq_lt(a, c),
    decreases a.len(),
{
    if a.len() > 0 && b.len() > 0 && c.len() > 0 && a[0] == b[0] && b[0] == c[0] {
        lemma_seq_lt_transitive(a.drop_first(), b.drop_first(), c.drop_first());
    }
}

pub proof fn lemma_seq_lt_total(a: Seq<char>, b: Seq<char>)
    ensures
        a == b || seq_lt(a, b) || seq_lt(b, a),
    decreases a.len(),
{
    if a.len() > 0 && b.len() > 0 && a[0] == b[0] {
        lemma_seq_lt_total(a.drop_first(), b.drop_first());
        if a.drop_first() == b.drop_first() {
            assert(a =~= seq![a[0]] + a.drop_first());
            assert(b =~= seq![b[0]] + b.drop_first());
        }
    } else if a.len() == 0 && b.len() == 0 {
        assert(a =~= b);
    }
}

/// Whether `a` sorts strictly before `b`.
pub fn str_lt(a: &str, b: &str) -> (res: bool)
    ensures
        res == seq_lt(a@, b@),
{
    let n = a.unicode_len();
    let m = b.unicode_len();
    let mut i: usize = 0;
    assert(a@.skip(0) =~= a@ && b@.skip(0) =~= b@);
    while i < n && i < m
        invariant
            i <= n,
            i <= m,
            n == a@.len(),
            m == b@.len(),
            seq_lt(a@, b@) == seq_lt(a@.skip(i as int), b@.skip(i as int)),
        decreases n - i,
    {
        let x = a.get_char(i);
        let y = b.get_char(i);
        if x != y {
            assert(a@.skip(i as int)[0] == x);
            assert(b@.skip(i as int)[0] == y);
            return x < y;
        }
        assert(a@.skip(i as int).drop_first() =~= a@.skip(i + 1));
        assert(b@.skip(i as int).drop_first() =~= b@.skip(i + 1));
        i = i + 1;
    }
    i == n && i < m
}

/// `s` ends with `suffix`.
pub open spec fn ends_with_seq(s: Seq<char>, suffix: Seq<char>) -> bool {
    s.len() >= suffix.len() && s.skip(s.len() - suffix.len()) == suffix
}

/// Two consecutive dots somewhere in `s`.
pub open spec fn has_double_dot(s: Seq<char>) -> bool {
    exists|i: int| 0 <= i && i + 1 < s.len() && s[i] == '.' && #[trigger] s[i + 1] == '.'
}

/// `s` holds the character `c`.
pub open spec fn has_char(s: Seq<char>, c: char) -> bool {
    exists|i: int| 0 <= i < s.len() && s[i] == c
}

pub fn contains_double_dot(s: &str) -> (res: bool)
    ensures
        res == has_double_dot(s@),
{
    let n = s.unicode_len();
    if n < 2 {
        return false;
    }
    let mut i: usize = 0;
    while i + 1 < n
        invariant
            i + 1 <= n,
            n == s@.len(),
            forall|k: int| 0 <= k < i ==> !(s@[k] == '.' && #[trigger] s@[k + 1] == '.'),
        decreases n - i,
    {
        if s.get_char(i) == '.' && s.get_char(i + 1) == '.' {
            return true;
        }
        i = i + 1;
    }
    false
}

pub fn contains_char(s: &str, c: char) -> (res: bool)
    ensures
        res == has_char(s@, c),
{
    let n = s.unicode_len();
    let mut i: usize = 0;
    while i < n
        invariant
            i <= n,
            n == s@.len(),
            forall|k: int| 0 <= k < i ==> s@[k] != c,
        decreases n - i,
    {
        if s.get_char(i) == c {
            return true;
        }
        i = i + 1;
    }
    false
}

} // verus!

verus! {

/// `n` in decimal, without leading zeros.
pub open spec fn decimal(n: nat) -> Seq<char>
    decreases n,
{
    if n < 10 {
        seq![('0' as int + n) as char]
    } else {
        decimal(n / 10).push(('0' as int + n % 10) as char)
    }
}

/// `n` in uppercase hex, without leading zeros.
pub open spec fn upper_hex(n: nat) -> Seq<char>
    decreases n,
{
    if n < 16 {
        seq![upper_hex_digit(n)]
    } else {
        upper_hex(n / 16).push(upper_hex_digit(n % 16))
    }
}

pub open spec fn upper_hex_digit(d: nat) -> char {
    if d < 10 {
        ('0' as int + d) as char
    } else {
        ('A' as int + d - 10) as char
    }
}

/// `n.to_string()`.
pub fn decimal_string(n: u32) -> (s: String)
    ensures
        s@ == decimal(n as nat),
    decreases n,
{
    if n < 10 {
        let mut s = String::new();
        push_char(&mut s, (48u8 + n as u8) as char);
        s
    } else {
        let mut s = decimal_string(n / 10);
        push_char(&mut s, (48u8 + (n % 10) as u8) as char);
        s
    }
}

/// `format!("{:X}", n)`.
pub fn upper_hex_string(n: u32) -> (s: String)
    ensures
        s@ == upper_hex(n as nat),
    decreases n,
{
    let d = if n < 16 { n } else { n % 16 };
    let c = if d < 10 { (48u8 + d as u8) as char } else { (55u8 + d as u8) as char };
    if n < 16 {
        let mut s = String::new();
        push_char(&mut s, c);
        s
    } else {
        let mut s = upper_hex_string(n / 16);
        push_char(&mut s, c);
        s
    }
}

} // verus!
