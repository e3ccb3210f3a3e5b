//! Text helpers: decimal rendering, whitespace, words, and the literals of
//! program text.

use vstd::prelude::*;
use vstd::string::*;

verus! {

/// The ASCII digit for `d` (which must be below ten).
pub open spec fn digit_char(d: nat) -> char {
    if d == 0 { '0' } else if d == 1 { '1' } else if d == 2 { '2' } else if d == 3 { '3' }
    else if d == 4 { '4' } else if d == 5 { '5' } else if d == 6 { '6' } else if d == 7 { '7' }
    else if d == 8 { '8' } else { '9' }
}

/// The decimal rendering of `n`, without sign or leading zeros.
pub open spec fn decimal(n: nat) -> Seq<char>
    decreases n,
{
    if n < 10 {
        seq![digit_char(n)]
    } else {
        decimal(n / 10).push(digit_char(n % 10))
    }
}

fn digit_text(d: u64) -> (r: &'static str)
    requires
        d < 10,
    ensures
        r@ == seq![digit_char(d as nat)],
{
    proof {
        reveal_strlit("0");
        reveal_strlit("1");
        reveal_strlit("2");
        reveal_strlit("3");
        reveal_strlit("4");
        reveal_strlit("5");
        reveal_strlit("6");
        reveal_strlit("7");
        reveal_strlit("8");
        reveal_strlit("9");
    }
    match d {
        0 => "0",
        1 => "1",
        2 => "2",
        3 => "3",
        4 => "4",
        5 => "5",
        6 => "6",
        7 => "7",
        8 => "8",
        _ => "9",
    }
}

/// Renders `n` in decimal.
pub fn decimal_text(n: u64) -> (r: String)
    ensures
        r@ == decimal(n as nat),
    decreases n,
{
    if n < 10 {
        String::from_str(digit_text(n))
    } else {
        let mut s = decimal_text(n / 10);
        s.append(digit_text(n % 10));
        s
    }
}

/// The decimal rendering of a signed integer, with a leading `-` when negative.
pub open spec fn signed_decimal(x: int) -> Seq<char> {
    if x < 0 {
        seq!['-'] + decimal((-x) as nat)
    } else {
        decimal(x as nat)
    }
}

/// Renders `x` in decimal, with a leading `-` when negative.
pub fn signed_decimal_text(x: i64) -> (r: String)
    requires
        x > i64::MIN,
    ensures
        r@ == signed_decimal(x as int),
{
    if x < 0 {
        let mut s = String::from_str("-");
        proof {
            reveal_strlit("-");
        }
        let d = decimal_text((-x) as u64);
        s.append(d.as_str());
        s
    } else {
        decimal_text(x as u64)
    }
}

/// `n` spaces.
pub open spec fn spaces(n: nat) -> Seq<char>
    decreases n,
{
    if n == 0 {
        Seq::empty()
    } else {
        spaces((n - 1) as nat).push(' ')
    }
}

/// `text` right-aligned in a field of `width` characters, as `format!("{:>width$}")` does.
pub open spec fn right_aligned(text: Seq<char>, width: nat) -> Seq<char> {
    if text.len() < width {
        spaces((width - text.len()) as nat) + text
    } else {
        text
    }
}

/// `n` spaces are `n` characters, each a space.
pub proof fn lemma_spaces(n: nat)
    ensures
        spaces(n).len() == n,
        forall|i: int| 0 <= i < n ==> #[trigger] spaces(n)[i] == ' ',
    decreases n,
{
    if n > 0 {
        lemma_spaces((n - 1) as nat);
        assert forall|i: int| 0 <= i < n implies #[trigger] spaces(n)[i] == ' ' by {
            if i < n - 1 {
                assert(spaces(n)[i] == spaces((n - 1) as nat)[i]);
            }
        }
    }
}

/// Right-aligning `text` in a field of `width` characters gives at least
/// `width` characters, which end with `text` and begin with spaces only.
pub proof fn lemma_right_aligned(text: Seq<char>, width: nat)
    ensures
        ({
            let r = right_aligned(text, width);
            let pad = r.len() - text.len();
            &&& r.len() == if text.len() < width { width } else { text.len() }
            &&& r.subrange(pad, r.len() as int) == text
            &&& forall|i: int| 0 <= i < pad ==> #[trigger] r[i] == ' '
        }),
{
    if text.len() < width {
        let k = (width - text.len()) as nat;
        lemma_spaces(k);
        let r = right_aligned(text, width);
        assert(r.subrange(k as int, r.len() as int) =~= text);
        assert forall|i: int| 0 <= i < k implies #[trigger] r[i] == ' ' by {
            assert(r[i] == spaces(k)[i]);
        }
    } else {
        assert(text.subrange(0, text.len() as int) =~= text);
    }
}

/// How many characters the decimal rendering of `n` takes, for small `n`.
pub proof fn lemma_decimal_len(n: nat)
    ensures
        decimal(n).len() >= 1,
        n < 10 ==> decimal(n).len() == 1,
        10 <= n < 100 ==> decimal(n).len() == 2,
        100 <= n < 1000 ==> decimal(n).len() == 3,
        1000 <= n ==> decimal(n).len() >= 4,
    decreases n,
{
    if n >= 10 {
        lemma_decimal_len(n / 10);
    }
}

/// `n` right-aligned in a field of four characters.
pub fn right_aligned_decimal4(n: u64) -> (r: String)
    ensures
        r@ == right_aligned(decimal(n as nat), 4),
{
    proof {
        lemma_decimal_len(n as nat);
        reveal_strlit(" ");
        reveal_strlit("  ");
        reveal_strlit("   ");
        reveal_with_fuel(spaces, 4);
    }
    let digits = decimal_text(n);
    let mut s = if n < 10 {
        String::from_str("   ")
    } else if n < 100 {
        String::from_str("  ")
    } else if n < 1000 {
        String::from_str(" ")
    } else {
        String::new()
    };
    s.append(digits.as_str());
    s
}

// ---------------------------------------------------------------------------
// Whitespace and words
// ---------------------------------------------------------------------------

/// Unicode's White_Space property, which `char::is_whitespace` tests (and
/// `str::trim` and `str::split_whitespace` go by).
pub open spec fn is_space(c: char) -> bool {
    let u = c as u32;
    ||| 0x09 <= u <= 0x0D
    ||| u == 0x20
    ||| u == 0x85
    ||| u == 0xA0
    ||| u == 0x1680
    ||| 0x2000 <= u <= 0x200A
    ||| u == 0x2028
    ||| u == 0x2029
    ||| u == 0x202F
    ||| u == 0x205F
    ||| u == 0x3000
}

/// Whether `c` is white space (see [`is_space`]).
pub fn char_is_space(c: char) -> (r: bool)
    ensures
        r == is_space(c),
{
    let u = c as u32;
    (0x09 <= u && u <= 0x0D) || u == 0x20 || u == 0x85 || u == 0xA0 || u == 0x1680 || (0x2000 <= u
        && u <= 0x200A) || u == 0x2028 || u == 0x2029 || u == 0x202F || u == 0x205F || u == 0x3000
}

/// The number of white-space characters `s` starts with.
pub open spec fn leading_space(s: Seq<char>) -> nat
    decreases s.len(),
{
    if s.len() > 0 && is_space(s[0]) {
        1 + leading_space(s.drop_first())
    } else {
        0
    }
}

/// The number of white-space characters `s` ends with.
pub open spec fn trailing_space(s: Seq<char>) -> nat
    decreases s.len(),
{
    if s.len() > 0 && is_space(s.last()) {
        1 + trailing_space(s.drop_last())
    } else {
        0
    }
}

/// The number of characters before the first white space in `s` (all of them if none).
pub open spec fn word_len(s: Seq<char>) -> nat
    decreases s.len(),
{
    if s.len() > 0 && !is_space(s[0]) {
        1 + word_len(s.drop_first())
    } else {
        0
    }
}

/// `s` without leading white space.
pub open spec fn trim_start(s: Seq<char>) -> Seq<char> {
    s.skip(leading_space(s) as int)
}

/// `s` without leading and trailing white space, as `str::trim` gives it.
pub open spec fn trim(s: Seq<char>) -> Seq<char> {
    let t = trim_start(s);
    t.take(t.len() - trailing_space(t))
}

/// `k` is where the white space that `s` starts with ends.
pub proof fn lemma_leading_space(s: Seq<char>, k: int)
    requires
        0 <= k <= s.len(),
        forall|j: int| 0 <= j < k ==> is_space(#[trigger] s[j]),
        k == s.len() || !is_space(s[k]),
    ensures
        leading_space(s) == k,
    decreases k,
{
    if k > 0 {
        assert forall|j: int| 0 <= j < k - 1 implies is_space(#[trigger] s.drop_first()[j]) by {
            assert(s.drop_first()[j] == s[j + 1]);
        }
        if k - 1 < s.drop_first().len() {
            assert(s.drop_first()[k - 1] == s[k]);
        }
        lemma_leading_space(s.drop_first(), k - 1);
    }
}

/// `k` is where the word that `s` starts with ends.
pub proof fn lemma_word_len(s: Seq<char>, k: int)
    requires
        0 <= k <= s.len(),
        forall|j: int| 0 <= j < k ==> !is_space(#[trigger] s[j]),
        k == s.len() || is_space(s[k]),
    ensures
        word_len(s) == k,
    decreases k,
{
    if k > 0 {
        assert forall|j: int| 0 <= j < k - 1 implies !is_space(#[trigger] s.drop_first()[j]) by {
            assert(s.drop_first()[j] == s[j + 1]);
        }
        if k - 1 < s.drop_first().len() {
            assert(s.drop_first()[k - 1] == s[k]);
        }
        lemma_word_len(s.drop_first(), k - 1);
    }
}

/// `s.len() - k` is how much white space `s` ends with.
pub proof fn lemma_trailing_space(s: Seq<char>, k: int)
    requires
        0 <= k <= s.len(),
        forall|j: int| k <= j < s.len() ==> is_space(#[trigger] s[j]),
        k == 0 || !is_space(s[k - 1]),
    ensures
        trailing_space(s) == s.len() - k,
    decreases s.len() - k,
{
    if k < s.len() {
        assert forall|j: int| k <= j < s.drop_last().len() implies is_space(
            #[trigger] s.drop_last()[j],
        ) by {
            assert(s.drop_last()[j] == s[j]);
        }
        if k > 0 {
            assert(s.drop_last()[k - 1] == s[k - 1]);
        }
        lemma_trailing_space(s.drop_last(), k);
    }
}

/// Whether `s@` equals `t@`, character by character.
pub fn text_is(s: &str, t: &str) -> (r: bool)
    ensures
        r == (s@ == t@),
{
    let n = s.unicode_len();
    if n != t.unicode_len() {
        return false;
    }
    let mut i: usize = 0;
    while i < n
        invariant
            n == s@.len(),
            n == t@.len(),
            0 <= i <= n,
            forall|j: int| 0 <= j < i ==> s@[j] == t@[j],
        decreases n - i,
    {
        if s.get_char(i) != t.get_char(i) {
            return false;
        }
        i = i + 1;
    }
    assert(s@ =~= t@);
    true
}

// ---------------------------------------------------------------------------
// Integer literals
// ---------------------------------------------------------------------------

/// An ASCII decimal digit.
pub open spec fn is_digit(c: char) -> bool {
    '0' <= c && c <= '9'
}

/// Whether `c` is an ASCII decimal digit.
pub fn char_is_digit(c: char) -> (r: bool)
    ensures
        r == is_digit(c),
{
    '0' <= c && c <= '9'
}

pub open spec fn all_digits(s: Seq<char>) -> bool {
    forall|i: int| 0 <= i < s.len() ==> is_digit(#[trigger] s[i])
}

/// The value of a string of decimal digits.
pub open spec fn digits_value(s: Seq<char>) -> nat
    decreases s.len(),
{
    if s.len() == 0 {
        0
    } else {
        digits_value(s.drop_last()) * 10 + (s.last() as nat - '0' as nat) as nat
    }
}

/// The value of an unsigned decimal literal, as the integer `FromStr` impls
/// read it: an optional `+`, then at least one ASCII digit, and nothing else.
pub open spec fn unsigned_literal(s: Seq<char>) -> Option<nat> {
    let body = if s.len() > 0 && s[0] == '+' {
        s.drop_first()
    } else {
        s
    };
    if body.len() > 0 && all_digits(body) {
        Some(digits_value(body))
    } else {
        None
    }
}

/// The value of a signed decimal literal, as the signed integer `FromStr`
/// impls read it: an optional `+` or `-`, then at least one ASCII digit.
pub open spec fn signed_literal(s: Seq<char>) -> Option<int> {
    if s.len() > 0 && s[0] == '-' {
        let body = s.drop_first();
        if body.len() > 0 && all_digits(body) {
            Some(-(digits_value(body) as int))
        } else {
            None
        }
    } else {
        match unsigned_literal(s) {
            Some(v) => Some(v as int),
            None => None,
        }
    }
}

/// What `str::parse::<u8>` gives for `s`.
pub open spec fn u8_literal(s: Seq<char>) -> Option<u8> {
    match unsigned_literal(s) {
        Some(v) => if v <= 255 {
            Some(v as u8)
        } else {
            None
        },
        None => None,
    }
}

/// What `str::parse::<i16>` gives for `s`.
pub open spec fn i16_literal(s: Seq<char>) -> Option<i16> {
    match signed_literal(s) {
        Some(v) => if -32768 <= v <= 32767 {
            Some(v as i16)
        } else {
            None
        },
        None => None,
    }
}

/// Appending digits never makes a value smaller.
pub proof fn lemma_digits_value_grows(s: Seq<char>, k: int)
    requires
        0 <= k <= s.len(),
    ensures
        digits_value(s.take(k)) <= digits_value(s),
    decreases s.len() - k,
{
    if k < s.len() {
        lemma_digits_value_grows(s.drop_last(), k);
        assert(s.drop_last().take(k) =~= s.take(k));
    } else {
        assert(s.take(k) =~= s);
    }
}

/// The digits of `s` from index `from` on, with their value, unless there are
/// none, one is not a digit, or the value exceeds `cap`.
fn capped_digits_value(s: &str, from: usize, cap: u32) -> (r: Option<u32>)
    requires
        from <= s@.len(),
        cap < 100_000_000,
    ensures
        ({
            let t = s@.skip(from as int);
            match r {
                Some(v) => t.len() > 0 && all_digits(t) && v == digits_value(t) && v <= cap,
                None => !(t.len() > 0 && all_digits(t)) || digits_value(t) > cap,
            }
        }),
{
    let n = s.unicode_len();
    let ghost t = s@.skip(from as int);
    if from == n {
        return None;
    }
    let mut v: u32 = 0;
    let mut i = from;
    while i < n
        invariant
            n == s@.len(),
            from <= i <= n,
            t == s@.skip(from as int),
            all_digits(t.take(i - from)),
            v == digits_value(t.take(i - from)),
            v <= cap,
            cap < 100_000_000,
        decreases n - i,
    {
        let c = s.get_char(i);
        if !('0' <= c && c <= '9') {
            assert(t[i - from] == c);
            return None;
        }
        let d = (c as u32) - ('0' as u32);
        let ghost before = t.take(i - from);
        assert(t.take(i - from + 1).drop_last() =~= before);
        assert(t[i - from] == c);
        v = v * 10 + d;
        i = i + 1;
        if v > cap {
            proof {
                lemma_digits_value_grows(t, i - from);
            }
            return None;
        }
    }
    assert(t.take(i - from) =~= t);
    Some(v)
}

/// What `str::parse::<u8>` gives for `s`.
pub fn parse_u8_text(s: &str) -> (r: Option<u8>)
    ensures
        r == u8_literal(s@),
{
    let n = s.unicode_len();
    let from: usize = if n > 0 && s.get_char(0) == '+' {
        1
    } else {
        0
    };
    assert(s@.skip(from as int) =~= (if s@.len() > 0 && s@[0] == '+' {
        s@.drop_first()
    } else {
        s@
    }));
    match capped_digits_value(s, from, 255) {
        Some(v) => Some(v as u8),
        None => None,
    }
}

/// What `str::parse::<i16>` gives for `s`.
pub fn parse_i16_text(s: &str) -> (r: Option<i16>)
    ensures
        r == i16_literal(s@),
{
    let n = s.unicode_len();
    if n > 0 && s.get_char(0) == '-' {
        assert(s@.skip(1) =~= s@.drop_first());
        match capped_digits_value(s, 1, 32768) {
            Some(v) => Some((0 - (v as i32)) as i16),
            None => None,
        }
    } else {
        let from: usize = if n > 0 && s.get_char(0) == '+' {
            1
        } else {
            0
        };
        assert(s@.skip(from as int) =~= (if s@.len() > 0 && s@[0] == '+' {
            s@.drop_first()
        } else {
            s@
        }));
        match capped_digits_value(s, from, 32767) {
            Some(v) => Some(v as i16),
            None => None,
        }
    }
}

// ---------------------------------------------------------------------------
// Number literals
// ---------------------------------------------------------------------------

/// Every character of `s` is ASCII.
pub open spec fn is_ascii(s: Seq<char>) -> bool {
    forall|i: int| 0 <= i < s.len() ==> (#[trigger] s[i] as u32) < 128
}

/// An ASCII letter, of either case.
pub open spec fn is_ascii_letter(c: char) -> bool {
    ('A' <= c && c <= 'Z') || ('a' <= c && c <= 'z')
}

/// `c` in lower case if it is an ASCII upper-case letter, else `c`.
pub open spec fn ascii_lower_char(c: char) -> char {
    if 'A' <= c && c <= 'Z' {
        ((c as u32) + 32) as char
    } else {
        c
    }
}

/// `c` in upper case if it is an ASCII lower-case letter, else `c`.
pub open spec fn ascii_upper_char(c: char) -> char {
    if 'a' <= c && c <= 'z' {
        ((c as u32) - 32) as char
    } else {
        c
    }
}

/// `s` with its ASCII letters in lower case.
pub open spec fn ascii_lower(s: Seq<char>) -> Seq<char> {
    s.map_values(|c: char| ascii_lower_char(c))
}

/// `s` with its ASCII letters in upper case.
pub open spec fn ascii_upper(s: Seq<char>) -> Seq<char> {
    s.map_values(|c: char| ascii_upper_char(c))
}

/// `s` compares equal to the lower-case ASCII word `word`, ignoring ASCII case.
pub open spec fn is_word_ignoring_case(s: Seq<char>, word: Seq<char>) -> bool {
    &&& s.len() == word.len()
    &&& forall|i: int| 0 <= i < s.len() ==> ascii_lower_char(#[trigger] s[i]) == word[i]
}

/// The number of decimal digits `s` starts with.
pub open spec fn digit_run(s: Seq<char>) -> nat
    decreases s.len(),
{
    if s.len() > 0 && is_digit(s[0]) {
        1 + digit_run(s.drop_first())
    } else {
        0
    }
}

/// `s` is an exponent: `e` or `E`, an optional sign, and at least one digit.
pub open spec fn is_exponent(s: Seq<char>) -> bool {
    &&& s.len() > 0
    &&& (s[0] == 'e' || s[0] == 'E')
    &&& {
        let t = s.drop_first();
        let u = if t.len() > 0 && (t[0] == '+' || t[0] == '-') {
            t.drop_first()
        } else {
            t
        };
        u.len() > 0 && digit_run(u) == u.len()
    }
}

/// `s` is a decimal number: digits, optionally a point and more digits (at
/// least one digit in all), and optionally an exponent.
pub open spec fn is_decimal_number(s: Seq<char>) -> bool {
    let d1 = digit_run(s);
    let r1 = s.skip(d1 as int);
    if r1.len() > 0 && r1[0] == '.' {
        let r2 = r1.drop_first();
        let d2 = digit_run(r2);
        let r3 = r2.skip(d2 as int);
        d1 + d2 >= 1 && (r3.len() == 0 || is_exponent(r3))
    } else {
        d1 >= 1 && (r1.len() == 0 || is_exponent(r1))
    }
}

/// A number literal of program text, in the grammar of Rust's `f64` parser:
/// an optional sign, then `inf`, `infinity` or `nan` in any ASCII case, or a
/// decimal number.
pub open spec fn is_number_literal(s: Seq<char>) -> bool {
    let b = if s.len() > 0 && (s[0] == '+' || s[0] == '-') {
        s.drop_first()
    } else {
        s
    };
    ||| is_word_ignoring_case(b, "inf"@)
    ||| is_word_ignoring_case(b, "infinity"@)
    ||| is_word_ignoring_case(b, "nan"@)
    ||| is_decimal_number(b)
}

/// The runs of white space, of non-space and of digits that `s` starts or
/// ends with are no longer than `s`.
pub proof fn lemma_run_bounds(s: Seq<char>)
    ensures
        leading_space(s) <= s.len(),
        trailing_space(s) <= s.len(),
        word_len(s) <= s.len(),
        digit_run(s) <= s.len(),
    decreases s.len(),
{
    if s.len() > 0 {
        lemma_run_bounds(s.drop_first());
        lemma_run_bounds(s.drop_last());
    }
}

/// `k` digits start `s`.
proof fn lemma_digit_run(s: Seq<char>, k: int)
    requires
        0 <= k <= s.len(),
        forall|j: int| 0 <= j < k ==> is_digit(#[trigger] s[j]),
        k == s.len() || !is_digit(s[k]),
    ensures
        digit_run(s) == k,
    decreases k,
{
    if k > 0 {
        assert forall|j: int| 0 <= j < k - 1 implies is_digit(#[trigger] s.drop_first()[j]) by {
            assert(s.drop_first()[j] == s[j + 1]);
        }
        if k - 1 < s.drop_first().len() {
            assert(s.drop_first()[k - 1] == s[k]);
        }
        lemma_digit_run(s.drop_first(), k - 1);
    }
}

/// Where the run of digits of `s` that starts at `from` ends.
fn digits_end(s: &str, from: usize) -> (r: usize)
    requires
        from <= s@.len(),
    ensures
        from <= r <= s@.len(),
        r - from == digit_run(s@.skip(from as int)),
{
    let n = s.unicode_len();
    let mut i = from;
    while i < n && char_is_digit(s.get_char(i))
        invariant
            n == s@.len(),
            from <= i <= n,
            forall|j: int| from <= j < i ==> is_digit(#[trigger] s@[j]),
        decreases n - i,
    {
        i = i + 1;
    }
    proof {
        let t = s@.skip(from as int);
        assert forall|j: int| 0 <= j < i - from implies is_digit(#[trigger] t[j]) by {
            assert(t[j] == s@[from + j]);
        }
        if i < n {
            assert(t[i - from] == s@[i as int]);
        }
        lemma_digit_run(t, i - from);
    }
    i
}

/// Whether `s@.skip(from)` is `word` ignoring ASCII case.
fn word_ignoring_case_at(s: &str, from: usize, word: &str) -> (r: bool)
    requires
        from <= s@.len(),
    ensures
        r == is_word_ignoring_case(s@.skip(from as int), word@),
{
    let n = s.unicode_len();
    let m = word.unicode_len();
    if n - from != m {
        return false;
    }
    let ghost t = s@.skip(from as int);
    let mut i: usize = 0;
    while i < m
        invariant
            n == s@.len(),
            m == word@.len(),
            n - from == m,
            t == s@.skip(from as int),
            0 <= i <= m,
            forall|j: int| 0 <= j < i ==> ascii_lower_char(#[trigger] t[j]) == word@[j],
        decreases m - i,
    {
        let c = s.get_char(from + i);
        let lower = if 'A' <= c && c <= 'Z' {
            ((c as u32) + 32) as u8 as char
        } else {
            c
        };
        assert(t[i as int] == c);
        if lower != word.get_char(i) {
            return false;
        }
        i = i + 1;
    }
    true
}

/// Whether `s@.skip(from)` is an exponent.
fn exponent_at(s: &str, from: usize) -> (r: bool)
    requires
        from <= s@.len(),
    ensures
        r == is_exponent(s@.skip(from as int)),
{
    let n = s.unicode_len();
    let ghost t = s@.skip(from as int);
    if from == n {
        return false;
    }
    let c = s.get_char(from);
    assert(t[0] == c);
    if c != 'e' && c != 'E' {
        return false;
    }
    let mut at = from + 1;
    assert(t.drop_first() =~= s@.skip(at as int));
    if at < n {
        let sign = s.get_char(at);
        if sign == '+' || sign == '-' {
            assert(s@.skip(at as int)[0] == sign);
            assert(s@.skip(at as int).drop_first() =~= s@.skip(at + 1));
            at = at + 1;
        }
    }
    if at == n {
        return false;
    }
    let end = digits_end(s, at);
    end == n
}

/// Whether `s` is a number literal (see [`is_number_literal`]).
pub fn number_literal_ok(s: &str) -> (r: bool)
    ensures
        r == is_number_literal(s@),
{
    proof {
        reveal_strlit("inf");
        reveal_strlit("infinity");
        reveal_strlit("nan");
    }
    let n = s.unicode_len();
    let from: usize = if n > 0 && (s.get_char(0) == '+' || s.get_char(0) == '-') {
        1
    } else {
        0
    };
    let ghost b = s@.skip(from as int);
    assert(b =~= (if s@.len() > 0 && (s@[0] == '+' || s@[0] == '-') {
        s@.drop_first()
    } else {
        s@
    }));
    if word_ignoring_case_at(s, from, "inf") || word_ignoring_case_at(s, from, "infinity")
        || word_ignoring_case_at(s, from, "nan") {
        return true;
    }
    let e1 = digits_end(s, from);
    let d1 = e1 - from;
    assert(b.skip(d1 as int) =~= s@.skip(e1 as int));
    if e1 < n && s.get_char(e1) == '.' {
        assert(b.skip(d1 as int)[0] == '.');
        assert(b.skip(d1 as int).drop_first() =~= s@.skip(e1 + 1));
        let e2 = digits_end(s, e1 + 1);
        let d2 = e2 - (e1 + 1);
        assert(b.skip(d1 as int).drop_first().skip(d2 as int) =~= s@.skip(e2 as int));
        d1 + d2 >= 1 && (e2 == n || exponent_at(s, e2))
    } else {
        proof {
            if e1 < n {
                assert(b.skip(d1 as int)[0] == s@[e1 as int]);
            }
        }
        d1 >= 1 && (e1 == n || exponent_at(s, e1))
    }
}

} // verus!
