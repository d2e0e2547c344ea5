//! Small character and string helpers shared by the rest of the
//! library: lower-casing of ASCII letters, building a `String` one
//! character at a time, and decimal formatting of integers.

use vstd::prelude::*;

verus! {

/// The characters that count as surrounding whitespace when a domain
/// name is cleaned up: the ASCII whitespace set.
pub open spec fn is_space(c: char) -> bool {
    c == ' ' || c == '\t' || c == '\n' || c == '\r' || c == '\u{c}'
}

/// Executable test for [`is_space`].
pub fn is_space_char(c: char) -> (r: bool)
    ensures
        r == is_space(c),
{
    c == ' ' || c == '\t' || c == '\n' || c == '\r' || c == '\u{c}'
}

/// Maps an ASCII upper-case letter to its lower-case form and leaves
/// every other character unchanged.
pub open spec fn lower_char(c: char) -> char {
    if 'A' <= c && c <= 'Z' {
        ((c as u32) + 32) as char
    } else {
        c
    }
}

/// Lower-cases every character of a sequence.
pub open spec fn lower_chars(s: Seq<char>) -> Seq<char> {
    s.map_values(|c: char| lower_char(c))
}

/// Lower-casing a single character is idempotent.
pub proof fn lemma_lower_char_idempotent(c: char)
    ensures
        lower_char(lower_char(c)) == lower_char(c),
{
    if 'A' <= c && c <= 'Z' {
        assert(65 <= c as u32 <= 90);
        assert(lower_char(c) as u32 == c as u32 + 32);
        assert(97 <= lower_char(c) as u32 <= 122);
    }
}

/// Drops every leading whitespace character.
pub open spec fn trim_leading(s: Seq<char>) -> Seq<char>
    decreases s.len(),
{
    if s.len() > 0 && is_space(s[0]) {
        trim_leading(s.drop_first())
    } else {
        s
    }
}

/// Drops every trailing whitespace character.
pub open spec fn trim_trailing(s: Seq<char>) -> Seq<char>
    decreases s.len(),
{
    if s.len() > 0 && is_space(s.last()) {
        trim_trailing(s.drop_last())
    } else {
        s
    }
}

/// Drops every trailing dot.
pub open spec fn strip_trailing_dots(s: Seq<char>) -> Seq<char>
    decreases s.len(),
{
    if s.len() > 0 && s.last() == '.' {
        strip_trailing_dots(s.drop_last())
    } else {
        s
    }
}

/// Leading whitespace removal keeps exactly the characters from the
/// first non-whitespace position on.
pub proof fn lemma_trim_leading_skip(s: Seq<char>, i: int)
    requires
        0 <= i <= s.len(),
        forall|j: int| 0 <= j < i ==> is_space(s[j]),
        i < s.len() ==> !is_space(s[i]),
    ensures
        trim_leading(s) == s.skip(i),
    decreases i,
{
    if i == 0 {
        assert(s.skip(0) =~= s);
    } else {
        lemma_trim_leading_skip(s.drop_first(), i - 1);
        assert(s.drop_first().skip(i - 1) =~= s.skip(i));
    }
}

/// Trailing whitespace removal keeps exactly the first `k` characters
/// when position `k` starts the trailing whitespace run.
pub proof fn lemma_trim_trailing_take(s: Seq<char>, k: int)
    requires
        0 <= k <= s.len(),
        forall|j: int| k <= j < s.len() ==> is_space(s[j]),
        k > 0 ==> !is_space(s[k - 1]),
    ensures
        trim_trailing(s) == s.take(k),
    decreases s.len(),
{
    if s.len() > k {
        lemma_trim_trailing_take(s.drop_last(), k);
    } else {
        assert(s.take(k) =~= s);
    }
}

/// Trailing dot removal keeps exactly the first `k` characters when
/// position `k` starts the trailing run of dots.
pub proof fn lemma_strip_dots_take(s: Seq<char>, k: int)
    requires
        0 <= k <= s.len(),
        forall|j: int| k <= j < s.len() ==> s[j] == '.',
        k > 0 ==> s[k - 1] != '.',
    ensures
        strip_trailing_dots(s) == s.take(k),
    decreases s.len(),
{
    if s.len() > k {
        lemma_strip_dots_take(s.drop_last(), k);
    } else {
        assert(s.take(k) =~= s);
    }
}

/// Every character of the sequence is fixed under lower-casing.
pub open spec fn is_lowered(s: Seq<char>) -> bool {
    forall|i: int| 0 <= i < s.len() ==> lower_char(s[i]) == s[i]
}

/// The result of lower-casing is fixed under lower-casing, and
/// lower-casing a fixed sequence returns it unchanged.
pub proof fn lemma_lower_chars_fixed(s: Seq<char>)
    ensures
        is_lowered(lower_chars(s)),
        is_lowered(s) ==> lower_chars(s) == s,
{
    assert forall|i: int| 0 <= i < s.len() implies lower_char(lower_chars(s)[i]) == lower_chars(
        s,
    )[i] by {
        lemma_lower_char_idempotent(s[i]);
    }
    if is_lowered(s) {
        assert(lower_chars(s) =~= s);
    }
}

/// Trimming leading whitespace keeps lowered characters lowered and
/// leaves no leading whitespace.
pub proof fn lemma_trim_leading_shape(s: Seq<char>)
    ensures
        is_lowered(s) ==> is_lowered(trim_leading(s)),
        trim_leading(s).len() > 0 ==> !is_space(trim_leading(s)[0]),
    decreases s.len(),
{
    if s.len() > 0 && is_space(s[0]) {
        assert(is_lowered(s) ==> is_lowered(s.drop_first()));
        lemma_trim_leading_shape(s.drop_first());
    }
}

/// Trimming trailing whitespace returns a prefix of its argument with
/// no trailing whitespace.
pub proof fn lemma_trim_trailing_shape(s: Seq<char>)
    ensures
        trim_trailing(s).len() <= s.len(),
        trim_trailing(s) == s.take(trim_trailing(s).len() as int),
        trim_trailing(s).len() > 0 ==> !is_space(trim_trailing(s).last()),
    decreases s.len(),
{
    if s.len() > 0 && is_space(s.last()) {
        lemma_trim_trailing_shape(s.drop_last());
        let k = trim_trailing(s.drop_last()).len() as int;
        assert(s.drop_last().take(k) =~= s.take(k));
    } else {
        assert(s.take(s.len() as int) =~= s);
    }
}

/// Stripping trailing dots returns a prefix of its argument with no
/// trailing dot.
pub proof fn lemma_strip_dots_shape(s: Seq<char>)
    ensures
        strip_trailing_dots(s).len() <= s.len(),
        strip_trailing_dots(s) == s.take(strip_trailing_dots(s).len() as int),
        strip_trailing_dots(s).len() > 0 ==> strip_trailing_dots(s).last() != '.',
    decreases s.len(),
{
    if s.len() > 0 && s.last() == '.' {
        lemma_strip_dots_shape(s.drop_last());
        let k = strip_trailing_dots(s.drop_last()).len() as int;
        assert(s.drop_last().take(k) =~= s.take(k));
    } else {
        assert(s.take(s.len() as int) =~= s);
    }
}

/// Lower-casing changes neither whitespace nor dots.
pub proof fn lemma_lower_char_shape(c: char)
    ensures
        is_space(lower_char(c)) == is_space(c),
        (lower_char(c) == '.') == (c == '.'),
{
    if 'A' <= c && c <= 'Z' {
        assert(65 <= c as u32 <= 90);
        assert(lower_char(c) as u32 == c as u32 + 32);
    }
}

/// A decimal digit as a character.
pub open spec fn digit_char(d: int) -> char {
    (48 + d) as char
}

/// A decimal digit character.
pub open spec fn is_digit(c: char) -> bool {
    '0' <= c && c <= '9'
}

/// The numeric value of a decimal digit character.
pub open spec fn digit_val(c: char) -> int {
    c as int - 48
}

/// The decimal rendering of a non-negative number, most significant
/// digit first, without leading zeros.
pub open spec fn dec_digits(n: nat) -> Seq<char>
    decreases n,
{
    if n < 10 {
        seq![digit_char(n as int)]
    } else {
        dec_digits(n / 10).push(digit_char((n % 10) as int))
    }
}

/// The decimal rendering of an integer: a minus sign for negative
/// numbers, then the digits.
pub open spec fn int_string(n: int) -> Seq<char> {
    if n < 0 {
        seq!['-'] + dec_digits((-n) as nat)
    } else {
        dec_digits(n as nat)
    }
}

/// Renders a number in decimal.
pub fn fmt_u64(n: u64) -> (r: String)
    ensures
        r@ == dec_digits(n as nat),
    decreases n,
{
    if n < 10 {
        let mut s = String::new();
        push_char(&mut s, (48 + n as u8) as char);
        proof {
            assert(s@ =~= seq![digit_char(n as int)]);
        }
        s
    } else {
        let mut s = fmt_u64(n / 10);
        push_char(&mut s, (48 + (n % 10) as u8) as char);
        s
    }
}

/// Renders a signed number in decimal.
pub fn fmt_i64(n: i64) -> (r: String)
    ensures
        r@ == int_string(n as int),
{
    if n < 0 {
        let mag: u64 = if n == i64::MIN {
            9223372036854775808u64
        } else {
            (-n) as u64
        };
        proof {
            assert(mag as int == -(n as int));
        }
        let mut s = String::new();
        push_char(&mut s, '-');
        let rest = fmt_u64(mag);
        s.append(rest.as_str());
        proof {
            assert(s@ =~= int_string(n as int));
        }
        s
    } else {
        fmt_u64(n as u64)
    }
}

/// `a + b` capped at the top of the signed 64-bit range (`b` is
/// non-negative).
pub open spec fn sat_add_i64(a: int, b: int) -> int {
    if a + b > i64::MAX as int {
        i64::MAX as int
    } else {
        a + b
    }
}

/// The characters of a string, as a vector.
pub fn str_chars(s: &str) -> (r: Vec<char>)
    ensures
        r@ == s@,
{
    let n = s.unicode_len();
    let mut out: Vec<char> = Vec::new();
    let mut i: usize = 0;
    while i < n
        invariant
            n == s@.len(),
            i <= n,
            out@ == s@.take(i as int),
        decreases n - i,
    {
        proof {
            assert(s@.take(i + 1) == s@.take(i as int).push(s@[i as int]));
        }
        out.push(s.get_char(i));
        i = i + 1;
    }
    proof {
        assert(s@.take(n as int) =~= s@);
    }
    out
}

/// Copies a vector of strings.
pub fn clone_string_vec(v: &Vec<String>) -> (r: Vec<String>)
    ensures
        r.deep_view() == v.deep_view(),
        r@.len() == v@.len(),
        forall|i: int| 0 <= i < v@.len() ==> r@[i]@ == v@[i]@,
{
    let mut out: Vec<String> = Vec::new();
    let mut i: usize = 0;
    while i < v.len()
        invariant
            i <= v@.len(),
            out@.len() == i,
            forall|j: int| 0 <= j < i ==> out@[j]@ == v@[j]@,
        decreases v@.len() - i,
    {
        out.push(v[i].clone());
        i = i + 1;
    }
    proof {
        assert forall|j: int| 0 <= j < out@.len() implies out.deep_view()[j]
            == v.deep_view()[j] by {
            assert(out.deep_view()[j] == out@[j]@);
            assert(v.deep_view()[j] == v@[j]@);
        }
        assert(out.deep_view() =~= v.deep_view());
    }
    out
}

/// Compares two strings character by character.
pub fn str_eq(a: &str, b: &str) -> (r: bool)
    ensures
        r == (a@ == b@),
{
    let na = a.unicode_len();
    let nb = b.unicode_len();
    if na != nb {
        return false;
    }
    let mut i: usize = 0;
    while i < na
        invariant
            na == a@.len(),
            na == b@.len(),
            i <= na,
            forall|j: int| 0 <= j < i ==> a@[j] == b@[j],
        decreases na - i,
    {
        if char_at(a, i) != char_at(b, i) {
            return false;
        }
        i = i + 1;
    }
    proof {
        assert(a@ =~= b@);
    }
    true
}

/// Appends one character to a string.
///
/// Relies on `String::push`, which appends the given character to the
/// end of the string.
#[verifier::external_body]
pub fn push_char(s: &mut String, c: char)
    ensures
        final(s)@ == old(s)@.push(c),
{
    s.push(c);
}

/// Returns the character at a character index.
pub fn char_at(s: &str, i: usize) -> (c: char)
    requires
        i < s@.len(),
    ensures
        c == s@[i as int],
{
    s.get_char(i)
}

} // verus!
