//! Text as sequences of characters: comparing, splitting, trimming, and numbers
//! in decimal and hexadecimal.

use vstd::prelude::*;
use vstd::string::*;
use vstd::utf8::{encode_utf8, encode_utf8_decode_utf8, valid_utf8};

verus! {

/// `String::push`: appends one character.
pub assume_specification[ String::push ](s: &mut String, c: char)
    ensures
        final(s)@ == old(s)@.push(c),
;

/// `String::push_str`: appends a string.
pub assume_specification[ String::push_str ](s: &mut String, part: &str)
    ensures
        final(s)@ == old(s)@ + part@,
;

/// `core::str::from_utf8`: succeeds exactly on well-formed UTF-8, and the string
/// it gives has the bytes it was given.
#[verifier::external_body]
pub(crate) fn utf8_text(bytes: &[u8]) -> (text: Option<&str>)
    ensures
        text is Some <==> valid_utf8(bytes@),
        text is Some ==> encode_utf8(text->0@) == bytes@,
{
    core::str::from_utf8(bytes).ok()
}

/// The text that `bytes` spell in UTF-8, if they spell any.
pub open spec fn utf8_decoded(bytes: Seq<u8>) -> Option<Seq<char>> {
    if valid_utf8(bytes) {
        Some(vstd::utf8::decode_utf8(bytes))
    } else {
        None
    }
}

pub fn decode_text(bytes: &[u8]) -> (text: Option<&str>)
    ensures
        match text {
            Some(text) => utf8_decoded(bytes@) == Some(text@),
            None => utf8_decoded(bytes@) is None,
        },
{
    let text = utf8_text(bytes);
    proof {
        if text is Some {
            encode_utf8_decode_utf8(text->0@);
        }
    }
    text
}

/// The characters of `s`.
pub fn chars_of(s: &str) -> (chars: Vec<char>)
    ensures
        chars@ == s@,
{
    let mut chars: Vec<char> = Vec::new();
    for c in it: s.chars()
        invariant
            it.seq() == s@,
            chars@ =~= s@.take(it.index()),
    {
        chars.push(c);
    }
    chars
}

/// The string that has the characters `chars`.
pub fn string_of(chars: &[char]) -> (s: String)
    ensures
        s@ == chars@,
{
    let mut s = String::new();
    let mut i: usize = 0;
    while i < chars.len()
        invariant
            i <= chars@.len(),
            s@ == chars@.take(i as int),
        decreases chars@.len() - i,
    {
        s.push(chars[i]);
        assert(chars@.take(i + 1) =~= chars@.take(i as int).push(chars@[i as int]));
        i += 1;
    }
    assert(chars@.take(i as int) =~= chars@);
    s
}

pub fn chars_equal(a: &[char], b: &[char]) -> (equal: bool)
    ensures
        equal == (a@ == b@),
{
    if a.len() != b.len() {
        return false;
    }
    let mut i: usize = 0;
    while i < a.len()
        invariant
            i <= a@.len(),
            a@.len() == b@.len(),
            forall|k: int| 0 <= k < i ==> a@[k] == b@[k],
        decreases a@.len() - i,
    {
        if a[i] != b[i] {
            return false;
        }
        i += 1;
    }
    assert(a@ =~= b@);
    true
}

pub fn text_equal(a: &str, b: &str) -> (equal: bool)
    ensures
        equal == (a@ == b@),
{
    let a_chars = chars_of(a);
    let b_chars = chars_of(b);
    chars_equal(a_chars.as_slice(), b_chars.as_slice())
}

pub open spec fn has_prefix(s: Seq<char>, prefix: Seq<char>) -> bool {
    prefix.len() <= s.len() && s.take(prefix.len() as int) == prefix
}

/// What follows `prefix` in `s`, if `s` begins with it.
pub open spec fn without_prefix(s: Seq<char>, prefix: Seq<char>) -> Option<Seq<char>> {
    if has_prefix(s, prefix) {
        Some(s.skip(prefix.len() as int))
    } else {
        None
    }
}

pub fn starts_with(s: &[char], prefix: &[char]) -> (yes: bool)
    ensures
        yes == has_prefix(s@, prefix@),
{
    if s.len() < prefix.len() {
        return false;
    }
    let mut i: usize = 0;
    while i < prefix.len()
        invariant
            i <= prefix@.len() <= s@.len(),
            forall|k: int| 0 <= k < i ==> s@[k] == prefix@[k],
        decreases prefix@.len() - i,
    {
        if s[i] != prefix[i] {
            assert(s@.take(prefix@.len() as int)[i as int] != prefix@[i as int]);
            return false;
        }
        i += 1;
    }
    assert(s@.take(prefix@.len() as int) =~= prefix@);
    true
}

/// The characters that ASCII counts as white space.
pub open spec fn is_ascii_space(c: char) -> bool {
    c == ' ' || c == '\t' || c == '\n' || c == '\x0C' || c == '\r'
}

/// The length of the run of other characters that `s` begins with.
pub open spec fn word_len(s: Seq<char>) -> nat
    decreases s.len(),
{
    if s.len() == 0 || is_ascii_space(s[0]) {
        0
    } else {
        1 + word_len(s.drop_first())
    }
}

/// The words of `s`: what is left of it between runs of ASCII white space.
pub open spec fn words(s: Seq<char>) -> Seq<Seq<char>>
    decreases s.len(),
    via words_decreases
{
    if s.len() == 0 {
        Seq::empty()
    } else if is_ascii_space(s[0]) {
        words(s.drop_first())
    } else {
        seq![s.take(word_len(s) as int)] + words(s.skip(word_len(s) as int))
    }
}

#[via_fn]
proof fn words_decreases(s: Seq<char>) {
    lemma_word_len_bound(s);
}

proof fn lemma_word_len_bound(s: Seq<char>)
    ensures
        word_len(s) <= s.len(),
        s.len() > 0 && !is_ascii_space(s[0]) ==> word_len(s) > 0,
    decreases s.len(),
{
    if s.len() > 0 {
        lemma_word_len_bound(s.drop_first());
    }
}

pub proof fn lemma_word_len(s: Seq<char>, n: int)
    requires
        0 <= n <= s.len(),
        forall|k: int| 0 <= k < n ==> !is_ascii_space(#[trigger] s[k]),
        n == s.len() || is_ascii_space(s[n]),
    ensures
        word_len(s) == n,
    decreases n,
{
    if n > 0 {
        let rest = s.drop_first();
        assert forall|k: int| 0 <= k < n - 1 implies !is_ascii_space(#[trigger] rest[k]) by {
            assert(rest[k] == s[k + 1]);
        }
        lemma_word_len(rest, n - 1);
    }
}

/// Where the first word at or after `from` begins and ends.
pub fn next_word(s: &[char], from: usize) -> (word: Option<(usize, usize)>)
    requires
        from <= s@.len(),
    ensures
        match word {
            None => words(s@.skip(from as int)).len() == 0,
            Some((start, end)) => from <= start < end <= s@.len() && words(s@.skip(from as int))
                == seq![s@.subrange(start as int, end as int)] + words(s@.skip(end as int)),
        },
{
    let mut start: usize = from;
    while start < s.len() && (s[start] == ' ' || s[start] == '\t' || s[start] == '\n' || s[start]
        == '\x0C' || s[start] == '\r')
        invariant
            from <= start <= s@.len(),
            words(s@.skip(from as int)) == words(s@.skip(start as int)),
        decreases s@.len() - start,
    {
        assert(s@.skip(start as int).drop_first() =~= s@.skip(start + 1));
        start += 1;
    }
    if start == s.len() {
        return None;
    }
    let mut end: usize = start;
    while end < s.len() && !(s[end] == ' ' || s[end] == '\t' || s[end] == '\n' || s[end] == '\x0C'
        || s[end] == '\r')
        invariant
            start <= end <= s@.len(),
            forall|k: int| start <= k < end ==> !is_ascii_space(#[trigger] s@[k]),
        decreases s@.len() - end,
    {
        end += 1;
    }
    proof {
        let rest = s@.skip(start as int);
        assert forall|k: int| 0 <= k < end - start implies !is_ascii_space(#[trigger] rest[k]) by {
            assert(rest[k] == s@[start + k]);
        }
        lemma_word_len(rest, end - start);
        assert(rest.take(end - start) =~= s@.subrange(start as int, end as int));
        assert(rest.skip(end - start) =~= s@.skip(end as int));
    }
    Some((start, end))
}

pub open spec fn ascii_lower(c: char) -> char {
    if 'A' <= c <= 'Z' {
        (c as u32 + 32) as char
    } else {
        c
    }
}

pub fn to_ascii_lower(c: char) -> (lower: char)
    ensures
        lower == ascii_lower(c),
{
    if 'A' <= c && c <= 'Z' {
        (c as u8 + 32) as char
    } else {
        c
    }
}

pub open spec fn ascii_upper(c: char) -> char {
    if 'a' <= c <= 'z' {
        (c as u32 - 32) as char
    } else {
        c
    }
}

pub fn to_ascii_upper(c: char) -> (upper: char)
    ensures
        upper == ascii_upper(c),
{
    if 'a' <= c && c <= 'z' {
        (c as u8 - 32) as char
    } else {
        c
    }
}

/// Whether `a` and `b` differ at most in the case of ASCII letters.
pub open spec fn same_ignoring_case(a: Seq<char>, b: Seq<char>) -> bool {
    a.len() == b.len() && forall|i: int|
        0 <= i < a.len() ==> ascii_lower(#[trigger] a[i]) == ascii_lower(b[i])
}

pub fn equal_ignoring_case(a: &str, b: &str) -> (same: bool)
    ensures
        same == same_ignoring_case(a@, b@),
{
    let a_chars = chars_of(a);
    let b_chars = chars_of(b);
    if a_chars.len() != b_chars.len() {
        return false;
    }
    let mut i: usize = 0;
    while i < a_chars.len()
        invariant
            i <= a_chars@.len(),
            a_chars@ == a@,
            b_chars@ == b@,
            a@.len() == b@.len(),
            forall|k: int| 0 <= k < i ==> ascii_lower(#[trigger] a@[k]) == ascii_lower(b@[k]),
        decreases a_chars@.len() - i,
    {
        if to_ascii_lower(a_chars[i]) != to_ascii_lower(b_chars[i]) {
            assert(ascii_lower(a@[i as int]) != ascii_lower(b@[i as int]));
            return false;
        }
        i += 1;
    }
    true
}

/// The characters that Unicode counts as white space.
pub open spec fn is_space(c: char) -> bool {
    let v = c as u32;
    9 <= v <= 13 || v == 0x20 || v == 0x85 || v == 0xa0 || v == 0x1680 || 0x2000 <= v <= 0x200a || v
        == 0x2028 || v == 0x2029 || v == 0x202f || v == 0x205f || v == 0x3000
}

pub fn is_whitespace(c: char) -> (yes: bool)
    ensures
        yes == is_space(c),
{
    let v: u32 = c as u32;
    9 <= v && v <= 13 || v == 0x20 || v == 0x85 || v == 0xa0 || v == 0x1680 || 0x2000 <= v && v
        <= 0x200a || v == 0x2028 || v == 0x2029 || v == 0x202f || v == 0x205f || v == 0x3000
}

pub open spec fn trim_start(s: Seq<char>) -> Seq<char>
    decreases s.len(),
{
    if s.len() > 0 && is_space(s[0]) {
        trim_start(s.drop_first())
    } else {
        s
    }
}

pub open spec fn trim_end(s: Seq<char>) -> Seq<char>
    decreases s.len(),
{
    if s.len() > 0 && is_space(s.last()) {
        trim_end(s.drop_last())
    } else {
        s
    }
}

/// `s` without the white space it begins and ends with.
pub open spec fn trimmed(s: Seq<char>) -> Seq<char> {
    trim_end(trim_start(s))
}

/// What is left of `s` between its leading and its trailing white space.
pub fn trim(s: &[char]) -> (core: &[char])
    ensures
        core@ == trimmed(s@),
{
    let mut start: usize = 0;
    assert(s@.skip(0) =~= s@);
    while start < s.len() && is_whitespace(s[start])
        invariant
            start <= s@.len(),
            trim_start(s@) == trim_start(s@.skip(start as int)),
        decreases s@.len() - start,
    {
        assert(s@.skip(start as int).drop_first() =~= s@.skip(start + 1));
        start += 1;
    }
    let mut end: usize = s.len();
    assert(s@.subrange(start as int, end as int) =~= s@.skip(start as int));
    while end > start && is_whitespace(s[end - 1])
        invariant
            start <= end <= s@.len(),
            trim_end(trim_start(s@)) == trim_end(s@.subrange(start as int, end as int)),
        decreases end,
    {
        let ghost part = s@.subrange(start as int, end as int);
        assert(part.drop_last() =~= s@.subrange(start as int, end - 1));
        assert(part.last() == s@[end - 1]);
        end -= 1;
    }
    proof {
        let part = s@.subrange(start as int, end as int);
        if end > start {
            assert(part.last() == s@[end - 1]);
        }
    }
    &s[start..end]
}

pub fn trim_text(s: &str) -> (core: String)
    ensures
        core@ == trimmed(s@),
{
    let chars = chars_of(s);
    string_of(trim(chars.as_slice()))
}

/// Where `pattern` first occurs in `s` at or after `from`.
pub open spec fn occurrence(s: Seq<char>, pattern: Seq<char>, from: int) -> Option<int>
    decreases s.len() + 1 - from,
{
    if from < 0 || from + pattern.len() > s.len() {
        None
    } else if s.subrange(from, from + pattern.len()) == pattern {
        Some(from)
    } else {
        occurrence(s, pattern, from + 1)
    }
}

pub open spec fn contains(s: Seq<char>, pattern: Seq<char>) -> bool {
    occurrence(s, pattern, 0) is Some
}

pub fn find_text(s: &[char], pattern: &[char]) -> (at: Option<usize>)
    ensures
        match at {
            Some(at) => occurrence(s@, pattern@, 0) == Some(at as int) && at + pattern@.len()
                <= s@.len(),
            None => occurrence(s@, pattern@, 0) is None,
        },
{
    let mut from: usize = 0;
    while from < s.len() && pattern.len() <= s.len() - from
        invariant
            from <= s@.len(),
            occurrence(s@, pattern@, 0) == occurrence(s@, pattern@, from as int),
        decreases s@.len() - from,
    {
        if chars_equal(&s[from..from + pattern.len()], pattern) {
            return Some(from);
        }
        from += 1;
    }
    if pattern.len() == 0 {
        assert(s@.subrange(from as int, from as int) =~= pattern@);
        return Some(from);
    }
    None
}

pub fn contains_text(s: &str, pattern: &str) -> (yes: bool)
    ensures
        yes == contains(s@, pattern@),
{
    let chars = chars_of(s);
    let pattern_chars = chars_of(pattern);
    find_text(chars.as_slice(), pattern_chars.as_slice()).is_some()
}

/// `s` without the line ends that it ends with; `carriage` says whether carriage
/// returns count.
pub open spec fn without_line_ends(s: Seq<char>, carriage: bool) -> Seq<char>
    decreases s.len(),
{
    if s.len() > 0 && (s.last() == '\n' || (carriage && s.last() == '\r')) {
        without_line_ends(s.drop_last(), carriage)
    } else {
        s
    }
}

pub fn trim_line_ends(s: &[char], carriage: bool) -> (core: &[char])
    ensures
        core@ == without_line_ends(s@, carriage),
{
    let mut end: usize = s.len();
    assert(s@.take(end as int) =~= s@);
    while end > 0 && (s[end - 1] == '\n' || (carriage && s[end - 1] == '\r'))
        invariant
            end <= s@.len(),
            without_line_ends(s@, carriage) == without_line_ends(s@.take(end as int), carriage),
        decreases end,
    {
        assert(s@.take(end as int).drop_last() =~= s@.take(end - 1));
        end -= 1;
    }
    assert(s@.subrange(0, end as int) =~= s@.take(end as int));
    &s[0..end]
}

/// The length of the first line of `s`, without its end.
pub open spec fn line_len(s: Seq<char>) -> nat
    decreases s.len(),
{
    if s.len() == 0 || s[0] == '\n' {
        0
    } else {
        1 + line_len(s.drop_first())
    }
}

pub proof fn lemma_line_len_bound(s: Seq<char>)
    ensures
        line_len(s) <= s.len(),
    decreases s.len(),
{
    if s.len() > 0 {
        lemma_line_len_bound(s.drop_first());
    }
}

proof fn lemma_line_len(s: Seq<char>, n: int)
    requires
        0 <= n <= s.len(),
        forall|k: int| 0 <= k < n ==> #[trigger] s[k] != '\n',
        n == s.len() || s[n] == '\n',
    ensures
        line_len(s) == n,
    decreases n,
{
    if n > 0 {
        let rest = s.drop_first();
        assert forall|k: int| 0 <= k < n - 1 implies #[trigger] rest[k] != '\n' by {
            assert(rest[k] == s[k + 1]);
        }
        lemma_line_len(rest, n - 1);
    }
}

/// The first line of `s`.
pub open spec fn first_line(s: Seq<char>) -> Seq<char> {
    s.take(line_len(s) as int)
}

/// What follows the first line of `s` and its end; nothing if it has none.
pub open spec fn after_first_line(s: Seq<char>) -> Seq<char> {
    if line_len(s) < s.len() {
        s.skip(line_len(s) as int + 1)
    } else {
        Seq::empty()
    }
}

/// The first line of `s`, and what follows it.
pub fn split_line(s: &[char]) -> (parts: (&[char], &[char]))
    ensures
        parts.0@ == first_line(s@),
        parts.1@ == after_first_line(s@),
{
    let mut end: usize = 0;
    while end < s.len() && s[end] != '\n'
        invariant
            end <= s@.len(),
            forall|k: int| 0 <= k < end ==> #[trigger] s@[k] != '\n',
        decreases s@.len() - end,
    {
        end += 1;
    }
    proof {
        lemma_line_len(s@, end as int);
        assert(s@.subrange(0, end as int) =~= first_line(s@));
    }
    let rest: usize = if end < s.len() {
        end + 1
    } else {
        end
    };
    assert(s@.subrange(rest as int, s@.len() as int) =~= after_first_line(s@));
    (&s[0..end], &s[rest..s.len()])
}

pub open spec fn is_digit(c: char) -> bool {
    '0' <= c <= '9'
}

/// The number that the digits `s` spell; zero if there are none.
pub open spec fn decimal_value(s: Seq<char>) -> nat
    decreases s.len(),
{
    if s.len() == 0 {
        0
    } else {
        (10 * decimal_value(s.drop_last()) + (s.last() as u32 - '0' as u32)) as nat
    }
}

pub open spec fn all_digits(s: Seq<char>) -> bool {
    forall|i: int| 0 <= i < s.len() ==> is_digit(#[trigger] s[i])
}

/// The character of the digit `d`.
pub open spec fn digit_char(d: int) -> char {
    ('0' as u32 + d) as char
}

/// `n` in decimal.
pub open spec fn decimal(n: nat) -> Seq<char>
    decreases n,
{
    if n < 10 {
        seq![digit_char(n as int)]
    } else {
        decimal(n / 10).push(digit_char((n % 10) as int))
    }
}

/// The decimal form of a number consists of digits and spells the number.
pub proof fn law_decimal_round_trip(n: nat)
    ensures
        all_digits(decimal(n)),
        decimal(n).len() > 0,
        decimal_value(decimal(n)) == n,
    decreases n,
{
    if n < 10 {
        assert(decimal(n).drop_last() =~= Seq::<char>::empty());
        reveal_with_fuel(decimal_value, 2);
    } else {
        law_decimal_round_trip(n / 10);
        assert(decimal(n).drop_last() =~= decimal(n / 10));
    }
}

fn digit(d: u8) -> (c: char)
    requires
        d < 10,
    ensures
        c == digit_char(d as int),
{
    (48 + d) as char
}

/// Appends `n` in decimal.
pub fn push_decimal(out: &mut String, n: u64)
    ensures
        final(out)@ == old(out)@ + decimal(n as nat),
    decreases n,
{
    let ghost before = out@;
    if n >= 10 {
        push_decimal(out, n / 10);
    }
    out.push(digit((n % 10) as u8));
    assert(out@ =~= before + decimal(n as nat));
}

/// The character of the hexadecimal digit `d`, in lower case.
pub open spec fn hex_char(d: int) -> char {
    if d < 10 {
        ('0' as u32 + d) as char
    } else {
        ('a' as u32 + (d - 10)) as char
    }
}

/// The `width` low hexadecimal digits of `n`.
pub open spec fn hex(n: nat, width: nat) -> Seq<char>
    decreases width,
{
    if width == 0 {
        Seq::empty()
    } else {
        hex(n / 16, (width - 1) as nat).push(hex_char((n % 16) as int))
    }
}

fn hex_digit(d: u8) -> (c: char)
    requires
        d < 16,
    ensures
        c == hex_char(d as int),
{
    if d < 10 {
        (48 + d) as char
    } else {
        (87 + d) as char
    }
}

/// Appends the `width` low hexadecimal digits of `n`.
pub fn push_hex(out: &mut String, n: u64, width: usize)
    ensures
        final(out)@ == old(out)@ + hex(n as nat, width as nat),
    decreases width,
{
    let ghost before = out@;
    if width > 0 {
        push_hex(out, n / 16, width - 1);
        out.push(hex_digit((n % 16) as u8));
    }
    assert(out@ =~= before + hex(n as nat, width as nat));
}

/// A text without blanks, tabs or line ends is one word.
pub proof fn law_a_text_without_space_is_one_word(text: Seq<char>)
    requires
        text.len() > 0,
        forall|i: int|
            0 <= i < text.len() ==> #[trigger] text[i] != ' ' && text[i] != '\t' && text[i] != '\n'
                && text[i] != '\x0C' && text[i] != '\r',
    ensures
        words(text) == seq![text],
{
    lemma_word_len(text, text.len() as int);
    assert(text.take(text.len() as int) =~= text);
    assert(text.skip(text.len() as int) =~= Seq::<char>::empty());
    assert(words(text) =~= seq![text]) by {
        reveal_with_fuel(words, 2);
    }
}

/// The words of two texts with a blank, a tab or a line end between them are those of
/// the one and then those of the other.
pub proof fn law_words_of_two_texts(a: Seq<char>, space: char, b: Seq<char>)
    requires
        space == ' ' || space == '\t' || space == '\n' || space == '\x0C' || space == '\r',
    ensures
        words(a + seq![space] + b) == words(a) + words(b),
    decreases a.len(),
{
    let s = a + seq![space] + b;
    if a.len() == 0 {
        assert(s.drop_first() =~= b);
        assert(words(a) + words(b) =~= words(b));
    } else if is_ascii_space(a[0]) {
        assert(s.drop_first() =~= a.drop_first() + seq![space] + b);
        law_words_of_two_texts(a.drop_first(), space, b);
    } else {
        let n = word_len(a) as int;
        lemma_word_len_bound(a);
        lemma_word_len_exact(a);
        assert forall|k: int| 0 <= k < n implies !is_ascii_space(#[trigger] s[k]) by {
            assert(s[k] == a[k]);
        }
        lemma_word_len(s, n);
        assert(s.take(n) =~= a.take(n));
        assert(s.skip(n) =~= a.skip(n) + seq![space] + b);
        law_words_of_two_texts(a.skip(n), space, b);
        assert(words(s) =~= words(a) + words(b));
    }
}

proof fn lemma_word_len_exact(s: Seq<char>)
    ensures
        word_len(s) <= s.len(),
        forall|k: int| 0 <= k < word_len(s) ==> !is_ascii_space(#[trigger] s[k]),
        word_len(s) < s.len() ==> is_ascii_space(s[word_len(s) as int]),
    decreases s.len(),
{
    if s.len() > 0 && !is_ascii_space(s[0]) {
        let rest = s.drop_first();
        lemma_word_len_exact(rest);
        assert forall|k: int| 0 <= k < word_len(s) implies !is_ascii_space(#[trigger] s[k]) by {
            if k > 0 {
                assert(rest[k - 1] == s[k]);
            }
        }
        if word_len(s) < s.len() {
            assert(rest[word_len(rest) as int] == s[word_len(s) as int]);
        }
    }
}

/// Trimming takes away the white space on both sides and nothing else.
pub proof fn law_trimming_takes_only_outer_space(
    before: Seq<char>,
    core: Seq<char>,
    after: Seq<char>,
)
    requires
        forall|i: int| 0 <= i < before.len() ==> is_space(#[trigger] before[i]),
        forall|i: int| 0 <= i < after.len() ==> is_space(#[trigger] after[i]),
        core.len() > 0 ==> !is_space(core[0]) && !is_space(core[core.len() - 1]),
    ensures
        trimmed(before + core + after) == core,
{
    lemma_trim_start(before, core + after);
    assert(before + core + after =~= before + (core + after));
    if core.len() == 0 {
        assert(core + after =~= after);
        lemma_trim_start(after, core);
        assert(after + core =~= after);
        assert(trim_start(core) == core);
        assert(trim_end(core) == core);
    } else {
        assert((core + after)[0] == core[0]);
        lemma_trim_end(core, after);
    }
}

proof fn lemma_trim_start(space: Seq<char>, rest: Seq<char>)
    requires
        forall|i: int| 0 <= i < space.len() ==> is_space(#[trigger] space[i]),
    ensures
        trim_start(space + rest) == trim_start(rest),
    decreases space.len(),
{
    if space.len() == 0 {
        assert(space + rest =~= rest);
    } else {
        let shorter = space.drop_first();
        assert forall|i: int| 0 <= i < shorter.len() implies is_space(#[trigger] shorter[i]) by {
            assert(shorter[i] == space[i + 1]);
        }
        assert((space + rest).drop_first() =~= shorter + rest);
        assert((space + rest)[0] == space[0]);
        lemma_trim_start(shorter, rest);
    }
}

proof fn lemma_trim_end(core: Seq<char>, space: Seq<char>)
    requires
        core.len() > 0,
        !is_space(core[core.len() - 1]),
        forall|i: int| 0 <= i < space.len() ==> is_space(#[trigger] space[i]),
    ensures
        trim_end(core + space) == core,
    decreases space.len(),
{
    if space.len() == 0 {
        assert(core + space =~= core);
    } else {
        let shorter = space.drop_last();
        assert forall|i: int| 0 <= i < shorter.len() implies is_space(#[trigger] shorter[i]) by {
            assert(shorter[i] == space[i]);
        }
        assert((core + space).drop_last() =~= core + shorter);
        assert((core + space).last() == space[space.len() - 1]);
        lemma_trim_end(core, shorter);
    }
}

/// Printable ASCII characters are no white space, and blanks, tabs and line ends are.
pub proof fn law_printable_characters_are_no_space(c: char)
    ensures
        '!' <= c <= '~' ==> !is_space(c) && !is_ascii_space(c),
        c == ' ' || c == '\t' || c == '\n' || c == '\r' ==> is_space(c) && is_ascii_space(c),
        is_ascii_space(c) ==> is_space(c),
{
}

/// The case of letters does not matter where it is ignored, and all else does.
pub proof fn law_only_case_is_ignored(a: Seq<char>, b: Seq<char>, i: int)
    requires
        0 <= i < a.len(),
        same_ignoring_case(a, b),
    ensures
        a.len() == b.len(),
        a[i] == b[i] || (a[i] as u32 == b[i] as u32 + 32 && 'a' <= a[i] <= 'z') || (a[i] as u32
            + 32 == b[i] as u32 && 'a' <= b[i] <= 'z'),
        same_ignoring_case(b, a),
        same_ignoring_case(a, a),
{
    assert(ascii_lower(a[i]) == ascii_lower(b[i]));
}

/// What is found is an occurrence, and the first one; nothing is found only where there
/// is none.
pub proof fn law_the_first_occurrence_is_found(s: Seq<char>, pattern: Seq<char>, from: int, at: int)
    requires
        0 <= from <= at,
        at + pattern.len() <= s.len(),
        s.subrange(at, at + pattern.len()) == pattern,
    ensures
        occurrence(s, pattern, from) matches Some(found) && from <= found <= at && s.subrange(
            found,
            found + pattern.len(),
        ) == pattern,
    decreases at - from,
{
    if from < at {
        law_the_first_occurrence_is_found(s, pattern, from + 1, at);
    }
}

/// A found occurrence is one.
pub proof fn law_what_is_found_occurs(s: Seq<char>, pattern: Seq<char>, from: int)
    requires
        occurrence(s, pattern, from) is Some,
    ensures
        ({
            let at = occurrence(s, pattern, from)->0;
            &&& 0 <= from <= at
            &&& at + pattern.len() <= s.len()
            &&& s.subrange(at, at + pattern.len()) == pattern
        }),
    decreases s.len() + 1 - from,
{
    if s.subrange(from, from + pattern.len()) != pattern {
        law_what_is_found_occurs(s, pattern, from + 1);
    }
}

/// A text is its first line, the end of the line, and what follows.
pub proof fn law_a_line_ends_at_its_end(line: Seq<char>, rest: Seq<char>)
    requires
        forall|i: int| 0 <= i < line.len() ==> #[trigger] line[i] != '\n',
    ensures
        first_line(line + seq!['\n'] + rest) == line,
        after_first_line(line + seq!['\n'] + rest) == rest,
        line_len(line + seq!['\n'] + rest) == line.len(),
        first_line(line) == line,
        after_first_line(line) == Seq::<char>::empty(),
{
    let s = line + seq!['\n'] + rest;
    let n = line.len() as int;
    assert forall|k: int| 0 <= k < n implies #[trigger] s[k] != '\n' by {
        assert(s[k] == line[k]);
    }
    lemma_line_len(s, n);
    lemma_line_len(line, n);
    assert(s.take(n) =~= line);
    assert(s.skip(n + 1) =~= rest);
    assert(line.take(n) =~= line);
}

/// Line ends behind a text are taken away, and nothing else is.
pub proof fn law_only_line_ends_are_taken_away(text: Seq<char>, ends: Seq<char>, carriage: bool)
    requires
        text.len() > 0 ==> text[text.len() - 1] != '\n' && text[text.len() - 1] != '\r',
        forall|i: int|
            0 <= i < ends.len() ==> #[trigger] ends[i] == '\n' || (carriage && ends[i] == '\r'),
    ensures
        without_line_ends(text + ends, carriage) == text,
    decreases ends.len(),
{
    if ends.len() == 0 {
        assert(text + ends =~= text);
    } else {
        let shorter = ends.drop_last();
        assert forall|i: int| 0 <= i < shorter.len() implies #[trigger] shorter[i] == '\n' || (
        carriage && shorter[i] == '\r') by {
            assert(shorter[i] == ends[i]);
        }
        assert((text + ends).drop_last() =~= text + shorter);
        assert((text + ends).last() == ends[ends.len() - 1]);
        law_only_line_ends_are_taken_away(text, shorter, carriage);
    }
}

/// A number has one more hexadecimal digit than a sixteenth of it, and that digit is the
/// remainder, written in small letters.
pub proof fn law_hexadecimal_counts_by_sixteen(n: nat, width: nat, digit: int)
    requires
        0 <= digit < 16,
    ensures
        hex((16 * n + digit) as nat, width + 1) == hex(n, width).push("0123456789abcdef"@[digit]),
        hex(n, 0) == Seq::<char>::empty(),
{
    reveal_strlit("0123456789abcdef");
    let whole = (16 * n + digit) as nat;
    assert(whole / 16 == n && whole % 16 == digit);
    assert(hex_char(digit) == "0123456789abcdef"@[digit]);
}

/// That a character is a capital letter, and another the small one that belongs to it.
pub open spec fn is_capital_of(capital: char, small: char) -> bool {
    'A' <= capital <= 'Z' && small as int == capital as int + 32
}

/// Texts that differ in nothing but the case of their letters are the same where case is
/// ignored.
pub proof fn law_case_is_ignored(a: Seq<char>, b: Seq<char>)
    requires
        a.len() == b.len(),
        forall|i: int|
            0 <= i < a.len() ==> #[trigger] a[i] == b[i] || is_capital_of(a[i], b[i])
                || is_capital_of(b[i], a[i]),
    ensures
        same_ignoring_case(a, b),
{
    assert forall|i: int| 0 <= i < a.len() implies ascii_lower(#[trigger] a[i]) == ascii_lower(
        b[i],
    ) by {}
}

/// White space is the five control characters from the tab to the carriage return, the
/// blank, the next-line character, the blanks of other widths and kinds, and the two
/// separators of lines and paragraphs; nothing between these is.
pub proof fn law_white_space_is_what_leaves_no_mark(c: char)
    ensures
        ({
            let v = c as u32;
            &&& '\t' <= c <= '\r' || c == ' ' || c == '\u{85}' || c == '\u{a0}' ==> is_space(c)
            &&& c == '\u{1680}' || '\u{2000}' <= c <= '\u{200a}' ==> is_space(c)
            &&& c == '\u{2028}' || c == '\u{2029}' || c == '\u{202f}' || c == '\u{205f}' || c
                == '\u{3000}' ==> is_space(c)
            &&& v <= 0x8 || 0xe <= v <= 0x1f || 0x21 <= v <= 0x84 || 0x86 <= v <= 0x9f || 0xa1 <= v
                <= 0x167f || 0x1681 <= v <= 0x1fff ==> !is_space(c)
            &&& 0x200b <= v <= 0x2027 || 0x202a <= v <= 0x202e || 0x2030 <= v <= 0x205e || 0x2060
                <= v <= 0x2fff || v >= 0x3001 ==> !is_space(c)
        }),
{
}

} // verus!
