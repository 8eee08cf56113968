//! The `key=value` words that follow a command or a discovery reply.

use vstd::prelude::*;

use crate::text::{
    all_digits, chars_of, decimal, decimal_value, is_digit, law_decimal_round_trip, next_word,
    starts_with, without_prefix, words,
};

verus! {

/// The number from 0 to 255 that `s` spells in decimal; no digits at all spell zero.
pub open spec fn u8_value(s: Seq<char>) -> Option<u8> {
    if all_digits(s) && decimal_value(s) <= u8::MAX {
        Some(decimal_value(s) as u8)
    } else {
        None
    }
}

/// What `word` says of the priority, if it does.
pub open spec fn priority_in(word: Seq<char>) -> Option<u8> {
    match without_prefix(word, "priority="@) {
        Some(value) => u8_value(value),
        None => None,
    }
}

/// The priority that the first of `words` to give one gives; zero if none does.
pub open spec fn first_priority(words: Seq<Seq<char>>) -> u8
    decreases words.len(),
{
    if words.len() == 0 {
        0
    } else {
        match priority_in(words[0]) {
            Some(priority) => priority,
            None => first_priority(words.drop_first()),
        }
    }
}

proof fn lemma_decimal_value_grows(s: Seq<char>, n: int)
    requires
        0 <= n <= s.len(),
        all_digits(s),
    ensures
        decimal_value(s.take(n)) <= decimal_value(s),
    decreases s.len(),
{
    if n == s.len() {
        assert(s.take(n) =~= s);
    } else {
        let shorter = s.drop_last();
        assert forall|i: int| 0 <= i < shorter.len() implies is_digit(#[trigger] shorter[i]) by {
            assert(is_digit(s[i]));
        }
        lemma_decimal_value_grows(shorter, n);
        assert(shorter.take(n) =~= s.take(n));
        assert(is_digit(s[s.len() - 1]));
    }
}

/// Reads a number from 0 to 255.
pub fn parse_u8(input: &[char]) -> (value: Option<u8>)
    ensures
        value == u8_value(input@),
{
    let mut value: u16 = 0;
    let mut i: usize = 0;
    assert(input@.take(0) =~= Seq::<char>::empty());
    while i < input.len()
        invariant
            i <= input@.len(),
            forall|k: int| 0 <= k < i ==> is_digit(#[trigger] input@[k]),
            value == decimal_value(input@.take(i as int)),
            value <= 255,
        decreases input@.len() - i,
    {
        let c: char = input[i];
        if c < '0' || c > '9' {
            assert(!is_digit(input@[i as int]));
            return None;
        }
        proof {
            assert(input@.take(i + 1).drop_last() =~= input@.take(i as int));
            assert(input@.take(i + 1).last() == c);
        }
        value = value * 10 + (c as u32 - 48) as u16;
        i += 1;
        if value > 255 {
            proof {
                if all_digits(input@) {
                    lemma_decimal_value_grows(input@, i as int);
                }
            }
            return None;
        }
    }
    assert(input@.take(i as int) =~= input@);
    Some(value as u8)
}

/// The priority that the first word of `payload` to give one gives.
pub fn metadata_priority(payload: &[char]) -> (priority: u8)
    ensures
        priority == first_priority(words(payload@)),
{
    let prefix = chars_of("priority=");
    let mut at: usize = 0;
    assert(payload@.skip(0) =~= payload@);
    while at < payload.len()
        invariant
            at <= payload@.len(),
            prefix@ == "priority="@,
            first_priority(words(payload@)) == first_priority(words(payload@.skip(at as int))),
        decreases payload@.len() - at,
    {
        match next_word(payload, at) {
            None => {
                return 0;
            },
            Some((start, end)) => {
                let word = &payload[start..end];
                proof {
                    let all = words(payload@.skip(at as int));
                    assert(all[0] == word@);
                    assert(all.drop_first() =~= words(payload@.skip(end as int)));
                }
                if starts_with(word, prefix.as_slice()) {
                    let value = &word[prefix.len()..word.len()];
                    assert(value@ =~= word@.skip(prefix@.len() as int));
                    if let Some(priority) = parse_u8(value) {
                        return priority;
                    }
                }
                at = end;
            },
        }
    }
    assert(payload@.skip(at as int) =~= Seq::<char>::empty());
    0
}

/// The first word that gives a priority decides it, whatever follows.
pub proof fn law_the_first_priority_counts(
    before: Seq<Seq<char>>,
    priority: u8,
    after: Seq<Seq<char>>,
)
    requires
        forall|i: int| 0 <= i < before.len() ==> priority_in(#[trigger] before[i]) is None,
    ensures
        first_priority(before + seq!["priority="@ + decimal(priority as nat)] + after) == priority,
        first_priority(before) == 0,
    decreases before.len(),
{
    let word = "priority="@ + decimal(priority as nat);
    let whole = before + seq![word] + after;
    if before.len() == 0 {
        law_decimal_round_trip(priority as nat);
        assert(whole[0] == word);
        assert(word.take("priority="@.len() as int) =~= "priority="@);
        assert(word.skip("priority="@.len() as int) =~= decimal(priority as nat));
    } else {
        let shorter = before.drop_first();
        assert forall|i: int| 0 <= i < shorter.len() implies priority_in(
            #[trigger] shorter[i],
        ) is None by {
            assert(shorter[i] == before[i + 1]);
        }
        law_the_first_priority_counts(shorter, priority, after);
        assert(whole.drop_first() =~= shorter + seq![word] + after);
        assert(whole[0] == before[0]);
    }
}

/// A number is read if and only if it fits into a byte, and text that is not all digits
/// never is.
pub proof fn law_only_bytes_are_read(n: nat, text: Seq<char>, i: int)
    ensures
        u8_value(decimal(n)) is Some <==> n <= 255,
        n <= 255 ==> u8_value(decimal(n)) == Some(n as u8),
        0 <= i < text.len() && (text[i] < '0' || text[i] > '9') ==> u8_value(text) is None,
{
    law_decimal_round_trip(n);
    if 0 <= i < text.len() && (text[i] < '0' || text[i] > '9') {
        assert(!is_digit(text[i]));
    }
}

} // verus!
