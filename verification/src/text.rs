//! Entries written as text: a name, a tier and a weight with colons between
//! them, as in `Sword:common:50`.

use crate::pull::{lowercase, Pull, PullType, PullView};
use std::str::FromStr;
use vstd::prelude::*;

verus! {

/// Whether `text` holds no colon.
pub open spec fn colon_free(text: Seq<char>) -> bool {
    forall|i: int| 0 <= i < text.len() ==> text[i] != ':'
}

/// The first position at or after `from` at which `text` holds a colon, or
/// the length of `text` where it holds none there.
pub open spec fn next_colon(text: Seq<char>, from: int) -> int
    decreases text.len() - from,
{
    if from >= text.len() {
        text.len() as int
    } else if text[from] == ':' {
        from
    } else {
        next_colon(text, from + 1)
    }
}

/// The three fields of a text that holds exactly two colons: what stands
/// before the first, between the two, and after the second.
pub open spec fn fields(text: Seq<char>) -> Option<(Seq<char>, Seq<char>, Seq<char>)> {
    let first = next_colon(text, 0);
    let second = next_colon(text, first + 1);
    let third = next_colon(text, second + 1);
    if first < text.len() && second < text.len() && third >= text.len() {
        Some(
            (
                text.subrange(0, first),
                text.subrange(first + 1, second),
                text.subrange(second + 1, text.len() as int),
            ),
        )
    } else {
        None
    }
}

/// Whether `c` is one of the digits `0` to `9`.
pub open spec fn is_digit(c: char) -> bool {
    '0' <= c && c <= '9'
}

/// Whether `text` is made of digits alone.
pub open spec fn all_digits(text: Seq<char>) -> bool {
    forall|i: int| 0 <= i < text.len() ==> is_digit(#[trigger] text[i])
}

/// The number that a run of digits writes in base ten.
pub open spec fn decimal(digits: Seq<char>) -> nat
    decreases digits.len(),
{
    if digits.len() == 0 {
        0
    } else {
        decimal(digits.drop_last()) * 10 + (digits.last() as nat - '0' as nat) as nat
    }
}

/// The weight that `number` writes: one digit or more, in base ten, no
/// larger than 64 bits hold.
pub open spec fn written_chance(number: Seq<char>) -> Option<u64> {
    if number.len() > 0 && all_digits(number) && decimal(number) <= u64::MAX {
        Some(decimal(number) as u64)
    } else {
        None
    }
}

/// What reading `text` as an entry gives, the tier's word being `word` once
/// in lower case: the entry, or the first complaint among these: the text
/// is not three fields, the third is no weight, the second names no tier.
pub open spec fn written_entry(text: Seq<char>) -> Result<PullView, Seq<char>> {
    match fields(text) {
        None => Err("Invalid pull chance string"@),
        Some((name, word, number)) => match written_chance(number) {
            None => Err("Invalid chance"@),
            Some(chance) => match PullType::named(lowercase(word)) {
                None => Err("Invalid pull type"@),
                Some(pull_type) => Ok(PullView { name, pull_type, chance: chance as nat }),
            },
        },
    }
}

/// What [`next_colon`] finds: a position from `from` on, with no colon
/// between `from` and it, that holds a colon unless it is the end.
pub proof fn lemma_next_colon(text: Seq<char>, from: int)
    requires
        0 <= from <= text.len(),
    ensures
        from <= next_colon(text, from) <= text.len(),
        next_colon(text, from) < text.len() ==> text[next_colon(text, from)] == ':',
        forall|i: int| from <= i < next_colon(text, from) ==> text[i] != ':',
    decreases text.len() - from,
{
    if from < text.len() && text[from] != ':' {
        lemma_next_colon(text, from + 1);
    }
}

/// The one position that [`next_colon`] can be.
pub proof fn lemma_next_colon_is(text: Seq<char>, from: int, at: int)
    requires
        0 <= from <= at <= text.len(),
        at < text.len() ==> text[at] == ':',
        forall|i: int| from <= i < at ==> text[i] != ':',
    ensures
        next_colon(text, from) == at,
    decreases at - from,
{
    if from < at {
        lemma_next_colon_is(text, from + 1, at);
    }
}

/// A text with three fields is its fields with colons between them, and no
/// field holds a colon.
pub proof fn law_fields_join(text: Seq<char>)
    requires
        fields(text) is Some,
    ensures
        ({
            let (name, word, number) = fields(text)->Some_0;
            &&& text == name + seq![':'] + word + seq![':'] + number
            &&& colon_free(name)
            &&& colon_free(word)
            &&& colon_free(number)
        }),
{
    let first = next_colon(text, 0);
    lemma_next_colon(text, 0);
    let second = next_colon(text, first + 1);
    lemma_next_colon(text, first + 1);
    lemma_next_colon(text, second + 1);
    let (name, word, number) = fields(text)->Some_0;
    assert(text =~= name + seq![':'] + word + seq![':'] + number);
}

/// Three fields without a colon, written with colons between them, are read
/// back as they were.
pub proof fn law_fields_of_joined(name: Seq<char>, word: Seq<char>, number: Seq<char>)
    requires
        colon_free(name),
        colon_free(word),
        colon_free(number),
    ensures
        fields(name + seq![':'] + word + seq![':'] + number) == Some((name, word, number)),
{
    let text = name + seq![':'] + word + seq![':'] + number;
    let first = name.len() as int;
    let second = first + 1 + word.len();
    lemma_next_colon_is(text, 0, first);
    lemma_next_colon_is(text, first + 1, second);
    lemma_next_colon_is(text, second + 1, text.len() as int);
    assert(text.subrange(0, first) =~= name);
    assert(text.subrange(first + 1, second) =~= word);
    assert(text.subrange(second + 1, text.len() as int) =~= number);
}

/// A run of digits writes no smaller a number than any of its beginnings.
pub proof fn lemma_decimal_grows(digits: Seq<char>, k: int)
    requires
        0 <= k <= digits.len(),
        all_digits(digits),
    ensures
        decimal(digits.take(k)) <= decimal(digits),
    decreases digits.len(),
{
    if k == digits.len() {
        assert(digits.take(k) =~= digits);
    } else {
        let shorter = digits.drop_last();
        assert(shorter.take(k) =~= digits.take(k));
        lemma_decimal_grows(shorter, k);
        assert(is_digit(digits.last()));
    }
}

/// The characters of `text`, one by one.
pub fn chars_of(text: &str) -> (r: Vec<char>)
    ensures
        r@ == text@,
{
    let mut out: Vec<char> = Vec::new();
    for c in it: text.chars()
        invariant
            it.seq() == text@,
            out@ == it.seq().take(it.index() as int),
    {
        out.push(c);
        assert(out@ =~= it.seq().take(it.index() + 1));
    }
    assert(out@ =~= text@);
    out
}

/// The first position at or after `from` at which `text` holds a colon, or
/// its length.
pub fn find_colon(text: &Vec<char>, from: usize) -> (r: usize)
    requires
        from <= text@.len(),
    ensures
        r == next_colon(text@, from as int),
        from <= r <= text@.len(),
{
    let mut i: usize = from;
    while i < text.len() && text[i] != ':'
        invariant
            from <= i <= text@.len(),
            forall|j: int| from <= j < i ==> text@[j] != ':',
        decreases text@.len() - i,
    {
        i += 1;
    }
    proof {
        lemma_next_colon_is(text@, from as int, i as int);
    }
    i
}

/// The weight that the characters of `text` from `from` on write, if they
/// write one.
pub fn read_chance(text: &Vec<char>, from: usize) -> (r: Option<u64>)
    requires
        from <= text@.len(),
    ensures
        r == written_chance(text@.subrange(from as int, text@.len() as int)),
{
    let ghost number = text@.subrange(from as int, text@.len() as int);
    if from == text.len() {
        return None;
    }
    let mut chance: u64 = 0;
    let mut i: usize = from;
    assert(number.take(0) =~= Seq::<char>::empty());
    while i < text.len()
        invariant
            from <= i <= text@.len(),
            number == text@.subrange(from as int, text@.len() as int),
            all_digits(number.take(i - from)),
            chance == decimal(number.take(i - from)),
        decreases text@.len() - i,
    {
        let c = text[i];
        assert(c == number[i - from]);
        if c < '0' || c > '9' {
            return None;
        }
        let digit: u64 = (c as u32 - '0' as u32) as u64;
        proof {
            let upto = number.take(i - from + 1);
            assert(upto.drop_last() =~= number.take(i - from));
            assert(upto.last() == c);
            assert(all_digits(upto));
            assert(decimal(upto) == chance * 10 + digit);
            if all_digits(number) {
                lemma_decimal_grows(number, i - from + 1);
            }
        }
        if chance > (u64::MAX - digit) / 10 {
            return None;
        }
        chance = chance * 10 + digit;
        i += 1;
    }
    assert(number.take(i - from) =~= number);
    Some(chance)
}

impl Pull {
    /// What reading a text as an entry gives.
    pub open spec fn read(text: Seq<char>, r: Result<Pull, &'static str>) -> bool {
        match written_entry(text) {
            Ok(p) => r matches Ok(pull) && pull@ == p,
            Err(complaint) => r matches Err(e) && e@ == complaint,
        }
    }
}

impl FromStr for Pull {
    type Err = &'static str;

    /// The entry that `s` writes as name, tier and weight with colons
    /// between them. The name may be empty; the tier is read in any case of
    /// its letters; the weight is a whole number in digits.
    fn from_str(s: &str) -> (r: Result<Self, Self::Err>)
        ensures
            Pull::read(s@, r),
    {
        let chars = chars_of(s);
        let first = find_colon(&chars, 0);
        if first == chars.len() {
            return Err("Invalid pull chance string");
        }
        let second = find_colon(&chars, first + 1);
        if second == chars.len() {
            return Err("Invalid pull chance string");
        }
        let third = find_colon(&chars, second + 1);
        if third != chars.len() {
            return Err("Invalid pull chance string");
        }
        let chance = match read_chance(&chars, second + 1) {
            Some(chance) => chance,
            None => {
                return Err("Invalid chance");
            },
        };
        let pull_type = match PullType::from_str(s.substring_char(first + 1, second)) {
            Ok(pull_type) => pull_type,
            Err(e) => {
                return Err(e);
            },
        };
        let name = s.substring_char(0, first).to_owned();
        Ok(Pull { name, pull_type, chance })
    }
}

} // verus!
