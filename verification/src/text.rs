//! Text rendering and parsing on character sequences.

use vstd::prelude::*;

verus! {

/// The character of one decimal digit.
pub open spec fn digit_char(d: nat) -> char
    recommends
        d < 10,
{
    (48 + d) as char
}

/// The decimal digits of `n`, most significant first and without padding.
pub open spec fn decimal(n: nat) -> Seq<char>
    decreases n,
{
    if n < 10 {
        seq![digit_char(n)]
    } else {
        decimal(n / 10).push(digit_char(n % 10))
    }
}

/// The word that stands for a boolean.
pub open spec fn bool_word(b: bool) -> Seq<char> {
    if b {
        "true"@
    } else {
        "false"@
    }
}

fn digit_text(d: u128) -> (s: &'static str)
    requires
        d < 10,
    ensures
        s@ == seq![digit_char(d as nat)],
{
    proof {
        reveal_strlit("0");
        reveal_strlit("1");
        reveal_strlit("2");
        reveal_strlit("3");
        reveal_strlit("4");
        reveal_strlit("5");
        reveal_strlit("6");
        reveal_strlit("7");
        reveal_strlit("8");
        reveal_strlit("9");
    }
    if d == 0 {
        "0"
    } else if d == 1 {
        "1"
    } else if d == 2 {
        "2"
    } else if d == 3 {
        "3"
    } else if d == 4 {
        "4"
    } else if d == 5 {
        "5"
    } else if d == 6 {
        "6"
    } else if d == 7 {
        "7"
    } else if d == 8 {
        "8"
    } else {
        "9"
    }
}

/// Appends the decimal digits of `n` to `out`.
pub fn push_decimal(out: &mut String, n: u128)
    ensures
        final(out)@ == old(out)@ + decimal(n as nat),
    decreases n,
{
    if n >= 10 {
        push_decimal(out, n / 10);
    }
    out.append(digit_text(n % 10));
    assert(out@ == old(out)@ + decimal(n as nat));
}

/// Appends `true` or `false` to `out`.
pub fn push_bool(out: &mut String, b: bool)
    ensures
        final(out)@ == old(out)@ + bool_word(b),
{
    if b {
        out.append("true");
    } else {
        out.append("false");
    }
}

/// The characters of `s`, in order.
pub fn chars_of(s: &str) -> (chars: Vec<char>)
    ensures
        chars@ == s@,
{
    broadcast use vstd::string::axiom_spec_iter;

    let mut chars: Vec<char> = Vec::new();
    for c in iter: s.chars()
        invariant
            iter.seq() == s@,
            chars@ == s@.take(iter.index()),
    {
        chars.push(c);
    }
    assert(s@.take(s@.len() as int) == s@);
    chars
}

/// The pieces of `s` between occurrences of `sep`, empty pieces included.
pub open spec fn split(s: Seq<char>, sep: char) -> Seq<Seq<char>>
    decreases s.len(),
{
    if s.len() == 0 {
        seq![Seq::<char>::empty()]
    } else {
        let before = split(s.drop_last(), sep);
        if s.last() == sep {
            before.push(Seq::<char>::empty())
        } else {
            before.drop_last().push(before.last().push(s.last()))
        }
    }
}

/// What stands before and behind the first `sep` of `s`, where there is one.
pub open spec fn split_once(s: Seq<char>, sep: char) -> Option<(Seq<char>, Seq<char>)> {
    if s.contains(sep) {
        let at = s.index_of_first(sep)->0;
        Some((s.take(at), s.skip(at + 1)))
    } else {
        None
    }
}

/// Why a text is no unsigned number.
#[derive(Clone, Copy, Debug, PartialEq, Eq, Structural)]
pub enum NumberFault {
    Empty,
    InvalidDigit,
    TooLarge,
}

impl NumberFault {
    pub open spec fn spec_message(self) -> Seq<char> {
        match self {
            NumberFault::Empty => "cannot parse integer from empty string"@,
            NumberFault::InvalidDigit => "invalid digit found in string"@,
            NumberFault::TooLarge => "number too large to fit in target type"@,
        }
    }

    /// The fault in words.
    pub fn message(self) -> (text: &'static str)
        ensures
            text@ == self.spec_message(),
    {
        match self {
            NumberFault::Empty => "cannot parse integer from empty string",
            NumberFault::InvalidDigit => "invalid digit found in string",
            NumberFault::TooLarge => "number too large to fit in target type",
        }
    }
}

pub open spec fn is_digit(c: char) -> bool {
    '0' <= c && c <= '9'
}

pub open spec fn digit_value(c: char) -> nat {
    (c as nat - 48) as nat
}

/// The number that the digits of `s` stand for, or the first fault from the left.
pub open spec fn digits_value(s: Seq<char>) -> Result<u32, NumberFault>
    decreases s.len(),
{
    if s.len() == 0 {
        Ok(0u32)
    } else {
        match digits_value(s.drop_last()) {
            Err(fault) => Err(fault),
            Ok(value) => if !is_digit(s.last()) {
                Err(NumberFault::InvalidDigit)
            } else if value * 10 + digit_value(s.last()) > u32::MAX {
                Err(NumberFault::TooLarge)
            } else {
                Ok((value * 10 + digit_value(s.last())) as u32)
            },
        }
    }
}

/// The unsigned 32-bit number that `s` stands for; one leading plus is allowed.
pub open spec fn parse_u32_spec(s: Seq<char>) -> Result<u32, NumberFault> {
    if s.len() == 0 {
        Err(NumberFault::Empty)
    } else if s.len() == 1 && (s[0] == '+' || s[0] == '-') {
        Err(NumberFault::InvalidDigit)
    } else if s[0] == '+' {
        digits_value(s.skip(1))
    } else {
        digits_value(s)
    }
}

/// Parses an unsigned 32-bit number.
pub fn parse_u32(chars: &Vec<char>) -> (result: Result<u32, NumberFault>)
    ensures
        result == parse_u32_spec(chars@),
{
    if chars.len() == 0 {
        return Err(NumberFault::Empty);
    }
    if chars.len() == 1 && (chars[0] == '+' || chars[0] == '-') {
        return Err(NumberFault::InvalidDigit);
    }
    let start: usize = if chars[0] == '+' {
        1
    } else {
        0
    };
    let ghost digits = chars@.skip(start as int);
    assert(digits == if start == 1 {
        chars@.skip(1)
    } else {
        chars@
    });
    let mut value: u32 = 0;
    let mut at: usize = start;
    while at < chars.len()
        invariant
            start <= at <= chars.len(),
            digits == chars@.skip(start as int),
            digits_value(digits.take(at - start)) == Ok::<u32, NumberFault>(value),
            parse_u32_spec(chars@) == digits_value(digits),
        decreases chars.len() - at,
    {
        let c = chars[at];
        let ghost prefix = digits.take(at + 1 - start);
        assert(prefix.drop_last() == digits.take(at - start));
        assert(prefix.last() == c);
        if c < '0' || c > '9' {
            proof {
                lemma_digits_fault_sticks(digits, at + 1 - start);
            }
            return Err(NumberFault::InvalidDigit);
        }
        let digit: u32 = c as u32 - 48;
        let scaled: u64 = (value as u64) * 10 + digit as u64;
        if scaled > u32::MAX as u64 {
            proof {
                lemma_digits_fault_sticks(digits, at + 1 - start);
            }
            return Err(NumberFault::TooLarge);
        }
        value = scaled as u32;
        at = at + 1;
    }
    assert(digits.take(at - start) == digits);
    Ok(value)
}

proof fn lemma_digits_fault_sticks(s: Seq<char>, n: int)
    requires
        0 <= n <= s.len(),
        digits_value(s.take(n)) is Err,
    ensures
        digits_value(s) == digits_value(s.take(n)),
    decreases s.len() - n,
{
    if n < s.len() {
        assert(s.take(n + 1).drop_last() == s.take(n));
        lemma_digits_fault_sticks(s, n + 1);
    } else {
        assert(s.take(n) == s);
    }
}

/// The texts of a list of character lists.
pub open spec fn texts(parts: Seq<Vec<char>>) -> Seq<Seq<char>> {
    parts.map_values(|part: Vec<char>| part@)
}

/// Splits the first `end` characters at every `sep`.
pub fn split_chars(chars: &Vec<char>, end: usize, sep: char) -> (parts: Vec<Vec<char>>)
    requires
        end <= chars.len(),
    ensures
        texts(parts@) == split(chars@.take(end as int), sep),
{
    let mut parts: Vec<Vec<char>> = Vec::new();
    let mut current: Vec<char> = Vec::new();
    let mut at: usize = 0;
    assert(texts(parts@).push(current@) == split(chars@.take(0), sep));
    while at < end
        invariant
            at <= end <= chars.len(),
            texts(parts@).push(current@) == split(chars@.take(at as int), sep),
        decreases end - at,
    {
        let c = chars[at];
        let ghost prefix = chars@.take(at + 1);
        assert(prefix.drop_last() == chars@.take(at as int));
        assert(prefix.last() == c);
        let ghost before = texts(parts@).push(current@);
        assert(before.drop_last() == texts(parts@));
        if c == sep {
            parts.push(current);
            assert(texts(parts@) == before);
            current = Vec::new();
        } else {
            current.push(c);
        }
        assert(texts(parts@).push(current@) == split(prefix, sep));
        at = at + 1;
    }
    let ghost before = texts(parts@).push(current@);
    parts.push(current);
    assert(texts(parts@) == before);
    parts
}

/// Splits at the first `sep`.
pub fn split_once_chars(chars: &Vec<char>, sep: char) -> (result: Option<(Vec<char>, Vec<char>)>)
    ensures
        match result {
            Some(pair) => split_once(chars@, sep) == Some((pair.0@, pair.1@)),
            None => split_once(chars@, sep) is None,
        },
{
    let mut at: usize = 0;
    while at < chars.len()
        invariant
            at <= chars.len(),
            forall|i: int| 0 <= i < at ==> chars@[i] != sep,
        decreases chars.len() - at,
    {
        if chars[at] == sep {
            assert(chars@.contains(sep));
            proof {
                chars@.index_of_first_ensures(sep);
            }
            let head = chars_between(chars, 0, at);
            let tail = chars_between(chars, at + 1, chars.len());
            assert(head@ == chars@.take(at as int));
            assert(tail@ == chars@.skip(at + 1));
            return Some((head, tail));
        }
        at = at + 1;
    }
    None
}

/// The characters from `from` up to `to`.
pub fn chars_between(chars: &Vec<char>, from: usize, to: usize) -> (part: Vec<char>)
    requires
        from <= to <= chars.len(),
    ensures
        part@ == chars@.subrange(from as int, to as int),
{
    let mut part: Vec<char> = Vec::new();
    let mut at: usize = from;
    while at < to
        invariant
            from <= at <= to <= chars.len(),
            part@ == chars@.subrange(from as int, at as int),
        decreases to - at,
    {
        part.push(chars[at]);
        at = at + 1;
    }
    part
}

/// Whether `chars` spells `text`.
pub fn same_text(chars: &Vec<char>, text: &str) -> (result: bool)
    ensures
        result == (chars@ == text@),
{
    let other = chars_of(text);
    if chars.len() != other.len() {
        return false;
    }
    let mut at: usize = 0;
    while at < chars.len()
        invariant
            at <= chars.len(),
            chars.len() == other.len(),
            other@ == text@,
            forall|i: int| 0 <= i < at ==> chars@[i] == other@[i],
        decreases chars.len() - at,
    {
        if chars[at] != other[at] {
            return false;
        }
        at = at + 1;
    }
    assert(chars@ == other@);
    true
}

/// Whether two texts are equal.
pub fn same_str(left: &str, right: &str) -> (result: bool)
    ensures
        result == (left@ == right@),
{
    same_text(&chars_of(left), right)
}

/// Appends the characters of `chars` to `out`.
pub fn push_chars(out: &mut String, chars: &Vec<char>)
    ensures
        final(out)@ == old(out)@ + chars@,
{
    let text = string_of(chars);
    out.append(text.as_str());
}

/// The string that `chars` spells. Calls `String::from_iter`, which builds a
/// string of the characters that it is handed, in their order.
#[verifier::external_body]
pub(crate) fn string_of(chars: &Vec<char>) -> (text: String)
    ensures
        text@ == chars@,
{
    String::from_iter(chars.iter())
}

/// A text without `sep` behind a text that ends in `sep` is its own last piece.
pub proof fn lemma_split_appends(head: Seq<char>, tail: Seq<char>, sep: char)
    requires
        !tail.contains(sep),
    ensures
        split(head.push(sep) + tail, sep) == split(head, sep).push(tail),
    decreases tail.len(),
{
    let whole = head.push(sep) + tail;
    if tail.len() == 0 {
        assert(tail == Seq::<char>::empty());
        assert(whole == head.push(sep));
        assert(whole.drop_last() == head);
    } else {
        let shorter = tail.drop_last();
        assert(forall|i: int| 0 <= i < shorter.len() ==> shorter[i] == tail[i]);
        assert(!shorter.contains(sep));
        lemma_split_appends(head, shorter, sep);
        assert(whole.drop_last() == head.push(sep) + shorter);
        assert(tail[tail.len() - 1] != sep);
        assert(whole.last() == tail.last());
        let before = split(head, sep).push(shorter);
        assert(before.drop_last() == split(head, sep));
        assert(shorter.push(tail.last()) == tail);
    }
}

/// A text without `sep` is one piece.
pub proof fn lemma_split_single(s: Seq<char>, sep: char)
    requires
        !s.contains(sep),
    ensures
        split(s, sep) == seq![s],
    decreases s.len(),
{
    if s.len() > 0 {
        let shorter = s.drop_last();
        assert(forall|i: int| 0 <= i < shorter.len() ==> shorter[i] == s[i]);
        assert(!shorter.contains(sep));
        lemma_split_single(shorter, sep);
        assert(s[s.len() - 1] != sep);
        assert(shorter.push(s.last()) == s);
        assert(seq![shorter].drop_last().push(s) == seq![s]);
    } else {
        assert(s == Seq::<char>::empty());
    }
}

/// A key without `sep`, then `sep`, then any text splits into key and text.
pub proof fn lemma_split_once_of_pair(key: Seq<char>, value: Seq<char>, sep: char)
    requires
        !key.contains(sep),
    ensures
        split_once(key.push(sep) + value, sep) == Some((key, value)),
{
    let s = key.push(sep) + value;
    assert(s[key.len() as int] == sep);
    assert(s.contains(sep));
    s.index_of_first_ensures(sep);
    let at = s.index_of_first(sep)->0;
    if at < key.len() {
        assert(s[at] == key[at]);
        assert(key.contains(sep));
    }
    assert(s.take(at) == key);
    assert(s.skip(at + 1) == value);
}

/// Decimal text has digits only.
pub proof fn lemma_decimal_is_digits(n: nat)
    ensures
        decimal(n).len() > 0,
        forall|i: int| 0 <= i < decimal(n).len() ==> is_digit(#[trigger] decimal(n)[i]),
    decreases n,
{
    if n >= 10 {
        lemma_decimal_is_digits(n / 10);
    }
}

/// Parsing the decimal text of a number gives the number back.
pub proof fn lemma_parse_of_decimal(n: u32)
    ensures
        parse_u32_spec(decimal(n as nat)) == Ok::<u32, NumberFault>(n),
{
    lemma_decimal_is_digits(n as nat);
    assert(is_digit(decimal(n as nat)[0]));
    lemma_digits_of_decimal(n);
}

proof fn lemma_digits_of_decimal(n: u32)
    ensures
        digits_value(decimal(n as nat)) == Ok::<u32, NumberFault>(n),
    decreases n,
{
    let text = decimal(n as nat);
    if n < 10 {
        assert(text.drop_last() == Seq::<char>::empty());
        assert(digits_value(text.drop_last()) == Ok::<u32, NumberFault>(0u32));
    } else {
        lemma_digits_of_decimal((n / 10) as u32);
        assert(text.drop_last() == decimal((n / 10) as nat));
    }
}

} // verus!
