//! Text primitives: lines, prefixes, trimming and decimal numbers.
//!
//! Every function works on the characters of its argument, so the contracts
//! speak of `Seq<char>` alone.

use vstd::arithmetic::div_mod::*;
use vstd::arithmetic::power::*;
use vstd::prelude::*;

verus! {

/// The index of the first `mark` in `text`, or the length of `text` when there
/// is none.
pub open spec fn position(text: Seq<char>, mark: char) -> int
    decreases text.len(),
{
    if text.len() == 0 || text[0] == mark {
        0
    } else {
        1 + position(text.drop_first(), mark)
    }
}

/// What precedes the first `mark`: all of `text` when there is none.
pub open spec fn before(text: Seq<char>, mark: char) -> Seq<char> {
    text.take(position(text, mark))
}

/// What follows the first `mark`: nothing when there is none.
pub open spec fn after(text: Seq<char>, mark: char) -> Seq<char> {
    if text.contains(mark) {
        text.skip(position(text, mark) + 1)
    } else {
        seq![]
    }
}

/// `text` without its leading `mark`s.
pub open spec fn trimmed_start(text: Seq<char>, mark: char) -> Seq<char>
    decreases text.len(),
{
    if text.len() > 0 && text[0] == mark {
        trimmed_start(text.drop_first(), mark)
    } else {
        text
    }
}

/// `text` without its trailing `mark`s.
pub open spec fn trimmed_end(text: Seq<char>, mark: char) -> Seq<char>
    decreases text.len(),
{
    if text.len() > 0 && text.last() == mark {
        trimmed_end(text.drop_last(), mark)
    } else {
        text
    }
}

/// The first line of `text`: it ends before the first `"\n"` or `"\r\n"`. A
/// carriage return that no line feed follows is part of the line.
pub open spec fn line_of(text: Seq<char>) -> Seq<char> {
    let line = before(text, '\n');
    if text.contains('\n') && line.len() > 0 && line.last() == '\r' {
        line.drop_last()
    } else {
        line
    }
}

/// The digit that stands for `n`, for `n` below ten.
pub open spec fn digit(n: nat) -> char {
    (n + 48) as char
}

/// Whether `c` is an ASCII digit.
pub open spec fn is_digit(c: char) -> bool {
    '0' <= c <= '9'
}

/// `n` in decimal, without leading zeros.
pub open spec fn decimal(n: nat) -> Seq<char>
    decreases n,
{
    if n < 10 {
        seq![digit(n)]
    } else {
        decimal(n / 10).push(digit(n % 10))
    }
}

/// The number that the digits of `text` write in base ten.
pub open spec fn number_of(text: Seq<char>) -> nat
    decreases text.len(),
{
    if text.len() == 0 {
        0
    } else {
        number_of(text.drop_last()) * 10 + (text.last() as nat - 48) as nat
    }
}

/// `text` without the one plus sign that a number may begin with.
pub open spec fn unsigned_part(text: Seq<char>) -> Seq<char> {
    if text.len() > 0 && text[0] == '+' {
        text.drop_first()
    } else {
        text
    }
}

/// The 16-bit number that `text` writes: an optional plus sign, then one digit
/// or more, with a value below 65536.
pub open spec fn number16(text: Seq<char>) -> Option<u16> {
    let digits = unsigned_part(text);
    if digits.len() > 0 && (forall|i: int| 0 <= i < digits.len() ==> is_digit(#[trigger] digits[i]))
        && number_of(digits) <= u16::MAX {
        Some(number_of(digits) as u16)
    } else {
        None
    }
}

/// `position` is the first index at which `mark` stands.
pub proof fn lemma_position(text: Seq<char>, mark: char)
    ensures
        0 <= position(text, mark) <= text.len(),
        forall|i: int| 0 <= i < position(text, mark) ==> text[i] != mark,
        position(text, mark) < text.len() ==> text[position(text, mark)] == mark,
        text.contains(mark) <==> position(text, mark) < text.len(),
    decreases text.len(),
{
    if text.len() > 0 && text[0] != mark {
        let rest = text.drop_first();
        lemma_position(rest, mark);
        assert forall|i: int| 0 <= i < position(text, mark) implies text[i] != mark by {
            if i > 0 {
                assert(rest[i - 1] == text[i]);
            }
        }
    }
}

/// The first index at which `mark` stands is `position`.
pub proof fn lemma_position_is(text: Seq<char>, mark: char, at: int)
    requires
        0 <= at <= text.len(),
        forall|i: int| 0 <= i < at ==> text[i] != mark,
        at < text.len() ==> text[at] == mark,
    ensures
        position(text, mark) == at,
{
    lemma_position(text, mark);
}

/// The characters of `text`.
fn chars_of(text: &str) -> (chars: Vec<char>)
    ensures
        chars@ == text@,
{
    let mut chars: Vec<char> = Vec::new();
    for c in it: text.chars()
        invariant
            it.seq() == text@,
            chars@ == text@.take(it.index()),
    {
        assert(text@.take(it.index()).push(c) =~= text@.take(it.index() + 1));
        chars.push(c);
    }
    assert(text@.take(text@.len() as int) =~= text@);
    chars
}

/// Finds the first `mark` in `text`, counted in characters; the length of
/// `text` when there is none.
fn find(text: &str, mark: char) -> (at: usize)
    ensures
        at == position(text@, mark),
{
    let chars = chars_of(text);
    let mut at: usize = 0;
    while at < chars.len() && chars[at] != mark
        invariant
            chars@ == text@,
            0 <= at <= chars.len(),
            forall|i: int| 0 <= i < at ==> text@[i] != mark,
        decreases chars.len() - at,
    {
        at = at + 1;
    }
    proof {
        lemma_position_is(text@, mark, at as int);
    }
    at
}

/// Whether `text` begins with `prefix`.
pub fn starts_with(text: &str, prefix: &str) -> (yes: bool)
    ensures
        yes == prefix@.is_prefix_of(text@),
{
    let whole = chars_of(text);
    let head = chars_of(prefix);
    if head.len() > whole.len() {
        return false;
    }
    let mut i: usize = 0;
    while i < head.len()
        invariant
            whole@ == text@,
            head@ == prefix@,
            0 <= i <= head.len() <= whole.len(),
            text@.take(i as int) == prefix@.take(i as int),
        decreases head.len() - i,
    {
        if whole[i] != head[i] {
            assert(text@.subrange(0, prefix@.len() as int)[i as int] == text@[i as int]);
            return false;
        }
        assert(text@.take(i + 1) =~= text@.take(i as int).push(text@[i as int]));
        assert(prefix@.take(i + 1) =~= prefix@.take(i as int).push(prefix@[i as int]));
        i = i + 1;
    }
    assert(prefix@.take(prefix@.len() as int) =~= prefix@);
    true
}

/// Whether `mark` stands anywhere in `text`.
pub fn contains(text: &str, mark: char) -> (yes: bool)
    ensures
        yes == text@.contains(mark),
{
    let at = find(text, mark);
    proof {
        lemma_position(text@, mark);
    }
    at < text.unicode_len()
}

/// The part of `text` that precedes the first `mark`.
pub fn head(text: &str, mark: char) -> (part: &str)
    ensures
        part@ == before(text@, mark),
{
    let at = find(text, mark);
    proof {
        lemma_position(text@, mark);
    }
    text.substring_char(0, at)
}

/// The part of `text` that follows the first `mark`.
pub fn tail(text: &str, mark: char) -> (part: &str)
    ensures
        part@ == after(text@, mark),
{
    let at = find(text, mark);
    let len = text.unicode_len();
    proof {
        lemma_position(text@, mark);
        assert(text@.subrange(text@.len() as int, text@.len() as int) =~= seq![]);
    }
    if at < len {
        text.substring_char(at + 1, len)
    } else {
        text.substring_char(len, len)
    }
}

/// The first line of `text`, without its line ending.
pub fn first_line(text: &str) -> (line: &str)
    ensures
        line@ == line_of(text@),
{
    let at = find(text, '\n');
    proof {
        lemma_position(text@, '\n');
    }
    if 0 < at && at < text.unicode_len() && text.get_char(at - 1) == '\r' {
        assert(text@.subrange(0, at - 1) =~= before(text@, '\n').drop_last());
        text.substring_char(0, at - 1)
    } else {
        text.substring_char(0, at)
    }
}

proof fn lemma_trimmed_start_from(text: Seq<char>, mark: char, from: int)
    requires
        0 <= from <= text.len(),
        forall|i: int| 0 <= i < from ==> text[i] == mark,
        from < text.len() ==> text[from] != mark,
    ensures
        trimmed_start(text, mark) == text.skip(from),
    decreases from,
{
    if from == 0 {
        assert(text.skip(0) =~= text);
    } else {
        lemma_trimmed_start_from(text.drop_first(), mark, from - 1);
        assert(text.drop_first().skip(from - 1) =~= text.skip(from));
    }
}

proof fn lemma_trimmed_end_to(text: Seq<char>, mark: char, to: int)
    requires
        0 <= to <= text.len(),
        forall|i: int| to <= i < text.len() ==> text[i] == mark,
        to > 0 ==> text[to - 1] != mark,
    ensures
        trimmed_end(text, mark) == text.take(to),
    decreases text.len(),
{
    if to == text.len() {
        assert(text.take(to) =~= text);
    } else {
        lemma_trimmed_end_to(text.drop_last(), mark, to);
        assert(text.drop_last().take(to) =~= text.take(to));
    }
}

/// `text` without its leading `mark`s.
pub fn trim_start(text: &str, mark: char) -> (rest: &str)
    ensures
        rest@ == trimmed_start(text@, mark),
{
    let chars = chars_of(text);
    let mut from: usize = 0;
    while from < chars.len() && chars[from] == mark
        invariant
            chars@ == text@,
            0 <= from <= chars.len(),
            forall|i: int| 0 <= i < from ==> text@[i] == mark,
        decreases chars.len() - from,
    {
        from = from + 1;
    }
    proof {
        lemma_trimmed_start_from(text@, mark, from as int);
    }
    text.substring_char(from, chars.len())
}

/// `text` without its trailing `mark`s.
pub fn trim_end(text: &str, mark: char) -> (rest: &str)
    ensures
        rest@ == trimmed_end(text@, mark),
{
    let chars = chars_of(text);
    let mut to: usize = chars.len();
    while to > 0 && chars[to - 1] == mark
        invariant
            chars@ == text@,
            0 <= to <= chars.len(),
            forall|i: int| to <= i < text@.len() ==> text@[i] == mark,
        decreases to,
    {
        to = to - 1;
    }
    proof {
        lemma_trimmed_end_to(text@, mark, to as int);
    }
    text.substring_char(0, to)
}

/// `prefix`, followed by `rest`.
pub(crate) fn prefixed(prefix: &str, rest: &str) -> (text: String)
    ensures
        text@ == prefix@ + rest@,
{
    let mut text = prefix.to_owned();
    text.append(rest);
    text
}

fn digit_text(n: u16) -> (text: &'static str)
    requires
        n < 10,
    ensures
        text@ == seq![digit(n as nat)],
{
    proof {
        reveal_strlit("0");
        reveal_strlit("1");
        reveal_strlit("2");
        reveal_strlit("3");
        reveal_strlit("4");
        reveal_strlit("5");
        reveal_strlit("6");
        reveal_strlit("7");
        reveal_strlit("8");
        reveal_strlit("9");
    }
    match n {
        0 => "0",
        1 => "1",
        2 => "2",
        3 => "3",
        4 => "4",
        5 => "5",
        6 => "6",
        7 => "7",
        8 => "8",
        _ => "9",
    }
}

/// `n` in decimal.
pub fn decimal_text(n: u16) -> (text: String)
    ensures
        text@ == decimal(n as nat),
    decreases n,
{
    if n < 10 {
        digit_text(n).to_owned()
    } else {
        let mut text = decimal_text(n / 10);
        text.append(digit_text(n % 10));
        assert(text@ =~= decimal(n as nat));
        text
    }
}

proof fn lemma_number_grows(text: Seq<char>, to: int)
    requires
        0 <= to <= text.len(),
    ensures
        number_of(text.take(to)) <= number_of(text),
    decreases text.len() - to,
{
    if to == text.len() {
        assert(text.take(to) =~= text);
    } else {
        lemma_number_grows(text, to + 1);
        assert(text.take(to + 1).drop_last() =~= text.take(to));
    }
}

/// Reads a 16-bit number: an optional plus sign and decimal digits.
pub fn parse_u16(text: &str) -> (number: Option<u16>)
    ensures
        number == number16(text@),
{
    let chars = chars_of(text);
    let start: usize = if chars.len() > 0 && chars[0] == '+' {
        1
    } else {
        0
    };
    let ghost digits = unsigned_part(text@);
    assert(digits =~= text@.skip(start as int));
    if start == chars.len() {
        return None;
    }
    let mut value: u32 = 0;
    let mut i: usize = start;
    assert(digits.take(0) =~= seq![]);
    while i < chars.len()
        invariant
            chars@ == text@,
            digits == text@.skip(start as int),
            digits == unsigned_part(text@),
            0 <= start <= i <= chars.len(),
            start < chars.len(),
            value <= u16::MAX,
            value == number_of(digits.take(i - start)),
            forall|k: int| 0 <= k < i - start ==> is_digit(#[trigger] digits[k]),
        decreases chars.len() - i,
    {
        let c = chars[i];
        assert(digits[i - start] == c);
        if !('0' <= c && c <= '9') {
            return None;
        }
        assert(digits.take(i + 1 - start).drop_last() =~= digits.take(i - start));
        value = value * 10 + (c as u32 - 48);
        if value > 65535 {
            proof {
                lemma_number_grows(digits, i + 1 - start);
            }
            return None;
        }
        i = i + 1;
    }
    assert(digits.take(digits.len() as int) =~= digits);
    Some(value as u16)
}

/// A decimal number is made of digits and reads back as itself.
pub proof fn lemma_decimal_digits(n: nat)
    ensures
        decimal(n).len() > 0,
        forall|i: int| 0 <= i < decimal(n).len() ==> is_digit(#[trigger] decimal(n)[i]),
        number_of(decimal(n)) == n,
    decreases n,
{
    if n < 10 {
        assert(decimal(n).drop_last() =~= seq![]);
        assert(number_of(Seq::<char>::empty()) == 0);
    } else {
        lemma_decimal_digits(n / 10);
        assert(decimal(n).drop_last() =~= decimal(n / 10));
    }
}

/// What [`decimal_text`] writes, [`parse_u16`] reads back.
pub proof fn law_decimal_round_trip(n: u16)
    ensures
        number16(decimal(n as nat)) == Some(n),
{
    lemma_decimal_digits(n as nat);
}

/// A decimal number holds nothing but digits.
pub proof fn lemma_decimal_excludes(n: nat, mark: char)
    requires
        !is_digit(mark),
    ensures
        !decimal(n).contains(mark),
{
    lemma_decimal_digits(n);
}

// ---------------------------------------------------------------------------
// Laws
// ---------------------------------------------------------------------------

/// The two parts around the first mark make up the text again, and the first of
/// them is free of it. Without a mark, the first part is all there is.
pub proof fn law_parts_make_up_the_text(text: Seq<char>, mark: char)
    ensures
        forall|i: int| 0 <= i < before(text, mark).len() ==> before(text, mark)[i] != mark,
        text.contains(mark) ==> text == before(text, mark) + seq![mark] + after(text, mark),
        !text.contains(mark) ==> before(text, mark) == text && after(text, mark).len() == 0,
{
    lemma_position(text, mark);
    if text.contains(mark) {
        assert(text =~= before(text, mark) + seq![mark] + after(text, mark));
    } else {
        assert(before(text, mark) =~= text);
    }
}

/// Trimming at the start takes away marks and nothing else, and leaves none.
pub proof fn law_trimming_the_start(text: Seq<char>, mark: char)
    ensures
        ({
            let rest = trimmed_start(text, mark);
            let gone = text.len() - rest.len();
            &&& 0 <= gone
            &&& rest == text.skip(gone)
            &&& forall|i: int| 0 <= i < gone ==> text[i] == mark
            &&& rest.len() > 0 ==> rest[0] != mark
        }),
    decreases text.len(),
{
    if text.len() > 0 && text[0] == mark {
        let later = text.drop_first();
        law_trimming_the_start(later, mark);
        let rest = trimmed_start(text, mark);
        let gone = text.len() - rest.len();
        assert(later.skip(gone - 1) =~= text.skip(gone));
        assert forall|i: int| 0 <= i < gone implies text[i] == mark by {
            if i > 0 {
                assert(later[i - 1] == text[i]);
            }
        }
    } else {
        assert(text.skip(0) =~= text);
    }
}

/// Trimming at the end takes away marks and nothing else, and leaves none.
pub proof fn law_trimming_the_end(text: Seq<char>, mark: char)
    ensures
        ({
            let rest = trimmed_end(text, mark);
            &&& rest.len() <= text.len()
            &&& rest == text.take(rest.len() as int)
            &&& forall|i: int| rest.len() <= i < text.len() ==> text[i] == mark
            &&& rest.len() > 0 ==> rest.last() != mark
        }),
    decreases text.len(),
{
    if text.len() > 0 && text.last() == mark {
        let earlier = text.drop_last();
        law_trimming_the_end(earlier, mark);
        let n = trimmed_end(text, mark).len() as int;
        assert(earlier.take(n) =~= text.take(n));
        assert forall|i: int| n <= i < text.len() implies text[i] == mark by {
            if i < earlier.len() {
                assert(earlier[i] == text[i]);
            }
        }
    } else {
        assert(text.take(text.len() as int) =~= text);
    }
}

/// The first line is what stands before the first line ending, be it a line
/// feed or a carriage return and a line feed. A text without a line feed is one
/// line.
pub proof fn law_first_line_ends_at_its_ending(line: Seq<char>, rest: Seq<char>)
    requires
        !line.contains('\n'),
    ensures
        line_of(line) == line,
        line_of(line + seq!['\r', '\n'] + rest) == line,
        line.len() > 0 && line.last() == '\r' || line_of(line + seq!['\n'] + rest) == line,
{
    lemma_position(line, '\n');
    assert(before(line, '\n') =~= line);
    let fed = line + seq!['\n'] + rest;
    let returned = line + seq!['\r', '\n'] + rest;
    let n = line.len() as int;
    assert forall|i: int| 0 <= i < n implies fed[i] != '\n' && returned[i] != '\n' by {
        assert(fed[i] == line[i] && returned[i] == line[i]);
    }
    assert(fed[n] == '\n' && returned[n] == '\r' && returned[n + 1] == '\n');
    lemma_position_is(fed, '\n', n);
    lemma_position_is(returned, '\n', n + 1);
    assert(before(fed, '\n') =~= line);
    assert(before(returned, '\n') =~= line.push('\r'));
    assert(line.push('\r').drop_last() =~= line);
}

/// The digits of a decimal number are its place values: the digit at place `i`
/// from the right counts the `i`-th power of ten. There is no leading zero.
pub proof fn law_decimal_digits_are_place_values(n: nat)
    ensures
        decimal(n).len() > 0,
        forall|i: int|
            0 <= i < decimal(n).len() ==> #[trigger] decimal(n)[decimal(n).len() - 1 - i] as int
                == '0' as int + n as int / pow(10, i as nat) % 10,
        n < pow(10, decimal(n).len()),
        decimal(n).len() > 1 ==> decimal(n)[0] != '0',
    decreases n,
{
    let len = decimal(n).len() as int;
    lemma_pow0(10);
    lemma_pow1(10);
    if n >= 10 {
        let front = decimal(n / 10);
        law_decimal_digits_are_place_values(n / 10);
        assert(decimal(n) =~= front.push(digit(n % 10)));
        assert forall|i: int| 0 <= i < len implies #[trigger] decimal(n)[len - 1 - i] as int
            == '0' as int + n as int / pow(10, i as nat) % 10 by {
            if i > 0 {
                let k = (i - 1) as nat;
                lemma_pow_adds(10, 1, k);
                lemma_pow_positive(10, k);
                lemma_div_denominator(n as int, 10, pow(10, k));
                assert(front[front.len() - 1 - k] == decimal(n)[len - 1 - i]);
            }
        }
        lemma_pow_adds(10, 1, front.len());
        assert(n < pow(10, decimal(n).len()));
        if front.len() == 1 {
            assert(front[front.len() - 1 - 0] as int == '0' as int + (n / 10) as int / pow(
                10,
                0,
            ) % 10);
            assert(n / 10 < 10);
        }
    } else {
        assert(decimal(n)[len - 1 - 0] == digit(n));
    }
}

/// A 16-bit number is read digit by digit: each further digit counts the number
/// so far ten times, a plus sign before the first digit changes nothing, and
/// whatever else stands in the text, or a value that does not fit, leaves
/// nothing to read.
pub proof fn law_numbers_are_read_digit_by_digit(text: Seq<char>, d: int)
    requires
        0 <= d < 10,
    ensures
        ({
            let longer = text.push(('0' as int + d) as char);
            &&& number16(seq![('0' as int + d) as char]) == Some(d as u16)
            &&& number16(text) matches Some(n) ==> number16(longer) == if 10 * n + d <= 65535 {
                Some((10 * n + d) as u16)
            } else {
                None::<u16>
            }
            &&& number16(text) is None ==> number16(longer) is None || text.len() == 0 || text
                == seq!['+']
        }),
        text.len() == 0 ==> number16(text) is None,
        number16(seq!['+']) is None,
        text.len() > 0 && text[0] != '+' ==> number16(seq!['+'] + text) == number16(text),
        text.len() > 0 && text[0] == '+' ==> number16(seq!['+'] + text) is None,
        forall|i: int|
            0 <= i < text.len() && !('0' <= #[trigger] text[i] <= '9') && !(i == 0 && text[i]
                == '+') ==> number16(text) is None,
{
    let c = ('0' as int + d) as char;
    let one = seq![c];
    assert(unsigned_part(one) =~= one);
    assert(one.drop_last() =~= seq![]);
    assert(number_of(one) == d) by {
        assert(number_of(Seq::<char>::empty()) == 0);
    }
    assert(unsigned_part(seq!['+']) =~= seq![]);
    assert((seq!['+'] + text).drop_first() =~= text);
    let digits = unsigned_part(text);
    let longer = text.push(c);
    if text.len() > 0 && text[0] == '+' {
        assert(longer.drop_first() =~= text.drop_first().push(c));
        assert(text.len() > 1 || text =~= seq!['+']);
    }
    if text.len() > 0 {
        let more = unsigned_part(longer);
        assert(more =~= digits.push(c));
        assert(more.drop_last() =~= digits);
        assert(number_of(more) == number_of(digits) * 10 + d);
        assert forall|i: int| 0 <= i < digits.len() implies more[i] == digits[i] by {}
        if digits.len() > 0 && (forall|i: int|
            0 <= i < digits.len() ==> is_digit(#[trigger] digits[i])) {
            assert forall|i: int| 0 <= i < more.len() implies is_digit(#[trigger] more[i]) by {
                if i < digits.len() {
                    assert(more[i] == digits[i]);
                }
            }
        } else if digits.len() > 0 {
            let k = choose|k: int| 0 <= k < digits.len() && !is_digit(#[trigger] digits[k]);
            assert(!is_digit(more[k]));
        }
    }
    if text.len() > 0 && text[0] == '+' {
        let twice = unsigned_part(seq!['+'] + text);
        assert(twice =~= text);
        assert(!is_digit(twice[0]));
    }
    assert forall|i: int|
        0 <= i < text.len() && !('0' <= #[trigger] text[i] <= '9') && !(i == 0 && text[i]
            == '+') implies number16(text) is None by {
        let k = if text[0] == '+' {
            i - 1
        } else {
            i
        };
        assert(digits[k] == text[i]);
        assert(!is_digit(digits[k]));
    }
}

} // verus!
