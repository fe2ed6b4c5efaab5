//! Text as sequences of characters: strings built up piece by piece,
//! numbers written and read, lines and words taken apart.

use vstd::prelude::*;
use vstd::string::*;
use vstd::utf8::*;

verus! {

/// [`String::push`] appends one character.
pub assume_specification[ String::push ](s: &mut String, c: char)
    ensures
        final(s)@ == old(s)@.push(c),
;

/// What formatting a string with `{:?}` makes of it: the text in double
/// quotes, with the characters that need it escaped.
pub uninterp spec fn debug_quoted(text: Seq<char>) -> Seq<char>;

/// Formats a string with `{:?}`. That the outcome is a function of the text
/// alone is taken from the documentation of `Debug` for `str`; which
/// characters are escaped, and how, is left unsaid.
#[verifier::external_body]
pub(crate) fn quote(text: &str) -> (quoted: String)
    ensures
        quoted@ == debug_quoted(text@),
{
    format!("{text:?}")
}

/// [`String::from_utf8`] makes a string of bytes that are valid UTF-8, with
/// the characters that they encode, and refuses any others.
#[verifier::external_body]
pub(crate) fn utf8_text(bytes: Vec<u8>) -> (text: Option<String>)
    ensures
        match text {
            Some(s) => valid_utf8(bytes@) && s@ == decode_utf8(bytes@),
            None => !valid_utf8(bytes@),
        },
{
    String::from_utf8(bytes).ok()
}

/// The characters of a string.
pub fn chars_of(text: &str) -> (chars: Vec<char>)
    ensures
        chars@ == text@,
{
    let mut chars: Vec<char> = Vec::new();
    for c in it: text.chars()
        invariant
            chars@ == text@.take(it.index() as int),
            it.seq() == text@,
    {
        proof {
            assert(text@.take(it.index() as int + 1) =~= text@.take(it.index() as int).push(
                text@[it.index() as int],
            ));
        }
        chars.push(c);
    }
    assert(text@.take(text@.len() as int) =~= text@);
    chars
}

/// Appends characters to a string.
pub fn append_chars(s: &mut String, chars: &Vec<char>)
    ensures
        final(s)@ == old(s)@ + chars@,
{
    let mut i: usize = 0;
    assert(s@ =~= old(s)@ + chars@.take(0));
    while i < chars.len()
        invariant
            i <= chars@.len(),
            s@ == old(s)@ + chars@.take(i as int),
        decreases chars@.len() - i,
    {
        s.push(chars[i]);
        i += 1;
        assert(old(s)@ + chars@.take(i as int) =~= (old(s)@ + chars@.take(i as int - 1)).push(
            chars@[i as int - 1],
        ));
    }
    assert(chars@.take(i as int) =~= chars@);
}

/// A string of the given characters.
pub fn string_of(chars: &Vec<char>) -> (s: String)
    ensures
        s@ == chars@,
{
    let mut s = String::new();
    append_chars(&mut s, chars);
    assert(s@ =~= chars@);
    s
}

/// Whether characters spell out a string.
pub fn spells(chars: &Vec<char>, text: &str) -> (same: bool)
    ensures
        same == (chars@ == text@),
{
    let other: Vec<char> = chars_of(text);
    if chars.len() != other.len() {
        return false;
    }
    let mut i: usize = 0;
    while i < chars.len()
        invariant
            i <= chars@.len(),
            chars@.len() == other@.len(),
            other@ == text@,
            forall|k: int| 0 <= k < i ==> chars@[k] == other@[k],
        decreases chars@.len() - i,
    {
        if chars[i] != other[i] {
            return false;
        }
        i += 1;
    }
    assert(chars@ =~= text@);
    true
}

// Numbers.

/// The character of a decimal digit.
pub open spec fn digit_char(digit: int) -> char {
    (0x30 + digit) as char
}

/// A number in decimal, without leading zeros.
pub open spec fn decimal(n: nat) -> Seq<char>
    decreases n,
{
    if n < 10 {
        seq![digit_char(n as int)]
    } else {
        decimal(n / 10).push(digit_char(n as int % 10))
    }
}

/// A number in decimal, filled up with zeros on the left to `width`
/// characters.
pub open spec fn padded(n: nat, width: nat) -> Seq<char> {
    let digits = decimal(n);
    if digits.len() < width {
        Seq::new((width - digits.len()) as nat, |i: int| '0') + digits
    } else {
        digits
    }
}

/// The digits of a number.
fn decimal_chars(n: u64) -> (chars: Vec<char>)
    ensures
        chars@ == decimal(n as nat),
    decreases n,
{
    if n < 10 {
        let mut chars: Vec<char> = Vec::new();
        chars.push((0x30u8 + n as u8) as char);
        assert(chars@ =~= decimal(n as nat));
        chars
    } else {
        let mut chars: Vec<char> = decimal_chars(n / 10);
        chars.push((0x30u8 + (n % 10) as u8) as char);
        chars
    }
}

/// Appends a number in decimal.
pub fn append_decimal(s: &mut String, n: u64)
    ensures
        final(s)@ == old(s)@ + decimal(n as nat),
{
    let chars: Vec<char> = decimal_chars(n);
    append_chars(s, &chars);
}

/// Appends a number in decimal, filled up with zeros to `width`.
pub fn append_padded(s: &mut String, n: u64, width: usize)
    ensures
        final(s)@ == old(s)@ + padded(n as nat, width as nat),
{
    let chars: Vec<char> = decimal_chars(n);
    if chars.len() < width {
        let zeros: usize = width - chars.len();
        let mut i: usize = 0;
        assert(s@ =~= old(s)@ + Seq::new(0, |k: int| '0'));
        while i < zeros
            invariant
                i <= zeros,
                s@ == old(s)@ + Seq::new(i as nat, |k: int| '0'),
            decreases zeros - i,
        {
            s.push('0');
            i += 1;
            assert(s@ =~= old(s)@ + Seq::new(i as nat, |k: int| '0'));
        }
        append_chars(s, &chars);
        assert(s@ =~= old(s)@ + padded(n as nat, width as nat));
    } else {
        append_chars(s, &chars);
    }
}

/// The value of a digit in a base of up to 16, in either case.
pub open spec fn digit_value(c: char, radix: int) -> Option<int> {
    let code = c as int;
    let value = if 0x30 <= code <= 0x39 {
        code - 0x30
    } else if 0x41 <= code <= 0x46 {
        code - 0x41 + 10
    } else if 0x61 <= code <= 0x66 {
        code - 0x61 + 10
    } else {
        16
    };
    if value < radix {
        Some(value)
    } else {
        None
    }
}

/// Every character is a digit.
pub open spec fn all_digits(chars: Seq<char>, radix: int) -> bool {
    forall|i: int| 0 <= i < chars.len() ==> (#[trigger] digit_value(chars[i], radix)) is Some
}

/// The number that digits make.
pub open spec fn number_value(digits: Seq<char>, radix: int) -> int
    decreases digits.len(),
{
    if digits.len() == 0 {
        0
    } else {
        number_value(digits.drop_last(), radix) * radix + digit_value(digits.last(), radix).unwrap()
    }
}

/// The digits of a written number: what follows a plus sign, if there is
/// one.
pub open spec fn unsigned_part(chars: Seq<char>) -> Seq<char> {
    if chars.len() > 0 && chars[0] == '+' {
        chars.drop_first()
    } else {
        chars
    }
}

/// The number that characters spell, if they spell one of at most `max`: an
/// optional plus sign and one digit or more.
pub open spec fn spelled_number(chars: Seq<char>, radix: int, max: int) -> Option<int> {
    let digits = unsigned_part(chars);
    if digits.len() > 0 && all_digits(digits, radix) && number_value(digits, radix) <= max {
        Some(number_value(digits, radix))
    } else {
        None
    }
}

/// The value of a digit.
fn read_digit(c: char, radix: u64) -> (value: Option<u64>)
    requires
        2 <= radix <= 16,
    ensures
        match value {
            Some(v) => digit_value(c, radix as int) == Some(v as int),
            None => digit_value(c, radix as int) is None,
        },
{
    let code: u32 = c as u32;
    let value: u32 = if 0x30 <= code && code <= 0x39 {
        code - 0x30
    } else if 0x41 <= code && code <= 0x46 {
        code - 0x41 + 10
    } else if 0x61 <= code && code <= 0x66 {
        code - 0x61 + 10
    } else {
        16
    };
    if (value as u64) < radix {
        Some(value as u64)
    } else {
        None
    }
}

/// Whether a character is a decimal digit.
pub fn is_decimal_digit(c: char) -> (digit: bool)
    ensures
        digit == (digit_value(c, 10) is Some),
{
    read_digit(c, 10).is_some()
}

/// More digits never make a smaller number.
proof fn lemma_number_grows(digits: Seq<char>, n: int, radix: int)
    requires
        2 <= radix <= 16,
        0 <= n <= digits.len(),
        all_digits(digits, radix),
    ensures
        0 <= number_value(digits.take(n), radix) <= number_value(digits, radix),
    decreases digits.len(),
{
    if n == digits.len() {
        assert(digits.take(n) =~= digits);
        if n > 0 {
            let rest = digits.drop_last();
            assert(all_digits(rest, radix)) by {
                assert forall|i: int| 0 <= i < rest.len() implies (#[trigger] digit_value(
                    rest[i],
                    radix,
                )) is Some by {
                    assert(digit_value(digits[i], radix) is Some);
                }
            }
            lemma_number_grows(rest, n - 1, radix);
            assert(rest.take(n - 1) =~= rest);
            assert(digit_value(digits[n - 1], radix) is Some);
            assert(number_value(rest, radix) * radix >= 0) by (nonlinear_arith)
                requires
                    number_value(rest, radix) >= 0,
                    radix >= 2,
            ;
        }
    } else {
        let rest = digits.drop_last();
        assert(all_digits(rest, radix)) by {
            assert forall|i: int| 0 <= i < rest.len() implies (#[trigger] digit_value(
                rest[i],
                radix,
            )) is Some by {
                assert(digit_value(digits[i], radix) is Some);
            }
        }
        lemma_number_grows(rest, n, radix);
        assert(rest.take(n) =~= digits.take(n));
        assert(digit_value(digits[digits.len() - 1], radix) is Some);
        assert(number_value(rest, radix) * radix >= number_value(rest, radix))
            by (nonlinear_arith)
            requires
                number_value(rest, radix) >= 0,
                radix >= 2,
        ;
    }
}

/// Reads a number of at most `max`: an optional plus sign and digits.
pub fn parse_number(chars: &Vec<char>, radix: u64, max: u64) -> (number: Option<u64>)
    requires
        2 <= radix <= 16,
    ensures
        match number {
            Some(n) => spelled_number(chars@, radix as int, max as int) == Some(n as int),
            None => spelled_number(chars@, radix as int, max as int) is None,
        },
{
    let start: usize = if chars.len() > 0 && chars[0] == '+' {
        1
    } else {
        0
    };
    let ghost digits = unsigned_part(chars@);
    assert(digits =~= chars@.skip(start as int));
    if start == chars.len() {
        return None;
    }
    let mut value: u64 = 0;
    let mut i: usize = start;
    assert(digits.take(0) =~= Seq::<char>::empty());
    while i < chars.len()
        invariant
            2 <= radix <= 16,
            start <= i <= chars@.len(),
            digits == unsigned_part(chars@),
            digits == chars@.skip(start as int),
            digits.len() > 0,
            all_digits(digits.take(i - start), radix as int),
            value as int == number_value(digits.take(i - start), radix as int),
            value <= max,
        decreases chars@.len() - i,
    {
        let ghost k = i - start;
        assert(digits[k] == chars@[i as int]);
        proof {
            assert(digits.take(k + 1) =~= digits.take(k).push(digits[k]));
            assert(digits.take(k + 1).drop_last() =~= digits.take(k));
        }
        match read_digit(chars[i], radix) {
            None => {
                assert(digit_value(digits[k], radix as int) is None);
                return None;
            },
            Some(d) => {
                assert(all_digits(digits.take(k + 1), radix as int)) by {
                    let now = digits.take(k + 1);
                    assert forall|j: int| 0 <= j < now.len() implies (#[trigger] digit_value(
                        now[j],
                        radix as int,
                    )) is Some by {
                        if j < k {
                            assert(now[j] == digits.take(k)[j]);
                        }
                    }
                }
                assert(value * radix <= u64::MAX * 16) by (nonlinear_arith)
                    requires
                        value <= u64::MAX,
                        radix <= 16,
                ;
                let wide: u128 = value as u128 * radix as u128 + d as u128;
                assert(wide as int == number_value(digits.take(k + 1), radix as int));
                if wide > max as u128 {
                    proof {
                        if all_digits(digits, radix as int) {
                            lemma_number_grows(digits, k + 1, radix as int);
                        }
                    }
                    return None;
                }
                value = wide as u64;
            },
        }
        i += 1;
    }
    assert(digits.take(digits.len() as int) =~= digits);
    Some(value)
}

// Lines and words.

/// White space, as Unicode has it.
pub open spec fn is_white(c: char) -> bool {
    let code = c as int;
    ||| 0x09 <= code <= 0x0D
    ||| code == 0x20
    ||| code == 0x85
    ||| code == 0xA0
    ||| code == 0x1680
    ||| 0x2000 <= code <= 0x200A
    ||| code == 0x2028
    ||| code == 0x2029
    ||| code == 0x202F
    ||| code == 0x205F
    ||| code == 0x3000
}

/// Whether a character is white space.
pub fn is_whitespace(c: char) -> (white: bool)
    ensures
        white == is_white(c),
{
    let code: u32 = c as u32;
    (0x09 <= code && code <= 0x0D) || code == 0x20 || code == 0x85 || code == 0xA0 || code == 0x1680
        || (0x2000 <= code && code <= 0x200A) || code == 0x2028 || code == 0x2029 || code == 0x202F
        || code == 0x205F || code == 0x3000
}

/// The words of a text: its longest runs without white space, in order.
pub open spec fn words(s: Seq<char>) -> Seq<Seq<char>>
    decreases s.len(),
{
    if s.len() == 0 {
        Seq::empty()
    } else {
        let before = words(s.drop_last());
        if is_white(s.last()) {
            before
        } else if s.len() > 1 && !is_white(s[s.len() - 2]) {
            before.drop_last().push(before.last().push(s.last()))
        } else {
            before.push(seq![s.last()])
        }
    }
}

/// The lines of a text: what stands before, between and after its line
/// feeds.
pub open spec fn lines(s: Seq<char>) -> Seq<Seq<char>>
    decreases s.len(),
{
    if s.len() == 0 {
        seq![Seq::empty()]
    } else {
        let before = lines(s.drop_last());
        if s.last() == '\n' {
            before.push(Seq::empty())
        } else {
            before.drop_last().push(before.last().push(s.last()))
        }
    }
}

/// The texts that a list of character lists holds.
pub open spec fn texts(list: Seq<Vec<char>>) -> Seq<Seq<char>> {
    Seq::new(list.len(), |i: int| list[i]@)
}

/// Takes a text apart into lines.
pub fn split_lines(text: &Vec<char>) -> (list: Vec<Vec<char>>)
    ensures
        texts(list@) == lines(text@),
{
    let mut done: Vec<Vec<char>> = Vec::new();
    let mut current: Vec<char> = Vec::new();
    let mut i: usize = 0;
    assert(texts(done@).push(current@) =~= lines(text@.take(0)));
    while i < text.len()
        invariant
            i <= text@.len(),
            texts(done@).push(current@) == lines(text@.take(i as int)),
        decreases text@.len() - i,
    {
        let c: char = text[i];
        proof {
            let now = text@.take(i as int + 1);
            assert(now.drop_last() =~= text@.take(i as int));
            assert(now.last() == c);
            assert(lines(text@.take(i as int)).drop_last() =~= texts(done@));
        }
        let ghost before = done@;
        if c == '\n' {
            done.push(current);
            current = Vec::new();
            assert(texts(done@) =~= texts(before).push(done@.last()@));
            assert(current@ =~= Seq::<char>::empty());
        } else {
            current.push(c);
        }
        i += 1;
    }
    assert(text@.take(text@.len() as int) =~= text@);
    let ghost before = done@;
    done.push(current);
    assert(texts(done@) =~= texts(before).push(done@.last()@));
    done
}

/// Takes a text apart into words.
pub fn split_words(text: &Vec<char>) -> (list: Vec<Vec<char>>)
    ensures
        texts(list@) == words(text@),
{
    let mut done: Vec<Vec<char>> = Vec::new();
    let mut current: Vec<char> = Vec::new();
    let mut i: usize = 0;
    assert(texts(done@) =~= words(text@.take(0)));
    while i < text.len()
        invariant
            i <= text@.len(),
            current@.len() > 0 <==> i > 0 && !is_white(text@[i - 1]),
            words(text@.take(i as int)) == if current@.len() > 0 {
                texts(done@).push(current@)
            } else {
                texts(done@)
            },
        decreases text@.len() - i,
    {
        let c: char = text[i];
        proof {
            let now = text@.take(i as int + 1);
            assert(now.drop_last() =~= text@.take(i as int));
            assert(now.last() == c);
            assert(i > 0 ==> now[now.len() - 2] == text@[i - 1]);
            if current@.len() > 0 {
                assert(words(text@.take(i as int)).drop_last() =~= texts(done@));
            }
        }
        if is_whitespace(c) {
            if current.len() > 0 {
                let ghost before = done@;
                done.push(current);
                current = Vec::new();
                assert(texts(done@) =~= texts(before).push(done@.last()@));
            }
        } else {
            let ghost word = current@;
            current.push(c);
            assert(word.len() == 0 ==> current@ =~= seq![c]);
        }
        i += 1;
    }
    assert(text@.take(text@.len() as int) =~= text@);
    if current.len() > 0 {
        let ghost before = done@;
        done.push(current);
        assert(texts(done@) =~= texts(before).push(done@.last()@));
    }
    done
}

/// No word is empty or holds white space.
pub proof fn lemma_words_solid(s: Seq<char>)
    ensures
        forall|i: int, k: int|
            #![trigger words(s)[i][k]]
            0 <= i < words(s).len() && 0 <= k < words(s)[i].len() ==> !is_white(words(s)[i][k]),
        forall|i: int| 0 <= i < words(s).len() ==> #[trigger] words(s)[i].len() > 0,
        s.len() > 0 && !is_white(s.last()) ==> words(s).len() > 0,
    decreases s.len(),
{
    if s.len() > 0 {
        let rest = s.drop_last();
        let (before, now) = (words(rest), words(s));
        lemma_words_solid(rest);
        assert(rest.len() > 0 ==> rest.last() == s[s.len() - 2]);
        assert forall|i: int| 0 <= i < now.len() implies #[trigger] now[i].len() > 0 by {
            if i < before.len() {
                assert(before[i].len() > 0);
            }
        }
        assert forall|i: int, k: int|
            #![trigger now[i][k]]
            0 <= i < now.len() && 0 <= k < now[i].len() implies !is_white(now[i][k]) by {
            if i < before.len() && k < before[i].len() {
                assert(!is_white(before[i][k]));
            }
        }
    }
}

/// A number written in decimal reads back as itself, and starts with no zero
/// but its only digit.
pub proof fn lemma_decimal(n: nat)
    ensures
        all_digits(decimal(n), 10),
        number_value(decimal(n), 10) == n,
        decimal(n).len() > 0,
        n > 0 ==> decimal(n)[0] != '0',
        decimal(n)[0] != '+',
    decreases n,
{
    let digits = decimal(n);
    if n < 10 {
        reveal_with_fuel(number_value, 2);
        assert(digits.drop_last() =~= Seq::<char>::empty());
    } else {
        let rest = decimal(n / 10);
        lemma_decimal(n / 10);
        assert(digits.drop_last() =~= rest);
        assert forall|i: int| 0 <= i < digits.len() implies (#[trigger] digit_value(
            digits[i],
            10,
        )) is Some by {
            if i < rest.len() {
                assert(digit_value(rest[i], 10) is Some);
            }
        }
    }
}

/// A number is spelled by its digits, with or without a plus sign, as long as
/// it is no larger than what is asked for; with no digits it is none.
pub proof fn lemma_spelled(n: nat, max: int)
    ensures
        n <= max ==> spelled_number(decimal(n), 10, max) == Some(n as int),
        n <= max ==> spelled_number(seq!['+'] + decimal(n), 10, max) == Some(n as int),
        n > max ==> spelled_number(decimal(n), 10, max) is None,
        spelled_number(Seq::empty(), 10, max) is None,
        spelled_number(seq!['+'], 10, max) is None,
        spelled_number(seq!['-'] + decimal(n), 10, max) is None,
{
    lemma_decimal(n);
    let signed = seq!['+'] + decimal(n);
    assert(signed.drop_first() =~= decimal(n));
    assert(seq!['+'].drop_first() =~= Seq::<char>::empty());
    let minus = seq!['-'] + decimal(n);
    assert(minus[0] == '-' && digit_value(minus[0], 10) is None);
    assert(unsigned_part(minus) == minus);
}

/// A number filled up with zeros is as wide as asked for, if its digits are no
/// more, and counts the same.
pub proof fn lemma_padded(n: nat, width: nat)
    ensures
        padded(n, width).len() == if decimal(n).len() < width {
            width
        } else {
            decimal(n).len()
        },
        number_value(padded(n, width), 10) == n,
        all_digits(padded(n, width), 10),
{
    lemma_decimal(n);
    if decimal(n).len() < width {
        let zeros = (width - decimal(n).len()) as nat;
        lemma_leading_zeros(zeros, decimal(n));
        let all = padded(n, width);
        assert forall|i: int| 0 <= i < all.len() implies (#[trigger] digit_value(all[i], 10)) is Some
            by {
            if i >= zeros {
                assert(digit_value(decimal(n)[i - zeros], 10) is Some);
            }
        }
    }
}

/// Zeros in front count for nothing.
proof fn lemma_leading_zeros(zeros: nat, digits: Seq<char>)
    ensures
        number_value(Seq::new(zeros, |i: int| '0') + digits, 10) == number_value(digits, 10),
    decreases zeros + digits.len(),
{
    let front = Seq::new(zeros, |i: int| '0');
    let all = front + digits;
    if digits.len() > 0 {
        assert(all.drop_last() =~= front + digits.drop_last());
        lemma_leading_zeros(zeros, digits.drop_last());
    } else if zeros > 0 {
        let less = (zeros - 1) as nat;
        assert(all.drop_last() =~= Seq::new(less, |i: int| '0') + digits);
        assert(all.last() == '0');
        lemma_leading_zeros(less, digits);
    } else {
        assert(all =~= digits);
    }
}

/// The sixteen hexadecimal digits, letters in either case, and that ten of
/// them are decimal.
pub proof fn lemma_digits(c: char)
    ensures
        digit_value('0', 16) == Some(0int) && digit_value('9', 16) == Some(9int),
        digit_value('a', 16) == Some(10int) && digit_value('A', 16) == Some(10int),
        digit_value('f', 16) == Some(15int) && digit_value('F', 16) == Some(15int),
        '0' <= c <= '9' ==> digit_value(c, 10) == Some(c as int - '0' as int) && digit_value(c, 16)
            == Some(c as int - '0' as int),
        'a' <= c <= 'f' ==> digit_value(c, 10) is None && digit_value(c, 16) == Some(
            c as int - 'a' as int + 10,
        ),
        'A' <= c <= 'F' ==> digit_value(c, 10) is None && digit_value(c, 16) == Some(
            c as int - 'A' as int + 10,
        ),
        !('0' <= c <= '9' || 'a' <= c <= 'f' || 'A' <= c <= 'F') ==> digit_value(c, 16) is None
            && digit_value(c, 10) is None,
{
}

/// Blank, tab, line feed, vertical tab, form feed and carriage return are
/// white; no other ASCII character is.
pub proof fn lemma_ascii_white(c: char)
    requires
        c as int <= 0x7F,
    ensures
        is_white(c) <==> c == ' ' || c == '\t' || c == '\n' || c == '\r' || c as int == 0x0B
            || c as int == 0x0C,
{
}

/// White space beyond ASCII: the next-line and no-break characters, the Ogham
/// and the ideographic space, the spaces of general punctuation and its two
/// separators; zero-width characters are not white.
pub proof fn lemma_wide_white(c: char)
    requires
        c as int > 0x7F,
    ensures
        0x2000 <= c as int <= 0x200A ==> is_white(c),
        c as int == 0x85 || c as int == 0xA0 || c as int == 0x1680 || c as int == 0x2028 || c as int
            == 0x2029 || c as int == 0x202F || c as int == 0x205F || c as int == 0x3000
            ==> is_white(c),
        is_white(c) ==> c as int == 0x85 || c as int == 0xA0 || c as int == 0x1680 || 0x2000
            <= c as int <= 0x205F || c as int == 0x3000,
        c as int == 0x200B || c as int == 0x200C || c as int == 0x200D || 0x2010 <= c as int
            <= 0x2027 || 0x202A <= c as int <= 0x202E || 0x2030 <= c as int <= 0x205E
            ==> !is_white(c),
{
}

/// White space takes a text apart: the words on both sides of it are the words
/// of the whole.
pub proof fn lemma_words_apart(a: Seq<char>, c: char, b: Seq<char>)
    requires
        is_white(c),
    ensures
        words(a.push(c) + b) =~= words(a) + words(b),
    decreases b.len(),
{
    let all = a.push(c) + b;
    if b.len() == 0 {
        assert(all =~= a.push(c));
        assert(all.drop_last() =~= a);
        assert(words(b) =~= Seq::<Seq<char>>::empty());
    } else {
        let rest = b.drop_last();
        assert(all.drop_last() =~= a.push(c) + rest);
        lemma_words_apart(a, c, rest);
        lemma_words_solid(rest);
        if b.len() > 1 {
            assert(all[all.len() - 2] == b[b.len() - 2]);
            assert(rest.last() == b[b.len() - 2]);
        } else {
            assert(all[all.len() - 2] == c);
        }
    }
}

/// A text without white space is one word.
pub proof fn lemma_one_word(s: Seq<char>)
    requires
        s.len() > 0,
        forall|i: int| 0 <= i < s.len() ==> !is_white(#[trigger] s[i]),
    ensures
        words(s) =~= seq![s],
    decreases s.len(),
{
    let rest = s.drop_last();
    assert(!is_white(s[s.len() - 1]));
    if s.len() == 1 {
        assert(rest =~= Seq::<char>::empty());
        assert(words(rest) =~= Seq::<Seq<char>>::empty());
        assert(seq![s.last()] =~= s);
    } else {
        assert(!is_white(s[s.len() - 2]));
        lemma_one_word(rest);
        assert(rest.push(s.last()) =~= s);
        assert(words(rest).drop_last() =~= Seq::<Seq<char>>::empty());
    }
}

/// A line feed takes a text apart: the lines before it and those behind it are
/// the lines of the whole.
pub proof fn lemma_lines_apart(a: Seq<char>, b: Seq<char>)
    ensures
        lines(a.push('\n') + b) =~= lines(a) + lines(b),
        lines(b).len() > 0,
    decreases b.len(),
{
    let all = a.push('\n') + b;
    if b.len() == 0 {
        assert(all =~= a.push('\n'));
        assert(all.drop_last() =~= a);
    } else {
        let rest = b.drop_last();
        assert(all.drop_last() =~= a.push('\n') + rest);
        lemma_lines_apart(a, rest);
        assert(all.last() == b.last());
    }
}

/// A text without a line feed is one line.
pub proof fn lemma_one_line(s: Seq<char>)
    requires
        forall|i: int| 0 <= i < s.len() ==> #[trigger] s[i] != '\n',
    ensures
        lines(s) =~= seq![s],
    decreases s.len(),
{
    if s.len() > 0 {
        let rest = s.drop_last();
        lemma_one_line(rest);
        assert(rest.push(s.last()) =~= s);
        assert(s.last() == s[s.len() - 1]);
    } else {
        assert(s =~= Seq::<char>::empty());
    }
}

} // verus!
