//! Text as sequences of characters: decimal numerals, blanks and lines.

use vstd::prelude::*;

verus! {

/// `String::push` appends one character.
pub assume_specification[ String::push ](s: &mut String, c: char)
    ensures
        final(s)@ == old(s)@.push(c),
;

/// The characters of `s`.
pub fn chars_of(s: &str) -> (chars: Vec<char>)
    ensures
        chars@ == s@,
{
    let mut chars: Vec<char> = Vec::new();
    for c in it: s.chars()
        invariant
            chars@ == it.seq().take(it.index() as int),
            it.seq() == s@,
    {
        chars.push(c);
    }
    chars
}

/// The text that holds `chars[from..to]`.
pub fn string_of(chars: &Vec<char>, from: usize, to: usize) -> (s: String)
    requires
        from <= to <= chars.len(),
    ensures
        s@ == chars@.subrange(from as int, to as int),
{
    let mut s = String::new();
    let mut i: usize = from;
    while i < to
        invariant
            from <= i <= to <= chars.len(),
            s@ == chars@.subrange(from as int, i as int),
        decreases to - i,
    {
        s.push(chars[i]);
        assert(chars@.subrange(from as int, i + 1) == chars@.subrange(from as int, i as int).push(
            chars@[i as int],
        ));
        i += 1;
    }
    s
}

/// The texts of `strings`, in order.
pub open spec fn texts(strings: Seq<String>) -> Seq<Seq<char>> {
    strings.map_values(|s: String| s@)
}

/// Whether `c` is one of the ten decimal digits.
pub open spec fn is_digit(c: char) -> bool {
    '0' <= c <= '9'
}

/// The number that the decimal digit `c` stands for.
pub open spec fn digit_value(c: char) -> nat {
    (c as int - '0' as int) as nat
}

/// The decimal digit that stands for `d`, a number below ten.
pub open spec fn digit_char(d: nat) -> char {
    (d + '0' as int) as char
}

/// The number that the decimal digits `digits` write.
pub open spec fn digits_value(digits: Seq<char>) -> nat
    decreases digits.len(),
{
    if digits.len() == 0 {
        0
    } else {
        digits_value(digits.drop_last()) * 10 + digit_value(digits.last())
    }
}

/// Whether `text` holds decimal digits only.
pub open spec fn all_digits(text: Seq<char>) -> bool {
    forall|i: int| 0 <= i < text.len() ==> is_digit(#[trigger] text[i])
}

/// The unsigned number that `text` writes, if it writes one that is at most
/// `max`: one or more decimal digits, which a plus sign may precede.
pub open spec fn unsigned_number(text: Seq<char>, max: nat) -> Option<nat> {
    let digits = if text.len() > 0 && text[0] == '+' {
        text.skip(1)
    } else {
        text
    };
    if digits.len() > 0 && all_digits(digits) && digits_value(digits) <= max {
        Some(digits_value(digits))
    } else {
        None
    }
}

/// The decimal numeral of `n`, without leading zeros.
pub open spec fn decimal(n: nat) -> Seq<char>
    decreases n,
{
    if n < 10 {
        seq![digit_char(n)]
    } else {
        decimal(n / 10).push(digit_char(n % 10))
    }
}

/// A longer numeral writes no smaller number.
pub proof fn lemma_digits_value_grows(digits: Seq<char>, upto: int)
    requires
        0 <= upto <= digits.len(),
    ensures
        digits_value(digits.take(upto)) <= digits_value(digits),
    decreases digits.len() - upto,
{
    if upto < digits.len() {
        lemma_digits_value_grows(digits, upto + 1);
        assert(digits.take(upto + 1).drop_last() == digits.take(upto));
    } else {
        assert(digits.take(upto) == digits);
    }
}

/// The decimal digit for `d`.
fn digit_of(d: u8) -> (c: char)
    requires
        d < 10,
    ensures
        c == digit_char(d as nat),
{
    (d + 48u8) as char
}

/// Reads `chars[from..to]` as an unsigned number that is at most `max`.
pub fn parse_unsigned(chars: &Vec<char>, from: usize, to: usize, max: u64) -> (number: Option<u64>)
    requires
        from <= to <= chars.len(),
    ensures
        match number {
            Some(n) => unsigned_number(chars@.subrange(from as int, to as int), max as nat)
                == Some(n as nat),
            None => unsigned_number(chars@.subrange(from as int, to as int), max as nat) is None,
        },
{
    let ghost text = chars@.subrange(from as int, to as int);
    let start = if from < to && chars[from] == '+' {
        from + 1
    } else {
        from
    };
    let ghost digits = chars@.subrange(start as int, to as int);
    proof {
        if start == from + 1 {
            assert(text[0] == '+');
            assert(text.skip(1) == digits);
        } else {
            assert(text == digits);
            if text.len() > 0 {
                assert(text[0] == chars@[from as int]);
            }
        }
    }
    if start == to {
        return None;
    }
    let mut value: u64 = 0;
    let mut at: usize = start;
    assert(digits.take(0).len() == 0);
    while at < to
        invariant
            start <= at <= to <= chars.len(),
            digits == chars@.subrange(start as int, to as int),
            text == chars@.subrange(from as int, to as int),
            digits == if text.len() > 0 && text[0] == '+' {
                text.skip(1)
            } else {
                text
            },
            all_digits(digits.take(at - start)),
            value == digits_value(digits.take(at - start)),
            value <= max,
        decreases to - at,
    {
        let c = chars[at];
        proof {
            assert(digits.take(at - start + 1).drop_last() == digits.take(at - start));
            assert(digits.take(at - start + 1).last() == c);
            assert(digits[at - start] == c);
        }
        if !(c >= '0' && c <= '9') {
            return None;
        }
        let d: u64 = (c as u32 - '0' as u32) as u64;
        assert(d == digit_value(c));
        let next = match value.checked_mul(10) {
            Some(tens) => tens.checked_add(d),
            None => None,
        };
        match next {
            Some(n) if n <= max => {
                value = n;
                assert forall|i: int| 0 <= i < at - start + 1 implies is_digit(
                    #[trigger] digits.take(at - start + 1)[i],
                ) by {
                    if i < at - start {
                        assert(digits.take(at - start)[i] == digits[i]);
                    }
                }
            },
            _ => {
                proof {
                    lemma_digits_value_grows(digits, at - start + 1);
                }
                return None;
            },
        }
        at += 1;
    }
    proof {
        assert(digits.take(at - start) == digits);
    }
    Some(value)
}

/// Appends the decimal numeral of `n` to `s`.
pub fn push_decimal(s: &mut String, n: u64)
    ensures
        final(s)@ == old(s)@ + decimal(n as nat),
    decreases n,
{
    if n >= 10 {
        push_decimal(s, n / 10);
    }
    s.push(digit_of((n % 10) as u8));
    proof {
        if n >= 10 {
            assert(old(s)@ + decimal(n as nat) == (old(s)@ + decimal((n / 10) as nat)).push(
                digit_char((n % 10) as nat),
            ));
        } else {
            assert(old(s)@ + decimal(n as nat) == old(s)@.push(digit_char(n as nat)));
        }
    }
}

/// The number of digits of the decimal numeral of `n`.
pub fn decimal_len(n: u64) -> (len: usize)
    ensures
        len == decimal(n as nat).len(),
        1 <= len <= 20,
{
    let mut len: usize = 1;
    let mut rest: u64 = n;
    proof {
        lemma_decimal_len_bound(n as nat);
    }
    while rest >= 10
        invariant
            1 <= len,
            len + decimal(rest as nat).len() == decimal(n as nat).len() + 1,
            decimal(n as nat).len() <= 20,
        decreases rest,
    {
        rest = rest / 10;
        len += 1;
    }
    len
}

/// A number below a power of ten has at most as many digits as the power has zeros.
proof fn lemma_decimal_len_bound(n: nat)
    requires
        n <= u64::MAX,
    ensures
        decimal(n).len() <= 20,
{
    reveal_with_fuel(decimal, 21);
}

/// `width - len` zeros followed by the decimal numeral of `n`, where the
/// numeral has `len` digits and `len` is less than `width`; else the numeral alone.
pub open spec fn padded(n: nat, width: nat) -> Seq<char> {
    if decimal(n).len() < width {
        Seq::new((width - decimal(n).len()) as nat, |i: int| '0') + decimal(n)
    } else {
        decimal(n)
    }
}

/// Appends the decimal numeral of `n` to `s`, with zeros in front up to `width` digits.
pub fn push_padded(s: &mut String, n: u64, width: usize)
    ensures
        final(s)@ == old(s)@ + padded(n as nat, width as nat),
{
    let len = decimal_len(n);
    let mut zeros: usize = 0;
    let ghost missing: nat = if len < width {
        (width - len) as nat
    } else {
        0
    };
    while zeros + len < width
        invariant
            zeros <= missing,
            len == decimal(n as nat).len(),
            missing == if len < width {
                (width - len) as nat
            } else {
                0
            },
            s@ == old(s)@ + Seq::new(zeros as nat, |i: int| '0'),
        decreases width - zeros - len,
    {
        s.push('0');
        assert(Seq::new(zeros as nat, |i: int| '0').push('0') == Seq::new(
            (zeros + 1) as nat,
            |i: int| '0',
        ));
        zeros += 1;
    }
    let ghost front = s@;
    push_decimal(s, n);
    proof {
        if len < width {
            assert(zeros == missing);
            assert(front + decimal(n as nat) == old(s)@ + (Seq::new(missing, |i: int| '0')
                + decimal(n as nat)));
        } else {
            assert(Seq::new(0nat, |i: int| '0') == Seq::<char>::empty());
            assert(front == old(s)@);
        }
    }
}

/// Whether `c` is white space: a character with the Unicode property `White_Space`.
pub open spec fn is_blank(c: char) -> bool {
    ||| 0x09 <= c as u32 <= 0x0d
    ||| c as u32 == 0x20
    ||| c as u32 == 0x85
    ||| c as u32 == 0xa0
    ||| c as u32 == 0x1680
    ||| 0x2000 <= c as u32 <= 0x200a
    ||| c as u32 == 0x2028
    ||| c as u32 == 0x2029
    ||| c as u32 == 0x202f
    ||| c as u32 == 0x205f
    ||| c as u32 == 0x3000
}

/// Whether `c` is white space.
pub fn blank(c: char) -> (result: bool)
    ensures
        result == is_blank(c),
{
    let code: u32 = c as u32;
    (0x09 <= code && code <= 0x0d) || code == 0x20 || code == 0x85 || code == 0xa0 || code
        == 0x1680 || (0x2000 <= code && code <= 0x200a) || code == 0x2028 || code == 0x2029
        || code == 0x202f || code == 0x205f || code == 0x3000
}

/// The number of white-space characters that `text` begins with.
pub open spec fn leading_blanks(text: Seq<char>) -> int
    decreases text.len(),
{
    if text.len() > 0 && is_blank(text[0]) {
        1 + leading_blanks(text.drop_first())
    } else {
        0
    }
}

/// The number of white-space characters that `text` ends with.
pub open spec fn trailing_blanks(text: Seq<char>) -> int
    decreases text.len(),
{
    if text.len() > 0 && is_blank(text.last()) {
        1 + trailing_blanks(text.drop_last())
    } else {
        0
    }
}

/// The text without the white space that it begins and ends with.
pub open spec fn trimmed(text: Seq<char>) -> Seq<char> {
    if leading_blanks(text) >= text.len() {
        Seq::empty()
    } else {
        text.subrange(leading_blanks(text), text.len() - trailing_blanks(text))
    }
}

/// Finds the bounds of `chars[from..to]` without the white space around it.
pub fn trim_range(chars: &Vec<char>, from: usize, to: usize) -> (bounds: (usize, usize))
    requires
        from <= to <= chars.len(),
    ensures
        from <= bounds.0 <= bounds.1 <= to,
        chars@.subrange(bounds.0 as int, bounds.1 as int) == trimmed(
            chars@.subrange(from as int, to as int),
        ),
{
    let ghost text = chars@.subrange(from as int, to as int);
    let mut start = from;
    assert(text.skip(0) == text);
    while start < to && blank(chars[start])
        invariant
            from <= start <= to <= chars.len(),
            text == chars@.subrange(from as int, to as int),
            leading_blanks(text) == (start - from) + leading_blanks(text.skip(start - from)),
        decreases to - start,
    {
        proof {
            let rest = text.skip(start - from);
            assert(rest[0] == chars@[start as int]);
            assert(rest.drop_first() == text.skip(start - from + 1));
        }
        start += 1;
    }
    proof {
        let rest = text.skip(start - from);
        if start < to {
            assert(rest[0] == chars@[start as int]);
        }
        assert(leading_blanks(text) == start - from);
    }
    if start == to {
        assert(chars@.subrange(start as int, start as int) == Seq::<char>::empty());
        return (start, start);
    }
    let mut end = to;
    assert(text.take(to - from) == text);
    while end > start + 1 && blank(chars[end - 1])
        invariant
            from <= start < end <= to <= chars.len(),
            text == chars@.subrange(from as int, to as int),
            !is_blank(chars@[start as int]),
            trailing_blanks(text) == (to - end) + trailing_blanks(text.take(end - from)),
        decreases end,
    {
        proof {
            let front = text.take(end - from);
            assert(front.last() == chars@[end - 1]);
            assert(front.drop_last() == text.take(end - from - 1));
        }
        end -= 1;
    }
    proof {
        let front = text.take(end - from);
        assert(front.last() == chars@[end - 1]);
        assert(trailing_blanks(text) == to - end);
        assert(chars@.subrange(start as int, end as int) == text.subrange(
            start - from,
            text.len() - (to - end),
        ));
    }
    (start, end)
}

/// The position of the first `mark` in `text`, or the length of `text` if there is none.
pub open spec fn first_index_of(text: Seq<char>, mark: char) -> int
    decreases text.len(),
{
    if text.len() == 0 || text[0] == mark {
        0
    } else {
        1 + first_index_of(text.drop_first(), mark)
    }
}

/// `first_index_of` lies within the text, and no earlier character is the mark.
pub proof fn lemma_first_index_of(text: Seq<char>, mark: char)
    ensures
        0 <= first_index_of(text, mark) <= text.len(),
        first_index_of(text, mark) < text.len() ==> text[first_index_of(text, mark)] == mark,
        forall|i: int| 0 <= i < first_index_of(text, mark) ==> text[i] != mark,
    decreases text.len(),
{
    if !(text.len() == 0 || text[0] == mark) {
        let tail = text.drop_first();
        lemma_first_index_of(tail, mark);
        assert forall|i: int| 0 <= i < first_index_of(text, mark) implies text[i] != mark by {
            if i > 0 {
                assert(text[i] == tail[i - 1]);
            }
        }
    }
}

/// Finds the first `mark` in `chars[from..to]`; gives `to` where there is none.
pub fn find_char(chars: &Vec<char>, from: usize, to: usize, mark: char) -> (at: usize)
    requires
        from <= to <= chars.len(),
    ensures
        from <= at <= to,
        at - from == first_index_of(chars@.subrange(from as int, to as int), mark),
{
    let ghost text = chars@.subrange(from as int, to as int);
    let mut at = from;
    assert(text.skip(0) == text);
    while at < to && chars[at] != mark
        invariant
            from <= at <= to <= chars.len(),
            text == chars@.subrange(from as int, to as int),
            first_index_of(text, mark) == (at - from) + first_index_of(text.skip(at - from), mark),
        decreases to - at,
    {
        proof {
            let rest = text.skip(at - from);
            assert(rest[0] == chars@[at as int]);
            assert(rest.drop_first() == text.skip(at - from + 1));
        }
        at += 1;
    }
    proof {
        let rest = text.skip(at - from);
        if at < to {
            assert(rest[0] == chars@[at as int]);
        }
    }
    at
}

} // verus!
