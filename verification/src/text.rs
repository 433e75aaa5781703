//! Text helpers shared by the rest of the library.
use vstd::prelude::*;

verus! {

/// `String::push` of std appends one character.
pub assume_specification[ String::push ](s: &mut String, c: char)
    ensures
        final(s)@ == old(s)@.push(c),
;

/// The characters of `s`, in order.
pub fn chars_of(s: &str) -> (chars: Vec<char>)
    ensures
        chars@ == s@,
{
    let mut chars: Vec<char> = Vec::new();
    for c in iter: s.chars()
        invariant
            chars@ == s@.take(iter.index()),
            iter.seq() == s@,
    {
        proof {
            assert(s@.take(iter.index() + 1) == s@.take(iter.index()).push(c));
        }
        chars.push(c);
    }
    proof {
        assert(s@.take(s@.len() as int) == s@);
    }
    chars
}

/// The text made of `chars`.
pub fn text_of(chars: &Vec<char>) -> (s: String)
    ensures
        s@ == chars@,
{
    let mut s = String::new();
    let mut i: usize = 0;
    while i < chars.len()
        invariant
            i <= chars.len(),
            s@ == chars@.take(i as int),
        decreases chars.len() - i,
    {
        proof {
            assert(chars@.take(i + 1) == chars@.take(i as int).push(chars@[i as int]));
        }
        s.push(chars[i]);
        i += 1;
    }
    proof {
        assert(chars@.take(chars@.len() as int) == chars@);
    }
    s
}

/// Whether two texts hold the same characters.
pub fn same_text(a: &str, b: &str) -> (same: bool)
    ensures
        same == (a@ == b@),
{
    a.to_owned() == b.to_owned()
}

/// Whether `list` holds a text with the characters of `needle`.
pub fn holds_text(list: &Vec<String>, needle: &String) -> (held: bool)
    ensures
        held == holds(list@, needle@),
{
    let mut i: usize = 0;
    while i < list.len()
        invariant
            i <= list.len(),
            forall|j: int| 0 <= j < i ==> (#[trigger] list@[j])@ != needle@,
        decreases list.len() - i,
    {
        if list[i] == *needle {
            return true;
        }
        i += 1;
    }
    false
}

/// Some text of `list` has the characters `needle`.
pub open spec fn holds(list: Seq<String>, needle: Seq<char>) -> bool {
    exists|j: int| 0 <= j < list.len() && (#[trigger] list[j])@ == needle
}

/// The decimal digit of `d`.
pub open spec fn digit(d: nat) -> char {
    (('0' as nat) + d) as char
}

/// The decimal notation of `n`, without leading zeros.
pub open spec fn decimal(n: nat) -> Seq<char>
    decreases n,
{
    if n < 10 {
        seq![digit(n)]
    } else {
        decimal(n / 10).push(digit(n % 10))
    }
}

/// The decimal notation of `n`, with a leading `-` where it is negative.
pub open spec fn signed_decimal(n: int) -> Seq<char> {
    if n < 0 {
        seq!['-'] + decimal((-n) as nat)
    } else {
        decimal(n as nat)
    }
}

/// The character of one decimal digit.
fn digit_char(d: u64) -> (c: char)
    requires
        d < 10,
    ensures
        c == digit(d as nat),
{
    let code: u8 = 48 + d as u8;
    code as char
}

/// Appends the decimal notation of `n` to `out`.
pub fn push_decimal(out: &mut String, n: u64)
    ensures
        final(out)@ == old(out)@ + decimal(n as nat),
    decreases n,
{
    if n < 10 {
        out.push(digit_char(n));
        assert(out@ == old(out)@ + decimal(n as nat));
    } else {
        push_decimal(out, n / 10);
        out.push(digit_char(n % 10));
        assert(out@ == old(out)@ + decimal(n as nat));
    }
}

/// Appends the decimal notation of `n` to `out`.
pub fn push_signed_decimal(out: &mut String, n: i64)
    ensures
        final(out)@ == old(out)@ + signed_decimal(n as int),
{
    if n < 0 {
        out.push('-');
        if n == i64::MIN {
            push_decimal(out, 9223372036854775808);
        } else {
            push_decimal(out, (0 - n) as u64);
        }
        assert(out@ == old(out)@ + signed_decimal(n as int));
    } else {
        push_decimal(out, n as u64);
    }
}

/// Whether `s` begins with `prefix`.
pub fn starts_with(s: &str, prefix: &str) -> (r: bool)
    ensures
        r == prefix@.is_prefix_of(s@),
{
    let head = chars_of(prefix);
    let chars = chars_of(s);
    if chars.len() < head.len() {
        return false;
    }
    let mut i: usize = 0;
    while i < head.len()
        invariant
            i <= head.len(),
            head.len() <= chars.len(),
            head@ == prefix@,
            chars@ == s@,
            forall|j: int| 0 <= j < i ==> #[trigger] head@[j] == chars@[j],
        decreases head.len() - i,
    {
        if head[i] != chars[i] {
            proof {
                if prefix@.is_prefix_of(s@) {
                    assert(prefix@ == s@.subrange(0, prefix@.len() as int));
                    assert(head@[i as int] == chars@[i as int]);
                }
            }
            return false;
        }
        i += 1;
    }
    assert(prefix@ =~= s@.subrange(0, prefix@.len() as int));
    true
}

/// The number that decimal digits stand for.
pub open spec fn number(digits: Seq<char>) -> int
    decreases digits.len(),
{
    if digits.len() == 0 {
        0
    } else {
        10 * number(digits.drop_last()) + (digits.last() as u32 - 0x30)
    }
}

/// The character is a decimal digit.
pub open spec fn is_digit(c: char) -> bool {
    0x30 <= c as u32 <= 0x39
}

/// The digits of a number that may be written with a leading `+`.
pub open spec fn unsigned_digits(s: Seq<char>) -> Seq<char> {
    if s.len() > 0 && s[0] == '+' {
        s.skip(1)
    } else {
        s
    }
}

/// The number that a text stands for: decimal digits, of which there is at least one, behind an
/// optional `+`. There is none where it is not below two to the power of sixty-four.
pub open spec fn unsigned(s: Seq<char>) -> Option<u64> {
    let digits = unsigned_digits(s);
    if digits.len() > 0 && (forall|i: int| 0 <= i < digits.len() ==> is_digit(#[trigger] digits[i]))
        && number(digits) <= u64::MAX {
        Some(number(digits) as u64)
    } else {
        None
    }
}

proof fn lemma_number_grows(digits: Seq<char>, n: int)
    requires
        0 <= n <= digits.len(),
        forall|i: int| 0 <= i < digits.len() ==> is_digit(#[trigger] digits[i]),
    ensures
        0 <= number(digits.take(n)) <= number(digits),
    decreases digits.len(),
{
    if n == digits.len() {
        assert(digits.take(n) =~= digits);
        if digits.len() > 0 {
            lemma_number_grows(digits.drop_last(), digits.len() - 1);
            assert(digits.drop_last().take(digits.len() - 1) =~= digits.drop_last());
            assert(is_digit(digits.last()));
        }
    } else {
        lemma_number_grows(digits.drop_last(), n);
        assert(digits.drop_last().take(n) =~= digits.take(n));
        assert(is_digit(digits.last()));
    }
}

/// The number that a text stands for.
pub fn parse_unsigned(s: &str) -> (r: Option<u64>)
    ensures
        r == unsigned(s@),
{
    let chars = chars_of(s);
    let from: usize = if chars.len() > 0 && chars[0] == '+' {
        1
    } else {
        0
    };
    let ghost digits = unsigned_digits(s@);
    proof {
        assert(digits =~= chars@.skip(from as int));
    }
    if from == chars.len() {
        return None;
    }
    let mut value: u64 = 0;
    let mut i: usize = from;
    while i < chars.len()
        invariant
            from <= i <= chars.len(),
            from < chars.len(),
            chars@ == s@,
            digits == unsigned_digits(s@),
            digits == chars@.skip(from as int),
            forall|j: int| 0 <= j < i - from ==> is_digit(#[trigger] digits[j]),
            value == number(digits.take(i - from)),
        decreases chars.len() - i,
    {
        let code: u32 = chars[i] as u32;
        assert(digits[i - from] == chars@[i as int]);
        if code < 0x30 || code > 0x39 {
            return None;
        }
        let ghost so_far = digits.take(i - from);
        let ghost longer = digits.take(i - from + 1);
        proof {
            assert(longer.drop_last() =~= so_far);
            assert(longer.last() == chars@[i as int]);
        }
        let d: u64 = (code - 0x30) as u64;
        let next: u128 = value as u128 * 10 + d as u128;
        assert(next == number(longer));
        if next > u64::MAX as u128 {
            proof {
                if forall|j: int| 0 <= j < digits.len() ==> is_digit(#[trigger] digits[j]) {
                    lemma_number_grows(digits, i - from + 1);
                }
            }
            return None;
        }
        value = next as u64;
        i += 1;
    }
    assert(digits.take(i - from) =~= digits);
    Some(value)
}

/// The number that a text stands for: decimal digits, of which there is at least one, behind an
/// optional sign. There is none where it does not fit sixty-four bits.
pub open spec fn signed(s: Seq<char>) -> Option<i64> {
    if s.len() > 0 && s[0] == '-' {
        let digits = s.skip(1);
        if digits.len() > 0 && digits[0] != '+' && (forall|i: int|
            0 <= i < digits.len() ==> is_digit(#[trigger] digits[i])) && number(digits) <= i64::MAX + 1 {
            Some((-number(digits)) as i64)
        } else {
            None
        }
    } else {
        match unsigned(s) {
            None => None,
            Some(n) => if n <= i64::MAX {
                Some(n as i64)
            } else {
                None
            },
        }
    }
}

/// The number that a text stands for.
pub fn parse_signed(s: &str) -> (r: Option<i64>)
    ensures
        r == signed(s@),
{
    let chars = chars_of(s);
    if chars.len() > 0 && chars[0] == '-' {
        if chars.len() > 1 && chars[1] == '+' {
            return None;
        }
        let tail = crate::paths::piece(&chars, 1, chars.len());
        assert(tail@ =~= s@.skip(1));
        proof {
            if tail@.len() > 0 {
                assert(tail@[0] == chars@[1]);
            }
            assert(unsigned_digits(tail@) == tail@);
            if forall|i: int| 0 <= i < tail@.len() ==> is_digit(#[trigger] tail@[i]) {
                lemma_number_grows(tail@, 0);
            }
        }
        let digits = text_of(&tail);
        match parse_unsigned(digits.as_str()) {
            None => None,
            Some(n) => {
                if n == 0x8000_0000_0000_0000 {
                    Some(i64::MIN)
                } else if n < 0x8000_0000_0000_0000 {
                    Some(0 - (n as i64))
                } else {
                    None
                }
            },
        }
    } else {
        match parse_unsigned(s) {
            None => None,
            Some(n) => {
                if n <= 0x7fff_ffff_ffff_ffff {
                    Some(n as i64)
                } else {
                    None
                }
            },
        }
    }
}

} // verus!
