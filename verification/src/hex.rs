//! Bytes as hexadecimal text.
use vstd::prelude::*;
use vstd::string::StringSliceAdditionalSpecFns;

verus! {

/// The lower case hexadecimal digit of `n`.
pub open spec fn hex_digit(n: int) -> char {
    if n < 10 {
        (48 + n) as char
    } else {
        (87 + n) as char
    }
}

/// Two lower case digits for each byte.
pub open spec fn hex_text(bytes: Seq<u8>) -> Seq<char> {
    Seq::new(
        2 * bytes.len(),
        |i: int|
            hex_digit(
                if i % 2 == 0 {
                    bytes[i / 2] as int / 16
                } else {
                    bytes[i / 2] as int % 16
                },
            ),
    )
}

/// The value of a hexadecimal digit of either case.
pub open spec fn digit_value(byte: u8) -> Option<int> {
    if 48 <= byte <= 57 {
        Some(byte - 48)
    } else if 97 <= byte <= 102 {
        Some(byte - 87)
    } else if 65 <= byte <= 70 {
        Some(byte - 55)
    } else {
        None
    }
}

/// The bytes that hexadecimal digits stand for, two digits for each.
pub open spec fn unhex(raw: Seq<u8>) -> Option<Seq<u8>> {
    if raw.len() % 2 == 0 && (forall|i: int| 0 <= i < raw.len() ==> digit_value(#[trigger] raw[i]) is Some) {
        Some(
            Seq::new(
                raw.len() / 2,
                |i: int| (digit_value(raw[2 * i])->0 * 16 + digit_value(raw[2 * i + 1])->0) as u8,
            ),
        )
    } else {
        None
    }
}

fn nibble_char(n: u8) -> (c: char)
    requires
        n < 16,
    ensures
        c == hex_digit(n as int),
{
    if n < 10 {
        (48 + n) as char
    } else {
        (87 + n) as char
    }
}

/// Writes bytes as hexadecimal text.
pub fn hex_encode(bytes: &[u8]) -> (r: String)
    ensures
        r@ == hex_text(bytes@),
{
    let mut encoded = String::new();
    let mut i: usize = 0;
    assert(hex_text(bytes@.take(0)) =~= Seq::<char>::empty());
    while i < bytes.len()
        invariant
            i <= bytes.len(),
            encoded@ == hex_text(bytes@.take(i as int)),
        decreases bytes.len() - i,
    {
        let byte: u8 = bytes[i];
        encoded.push(nibble_char(byte / 16));
        encoded.push(nibble_char(byte % 16));
        assert(encoded@ =~= hex_text(bytes@.take(i + 1)));
        i += 1;
    }
    assert(bytes@.take(i as int) =~= bytes@);
    encoded
}

fn nibble(byte: u8) -> (r: Option<u8>)
    ensures
        digit_value(byte) == match r {
            None => None,
            Some(n) => Some(n as int),
        },
        r matches Some(n) ==> n < 16,
{
    if 48 <= byte && byte <= 57 {
        Some(byte - 48)
    } else if 97 <= byte && byte <= 102 {
        Some(byte - 87)
    } else if 65 <= byte && byte <= 70 {
        Some(byte - 55)
    } else {
        None
    }
}

/// Reads bytes from hexadecimal text of either case.
pub fn hex_decode(raw: &str) -> (r: Option<Vec<u8>>)
    ensures
        unhex(raw.spec_bytes()) == match r {
            None => None,
            Some(bytes) => Some(bytes@),
        },
{
    let units = raw.as_bytes();
    if units.len() % 2 != 0 {
        return None;
    }
    let mut bytes: Vec<u8> = Vec::new();
    let mut i: usize = 0;
    while i < units.len()
        invariant
            i <= units.len(),
            i % 2 == 0,
            units@ == raw.spec_bytes(),
            units@.len() % 2 == 0,
            bytes@.len() == i / 2,
            forall|j: int| 0 <= j < i ==> digit_value(#[trigger] units@[j]) is Some,
            forall|j: int|
                0 <= j < bytes@.len() ==> #[trigger] bytes@[j] == (digit_value(units@[2 * j])->0 * 16
                    + digit_value(units@[2 * j + 1])->0) as u8,
        decreases units.len() - i,
    {
        let hi = match nibble(units[i]) {
            None => {
                return None;
            },
            Some(n) => n,
        };
        let lo = match nibble(units[i + 1]) {
            None => {
                return None;
            },
            Some(n) => n,
        };
        bytes.push(hi * 16 + lo);
        i += 2;
    }
    assert(bytes@ =~= unhex(units@)->0);
    Some(bytes)
}

/// Reading hexadecimal text gives back the bytes that were written.
pub proof fn reading_gives_back_what_was_written(bytes: Seq<u8>)
    ensures
        unhex(vstd::utf8::encode_utf8(hex_text(bytes))) == Some(bytes),
{
    let text = hex_text(bytes);
    assert(vstd::utf8::is_ascii_chars(text)) by {
        assert forall|i: int| 0 <= i < text.len() implies '\0' <= #[trigger] text[i] <= '\u{7f}' by {}
    }
    vstd::utf8::is_ascii_chars_encode_utf8(text);
    let raw = vstd::utf8::encode_utf8(text);
    assert(raw =~= Seq::new(text.len(), |i: int| text[i] as u8));
    assert forall|i: int| 0 <= i < raw.len() implies digit_value(#[trigger] raw[i]) is Some by {
        assert(raw[i] == text[i] as u8);
    }
    assert(unhex(raw)->0 =~= bytes) by {
        assert forall|i: int| 0 <= i < bytes.len() implies #[trigger] unhex(raw)->0[i] == bytes[i] by {
            assert(raw[2 * i] == text[2 * i] as u8);
            assert(raw[2 * i + 1] == text[2 * i + 1] as u8);
            assert((2 * i) / 2 == i && (2 * i) % 2 == 0);
            assert((2 * i + 1) / 2 == i && (2 * i + 1) % 2 == 1);
        }
    }
}

/// The byte of the small letter of a capital of ASCII, and any other byte itself.
pub open spec fn lower_byte(byte: u8) -> u8 {
    if 65 <= byte <= 90 {
        (byte + 32) as u8
    } else {
        byte
    }
}

/// The bytes with the capitals of ASCII in lower case.
pub open spec fn lower_bytes(raw: Seq<u8>) -> Seq<u8> {
    raw.map_values(|byte: u8| lower_byte(byte))
}

/// The case of the digits makes no difference.
proof fn lemma_case_is_ignored(raw: Seq<u8>)
    ensures
        unhex(lower_bytes(raw)) == unhex(raw),
{
    let lowered = lower_bytes(raw);
    assert forall|i: int| 0 <= i < raw.len() implies digit_value(#[trigger] raw[i]) == digit_value(
        lowered[i],
    ) by {}
    if forall|i: int| 0 <= i < raw.len() ==> digit_value(#[trigger] raw[i]) is Some {
        assert forall|i: int| 0 <= i < lowered.len() implies digit_value(#[trigger] lowered[i]) is Some by {
            assert(digit_value(raw[i]) == digit_value(lowered[i]));
        }
        if raw.len() % 2 == 0 {
            assert(unhex(lowered)->0 =~= unhex(raw)->0) by {
                assert forall|i: int| 0 <= i < raw.len() / 2 implies #[trigger] unhex(lowered)->0[i]
                    == unhex(raw)->0[i] by {
                    assert(digit_value(raw[2 * i]) == digit_value(lowered[2 * i]));
                    assert(digit_value(raw[2 * i + 1]) == digit_value(lowered[2 * i + 1]));
                }
            }
        }
    } else {
        let i = choose|i: int| 0 <= i < raw.len() && !(digit_value(#[trigger] raw[i]) is Some);
        assert(!(digit_value(lowered[i]) is Some));
    }
}

/// Text is read as bytes exactly where it is what they are written as, in either case of the letters.
pub proof fn only_written_text_is_read(raw: Seq<u8>, bytes: Seq<u8>)
    ensures
        unhex(raw) == Some(bytes) <==> lower_bytes(raw) == vstd::utf8::encode_utf8(hex_text(bytes)),
{
    lemma_case_is_ignored(raw);
    reading_gives_back_what_was_written(bytes);
    if unhex(raw) == Some(bytes) {
        let lowered = lower_bytes(raw);
        let text = hex_text(bytes);
        assert(vstd::utf8::is_ascii_chars(text)) by {
            assert forall|i: int| 0 <= i < text.len() implies '\0' <= #[trigger] text[i] <= '\u{7f}' by {}
        }
        vstd::utf8::is_ascii_chars_encode_utf8(text);
        let written = vstd::utf8::encode_utf8(text);
        assert(written =~= Seq::new(text.len(), |i: int| text[i] as u8));
        assert(lowered.len() == written.len());
        assert forall|i: int| 0 <= i < lowered.len() implies #[trigger] lowered[i] == written[i] by {
            let at = i / 2;
            assert(digit_value(raw[2 * at]) is Some);
            assert(digit_value(raw[2 * at + 1]) is Some);
            assert(bytes[at] == unhex(raw)->0[at]);
            let (high, low) = (digit_value(raw[2 * at])->0, digit_value(raw[2 * at + 1])->0);
            assert(bytes[at] == high * 16 + low);
            assert(bytes[at] as int / 16 == high && bytes[at] as int % 16 == low);
            assert(written[i] == text[i] as u8);
            assert(lowered[i] == lower_byte(raw[i]));
            if i % 2 == 0 {
                assert(2 * at == i);
            } else {
                assert(2 * at + 1 == i);
            }
        }
        assert(lowered =~= written);
    }
}

} // verus!
