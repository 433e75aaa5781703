//! Numbers and names in texts.
use crate::config;
use crate::paths;
use crate::remote_pick;
use crate::text;
use vstd::prelude::*;

verus! {

/// A digit is written by the character that is so far from zero.
pub proof fn digits_follow_zero(d: nat)
    requires
        d < 10,
    ensures
        text::digit(d) as u32 == 0x30 + d,
        text::is_digit(text::digit(d)),
{
}

/// Only the characters from zero to nine are digits.
pub proof fn digits_are_zero_to_nine(c: char)
    ensures
        text::is_digit(c) <==> '0' <= c <= '9',
{
}

/// A number is written in digits, at least one and no zero in front, and those digits stand for it.
pub proof fn digits_stand_for_their_number(n: nat)
    ensures
        text::decimal(n).len() > 0,
        forall|i: int| 0 <= i < text::decimal(n).len() ==> text::is_digit(#[trigger] text::decimal(n)[i]),
        text::number(text::decimal(n)) == n,
        n > 0 ==> text::decimal(n)[0] != '0',
        n == 0 ==> text::decimal(n) == seq!['0'],
    decreases n,
{
    let all = text::decimal(n);
    if n < 10 {
        digits_follow_zero(n);
        assert(all.drop_last() =~= Seq::<char>::empty());
        assert(text::number(all.drop_last()) == 0);
    } else {
        let front = text::decimal(n / 10);
        digits_stand_for_their_number(n / 10);
        digits_follow_zero(n % 10);
        assert(all == front.push(text::digit(n % 10)));
        assert(all.drop_last() =~= front);
        assert(all[0] == front[0]);
    }
}

/// A number that was written is read back, with or without a sign.
pub proof fn numbers_are_read_back(n: u64, m: i64)
    ensures
        text::unsigned(text::decimal(n as nat)) == Some(n),
        text::unsigned(seq!['+'] + text::decimal(n as nat)) == Some(n),
        text::signed(text::signed_decimal(m as int)) == Some(m),
{
    let s = text::decimal(n as nat);
    digits_stand_for_their_number(n as nat);
    assert(text::is_digit(s[0]));
    assert(text::unsigned_digits(s) == s);
    assert((seq!['+'] + s).skip(1) =~= s);
    assert(text::unsigned_digits(seq!['+'] + s) == s);
    if m < 0 {
        let size = (-m) as nat;
        let digits = text::decimal(size);
        digits_stand_for_their_number(size);
        let t = text::signed_decimal(m as int);
        assert(t == seq!['-'] + digits);
        assert(t.skip(1) =~= digits);
        assert(t[0] == '-');
        assert(text::is_digit(digits[0]));
    } else {
        let t = text::decimal(m as nat);
        digits_stand_for_their_number(m as nat);
        assert(text::is_digit(t[0]));
        assert(text::unsigned_digits(t) == t);
    }
}

/// No text that is read as a number holds anything but digits behind a sign.
pub proof fn only_digits_are_numbers(s: Seq<char>, i: int)
    requires
        1 <= i < s.len(),
        !text::is_digit(s[i]),
    ensures
        text::unsigned(s) is None,
        text::signed(s) is None,
{
    let digits = s.skip(1);
    assert(digits[i - 1] == s[i]);
    assert(!text::is_digit(digits[i - 1]));
    assert(text::unsigned(s) is None) by {
        if s[0] == '+' {
            assert(text::unsigned_digits(s) == digits);
        } else {
            assert(text::unsigned_digits(s) == s);
        }
    }
}

/// An empty text is no number, and neither is a sign alone.
pub proof fn signs_alone_are_no_numbers()
    ensures
        text::unsigned(Seq::empty()) is None,
        text::signed(Seq::empty()) is None,
        text::unsigned(seq!['+']) is None,
        text::signed(seq!['-']) is None,
{
    assert(seq!['+'].skip(1) =~= Seq::<char>::empty());
    assert(seq!['-'].skip(1) =~= Seq::<char>::empty());
}

proof fn lemma_behind_last(s: Seq<char>, mark: char, at: int)
    requires
        0 <= at <= s.len(),
        at > 0 ==> s[at - 1] == mark,
        forall|i: int| at <= i < s.len() ==> #[trigger] s[i] != mark,
    ensures
        paths::behind_last(s, mark) == at,
    decreases s.len(),
{
    if at < s.len() {
        assert(s[s.len() - 1] != mark);
        let shorter = s.drop_last();
        assert forall|i: int| at <= i < shorter.len() implies #[trigger] shorter[i] != mark by {
            assert(s[i] != mark);
        }
        lemma_behind_last(shorter, mark, at);
    }
}

/// The name that a path ends in is what follows its last separator, unless it is empty or made of one or
/// two dots; and it is the whole path where there is no separator.
pub proof fn names_follow_the_last_separator(dir: Seq<char>, name: Seq<char>)
    requires
        name.len() > 0,
        name != seq!['.'],
        name != seq!['.', '.'],
        !name.contains('/'),
    ensures
        paths::file_name(dir + seq!['/'] + name) == Some(name),
        paths::file_name(name) == Some(name),
{
    let path = dir + seq!['/'] + name;
    let at = (dir.len() + 1) as int;
    assert(path[at - 1] == '/');
    assert forall|i: int| at <= i < path.len() implies #[trigger] path[i] != '/' by {
        assert(path[i] == name[i - at]);
    }
    lemma_behind_last(path, '/', at);
    assert(path.skip(at) =~= name);
    assert forall|i: int| 0 <= i < name.len() implies #[trigger] name[i] != '/' by {}
    lemma_behind_last(name, '/', 0);
    assert(name.skip(0) =~= name);
}

/// A separator at the end of a path does not count, and neither does a single dot behind one.
pub proof fn separators_at_the_end_do_not_count(path: Seq<char>)
    ensures
        paths::file_name(path + seq!['/']) == paths::file_name(path),
        paths::file_name(path + seq!['/', '.']) == paths::file_name(path),
{
    let longer = path + seq!['/'];
    let at = (path.len() + 1) as int;
    lemma_behind_last(longer, '/', at);
    assert(longer.skip(at).len() == 0);
    assert(longer.take(at - 1) =~= path);
    let dotted = path + seq!['/', '.'];
    assert(dotted[at] == '.');
    lemma_behind_last(dotted, '/', at);
    assert(dotted.skip(at) =~= seq!['.']);
    assert(dotted.take(at - 1) =~= path);
}

/// The extension is what follows the last dot of the name, unless that dot begins the name.
pub proof fn extensions_follow_the_last_dot(dir: Seq<char>, stem: Seq<char>, ext: Seq<char>)
    requires
        stem.len() > 0,
        !stem.contains('/'),
        !ext.contains('/'),
        !ext.contains('.'),
        stem + seq!['.'] + ext != seq!['.', '.'],
    ensures
        paths::extension(dir + seq!['/'] + (stem + seq!['.'] + ext)) == Some(ext),
        paths::extension(stem + seq!['.'] + ext) == Some(ext),
{
    let name = stem + seq!['.'] + ext;
    let at = (stem.len() + 1) as int;
    assert(name[at - 1] == '.');
    assert forall|i: int| at <= i < name.len() implies #[trigger] name[i] != '.' by {
        assert(name[i] == ext[i - at]);
    }
    lemma_behind_last(name, '.', at);
    assert(name.skip(at) =~= ext);
    assert(!name.contains('/')) by {
        if name.contains('/') {
            let i = choose|i: int| 0 <= i < name.len() && name[i] == '/';
            if i < stem.len() {
                assert(stem[i] == '/');
            } else if i >= at {
                assert(ext[i - at] == '/');
            }
        }
    }
    assert(name.len() >= 2);
    assert(name != seq!['.']) by {
        assert(seq!['.'].len() == 1);
    }
    names_follow_the_last_separator(dir, name);
}

/// Names without a dot, or with one only at their beginning, have no extension.
pub proof fn names_may_have_no_extension(name: Seq<char>)
    requires
        name.len() > 0,
        name != seq!['.'],
        name != seq!['.', '.'],
        !name.contains('/'),
        forall|i: int| 1 <= i < name.len() ==> #[trigger] name[i] != '.',
    ensures
        paths::extension(name) is None,
        remote_pick::kept_extension(name) == "img"@,
{
    names_follow_the_last_separator(Seq::empty(), name);
    if name[0] == '.' {
        lemma_behind_last(name, '.', 1);
    } else {
        lemma_behind_last(name, '.', 0);
    }
}

/// An image is kept under its extension in lower case.
pub proof fn extensions_are_kept_in_lower_case(path: Seq<char>, ext: Seq<char>)
    requires
        paths::extension(path) == Some(ext),
    ensures
        ext.len() > 0 ==> remote_pick::kept_extension(path) == config::lowered(ext),
        ext.len() == 0 ==> remote_pick::kept_extension(path) == "img"@,
{
}

/// Capitals of ASCII become small letters, thirty-two characters on, and all else stays.
pub proof fn capitals_become_small_letters(s: Seq<char>, i: int)
    requires
        0 <= i < s.len(),
    ensures
        config::lowered(s).len() == s.len(),
        'A' <= s[i] && s[i] <= 'Z' ==> config::lowered(s)[i] as u32 == s[i] as u32 + 32,
        !('A' <= s[i] && s[i] <= 'Z') ==> config::lowered(s)[i] == s[i],
{
    lemma_lower(s[i]);
}

proof fn lemma_lower(c: char)
    ensures
        'A' <= c && c <= 'Z' ==> config::lower(c) as u32 == c as u32 + 32,
        !('A' <= c && c <= 'Z') ==> config::lower(c) == c,
{
}

/// White space around a text goes, and nothing else does.
pub proof fn white_space_around_texts_goes(front: Seq<char>, core: Seq<char>, back: Seq<char>)
    requires
        forall|i: int| 0 <= i < front.len() ==> config::is_space(#[trigger] front[i]),
        forall|i: int| 0 <= i < back.len() ==> config::is_space(#[trigger] back[i]),
        core.len() > 0 ==> !config::is_space(core[0]) && !config::is_space(core.last()),
    ensures
        config::trimmed(front + core + back) == core,
    decreases front.len() + back.len(),
{
    let all = front + core + back;
    if front.len() > 0 {
        assert(all[0] == front[0]);
        let rest = front.skip(1);
        assert(all.skip(1) =~= rest + core + back);
        assert forall|i: int| 0 <= i < rest.len() implies config::is_space(#[trigger] rest[i]) by {
            assert(config::is_space(front[i + 1]));
        }
        white_space_around_texts_goes(rest, core, back);
    } else if back.len() > 0 {
        assert(all.last() == back[back.len() - 1]);
        let rest = back.drop_last();
        assert(all.drop_last() =~= front + core + rest);
        assert forall|i: int| 0 <= i < rest.len() implies config::is_space(#[trigger] rest[i]) by {
            assert(config::is_space(back[i]));
        }
        white_space_around_texts_goes(front, core, rest);
        if core.len() == 0 {
            lemma_spaces_trim_to_nothing(all);
        } else {
            assert(all[0] == core[0]);
        }
    } else {
        assert(all =~= core);
    }
}

proof fn lemma_spaces_trim_to_nothing(s: Seq<char>)
    requires
        forall|i: int| 0 <= i < s.len() ==> config::is_space(#[trigger] s[i]),
    ensures
        config::trimmed(s).len() == 0,
    decreases s.len(),
{
    if s.len() > 0 {
        let rest = s.skip(1);
        assert forall|i: int| 0 <= i < rest.len() implies config::is_space(#[trigger] rest[i]) by {
            assert(config::is_space(s[i + 1]));
        }
        lemma_spaces_trim_to_nothing(rest);
    }
}

/// Blanks, tabs and the ends of lines are white space; the characters that are printed are not.
pub proof fn blanks_are_white_space(c: char)
    ensures
        config::is_space(' ') && config::is_space('\t') && config::is_space('\n') && config::is_space('\r'),
        '!' <= c && c <= '~' ==> !config::is_space(c),
{
}

/// A blank address to listen on is replaced by the usual one; of any other the white space around it
/// goes.
pub proof fn blank_addresses_are_replaced(s: Seq<char>)
    ensures
        config::trimmed(s).len() == 0 ==> config::bind_addr_or_default(s) == "127.0.0.1:8788"@,
        config::trimmed(s).len() > 0 ==> config::bind_addr_or_default(s) == config::trimmed(s),
{
}

} // verus!
