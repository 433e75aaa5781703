//! Names within paths.
//!
//! Paths are texts whose components are parted by `/`. Empty components and `.` do not count.
use crate::text;
use vstd::prelude::*;

verus! {

/// The position behind the last `mark` in `s`, or 0 where there is none.
pub open spec fn behind_last(s: Seq<char>, mark: char) -> int
    decreases s.len(),
{
    if s.len() == 0 {
        0
    } else if s.last() == mark {
        s.len() as int
    } else {
        behind_last(s.drop_last(), mark)
    }
}

/// The name that a path ends in. There is none where the path ends in `..` or has no component.
pub open spec fn file_name(path: Seq<char>) -> Option<Seq<char>>
    decreases path.len(),
{
    let at = behind_last(path, '/');
    let name = path.skip(at);
    if name.len() == 0 || name == seq!['.'] {
        if 0 < at <= path.len() {
            file_name(path.take(at - 1))
        } else {
            None
        }
    } else if name == seq!['.', '.'] {
        None
    } else {
        Some(name)
    }
}

/// What follows the last `.` of the name that a path ends in, unless the name starts with it.
pub open spec fn extension(path: Seq<char>) -> Option<Seq<char>> {
    match file_name(path) {
        None => None,
        Some(name) => {
            let at = behind_last(name, '.');
            if at <= 1 {
                None
            } else {
                Some(name.skip(at))
            }
        },
    }
}

proof fn lemma_behind_last_bound(s: Seq<char>, mark: char)
    ensures
        0 <= behind_last(s, mark) <= s.len(),
    decreases s.len(),
{
    if s.len() > 0 {
        lemma_behind_last_bound(s.drop_last(), mark);
    }
}

fn find_behind_last(s: &Vec<char>, end: usize, mark: char) -> (at: usize)
    requires
        end <= s.len(),
    ensures
        at == behind_last(s@.take(end as int), mark),
        at <= end,
{
    let mut at: usize = end;
    while at > 0 && s[at - 1] != mark
        invariant
            at <= end,
            end <= s.len(),
            behind_last(s@.take(end as int), mark) == behind_last(s@.take(at as int), mark),
        decreases at,
    {
        assert(s@.take(at as int).drop_last() =~= s@.take(at - 1));
        at -= 1;
    }
    assert(at > 0 ==> s@.take(at as int).last() == s@[at - 1]);
    at
}

/// The characters of `s` from `from` to `to`.
pub fn piece(s: &Vec<char>, from: usize, to: usize) -> (r: Vec<char>)
    requires
        from <= to <= s.len(),
    ensures
        r@ == s@.subrange(from as int, to as int),
{
    let mut r: Vec<char> = Vec::new();
    let mut i: usize = from;
    while i < to
        invariant
            from <= i <= to <= s.len(),
            r@ == s@.subrange(from as int, i as int),
        decreases to - i,
    {
        r.push(s[i]);
        assert(s@.subrange(from as int, i + 1) =~= s@.subrange(from as int, i as int).push(s@[i as int]));
        i += 1;
    }
    r
}

/// The name that a path ends in.
pub fn file_name_of(path: &str) -> (r: Option<String>)
    ensures
        file_name(path@) == match r {
            None => None,
            Some(name) => Some(name@),
        },
{
    let chars = text::chars_of(path);
    let mut end: usize = chars.len();
    assert(chars@.take(end as int) =~= path@);
    loop
        invariant
            end <= chars.len(),
            chars@ == path@,
            file_name(path@) == file_name(chars@.take(end as int)),
        decreases end,
    {
        let at = find_behind_last(&chars, end, '/');
        let ghost here = chars@.take(end as int);
        let name = piece(&chars, at, end);
        proof {
            assert(here.skip(at as int) =~= name@);
        }
        if name.len() == 0 || (name.len() == 1 && name[0] == '.') {
            proof {
                if name.len() == 1 {
                    assert(name@ =~= seq!['.']);
                }
            }
            if at == 0 {
                return None;
            }
            proof {
                assert(here.take(at - 1) =~= chars@.take(at - 1));
            }
            end = at - 1;
        } else if name.len() == 2 && name[0] == '.' && name[1] == '.' {
            proof {
                assert(name@ =~= seq!['.', '.']);
            }
            return None;
        } else {
            proof {
                assert(name@ != seq!['.']) by {
                    if name@ == seq!['.'] {
                        assert(name@.len() == 1 && name@[0] == '.');
                    }
                }
                assert(name@ != seq!['.', '.']) by {
                    if name@ == seq!['.', '.'] {
                        assert(name@.len() == 2 && name@[0] == '.' && name@[1] == '.');
                    }
                }
            }
            return Some(text::text_of(&name));
        }
    }
}

/// What follows the last `.` of the name that a path ends in, unless the name starts with it.
pub fn extension_of(path: &str) -> (r: Option<String>)
    ensures
        extension(path@) == match r {
            None => None,
            Some(ext) => Some(ext@),
        },
{
    match file_name_of(path) {
        None => None,
        Some(name) => {
            let chars = text::chars_of(name.as_str());
            let at = find_behind_last(&chars, chars.len(), '.');
            assert(chars@.take(chars@.len() as int) =~= name@);
            if at <= 1 {
                None
            } else {
                let ext = piece(&chars, at, chars.len());
                assert(ext@ =~= name@.skip(at as int));
                Some(text::text_of(&ext))
            }
        },
    }
}

} // verus!
