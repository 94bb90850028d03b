use vstd::prelude::*;
use vstd::string::*;

use crate::text::push_char;

verus! {

/// The character that a backslash and `c` stand for in a string value, if
/// they form an escape.
pub open spec fn unescaped_char(c: char) -> Option<char> {
    if c == 'n' {
        Some('\n')
    } else if c == 't' {
        Some('\t')
    } else if c == '\\' {
        Some('\\')
    } else if c == '"' {
        Some('"')
    } else {
        None
    }
}

/// The text with each escape `\n`, `\t`, `\\` and `\"` replaced by the
/// character it stands for, from the left; any other backslash stays.
pub open spec fn unescaped(s: Seq<char>) -> Seq<char>
    decreases s.len(),
{
    if s.len() == 0 {
        Seq::empty()
    } else if s[0] == '\\' && s.len() >= 2 && unescaped_char(s[1]) is Some {
        seq![unescaped_char(s[1])->0] + unescaped(s.skip(2))
    } else {
        seq![s[0]] + unescaped(s.skip(1))
    }
}

/// The escape that a backslash and `c` form, if any.
fn escape_of(c: char) -> (r: Option<char>)
    ensures
        r == unescaped_char(c),
{
    if c == 'n' {
        Some('\n')
    } else if c == 't' {
        Some('\t')
    } else if c == '\\' {
        Some('\\')
    } else if c == '"' {
        Some('"')
    } else {
        None
    }
}

/// The text with its escapes replaced (see `unescaped`).
pub fn unescape(s: &str) -> (r: String)
    ensures
        r@ == unescaped(s@),
{
    let n = s.unicode_len();
    let mut r = String::new();
    let mut i: usize = 0;
    assert(s@.skip(0) =~= s@);
    assert(Seq::<char>::empty() + unescaped(s@) =~= unescaped(s@));
    while i < n
        invariant
            i <= n,
            n == s@.len(),
            r@ + unescaped(s@.skip(i as int)) == unescaped(s@),
        decreases n - i,
    {
        let ghost rest = s@.skip(i as int);
        let c = s.get_char(i);
        assert(rest[0] == c);
        if c == '\\' && i + 1 < n {
            let d = s.get_char(i + 1);
            assert(rest[1] == d);
            match escape_of(d) {
                Some(x) => {
                    let ghost before = r@;
                    push_char(&mut r, x);
                    assert(rest.skip(2) =~= s@.skip(i as int + 2));
                    assert(before + (seq![x] + unescaped(rest.skip(2))) =~= r@ + unescaped(
                        s@.skip(i as int + 2),
                    ));
                    i = i + 2;
                    continue;
                },
                None => {},
            }
        }
        let ghost before = r@;
        push_char(&mut r, c);
        assert(rest.skip(1) =~= s@.skip(i as int + 1));
        assert(before + (seq![c] + unescaped(rest.skip(1))) =~= r@ + unescaped(s@.skip(i as int + 1)));
        i = i + 1;
    }
    assert(s@.skip(n as int) =~= Seq::<char>::empty());
    assert(r@ + Seq::<char>::empty() =~= r@);
    r
}

/// The string that an `Assign:string` line gives: its value without the
/// quotes around it, with its escapes replaced; `None` where the value is
/// shorter than two bytes.
pub fn assign_string_value(value: &str) -> (r: Option<String>)
    requires
        value.spec_bytes().len() <= usize::MAX,
        value.spec_bytes().len() >= 2 ==> value@.len() >= 2 && (value@[0] as u32) < 128 && (value@.last() as u32)
            < 128,
    ensures
        match r {
            None => value.spec_bytes().len() < 2,
            Some(v) => value.spec_bytes().len() >= 2 && v@ == unescaped(value@.subrange(1, value@.len() - 1)),
        },
{
    if value.len() < 2 {
        return None;
    }
    let n = value.unicode_len();
    let inner = value.substring_char(1, n - 1);
    Some(unescape(inner))
}

/// The character that an `Assign:char` line gives for the text `s`, whose
/// encoding takes `bytes` bytes: `\0` for a text shorter than three
/// bytes, the character that an escape names, or else the second
/// character.
pub open spec fn char_value(s: Seq<char>, bytes: int) -> char {
    if bytes < 3 {
        '\0'
    } else if s == seq!['\'', '\\', 'n', '\''] {
        '\n'
    } else if s == seq!['\'', '\\', 't', '\''] {
        '\t'
    } else if s == seq!['\'', '\'', '\''] {
        '\''
    } else if s == seq!['\'', '\\', '\\', '\''] {
        '\\'
    } else {
        s[1]
    }
}

/// The character that an `Assign:char` line gives (see `char_value`).
pub fn assign_char_value(value: &str) -> (c: char)
    requires
        value.spec_bytes().len() <= usize::MAX,
        value.spec_bytes().len() >= 3 ==> value@.len() >= 2,
    ensures
        c == char_value(value@, value.spec_bytes().len() as int),
{
    if value.len() < 3 {
        return '\0';
    }
    let n = value.unicode_len();
    let first = value.get_char(0);
    let second = value.get_char(1);
    if n == 4 && first == '\'' && second == '\\' && value.get_char(2) == 'n' && value.get_char(3) == '\'' {
        assert(value@ =~= seq!['\'', '\\', 'n', '\'']);
        '\n'
    } else if n == 4 && first == '\'' && second == '\\' && value.get_char(2) == 't' && value.get_char(3)
        == '\'' {
        assert(value@ =~= seq!['\'', '\\', 't', '\'']);
        '\t'
    } else if n == 3 && first == '\'' && second == '\'' && value.get_char(2) == '\'' {
        assert(value@ =~= seq!['\'', '\'', '\'']);
        '\''
    } else if n == 4 && first == '\'' && second == '\\' && value.get_char(2) == '\\' && value.get_char(3)
        == '\'' {
        assert(value@ =~= seq!['\'', '\\', '\\', '\'']);
        '\\'
    } else {
        second
    }
}

} // verus!
