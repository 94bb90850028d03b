use vstd::prelude::*;
use vstd::string::*;

use crate::character::{code_width, Character};
use crate::text::push_char;

verus! {

/// How many bytes the reader takes for a character whose first byte is
/// `lead` (a byte below 127 stands alone).
pub open spec fn chunk_width(lead: u8) -> int {
    if lead < 127 {
        1
    } else if lead < 224 {
        2
    } else if lead < 240 {
        3
    } else {
        4
    }
}

/// The code of the character that starts at byte `p` of `b`: its bytes,
/// padded with zeros to four (also where the file ends inside it).
pub open spec fn chunk_at(b: Seq<u8>, p: int) -> Seq<u8> {
    Seq::new(
        4,
        |k: int|
            if k < chunk_width(b[p]) && p + k < b.len() {
                b[p + k]
            } else {
                0u8
            },
    )
}

/// The codes of the characters of `b` from byte `p` on.
pub open spec fn source_chunks(b: Seq<u8>, p: int) -> Seq<Seq<u8>>
    decreases b.len() + 4 - p,
{
    if p < 0 || p >= b.len() {
        Seq::empty()
    } else {
        seq![chunk_at(b, p)] + source_chunks(b, p + chunk_width(b[p]))
    }
}

/// A code whose leading bytes are valid UTF-8.
pub open spec fn valid_chunk(c: Seq<u8>) -> bool {
    vstd::utf8::valid_utf8(c.subrange(0, code_width(c[0])))
}

/// The characters of the file whose bytes are `bytes`, in order, or `None`
/// where one of them is not valid UTF-8.
pub fn read_characters(bytes: &[u8]) -> (r: Option<Vec<Character>>)
    ensures
        r is Some <==> forall|k: int|
            0 <= k < source_chunks(bytes@, 0).len() ==> valid_chunk(
                #[trigger] source_chunks(bytes@, 0)[k],
            ),
        r matches Some(v) ==> {
            &&& v@.len() == source_chunks(bytes@, 0).len()
            &&& forall|k: int|
                0 <= k < v@.len() ==> (#[trigger] v@[k]).wf() && v@[k].code()@ == source_chunks(
                    bytes@,
                    0,
                )[k]
        },
{
    let n = bytes.len();
    let mut characters: Vec<Character> = Vec::new();
    let mut p: usize = 0;
    let ghost mut done: Seq<Seq<u8>> = Seq::empty();
    assert(source_chunks(bytes@, 0) == done + source_chunks(bytes@, 0));
    while p < n
        invariant
            n == bytes@.len(),
            p <= n,
            source_chunks(bytes@, 0) == done + source_chunks(bytes@, p as int),
            done.len() == characters@.len(),
            forall|k: int|
                0 <= k < characters@.len() ==> (#[trigger] characters@[k]).wf()
                    && characters@[k].code()@ == done[k],
            forall|k: int| 0 <= k < done.len() ==> valid_chunk(#[trigger] done[k]),
        decreases n - p,
    {
        let lead = bytes[p];
        let width: usize = if lead < 127 {
            1
        } else if lead < 224 {
            2
        } else if lead < 240 {
            3
        } else {
            4
        };
        let b1: u8 = if width > 1 && n - p > 1 {
            bytes[p + 1]
        } else {
            0
        };
        let b2: u8 = if width > 2 && n - p > 2 {
            bytes[p + 2]
        } else {
            0
        };
        let b3: u8 = if width > 3 && n - p > 3 {
            bytes[p + 3]
        } else {
            0
        };
        let code: [u8; 4] = [lead, b1, b2, b3];
        let ghost chunk = chunk_at(bytes@, p as int);
        assert(code@ =~= chunk);
        assert(source_chunks(bytes@, p as int) == seq![chunk] + source_chunks(
            bytes@,
            p + width,
        ));
        match Character::from_code(code) {
            Some(c) => {
                characters.push(c);
                proof {
                    done = done.push(chunk);
                    assert(seq![chunk] + source_chunks(bytes@, p + width) =~= seq![chunk].add(
                        source_chunks(bytes@, p + width),
                    ));
                }
                p = if width < n - p {
                    p + width
                } else {
                    n
                };
                assert(source_chunks(bytes@, 0) =~= done + source_chunks(bytes@, p as int));
            },
            None => {
                assert(source_chunks(bytes@, 0)[done.len() as int] == chunk);
                return None;
            },
        }
    }
    assert(source_chunks(bytes@, n as int) =~= Seq::<Seq<u8>>::empty());
    assert(done + source_chunks(bytes@, n as int) =~= done);
    Some(characters)
}

/* Where the output of a source goes */

/// The place of the last `c` in `s`, if any.
pub open spec fn last_index_of(s: Seq<char>, c: char) -> Option<int>
    decreases s.len(),
{
    if s.len() == 0 {
        None
    } else if s.last() == c {
        Some(s.len() - 1)
    } else {
        last_index_of(s.drop_last(), c)
    }
}

/// `s` cut at its last `c`: the text before it and the text after it; with
/// no `c`, nothing and the whole text.
pub open spec fn cut_at_last(s: Seq<char>, c: char) -> (Seq<char>, Seq<char>) {
    match last_index_of(s, c) {
        Some(k) => (s.take(k), s.skip(k + 1)),
        None => (Seq::empty(), s),
    }
}

/// The folder and the name of a source file, as the compiler names its
/// outputs after them: the path is cut at its last `/`, and the file name
/// at its last `.`, after which `en` must come; `None` where it does not.
pub open spec fn source_parts(path: Seq<char>) -> Option<(Seq<char>, Seq<char>)> {
    let (folder, file) = cut_at_last(path, '/');
    let (name, extension) = cut_at_last(file, '.');
    if extension == "en"@ {
        Some((folder, name))
    } else {
        None
    }
}

/// A found place holds `c`, and no later one does.
proof fn lemma_last_index(s: Seq<char>, c: char)
    ensures
        last_index_of(s, c) matches Some(k) ==> 0 <= k < s.len() && s[k] == c && forall|j: int|
            k < j < s.len() ==> s[j] != c,
        last_index_of(s, c) is None ==> forall|j: int| 0 <= j < s.len() ==> s[j] != c,
    decreases s.len(),
{
    if s.len() > 0 && s.last() != c {
        lemma_last_index(s.drop_last(), c);
        assert forall|j: int| 0 <= j < s.len() - 1 implies s[j] == s.drop_last()[j] by {}
    }
}

/// The place of the last `c` in the text.
fn last_index(s: &str, c: char) -> (r: Option<usize>)
    ensures
        r matches Some(k) ==> last_index_of(s@, c) == Some(k as int),
        r is None ==> last_index_of(s@, c) is None,
{
    let n = s.unicode_len();
    let mut i = n;
    assert(s@.take(n as int) =~= s@);
    while i > 0
        invariant
            0 <= i <= n,
            n == s@.len(),
            last_index_of(s@, c) == last_index_of(s@.take(i as int), c),
        decreases i,
    {
        assert(s@.take(i as int).last() == s@[i - 1]);
        if s.get_char(i - 1) == c {
            return Some(i - 1);
        }
        assert(s@.take(i as int).drop_last() =~= s@.take(i - 1));
        i = i - 1;
    }
    assert(s@.take(0) =~= Seq::<char>::empty());
    None
}

/// The characters `from` to `to - 1` of the text.
fn sub_text(s: &str, from: usize, to: usize) -> (r: String)
    requires
        from <= to <= s@.len(),
    ensures
        r@ == s@.subrange(from as int, to as int),
{
    let mut r = String::new();
    let mut i = from;
    while i < to
        invariant
            from <= i <= to <= s@.len(),
            r@ == s@.subrange(from as int, i as int),
        decreases to - i,
    {
        push_char(&mut r, s.get_char(i));
        assert(r@ =~= s@.subrange(from as int, i + 1));
        i = i + 1;
    }
    r
}

/// `s` cut at its last `c`.
fn cut_text_at_last(s: &str, c: char) -> (r: (String, String))
    ensures
        (r.0@, r.1@) == cut_at_last(s@, c),
{
    let n = s.unicode_len();
    proof {
        lemma_last_index(s@, c);
    }
    match last_index(s, c) {
        Some(k) => {
            let before = sub_text(s, 0, k);
            let after = sub_text(s, k + 1, n);
            assert(before@ =~= s@.take(k as int));
            assert(after@ =~= s@.skip(k + 1));
            (before, after)
        },
        None => {
            let whole = sub_text(s, 0, n);
            assert(whole@ =~= s@);
            (String::new(), whole)
        },
    }
}

/// The folder and the name of the source file at `path`, after which the
/// compiler names its outputs; `None` where the file name does not end in
/// `.en`.
pub fn split_source_path(path: &str) -> (r: Option<(String, String)>)
    ensures
        match (r, source_parts(path@)) {
            (Some((folder, name)), Some((f, n))) => folder@ == f && name@ == n,
            (None, None) => true,
            _ => false,
        },
{
    let (folder, file) = cut_text_at_last(path, '/');
    let (name, extension) = cut_text_at_last(file.as_str(), '.');
    if crate::tokens::text_equals(&extension, "en") {
        Some((folder, name))
    } else {
        None
    }
}

/// The path of an output named `name` followed by `suffix` in `folder`:
/// beside the source, in the current folder where the path names none.
pub open spec fn output_path_text(folder: Seq<char>, name: Seq<char>, suffix: Seq<char>) -> Seq<char> {
    if folder.len() == 0 {
        name + suffix
    } else {
        folder + "/"@ + name + suffix
    }
}

/// The path of the output `name` + `suffix` in `folder`.
pub fn output_path(folder: &str, name: &str, suffix: &str) -> (r: String)
    ensures
        r@ == output_path_text(folder@, name@, suffix@),
{
    let mut r = String::new();
    if folder.unicode_len() > 0 {
        r.append(folder);
        r.append("/");
    }
    r.append(name);
    r.append(suffix);
    proof {
        reveal_strlit("/");
    }
    r
}

} // verus!
