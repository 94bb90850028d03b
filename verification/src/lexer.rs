use vstd::prelude::*;
use vstd::string::*;
use vstd::utf8::{encode_scalar, encode_utf8};

use crate::character::{lemma_ascii_code_valid, lemma_ascii_text, Character};
use crate::constants::{mode_text, Mode};
use crate::text::{decimal_text, push_decimal};
use crate::tokens::{get_token_type, views, word_type, Token, TokenType, TokenView};

verus! {

/* The character stream */

/// The first byte of the `k`-th character of `cs`; past the end the stream
/// reads the end-of-file character, whose byte is 0.
pub open spec fn lead_at(cs: Seq<Character>, k: int) -> u8 {
    if 0 <= k < cs.len() {
        cs[k].lead()
    } else {
        0
    }
}

/// The text of the `k`-th character of `cs` (`"\0"` past the end).
pub open spec fn text_at(cs: Seq<Character>, k: int) -> Seq<char> {
    if 0 <= k < cs.len() {
        cs[k].text()
    } else {
        seq!['\0']
    }
}

/// The texts of the characters `a` to `b - 1`, one after the other.
pub open spec fn texts(cs: Seq<Character>, a: int, b: int) -> Seq<char>
    decreases b - a,
{
    if b <= a {
        Seq::<char>::empty()
    } else {
        texts(cs, a, b - 1) + text_at(cs, b - 1)
    }
}

pub open spec fn is_digit_byte(b: u8) -> bool {
    47 < b && b < 58
}

pub open spec fn is_alpha_byte(b: u8) -> bool {
    64 < b && b < 91 || 96 < b && b < 123
}

/// Letters, digits and `_`, the characters of a word.
pub open spec fn is_word_byte(b: u8) -> bool {
    is_alpha_byte(b) || is_digit_byte(b) || b == 95
}

/// Where the run of word characters that starts at `k` ends.
pub open spec fn word_end(cs: Seq<Character>, k: int) -> int
    decreases cs.len() - k,
{
    if 0 <= k < cs.len() && is_word_byte(lead_at(cs, k)) {
        word_end(cs, k + 1)
    } else {
        k
    }
}

/// Where the run of digits that starts at `k` ends.
pub open spec fn digits_end(cs: Seq<Character>, k: int) -> int
    decreases cs.len() - k,
{
    if 0 <= k < cs.len() && is_digit_byte(lead_at(cs, k)) {
        digits_end(cs, k + 1)
    } else {
        k
    }
}

/// Where the line that holds `k` ends: at the first newline or end of file.
pub open spec fn line_end(cs: Seq<Character>, k: int) -> int
    decreases cs.len() - k,
{
    if 0 <= k < cs.len() && lead_at(cs, k) != 10 && lead_at(cs, k) != 0 {
        line_end(cs, k + 1)
    } else {
        k
    }
}

/// The body of a `/* ... */` comment from `k` on, with `acc` read so far:
/// its text (`None` where the file ends first), and the index, line and
/// column after it.
pub open spec fn comment_scan(cs: Seq<Character>, k: int, line: int, pos: int, acc: Seq<char>) -> (
    Option<Seq<char>>,
    int,
    int,
    int,
)
    decreases cs.len() - k,
{
    if k < 0 || k >= cs.len() || lead_at(cs, k) == 0 {
        (None, k, line, pos)
    } else if lead_at(cs, k) == 10 {
        comment_scan(cs, k + 1, line + 1, 1, acc + text_at(cs, k))
    } else if lead_at(cs, k) == 42 && lead_at(cs, k + 1) == 47 {
        (Some(acc + "*/"@), k + 2, line, pos + 2)
    } else {
        comment_scan(cs, k + 1, line, pos + 1, acc + text_at(cs, k))
    }
}

/// The body of a literal quoted by the byte `q`, from `k` on, with `acc`
/// read so far: its text with the escapes `\n`, `\t`, `\\` and `\q`
/// resolved (`None` where the file ends first), and the index, line and
/// column after the closing quote.
pub open spec fn string_scan(cs: Seq<Character>, k: int, line: int, pos: int, q: u8, acc: Seq<char>) -> (
    Option<Seq<char>>,
    int,
    int,
    int,
)
    decreases cs.len() + 2 - k,
{
    if k < 0 || k >= cs.len() || lead_at(cs, k) == 0 {
        (None, k, line, pos)
    } else {
        let k1 = if lead_at(cs, k) == 10 {
            k + 1
        } else {
            k
        };
        let line1 = if lead_at(cs, k) == 10 {
            line + 1
        } else {
            line
        };
        let pos1 = if lead_at(cs, k) == 10 {
            1
        } else {
            pos
        };
        let acc1 = if lead_at(cs, k) == 10 {
            acc + text_at(cs, k)
        } else {
            acc
        };
        let b = lead_at(cs, k1);
        if b == 92 {
            let p = lead_at(cs, k1 + 1);
            let acc2 = if p == q || p == 92 {
                acc1 + text_at(cs, k1 + 1)
            } else if p == 110 {
                acc1 + "\n"@
            } else if p == 116 {
                acc1 + "\t"@
            } else {
                acc1 + text_at(cs, k1) + text_at(cs, k1 + 1)
            };
            string_scan(cs, k1 + 2, line1, pos1 + 2, q, acc2)
        } else if b == q {
            (Some(acc1), k1 + 1, line1, pos1 + 1)
        } else {
            string_scan(cs, k1 + 1, line1, pos1 + 1, q, acc1 + text_at(cs, k1))
        }
    }
}

/// What one step of the lexer gives: the token or the error message, and
/// the index, line and column it leaves the lexer at.
pub ghost struct LexOutcome {
    pub result: Result<TokenView, Seq<char>>,
    pub index: int,
    pub line: int,
    pub pos: int,
}

/// The message of a lexing error of the given kind at `line`:`pos`.
pub open spec fn lex_error(mode: Mode, kind: Seq<char>, message: Seq<char>, line: int, pos: int) -> Seq<
    char,
> {
    mode_text(mode) + ": "@ + kind + " -> "@ + message + ", line "@ + decimal_text(line as nat) + ":"@
        + decimal_text(pos as nat) + "."@
}

pub open spec fn ok_token(t: TokenType, line: int, pos: int, value: Seq<char>, index: int, line2: int, pos2: int) -> LexOutcome {
    LexOutcome {
        result: Ok(TokenView { token_type: t, start_line: line, start_pos: pos, value }),
        index,
        line: line2,
        pos: pos2,
    }
}

/// A token of one character.
pub open spec fn one_char(cs: Seq<Character>, i: int, line: int, pos: int, t: TokenType) -> LexOutcome {
    ok_token(t, line, pos, text_at(cs, i), i + 1, line, pos + 1)
}

/// A token of two characters.
pub open spec fn two_chars(cs: Seq<Character>, i: int, line: int, pos: int, t: TokenType) -> LexOutcome {
    ok_token(t, line, pos, text_at(cs, i) + text_at(cs, i + 1), i + 2, line, pos + 2)
}

/// A number from `i` on (its first character, a digit or `-`, is taken as
/// it is): an integer, or a double where a `.` followed by a digit comes
/// after the first run of digits.
pub open spec fn lex_number(cs: Seq<Character>, i: int, line: int, pos: int) -> LexOutcome {
    let e1 = digits_end(cs, i + 1);
    if lead_at(cs, e1) == 46 && is_digit_byte(lead_at(cs, e1 + 1)) {
        let e2 = digits_end(cs, e1 + 1);
        ok_token(TokenType::DoubleNumber, line, pos, texts(cs, i, e2), e2, line, pos + (e2 - i))
    } else {
        ok_token(TokenType::IntNumber, line, pos, texts(cs, i, e1), e1, line, pos + (e1 - i))
    }
}

/// A word from `i` on: a keyword or a variable name, at most 100
/// characters long.
pub open spec fn lex_word(cs: Seq<Character>, i: int, line: int, pos: int, mode: Mode) -> LexOutcome {
    let e = word_end(cs, i + 1);
    if e - i > 100 {
        LexOutcome {
            result: Err(
                lex_error(
                    mode,
                    "Token Error"@,
                    "Variable length must not exceed 100 characters"@,
                    line,
                    pos,
                ),
            ),
            index: i + 101,
            line,
            pos: pos + 101,
        }
    } else {
        let v = texts(cs, i, e);
        ok_token(word_type(v), line, pos, v, e, line, pos + (e - i))
    }
}

/// A quoted literal from `i` on: a `Character` where its text takes at most
/// one byte, a `StringSequence` otherwise.
pub open spec fn lex_string(cs: Seq<Character>, i: int, line: int, pos: int, mode: Mode) -> LexOutcome {
    let (r, k, l, p) = string_scan(cs, i + 1, line, pos + 1, lead_at(cs, i), Seq::<char>::empty());
    match r {
        Some(v) => ok_token(
            if encode_utf8(v).len() > 1 {
                TokenType::StringSequence
            } else {
                TokenType::Character
            },
            line,
            pos,
            v,
            k,
            l,
            p,
        ),
        None => LexOutcome {
            result: Err(lex_error(mode, "Syntax Error"@, "End of file reached"@, line, pos)),
            index: k,
            line: l,
            pos: p,
        },
    }
}

/// A `/* ... */` comment from `i` on.
pub open spec fn lex_multiline_comment(cs: Seq<Character>, i: int, line: int, pos: int, mode: Mode) -> LexOutcome {
    let (r, k, l, p) = comment_scan(cs, i + 2, line, pos + 2, "/*"@);
    match r {
        Some(v) => ok_token(TokenType::MultiLineComment, line, pos, v, k, l, p),
        None => LexOutcome {
            result: Err(lex_error(mode, "Syntax Error"@, "Unexcepeted end of file"@, line, pos)),
            index: k,
            line: l,
            pos: p,
        },
    }
}

/// The token that starts at character `i`, read at `line`:`pos`, when the
/// character is `b` and the next one is `n`: an operator of one or two
/// characters, or a bad token. Only the interpreter reads a comma as a
/// `Comma`; the compiler's tools read it as a bad token.
pub open spec fn lex_symbol(cs: Seq<Character>, i: int, line: int, pos: int, mode: Mode) -> LexOutcome {
    let b = lead_at(cs, i);
    let n = lead_at(cs, i + 1);
    if b == 40 {
        one_char(cs, i, line, pos, TokenType::OpenParenthes)
    } else if b == 41 {
        one_char(cs, i, line, pos, TokenType::CloseParenthes)
    } else if b == 123 {
        one_char(cs, i, line, pos, TokenType::OpenBracket)
    } else if b == 125 {
        one_char(cs, i, line, pos, TokenType::CloseBracket)
    } else if b == 43 {
        if n == 61 {
            two_chars(cs, i, line, pos, TokenType::PlusEqual)
        } else {
            one_char(cs, i, line, pos, TokenType::Plus)
        }
    } else if b == 35 {
        let e = line_end(cs, i);
        ok_token(TokenType::SingleLineComment, line, pos, texts(cs, i, e), e, line, pos + (e - i))
    } else if b == 45 {
        if n == 61 {
            two_chars(cs, i, line, pos, TokenType::MinusEqual)
        } else if is_digit_byte(n) {
            lex_number(cs, i, line, pos)
        } else {
            one_char(cs, i, line, pos, TokenType::Minus)
        }
    } else if b == 42 {
        if n == 61 {
            two_chars(cs, i, line, pos, TokenType::MulEqual)
        } else {
            one_char(cs, i, line, pos, TokenType::Mul)
        }
    } else if b == 47 {
        if n == 42 {
            lex_multiline_comment(cs, i, line, pos, mode)
        } else if n == 61 {
            two_chars(cs, i, line, pos, TokenType::DivEqual)
        } else {
            one_char(cs, i, line, pos, TokenType::Div)
        }
    } else if b == 37 {
        if n == 61 {
            two_chars(cs, i, line, pos, TokenType::ModEqual)
        } else {
            one_char(cs, i, line, pos, TokenType::Mod)
        }
    } else if b == 62 {
        if n == 61 {
            two_chars(cs, i, line, pos, TokenType::GreaterThanOrEqual)
        } else {
            one_char(cs, i, line, pos, TokenType::GreaterThan)
        }
    } else if b == 60 {
        if n == 61 {
            two_chars(cs, i, line, pos, TokenType::LessThanOrEqual)
        } else {
            one_char(cs, i, line, pos, TokenType::LessThan)
        }
    } else if b == 33 && n == 61 {
        two_chars(cs, i, line, pos, TokenType::NotEqual)
    } else if b == 124 && n == 124 {
        two_chars(cs, i, line, pos, TokenType::Or)
    } else if b == 38 && n == 38 {
        two_chars(cs, i, line, pos, TokenType::And)
    } else if b == 44 && mode == Mode::Interpreter {
        one_char(cs, i, line, pos, TokenType::Comma)
    } else if b >= 128 {
        LexOutcome {
            result: Err(lex_error(mode, "Syntax Error"@, "Only support ascii characters"@, line, pos)),
            index: i,
            line,
            pos,
        }
    } else {
        one_char(cs, i, line, pos, TokenType::BadToken)
    }
}

/// The next token of the stream `cs` for a lexer at character `i`, line
/// `line` and column `pos`. Carriage returns are skipped without moving the
/// column.
pub open spec fn lex_token(cs: Seq<Character>, i: int, line: int, pos: int, mode: Mode) -> LexOutcome
    decreases cs.len() - i,
{
    let b = lead_at(cs, i);
    if b == 0 {
        ok_token(TokenType::Eof, line, pos, Seq::<char>::empty(), i, line, pos)
    } else if is_alpha_byte(b) || b == 95 {
        lex_word(cs, i, line, pos, mode)
    } else if is_digit_byte(b) {
        lex_number(cs, i, line, pos)
    } else if b == 13 {
        if 0 <= i < cs.len() {
            lex_token(cs, i + 1, line, pos, mode)
        } else {
            ok_token(TokenType::Eof, line, pos, Seq::<char>::empty(), i, line, pos)
        }
    } else if b == 10 {
        ok_token(TokenType::NewLine, line, pos, "\n"@, i + 1, line + 1, 1)
    } else if b == 32 || b == 9 {
        one_char(cs, i, line, pos, TokenType::Space)
    } else if b == 61 {
        if lead_at(cs, i + 1) == 61 {
            two_chars(cs, i, line, pos, TokenType::Equal)
        } else {
            one_char(cs, i, line, pos, TokenType::Assign)
        }
    } else if b == 39 || b == 34 {
        lex_string(cs, i, line, pos, mode)
    } else {
        lex_symbol(cs, i, line, pos, mode)
    }
}


proof fn lemma_encode_scalar_length(x: u32)
    ensures
        encode_scalar(x).len() >= 1,
        encode_scalar(x).len() == 1 <==> x <= 0x7f,
{
}

/// Whether the UTF-8 encoding of `s` takes more than one byte.
proof fn lemma_encoded_length(s: Seq<char>)
    ensures
        encode_utf8(s).len() > 1 <==> s.len() > 1 || (s.len() == 1 && s[0] as u32 >= 128),
{
    if s.len() > 0 {
        let t = s.drop_first();
        lemma_encode_scalar_length(s[0] as u32);
        assert(encode_utf8(s) == encode_scalar(s[0] as u32) + encode_utf8(t));
        if t.len() > 0 {
            lemma_encode_scalar_length(t[0] as u32);
            assert(encode_utf8(t) == encode_scalar(t[0] as u32) + encode_utf8(t.drop_first()));
        } else {
            assert(encode_utf8(t) =~= Seq::<u8>::empty());
        }
    }
}

/// Word characters run on from `k` at least to `k`.
proof fn lemma_word_end_bounds(cs: Seq<Character>, k: int)
    requires
        0 <= k,
    ensures
        k <= word_end(cs, k),
    decreases cs.len() - k,
{
    if 0 <= k < cs.len() && is_word_byte(lead_at(cs, k)) {
        lemma_word_end_bounds(cs, k + 1);
    }
}

/// The outcome of a lexer step that returned `r` and left the lexer at
/// `after`, compared with the outcome `o` of the contract, for a lexer that
/// was at `before`.
pub open spec fn step_is(r: Result<Token, String>, after: Lexer, before: Lexer, o: LexOutcome) -> bool {
    &&& match (r, o.result) {
        (Ok(t), Ok(s)) => t@ == s,
        (Err(e), Err(m)) => e@ == m,
        _ => false,
    }
    &&& after.wf()
    &&& after.chars() == before.chars()
    &&& after.mode_of() == before.mode_of()
    &&& after.index() == o.index
    &&& after.line_number() == o.line
    &&& after.column() == o.pos
}

/// Turns a stream of characters into tokens, keeping the line and column
/// where each token starts.
#[derive(Debug)]
pub struct Lexer {
    characters: Vec<Character>,
    index: usize,
    current_line: u64,
    current_pos: u64,
    current_character: Character,
    mode: Mode,
}

impl Lexer {
    /// The characters of the source.
    pub closed spec fn chars(self) -> Seq<Character> {
        self.characters@
    }

    /// The index of the current character.
    pub closed spec fn index(self) -> int {
        self.index as int
    }

    /// The line of the current character.
    pub closed spec fn line_number(self) -> int {
        self.current_line as int
    }

    /// The column of the current character.
    pub closed spec fn column(self) -> int {
        self.current_pos as int
    }

    /// The mode that prefixes the lexer's messages.
    pub closed spec fn mode_of(self) -> Mode {
        self.mode
    }

    /// The current character is the one at the index, and the line and
    /// column are no larger than the index allows.
    pub closed spec fn wf(self) -> bool {
        &&& forall|k: int| 0 <= k < self.chars().len() ==> (#[trigger] self.chars()[k]).wf()
        &&& self.chars().len() < 0x4000_0000_0000_0000
        &&& self.chars().len() + 3 < usize::MAX
        &&& 0 <= self.index() <= self.chars().len() + 1
        &&& self.current_character.wf()
        &&& self.current_character.lead() == lead_at(self.chars(), self.index())
        &&& self.current_character.text() == text_at(self.chars(), self.index())
        &&& 1 <= self.current_line <= self.index() + 1
        &&& 1 <= self.current_pos <= self.index() + 1
    }

    /// The mode that prefixes the lexer's messages.
    pub fn get_mode(&self) -> (m: Mode)
        ensures
            m == self.mode_of(),
    {
        self.mode
    }

    /// A lexer at the first of `characters`, at line 1, column 1.
    pub fn new(characters: Vec<Character>, mode: Mode) -> (r: Lexer)
        requires
            forall|k: int| 0 <= k < characters@.len() ==> (#[trigger] characters@[k]).wf(),
            characters@.len() < 0x4000_0000_0000_0000,
            characters@.len() + 3 < usize::MAX,
        ensures
            r.wf(),
            r.chars() == characters@,
            r.index() == 0,
            r.line_number() == 1,
            r.column() == 1,
            r.mode_of() == mode,
    {
        let current_character = character_at(&characters, 0, mode);
        Lexer { characters, index: 0, current_line: 1, current_pos: 1, current_character, mode }
    }
}

/// The end-of-file character.
fn eof_character(mode: Mode) -> (c: Character)
    ensures
        c.wf(),
        c.lead() == 0,
        c.text() == seq!['\0'],
{
    let code: [u8; 4] = [0, 0, 0, 0];
    proof {
        lemma_ascii_code_valid(code);
    }
    Character::new(code, mode)
}

/// The `k`-th character of the stream.
fn character_at(characters: &Vec<Character>, k: usize, mode: Mode) -> (c: Character)
    requires
        forall|j: int| 0 <= j < characters@.len() ==> (#[trigger] characters@[j]).wf(),
    ensures
        c.wf(),
        c.lead() == lead_at(characters@, k as int),
        c.text() == text_at(characters@, k as int),
{
    if k < characters.len() {
        characters[k].clone()
    } else {
        eof_character(mode)
    }
}

fn current(lexer: &Lexer) -> (c: &Character)
    ensures
        c == lexer.current_character,
{
    &lexer.current_character
}

/// The character `index` places after the current one (1 or 2).
fn peek(lexer: &Lexer, index: u64) -> (c: Character)
    requires
        lexer.wf(),
        1 <= index <= 2,
    ensures
        c.wf(),
        c.lead() == lead_at(lexer.chars(), lexer.index() + index),
        c.text() == text_at(lexer.chars(), lexer.index() + index),
{
    character_at(&lexer.characters, lexer.index + index as usize, lexer.mode)
}

/// Moves to the next character and gives the text of the one left behind.
fn next(lexer: &mut Lexer) -> (s: String)
    requires
        old(lexer).wf(),
        old(lexer).index() <= old(lexer).chars().len(),
    ensures
        final(lexer).wf(),
        final(lexer).chars() == old(lexer).chars(),
        final(lexer).mode == old(lexer).mode,
        final(lexer).index() == old(lexer).index() + 1,
        final(lexer).current_line == old(lexer).current_line,
        final(lexer).current_pos == old(lexer).current_pos + 1,
        s@ == text_at(old(lexer).chars(), old(lexer).index()),
{
    lexer.current_pos = lexer.current_pos + 1;
    let next_character = character_at(&lexer.characters, lexer.index + 1, lexer.mode);
    let mut old_character = next_character;
    std::mem::swap(&mut lexer.current_character, &mut old_character);
    lexer.index = lexer.index + 1;
    old_character.to_string().clone()
}

/// Starts a new line, at column 1.
fn add_line(lexer: &mut Lexer)
    requires
        old(lexer).wf(),
        old(lexer).current_line < old(lexer).index() + 1,
    ensures
        final(lexer).wf(),
        final(lexer).chars() == old(lexer).chars(),
        final(lexer).mode == old(lexer).mode,
        final(lexer).index() == old(lexer).index(),
        final(lexer).current_line == old(lexer).current_line + 1,
        final(lexer).current_pos == 1,
{
    lexer.current_line = lexer.current_line + 1;
    lexer.current_pos = 1;
}

/// The message of a lexing error.
fn lex_error_text(mode: Mode, kind: &str, message: &str, line: u64, pos: u64) -> (s: String)
    ensures
        s@ == lex_error(mode, kind@, message@, line as int, pos as int),
{
    let mut s = mode.to_string();
    s.append(": ");
    s.append(kind);
    s.append(" -> ");
    s.append(message);
    s.append(", line ");
    push_decimal(&mut s, line as u128);
    s.append(":");
    push_decimal(&mut s, pos as u128);
    s.append(".");
    s
}

fn get_number_token(lexer: &mut Lexer, line: u64, position: u64) -> (r: Result<Token, String>)
    requires
        old(lexer).wf(),
        old(lexer).index() < old(lexer).chars().len(),
        line == old(lexer).current_line,
        position == old(lexer).current_pos,
    ensures
        step_is(r, *final(lexer), *old(lexer), lex_number(old(lexer).chars(), old(lexer).index(), line as int, position as int)),
{
    let ghost cs = lexer.chars();
    let ghost i = lexer.index();
    let mut number = next(lexer);
    assert(texts(cs, i, i) =~= Seq::<char>::empty());
    assert(texts(cs, i, i + 1) =~= text_at(cs, i));
    while current(lexer).is_digit()
        invariant
            lexer.wf(),
            lexer.chars() == cs,
            cs == old(lexer).chars(),
            i == old(lexer).index(),
            lexer.mode == old(lexer).mode,
            i < lexer.index() <= cs.len(),
            digits_end(cs, i + 1) == digits_end(cs, lexer.index()),
            number@ == texts(cs, i, lexer.index()),
            lexer.current_line == line,
            lexer.current_pos == position + (lexer.index() - i),
        decreases cs.len() - lexer.index(),
    {
        let t = next(lexer);
        number.append(t.as_str());
    }
    let ghost e1 = lexer.index();
    if current(lexer).lead_byte() == 46 && peek(lexer, 1).is_digit() {
        let t = next(lexer);
        number.append(t.as_str());
        while current(lexer).is_digit()
            invariant
                lexer.wf(),
                lexer.chars() == cs,
                cs == old(lexer).chars(),
                i == old(lexer).index(),
                lexer.mode == old(lexer).mode,
                i < e1 < lexer.index() <= cs.len(),
                digits_end(cs, e1 + 1) == digits_end(cs, lexer.index()),
                number@ == texts(cs, i, lexer.index()),
                lexer.current_line == line,
                lexer.current_pos == position + (lexer.index() - i),
            decreases cs.len() - lexer.index(),
        {
            let t = next(lexer);
            number.append(t.as_str());
        }
        return Ok(
            Token {
                token_type: TokenType::DoubleNumber,
                start_line: line,
                start_pos: position,
                value: number,
            },
        );
    }
    Ok(Token { token_type: TokenType::IntNumber, start_line: line, start_pos: position, value: number })
}

fn get_variable_token(lexer: &mut Lexer, line: u64, position: u64) -> (r: Result<Token, String>)
    requires
        old(lexer).wf(),
        old(lexer).index() < old(lexer).chars().len(),
        line == old(lexer).current_line,
        position == old(lexer).current_pos,
    ensures
        step_is(r, *final(lexer), *old(lexer), lex_word(old(lexer).chars(), old(lexer).index(), line as int, position as int, old(lexer).mode)),
{
    let ghost cs = lexer.chars();
    let ghost i = lexer.index();
    let mut variable = next(lexer);
    let mut variable_length: i8 = 1;
    assert(texts(cs, i, i) =~= Seq::<char>::empty());
    assert(texts(cs, i, i + 1) =~= text_at(cs, i));
    while current(lexer).is_alpha() || current(lexer).is_digit() || current(lexer).lead_byte() == 95
        invariant
            lexer.wf(),
            lexer.chars() == cs,
            cs == old(lexer).chars(),
            i == old(lexer).index(),
            lexer.mode == old(lexer).mode,
            i < lexer.index() <= cs.len(),
            word_end(cs, i + 1) == word_end(cs, lexer.index()),
            variable@ == texts(cs, i, lexer.index()),
            variable_length == lexer.index() - i,
            variable_length <= 100,
            lexer.current_line == line,
            lexer.current_pos == position + (lexer.index() - i),
        decreases cs.len() - lexer.index(),
    {
        let ghost k = lexer.index();
        let t = next(lexer);
        variable.append(t.as_str());
        variable_length = variable_length + 1;
        assert(word_end(cs, k) == word_end(cs, k + 1));
        if variable_length > 100 {
            proof {
                lemma_word_end_bounds(cs, lexer.index());
            }
            return Err(
                lex_error_text(
                    lexer.mode,
                    "Token Error",
                    "Variable length must not exceed 100 characters",
                    line,
                    position,
                ),
            );
        }
    }
    Ok(
        Token {
            token_type: get_token_type(&variable),
            start_line: line,
            start_pos: position,
            value: variable,
        },
    )
}

fn get_single_line_comment(lexer: &mut Lexer, line: u64, position: u64) -> (r: Result<Token, String>)
    requires
        old(lexer).wf(),
        old(lexer).index() < old(lexer).chars().len(),
        lead_at(old(lexer).chars(), old(lexer).index()) == 35,
        line == old(lexer).current_line,
        position == old(lexer).current_pos,
    ensures
        step_is(r, *final(lexer), *old(lexer), ok_token(TokenType::SingleLineComment, line as int, position as int,
            texts(old(lexer).chars(), old(lexer).index(), line_end(old(lexer).chars(), old(lexer).index())),
            line_end(old(lexer).chars(), old(lexer).index()), line as int,
            position + (line_end(old(lexer).chars(), old(lexer).index()) - old(lexer).index()))),
{
    let ghost cs = lexer.chars();
    let ghost i = lexer.index();
    let mut comment = String::new();
    while !current(lexer).is_newline() && !current(lexer).is_eof()
        invariant
            lexer.wf(),
            lexer.chars() == cs,
            cs == old(lexer).chars(),
            i == old(lexer).index(),
            lexer.mode == old(lexer).mode,
            i <= lexer.index() <= cs.len(),
            line_end(cs, i) == line_end(cs, lexer.index()),
            comment@ == texts(cs, i, lexer.index()),
            lexer.current_line == line,
            lexer.current_pos == position + (lexer.index() - i),
        decreases cs.len() - lexer.index(),
    {
        let t = next(lexer);
        comment.append(t.as_str());
    }
    Ok(
        Token {
            token_type: TokenType::SingleLineComment,
            start_line: line,
            start_pos: position,
            value: comment,
        },
    )
}

fn get_multiline_comment(lexer: &mut Lexer, line: u64, position: u64) -> (r: Result<Token, String>)
    requires
        old(lexer).wf(),
        old(lexer).index() + 1 < old(lexer).chars().len(),
        line == old(lexer).current_line,
        position == old(lexer).current_pos,
    ensures
        step_is(r, *final(lexer), *old(lexer), lex_multiline_comment(old(lexer).chars(), old(lexer).index(), line as int, position as int, old(lexer).mode)),
{
    let ghost cs = lexer.chars();
    let ghost i = lexer.index();
    let mut comment = String::from_str("/*");
    next(lexer);
    next(lexer);
    while !current(lexer).is_eof()
        invariant
            lexer.wf(),
            lexer.chars() == cs,
            cs == old(lexer).chars(),
            i == old(lexer).index(),
            lexer.mode == old(lexer).mode,
            lexer.index() <= cs.len(),
            comment_scan(cs, i + 2, line as int, position + 2, "/*"@) == comment_scan(
                cs,
                lexer.index(),
                lexer.current_line as int,
                lexer.current_pos as int,
                comment@,
            ),
        decreases cs.len() - lexer.index(),
    {
        if current(lexer).is_newline() {
            let t = next(lexer);
            comment.append(t.as_str());
            add_line(lexer);
        } else if current(lexer).lead_byte() == 42 && peek(lexer, 1).lead_byte() == 47 {
            next(lexer);
            next(lexer);
            comment.append("*/");
            return Ok(
                Token {
                    token_type: TokenType::MultiLineComment,
                    start_line: line,
                    start_pos: position,
                    value: comment,
                },
            );
        } else {
            let t = next(lexer);
            comment.append(t.as_str());
        }
    }
    Err(lex_error_text(lexer.mode, "Syntax Error", "Unexcepeted end of file", line, position))
}

fn get_string_token(lexer: &mut Lexer, line: u64, position: u64) -> (r: Result<Token, String>)
    requires
        old(lexer).wf(),
        old(lexer).index() < old(lexer).chars().len(),
        line == old(lexer).current_line,
        position == old(lexer).current_pos,
    ensures
        step_is(r, *final(lexer), *old(lexer), lex_string(old(lexer).chars(), old(lexer).index(), line as int, position as int, old(lexer).mode)),
{
    let ghost cs = lexer.chars();
    let ghost i = lexer.index();
    let quotation = current(lexer).lead_byte();
    next(lexer);
    let mut string = String::new();
    while !current(lexer).is_eof()
        invariant
            lexer.wf(),
            lexer.chars() == cs,
            cs == old(lexer).chars(),
            i == old(lexer).index(),
            lexer.mode == old(lexer).mode,
            quotation == lead_at(cs, i),
            string_scan(cs, i + 1, line as int, position + 1, quotation, Seq::<char>::empty())
                == string_scan(
                cs,
                lexer.index(),
                lexer.current_line as int,
                lexer.current_pos as int,
                quotation,
                string@,
            ),
        decreases cs.len() + 2 - lexer.index(),
    {
        if current(lexer).is_newline() {
            let t = next(lexer);
            string.append(t.as_str());
            add_line(lexer);
        }
        if current(lexer).lead_byte() == 92 {
            let p = peek(lexer, 1).lead_byte();
            if p == quotation || p == 92 {
                next(lexer);
                let t = next(lexer);
                string.append(t.as_str());
            } else if p == 110 {
                next(lexer);
                next(lexer);
                string.append("\n");
            } else if p == 116 {
                next(lexer);
                next(lexer);
                string.append("\t");
            } else {
                let t = next(lexer);
                string.append(t.as_str());
                let t = next(lexer);
                string.append(t.as_str());
            }
        } else if current(lexer).lead_byte() == quotation {
            next(lexer);
            let n = string.as_str().unicode_len();
            proof {
                lemma_encoded_length(string@);
            }
            if n > 1 || (n == 1 && string.as_str().get_char(0) as u32 >= 128) {
                return Ok(
                    Token {
                        token_type: TokenType::StringSequence,
                        start_line: line,
                        start_pos: position,
                        value: string,
                    },
                );
            }
            return Ok(
                Token {
                    token_type: TokenType::Character,
                    start_line: line,
                    start_pos: position,
                    value: string,
                },
            );
        } else {
            let t = next(lexer);
            string.append(t.as_str());
        }
    }
    Err(lex_error_text(lexer.mode, "Syntax Error", "End of file reached", line, position))
}


/// A token of the current character alone.
fn single(lexer: &mut Lexer, token_type: TokenType) -> (r: Result<Token, String>)
    requires
        old(lexer).wf(),
        old(lexer).index() < old(lexer).chars().len(),
    ensures
        step_is(r, *final(lexer), *old(lexer), one_char(old(lexer).chars(), old(lexer).index(), old(lexer).line_number(), old(lexer).column(), token_type)),
{
    let start_line = lexer.current_line;
    let start_pos = lexer.current_pos;
    let value = next(lexer);
    Ok(Token { token_type, start_line, start_pos, value })
}

/// A token of the current character and the next one.
fn double(lexer: &mut Lexer, token_type: TokenType) -> (r: Result<Token, String>)
    requires
        old(lexer).wf(),
        old(lexer).index() + 1 < old(lexer).chars().len(),
    ensures
        step_is(r, *final(lexer), *old(lexer), two_chars(old(lexer).chars(), old(lexer).index(), old(lexer).line_number(), old(lexer).column(), token_type)),
{
    let start_line = lexer.current_line;
    let start_pos = lexer.current_pos;
    let first = next(lexer);
    let second = next(lexer);
    Ok(Token { token_type, start_line, start_pos, value: first.concat(second.as_str()) })
}

/// Reads the next token (see `lex_token`).
pub fn next_token(lexer: &mut Lexer) -> (r: Result<Token, String>)
    requires
        old(lexer).wf(),
    ensures
        step_is(
            r,
            *final(lexer),
            *old(lexer),
            lex_token(
                old(lexer).chars(),
                old(lexer).index(),
                old(lexer).line_number(),
                old(lexer).column(),
                old(lexer).mode_of(),
            ),
        ),
    decreases old(lexer).chars().len() + 2 - old(lexer).index(),
{
    let line = lexer.current_line;
    let pos = lexer.current_pos;
    let b = current(lexer).lead_byte();
    if b == 0 {
        return Ok(Token { token_type: TokenType::Eof, start_line: line, start_pos: pos, value: String::new() });
    } else if current(lexer).is_alpha() || b == 95 {
        return get_variable_token(lexer, line, pos);
    } else if current(lexer).is_digit() {
        return get_number_token(lexer, line, pos);
    } else if b == 13 {
        next(lexer);
        lexer.current_pos = lexer.current_pos - 1;
        return next_token(lexer);
    } else if current(lexer).is_newline() {
        next(lexer);
        add_line(lexer);
        return Ok(
            Token {
                token_type: TokenType::NewLine,
                start_line: line,
                start_pos: pos,
                value: String::from_str("\n"),
            },
        );
    } else if current(lexer).is_space() {
        return single(lexer, TokenType::Space);
    }
    let n = peek(lexer, 1).lead_byte();
    if b == 61 {
        if n == 61 {
            double(lexer, TokenType::Equal)
        } else {
            single(lexer, TokenType::Assign)
        }
    } else if b == 39 || b == 34 {
        get_string_token(lexer, line, pos)
    } else if b == 40 {
        single(lexer, TokenType::OpenParenthes)
    } else if b == 41 {
        single(lexer, TokenType::CloseParenthes)
    } else if b == 123 {
        single(lexer, TokenType::OpenBracket)
    } else if b == 125 {
        single(lexer, TokenType::CloseBracket)
    } else if b == 43 {
        if n == 61 {
            double(lexer, TokenType::PlusEqual)
        } else {
            single(lexer, TokenType::Plus)
        }
    } else if b == 35 {
        get_single_line_comment(lexer, line, pos)
    } else if b == 45 {
        if n == 61 {
            double(lexer, TokenType::MinusEqual)
        } else if peek(lexer, 1).is_digit() {
            get_number_token(lexer, line, pos)
        } else {
            single(lexer, TokenType::Minus)
        }
    } else if b == 42 {
        if n == 61 {
            double(lexer, TokenType::MulEqual)
        } else {
            single(lexer, TokenType::Mul)
        }
    } else if b == 47 {
        if n == 42 {
            get_multiline_comment(lexer, line, pos)
        } else if n == 61 {
            double(lexer, TokenType::DivEqual)
        } else {
            single(lexer, TokenType::Div)
        }
    } else if b == 37 {
        if n == 61 {
            double(lexer, TokenType::ModEqual)
        } else {
            single(lexer, TokenType::Mod)
        }
    } else if b == 62 {
        if n == 61 {
            double(lexer, TokenType::GreaterThanOrEqual)
        } else {
            single(lexer, TokenType::GreaterThan)
        }
    } else if b == 60 {
        if n == 61 {
            double(lexer, TokenType::LessThanOrEqual)
        } else {
            single(lexer, TokenType::LessThan)
        }
    } else if b == 33 && n == 61 {
        double(lexer, TokenType::NotEqual)
    } else if b == 124 && n == 124 {
        double(lexer, TokenType::Or)
    } else if b == 38 && n == 38 {
        double(lexer, TokenType::And)
    } else if b == 44 && lexer.mode == Mode::Interpreter {
        single(lexer, TokenType::Comma)
    } else if !current(lexer).is_ascii() {
        Err(lex_error_text(lexer.mode, "Syntax Error", "Only support ascii characters", line, pos))
    } else {
        single(lexer, TokenType::BadToken)
    }
}


/* Progress */

proof fn lemma_digits_end_bounds(cs: Seq<Character>, k: int)
    ensures
        k <= digits_end(cs, k),
    decreases cs.len() - k,
{
    if 0 <= k < cs.len() && is_digit_byte(lead_at(cs, k)) {
        lemma_digits_end_bounds(cs, k + 1);
    }
}

proof fn lemma_line_end_bounds(cs: Seq<Character>, k: int)
    ensures
        k <= line_end(cs, k),
    decreases cs.len() - k,
{
    if 0 <= k < cs.len() && lead_at(cs, k) != 10 && lead_at(cs, k) != 0 {
        lemma_line_end_bounds(cs, k + 1);
    }
}

proof fn lemma_comment_scan_bounds(cs: Seq<Character>, k: int, line: int, pos: int, acc: Seq<char>)
    ensures
        k <= comment_scan(cs, k, line, pos, acc).1,
    decreases cs.len() - k,
{
    if !(k < 0 || k >= cs.len() || lead_at(cs, k) == 0) {
        if lead_at(cs, k) == 10 {
            lemma_comment_scan_bounds(cs, k + 1, line + 1, 1, acc + text_at(cs, k));
        } else if !(lead_at(cs, k) == 42 && lead_at(cs, k + 1) == 47) {
            lemma_comment_scan_bounds(cs, k + 1, line, pos + 1, acc + text_at(cs, k));
        }
    }
}

proof fn lemma_string_scan_bounds(cs: Seq<Character>, k: int, line: int, pos: int, q: u8, acc: Seq<char>)
    ensures
        k <= string_scan(cs, k, line, pos, q, acc).1,
    decreases cs.len() + 2 - k,
{
    if !(k < 0 || k >= cs.len() || lead_at(cs, k) == 0) {
        let k1 = if lead_at(cs, k) == 10 {
            k + 1
        } else {
            k
        };
        let line1 = if lead_at(cs, k) == 10 {
            line + 1
        } else {
            line
        };
        let pos1 = if lead_at(cs, k) == 10 {
            1
        } else {
            pos
        };
        let acc1 = if lead_at(cs, k) == 10 {
            acc + text_at(cs, k)
        } else {
            acc
        };
        let b = lead_at(cs, k1);
        if b == 92 {
            let p = lead_at(cs, k1 + 1);
            let acc2 = if p == q || p == 92 {
                acc1 + text_at(cs, k1 + 1)
            } else if p == 110 {
                acc1 + "\n"@
            } else if p == 116 {
                acc1 + "\t"@
            } else {
                acc1 + text_at(cs, k1) + text_at(cs, k1 + 1)
            };
            lemma_string_scan_bounds(cs, k1 + 2, line1, pos1 + 2, q, acc2);
        } else if b != q {
            lemma_string_scan_bounds(cs, k1 + 1, line1, pos1 + 1, q, acc1 + text_at(cs, k1));
        }
    }
}

/// A token other than the end of file moves the lexer forward, and no token
/// moves it back.
pub proof fn lemma_lex_token_progress(cs: Seq<Character>, i: int, line: int, pos: int, mode: Mode)
    requires
        0 <= i,
    ensures
        i <= lex_token(cs, i, line, pos, mode).index,
        lex_token(cs, i, line, pos, mode).result matches Ok(t) && t.token_type != TokenType::Eof
            ==> i < lex_token(cs, i, line, pos, mode).index,
    decreases cs.len() - i,
{
    let b = lead_at(cs, i);
    lemma_word_end_bounds(cs, i + 1);
    lemma_digits_end_bounds(cs, i + 1);
    let e1 = digits_end(cs, i + 1);
    lemma_digits_end_bounds(cs, e1 + 1);
    lemma_line_end_bounds(cs, i);
    if b == 35 {
        lemma_line_end_bounds(cs, i + 1);
    }
    lemma_comment_scan_bounds(cs, i + 2, line, pos + 2, "/*"@);
    lemma_string_scan_bounds(cs, i + 1, line, pos + 1, lead_at(cs, i), Seq::<char>::empty());
    if b == 13 && 0 <= i < cs.len() {
        lemma_lex_token_progress(cs, i + 1, line, pos, mode);
    }
}

/* The whole stream */

/// The tokens of the stream from character `i` on, read one after the
/// other up to the end of file (included), and the message of the error
/// that stopped the reading, if one did.
pub open spec fn lex_all(cs: Seq<Character>, i: int, line: int, pos: int, mode: Mode) -> (
    Seq<TokenView>,
    Option<Seq<char>>,
)
    decreases cs.len() + 2 - i,
{
    let o = lex_token(cs, i, line, pos, mode);
    match o.result {
        Err(m) => (Seq::empty(), Some(m)),
        Ok(t) => if t.token_type == TokenType::Eof || i < 0 || o.index <= i || o.index > cs.len()
            + 1 {
            (seq![t], None)
        } else {
            let (rest, e) = lex_all(cs, o.index, o.line, o.pos, mode);
            (seq![t] + rest, e)
        },
    }
}

/// Reads every token of the stream, up to the end of file or the first
/// error.
pub fn tokenize(lexer: &mut Lexer) -> (r: (Vec<Token>, Option<String>))
    requires
        old(lexer).wf(),
    ensures
        final(lexer).wf(),
        views(r.0@) == lex_all(
            old(lexer).chars(),
            old(lexer).index(),
            old(lexer).line_number(),
            old(lexer).column(),
            old(lexer).mode_of(),
        ).0,
        match (r.1, lex_all(
            old(lexer).chars(),
            old(lexer).index(),
            old(lexer).line_number(),
            old(lexer).column(),
            old(lexer).mode_of(),
        ).1) {
            (Some(e), Some(m)) => e@ == m,
            (None, None) => true,
            _ => false,
        },
        forall|k: int|
            0 <= k < r.0@.len() && (#[trigger] r.0@[k]).token_type == TokenType::Eof ==> k == r.0@.len()
                - 1,
        r.1 is None ==> r.0@.len() > 0 && r.0@.last().token_type == TokenType::Eof,
{
    let ghost cs = lexer.chars();
    let ghost mode = lexer.mode_of();
    let ghost all = lex_all(cs, lexer.index(), lexer.line_number(), lexer.column(), mode);
    let mut tokens: Vec<Token> = Vec::new();
    assert(views(tokens@) =~= Seq::<TokenView>::empty());
    loop
        invariant
            lexer.wf(),
            lexer.chars() == cs,
            lexer.mode_of() == mode,
            cs == old(lexer).chars(),
            mode == old(lexer).mode_of(),
            all == lex_all(cs, old(lexer).index(), old(lexer).line_number(), old(lexer).column(), mode),
            all.0 == views(tokens@) + lex_all(cs, lexer.index(), lexer.line_number(), lexer.column(), mode).0,
            all.1 == lex_all(cs, lexer.index(), lexer.line_number(), lexer.column(), mode).1,
            forall|k: int| 0 <= k < tokens@.len() ==> (#[trigger] tokens@[k]).token_type != TokenType::Eof,
        decreases cs.len() + 2 - lexer.index(),
    {
        let ghost before = *lexer;
        proof {
            lemma_lex_token_progress(cs, lexer.index(), lexer.line_number(), lexer.column(), mode);
        }
        match next_token(lexer) {
            Err(e) => {
                assert(views(tokens@) + Seq::<TokenView>::empty() =~= views(tokens@));
                return (tokens, Some(e));
            },
            Ok(t) => {
                let eof = t.token_type == TokenType::Eof;
                let ghost tv = t@;
                tokens.push(t);
                assert(views(tokens@) =~= views(tokens@.drop_last()).push(tv));
                if eof {
                    assert(views(tokens@) =~= all.0);
                    return (tokens, None);
                }
                assert(all.0 =~= views(tokens@) + lex_all(cs, lexer.index(), lexer.line_number(), lexer.column(), mode).0);
            },
        }
    }
}

} // verus!
