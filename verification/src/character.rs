use vstd::prelude::*;
use vstd::utf8::*;

use crate::constants::Mode;

verus! {

/// How many bytes a character whose first byte is `lead` takes in its code.
pub open spec fn code_width(lead: u8) -> int {
    if lead < 128 {
        1
    } else if lead < 224 {
        2
    } else if lead < 240 {
        3
    } else {
        4
    }
}

/// The bytes of `code` that make up the character's UTF-8 text.
pub open spec fn code_bytes(code: [u8; 4]) -> Seq<u8> {
    code@.subrange(0, code_width(code@[0]))
}

/// `code` holds a well-formed UTF-8 encoding in its leading bytes.
pub open spec fn valid_code(code: [u8; 4]) -> bool {
    valid_utf8(code_bytes(code))
}

/// Wraps `std::str::from_utf8`: the result is `Some` exactly when the bytes
/// are valid UTF-8, and then it is their decoding.
#[verifier::external_body]
fn str_from_utf8(bytes: &[u8]) -> (r: Option<&str>)
    ensures
        r is Some <==> valid_utf8(bytes@),
        r matches Some(s) ==> s@ == decode_utf8(bytes@),
{
    std::str::from_utf8(bytes).ok()
}

/// One character of a source file: its raw code (up to four UTF-8 bytes,
/// zero-padded) and the text that code decodes to.
#[derive(Debug, PartialEq)]
pub struct Character {
    code: [u8; 4],
    string: String,
}

impl Clone for Character {
    fn clone(&self) -> (r: Self)
        ensures
            r == *self,
    {
        Character { code: self.code, string: self.string.clone() }
    }
}

impl Character {
    /// The raw code of the character.
    pub closed spec fn code(self) -> [u8; 4] {
        self.code
    }

    /// The text of the character.
    pub closed spec fn text(self) -> Seq<char> {
        self.string@
    }

    /// The first byte of the code, which decides the character's class.
    pub open spec fn lead(self) -> u8 {
        self.code()@[0]
    }

    /// The text is the decoding of the code's leading bytes.
    pub open spec fn wf(self) -> bool {
        &&& valid_code(self.code())
        &&& self.text() == decode_utf8(code_bytes(self.code()))
    }

    /// The character of a code, or `None` where the code's leading bytes are
    /// not valid UTF-8.
    pub fn from_code(code: [u8; 4]) -> (r: Option<Character>)
        ensures
            r is Some <==> valid_code(code),
            r matches Some(c) ==> c.wf() && c.code() == code,
    {
        let width: usize = if code[0] < 128 {
            1
        } else if code[0] < 224 {
            2
        } else if code[0] < 240 {
            3
        } else {
            4
        };
        let bytes = vstd::slice::slice_subrange(code.as_slice(), 0, width);
        assert(bytes@ == code_bytes(code));
        match str_from_utf8(bytes) {
            Some(s) => Some(Character { code, string: s.to_owned() }),
            None => None,
        }
    }

    /// The character whose code is `code`; `mode` names the caller.
    pub fn new(code: [u8; 4], mode: Mode) -> (r: Character)
        requires
            valid_code(code),
        ensures
            r.wf(),
            r.code() == code,
    {
        match Character::from_code(code) {
            Some(c) => c,
            None => {
                assert(false);
                Character { code, string: String::new() }
            },
        }
    }

    pub fn is_digit(&self) -> (b: bool)
        ensures
            b == (47 < self.lead() && self.lead() < 58),
    {
        self.code[0] > 47 && self.code[0] < 58
    }

    pub fn is_alpha(&self) -> (b: bool)
        ensures
            b == (64 < self.lead() && self.lead() < 91 || 96 < self.lead() && self.lead() < 123),
    {
        self.code[0] > 64 && self.code[0] < 91 || self.code[0] > 96 && self.code[0] < 123
    }

    pub fn is_space(&self) -> (b: bool)
        ensures
            b == (self.lead() == 32 || self.lead() == 9 || self.lead() == 13),
    {
        self.code[0] == 32 || self.code[0] == 9 || self.code[0] == 13
    }

    pub fn is_newline(&self) -> (b: bool)
        ensures
            b == (self.lead() == 10),
    {
        self.code[0] == 10
    }

    pub fn is_eof(&self) -> (b: bool)
        ensures
            b == (self.lead() == 0),
    {
        self.code[0] == 0
    }

    pub fn is_ascii(&self) -> (b: bool)
        ensures
            b == (self.lead() < 128),
    {
        self.code[0] < 128
    }

    pub fn to_string(&self) -> (s: &String)
        ensures
            s@ == self.text(),
    {
        &self.string
    }

    /// The first byte of the code.
    pub fn lead_byte(&self) -> (b: u8)
        ensures
            b == self.lead(),
    {
        self.code[0]
    }
}

/// The text of a character whose code starts with an ASCII byte is that byte.
pub proof fn lemma_ascii_text(c: Character)
    requires
        c.wf(),
        c.lead() < 128,
    ensures
        c.text() == seq![c.lead() as char],
{
    let b = c.lead();
    let bytes = code_bytes(c.code());
    assert(bytes.len() == 1);
    assert(bytes[0] == b);
    assert(b & 0x7f == b) by (bit_vector)
        requires
            b < 128,
    ;
    assert(pop_first_scalar(bytes) =~= Seq::<u8>::empty());
    assert(decode_utf8(pop_first_scalar(bytes)) =~= Seq::<char>::empty());
    assert(decode_first_scalar(bytes) == b as u32);
    assert(decode_utf8(bytes) =~= seq![b as char]);
}

/// The code of an ASCII byte is valid.
pub proof fn lemma_ascii_code_valid(code: [u8; 4])
    requires
        code@[0] < 128,
    ensures
        valid_code(code),
        decode_utf8(code_bytes(code)) == seq![code@[0] as char],
{
    let b = code@[0];
    let bytes = code_bytes(code);
    assert(bytes.len() == 1);
    assert(b & 0x7f == b) by (bit_vector)
        requires
            b < 128,
    ;
    assert(pop_first_scalar(bytes) =~= Seq::<u8>::empty());
    assert(valid_utf8(pop_first_scalar(bytes)));
    assert(valid_utf8(bytes));
    assert(decode_utf8(pop_first_scalar(bytes)) =~= Seq::<char>::empty());
    assert(decode_first_scalar(bytes) == b as u32);
    assert(decode_utf8(bytes) =~= seq![b as char]);
}

} // verus!
