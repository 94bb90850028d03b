use vstd::prelude::*;
use vstd::string::*;

verus! {

/// Version tag written at the head of a byte-code file.
pub const VERSION: &'static str = "v0.1.0";

/// Longest identifier the lexer accepts, in characters.
pub const VARIABLE_MAX_LENGTH: i8 = 100;

/// Longest integer literal, in digits.
pub const INT_NUMBER_MAX_LENGTH: i8 = 18;

/// Longest double literal, in digits.
pub const DOUBLE_NUMBER_MAX_LENGTH: i8 = 18;

/// Width of the padding used when laying out byte code.
pub const BYTECODE_SPACE_STRING_LENGTH: i8 = 80;

/// The part of the tool chain that is running; it prefixes every error message.
#[derive(Clone, Copy, PartialEq, Eq, Debug, Structural)]
pub enum Mode {
    Compiler,
    ByteCodeGenerator,
    Interpreter,
    VirtualMachine,
}

/// The text with which a mode introduces its messages.
pub open spec fn mode_text(mode: Mode) -> Seq<char> {
    match mode {
        Mode::Compiler => "Engine Compiler"@,
        Mode::ByteCodeGenerator => "Engine ByteCodeGenerator"@,
        Mode::Interpreter => "Engine Interpreter"@,
        Mode::VirtualMachine => "Engine VM"@,
    }
}

impl Mode {
    /// The name under which this mode reports its errors.
    pub fn to_string(&self) -> (s: String)
        ensures
            s@ == mode_text(*self),
    {
        match self {
            Mode::Compiler => String::from_str("Engine Compiler"),
            Mode::ByteCodeGenerator => String::from_str("Engine ByteCodeGenerator"),
            Mode::Interpreter => String::from_str("Engine Interpreter"),
            Mode::VirtualMachine => String::from_str("Engine VM"),
        }
    }
}

} // verus!
