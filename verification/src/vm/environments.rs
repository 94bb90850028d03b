use vstd::prelude::*;

verus! {

/// The scopes that the virtual machine knows.
#[derive(Debug, Clone, Copy, PartialEq, Eq, Structural)]
pub enum EnvironmentScope {
    Main,
}

/// The types of the values that the virtual machine holds.
#[derive(Debug, Clone, Copy, PartialEq, Eq, Structural)]
pub enum ValueType {
    Boolean,
    Integer,
    Double,
    Character,
    String,
}

} // verus!
