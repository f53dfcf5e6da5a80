use vstd::prelude::*;

verus! {

/// A code-list value: the resolved human-readable value together with the
/// raw code it came from.
#[derive(Debug, Default, Clone, PartialEq, Eq)]
pub struct Code {
    value: String,
    code: String,
}

impl Code {
    /// The resolved value, as this code's meaning.
    pub closed spec fn spec_value(self) -> Seq<char> {
        self.value@
    }

    /// The raw code.
    pub closed spec fn spec_code(self) -> Seq<char> {
        self.code@
    }

    pub fn new(value: String, code: String) -> (r: Code)
        ensures
            r.spec_value() == value@,
            r.spec_code() == code@,
    {
        Code { value, code }
    }

    pub fn value(&self) -> (r: &str)
        ensures
            r@ == self.spec_value(),
    {
        self.value.as_str()
    }

    pub fn code(&self) -> (r: &str)
        ensures
            r@ == self.spec_code(),
    {
        self.code.as_str()
    }
}

/// A geometric point attribute; carries no coordinates of its own here,
/// matching the attribute model where point geometry lives in the
/// geometry store.
#[derive(Debug, Default, Clone, PartialEq, Eq, Structural)]
pub struct Point {}

/// A document-local integer id, standing for a `#`-reference.
#[derive(Debug, Default, Clone, Copy, PartialEq, Eq, Structural, Hash)]
pub struct LocalId(pub u32);

impl LocalId {
    pub fn new(idx: u32) -> (r: LocalId)
        ensures
            r.0 == idx,
    {
        LocalId(idx)
    }

    pub fn value(&self) -> (r: u32)
        ensures
            r == self.0,
    {
        self.0
    }
}

} // verus!
