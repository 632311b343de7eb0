use vstd::prelude::*;

verus! {

/// A C# type as it is written in a property declaration: one of the fixed
/// primitive names (string, int, uint, float, bool), or a class name that
/// may carry array suffixes ("HttpResponse[]").
#[derive(Debug)]
pub enum CSharpType {
    Primitive(&'static str),
    Custom(String),
}

impl CSharpType {
    /// The type as written in C# source.
    pub open spec fn text(&self) -> Seq<char> {
        match self {
            CSharpType::Primitive(s) => s@,
            CSharpType::Custom(s) => s@,
        }
    }

    pub fn as_str(&self) -> (r: &str)
        ensures
            r@ == self.text(),
    {
        match self {
            CSharpType::Primitive(s) => s,
            CSharpType::Custom(s) => s.as_str(),
        }
    }
}

} // verus!
