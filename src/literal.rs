use vstd::prelude::*;

verus! {

/// A literal constant of the surface language.
///
/// A float is held as its IEEE-754 binary64 bit pattern: the library carries
/// floats through evaluation and lowering but computes nothing on them.
#[derive(Debug, Clone, Copy, PartialEq, Eq, Structural)]
pub enum Literal {
    Int(i64),
    Float(u64),
    True,
    False,
    Unit,
    Char(char),
}

impl Literal {
    pub fn boolean(b: bool) -> (r: Literal)
        ensures
            r == (if b { Literal::True } else { Literal::False }),
    {
        if b {
            Literal::True
        } else {
            Literal::False
        }
    }
}

} // verus!
