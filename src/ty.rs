use vstd::prelude::*;

verus! {

/// The types a declaration may carry. They are advisory: nothing checks them
/// against the way a value is used.
#[derive(Debug, PartialEq, Eq)]
pub enum Type {
    I64,
    Bool,
    Ptr { to: Box<Type> },
    Array { element: Box<Type>, len: usize },
    Fn { args: Vec<Type>, ret: Box<Type> },
    Void,
    Never,
    Unknown,
}

/// Size of one machine word in bytes.
pub const WORD: usize = 8;

/// Storage size of a type in bytes. Types without storage (functions, `void`,
/// `never` and unknown types) have size zero.
pub open spec fn type_size(t: Type) -> int
    decreases t,
{
    match t {
        Type::I64 => WORD as int,
        Type::Bool => WORD as int,
        Type::Ptr { .. } => WORD as int,
        Type::Array { element, len } => type_size(*element) * len,
        _ => 0,
    }
}

/// Every size met while sizing `t` fits in a `usize`.
pub open spec fn size_fits(t: Type) -> bool
    decreases t,
{
    match t {
        Type::Array { element, len } => size_fits(*element) && type_size(t) <= usize::MAX,
        _ => true,
    }
}

impl Type {
    pub fn size(&self) -> (r: usize)
        requires
            size_fits(*self),
        ensures
            r == type_size(*self),
        decreases self,
    {
        match self {
            Type::I64 => WORD,
            Type::Bool => WORD,
            Type::Ptr { .. } => WORD,
            Type::Array { element, len } => {
                let e = element.size();
                proof {
                    assert(type_size(*self) == e * *len);
                }
                e * *len
            },
            Type::Fn { .. } => 0,
            Type::Void => 0,
            Type::Never => 0,
            Type::Unknown => 0,
        }
    }
}

} // verus!
