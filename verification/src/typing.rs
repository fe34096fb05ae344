use vstd::prelude::*;

verus! {

/// The kind of a declared type annotation.  Annotations are parsed and carried
/// on variable nodes but nothing enforces them yet.
#[derive(Clone, Copy, Debug, PartialEq, Eq, Structural)]
pub enum TypeKind {
    Int,
    Float,
    Str,
}

/// A declared type, recognized from the fixed annotation name set.
#[derive(Clone, Copy, Debug, PartialEq, Eq, Structural)]
pub struct Type {
    pub kind: TypeKind,
}

impl Type {
    pub fn new_int() -> (t: Type)
        ensures
            t.kind == TypeKind::Int,
    {
        Type { kind: TypeKind::Int }
    }

    pub fn new_float() -> (t: Type)
        ensures
            t.kind == TypeKind::Float,
    {
        Type { kind: TypeKind::Float }
    }

    pub fn new_string() -> (t: Type)
        ensures
            t.kind == TypeKind::Str,
    {
        Type { kind: TypeKind::Str }
    }
}

/// The annotation names that denote a type: `int`, `float` and `string`.
/// Any other name yields no type rather than an error.
pub open spec fn spec_type_of_name(s: Seq<char>) -> Option<Type> {
    if s == seq!['i', 'n', 't'] {
        Some(Type { kind: TypeKind::Int })
    } else if s == seq!['f', 'l', 'o', 'a', 't'] {
        Some(Type { kind: TypeKind::Float })
    } else if s == seq!['s', 't', 'r', 'i', 'n', 'g'] {
        Some(Type { kind: TypeKind::Str })
    } else {
        None
    }
}

/// Conversion from an annotation name to the type it denotes, if any.
pub trait ToType {
    spec fn spec_to_type(&self) -> Option<Type>;

    fn to_type(&self) -> (t: Option<Type>)
        ensures
            t == self.spec_to_type(),
    ;
}

impl ToType for str {
    open spec fn spec_to_type(&self) -> Option<Type> {
        spec_type_of_name(self@)
    }

    fn to_type(&self) -> (t: Option<Type>) {
        let n = self.unicode_len();
        if n == 3 && self.get_char(0) == 'i' && self.get_char(1) == 'n' && self.get_char(2) == 't'
        {
            proof {
                assert(self@ =~= seq!['i', 'n', 't']);
            }
            Some(Type::new_int())
        } else if n == 5 && self.get_char(0) == 'f' && self.get_char(1) == 'l' && self.get_char(2)
            == 'o' && self.get_char(3) == 'a' && self.get_char(4) == 't' {
            proof {
                assert(self@ =~= seq!['f', 'l', 'o', 'a', 't']);
            }
            Some(Type::new_float())
        } else if n == 6 && self.get_char(0) == 's' && self.get_char(1) == 't' && self.get_char(2)
            == 'r' && self.get_char(3) == 'i' && self.get_char(4) == 'n' && self.get_char(5) == 'g'
        {
            proof {
                assert(self@ =~= seq!['s', 't', 'r', 'i', 'n', 'g']);
            }
            Some(Type::new_string())
        } else {
            proof {
                assert(self@ != seq!['i', 'n', 't'] && self@ != seq!['f', 'l', 'o', 'a', 't']
                    && self@ != seq!['s', 't', 'r', 'i', 'n', 'g']) by {
                    if self@ == seq!['i', 'n', 't'] {
                        assert(self@.len() == 3 && self@[0] == 'i' && self@[1] == 'n' && self@[2]
                            == 't');
                    }
                    if self@ == seq!['f', 'l', 'o', 'a', 't'] {
                        assert(self@.len() == 5 && self@[0] == 'f' && self@[1] == 'l' && self@[2]
                            == 'o' && self@[3] == 'a' && self@[4] == 't');
                    }
                    if self@ == seq!['s', 't', 'r', 'i', 'n', 'g'] {
                        assert(self@.len() == 6 && self@[0] == 's' && self@[1] == 't' && self@[2]
                            == 'r' && self@[3] == 'i' && self@[4] == 'n' && self@[5] == 'g');
                    }
                }
            }
            None
        }
    }
}

} // verus!
