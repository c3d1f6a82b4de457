use vstd::prelude::*;

verus! {

use vstd::string::*;
use vstd::utf8::*;

/// Whether two string slices hold the same characters.
///
/// Equal UTF-8 encodings mean equal character sequences, because decoding
/// is the inverse of encoding.
pub fn str_eq(a: &str, b: &str) -> (r: bool)
    ensures
        r == (a@ == b@),
{
    let ab = a.as_bytes_vec();
    let bb = b.as_bytes_vec();
    let r = ab == bb;
    proof {
        broadcast use vstd::utf8::encode_utf8_decode_utf8;

        if r {
            assert(ab@ =~= bb@);
            assert(encode_utf8(a@) == encode_utf8(b@));
            assert(decode_utf8(encode_utf8(a@)) == a@);
            assert(decode_utf8(encode_utf8(b@)) == b@);
            assert(a@ == b@);
        } else {
            if a@ == b@ {
                assert(ab@ =~= bb@);
                assert(false);
            }
        }
    }
    r
}

/// The closed set of scalar types a column can hold.
///
/// `DBFloat` columns carry IEEE-754 double-precision values by their raw bit
/// pattern (a `u64`); the engine itself never performs floating-point
/// arithmetic, it only stores, moves and orders such values.
#[derive(Clone, Copy, Debug, PartialEq, Eq, Structural)]
pub enum TypeName {
    DBInt,
    DBFloat,
    DBString,
}

impl TypeName {
    /// The textual name used in schema files and error messages.
    pub fn as_str(&self) -> (r: &'static str)
        ensures
            r@ == self.name_spec(),
    {
        proof {
            reveal_strlit("Int");
            reveal_strlit("Float");
            reveal_strlit("String");
        }
        match self {
            TypeName::DBInt => "Int",
            TypeName::DBFloat => "Float",
            TypeName::DBString => "String",
        }
    }

    pub open spec fn name_spec(self) -> Seq<char> {
        match self {
            TypeName::DBInt => "Int"@,
            TypeName::DBFloat => "Float"@,
            TypeName::DBString => "String"@,
        }
    }

    /// Parses a type name as it appears in a schema file.
    pub fn try_from_str(s: &str) -> (r: Option<TypeName>)
        ensures
            r == Self::from_name_spec(s@),
    {
        if str_eq(s, "Int") {
            Some(TypeName::DBInt)
        } else if str_eq(s, "Float") {
            Some(TypeName::DBFloat)
        } else if str_eq(s, "String") {
            Some(TypeName::DBString)
        } else {
            None
        }
    }

    pub open spec fn from_name_spec(s: Seq<char>) -> Option<TypeName> {
        if s == "Int"@ {
            Some(TypeName::DBInt)
        } else if s == "Float"@ {
            Some(TypeName::DBFloat)
        } else if s == "String"@ {
            Some(TypeName::DBString)
        } else {
            None
        }
    }
}

/// A single scalar value, as the engine stores it: floats by bit pattern.
#[derive(Debug)]
pub enum Val {
    Int(i64),
    Float(u64),
    Str(String),
}

impl Clone for Val {
    fn clone(&self) -> (r: Self)
        ensures
            r == *self,
    {
        match self {
            Val::Int(x) => Val::Int(*x),
            Val::Float(x) => Val::Float(*x),
            Val::Str(s) => Val::Str(s.clone()),
        }
    }
}

/// The mathematical shadow of a [`Val`]: what contracts speak about.
pub enum ValV {
    I(i64),
    F(u64),
    S(Seq<char>),
}

impl View for Val {
    type V = ValV;

    open spec fn view(&self) -> ValV {
        match self {
            Val::Int(x) => ValV::I(*x),
            Val::Float(x) => ValV::F(*x),
            Val::Str(s) => ValV::S(s@),
        }
    }
}

impl ValV {
    pub open spec fn as_int(self) -> i64 {
        match self {
            ValV::I(x) => x,
            _ => 0,
        }
    }

    pub open spec fn as_float(self) -> u64 {
        match self {
            ValV::F(x) => x,
            _ => 0,
        }
    }

    pub open spec fn as_str_seq(self) -> Seq<char> {
        match self {
            ValV::S(s) => s,
            _ => Seq::empty(),
        }
    }

    pub open spec fn dtype(self) -> TypeName {
        match self {
            ValV::I(_) => TypeName::DBInt,
            ValV::F(_) => TypeName::DBFloat,
            ValV::S(_) => TypeName::DBString,
        }
    }
}

impl Val {
    pub fn dtype(&self) -> (r: TypeName)
        ensures
            r == self@.dtype(),
    {
        match self {
            Val::Int(_) => TypeName::DBInt,
            Val::Float(_) => TypeName::DBFloat,
            Val::Str(_) => TypeName::DBString,
        }
    }
}

/// The default element a growing column is padded with: 0, 0.0 or "".
pub open spec fn default_val_spec(t: TypeName) -> ValV {
    match t {
        TypeName::DBInt => ValV::I(0),
        TypeName::DBFloat => ValV::F(0),
        TypeName::DBString => ValV::S(Seq::<char>::empty()),
    }
}

pub fn default_val(t: TypeName) -> (r: Val)
    ensures
        r@ == default_val_spec(t),
{
    match t {
        TypeName::DBInt => Val::Int(0),
        TypeName::DBFloat => Val::Float(0),
        TypeName::DBString => Val::Str(String::new()),
    }
}

/// Marker for the 64-bit signed integer column type.
#[derive(Debug, Clone)]
pub struct DBInt {}

/// Marker for the double-precision float column type (stored by bit pattern).
#[derive(Debug, Clone)]
pub struct DBFloat {}

/// Marker for the UTF-8 string column type.
#[derive(Debug, Clone)]
pub struct DBString {}

impl DBInt {
    pub fn dtype(&self) -> (r: TypeName)
        ensures
            r == TypeName::DBInt,
    {
        TypeName::DBInt
    }

    pub fn to_type_string(&self) -> (r: &'static str)
        ensures
            r@ == TypeName::DBInt.name_spec(),
    {
        TypeName::DBInt.as_str()
    }
}

impl DBFloat {
    pub fn dtype(&self) -> (r: TypeName)
        ensures
            r == TypeName::DBFloat,
    {
        TypeName::DBFloat
    }

    pub fn to_type_string(&self) -> (r: &'static str)
        ensures
            r@ == TypeName::DBFloat.name_spec(),
    {
        TypeName::DBFloat.as_str()
    }
}

impl DBString {
    pub fn dtype(&self) -> (r: TypeName)
        ensures
            r == TypeName::DBString,
    {
        TypeName::DBString
    }

    pub fn to_type_string(&self) -> (r: &'static str)
        ensures
            r@ == TypeName::DBString.name_spec(),
    {
        TypeName::DBString.as_str()
    }
}

} // verus!
