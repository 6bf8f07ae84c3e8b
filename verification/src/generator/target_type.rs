//! The type that a field of a generated structure has, as a definition
//! names it.

use vstd::prelude::*;
use vstd::std_specs::convert::FromSpecImpl;
use vstd::string::*;

use crate::generator::case::{to_upper_camel, upper_camel_case};
use crate::text::same_text;

verus! {

/// The type of a field: one of the integer types, or a type of the driver
/// (an enumeration or a provider) by name.
#[derive(Debug, Clone, PartialEq, Eq, PartialOrd, Ord)]
pub enum TargetType {
    U8,
    U16,
    U32,
    U64,
    U128,
    I8,
    I16,
    I32,
    I64,
    I128,
    TypeName(String),
}

impl Default for TargetType {
    /// A field is a `u8` unless a definition says otherwise.
    fn default() -> (r: Self)
        ensures
            r == TargetType::U8,
    {
        TargetType::U8
    }
}

/// The target type that a definition's type name stands for: an integer
/// type by its Rust name, any other name as a type name.
pub open spec fn target_type_of(value: String) -> TargetType {
    if value@ == "u8"@ {
        TargetType::U8
    } else if value@ == "u16"@ {
        TargetType::U16
    } else if value@ == "u32"@ {
        TargetType::U32
    } else if value@ == "u64"@ {
        TargetType::U64
    } else if value@ == "u128"@ {
        TargetType::U128
    } else if value@ == "i8"@ {
        TargetType::I8
    } else if value@ == "i16"@ {
        TargetType::I16
    } else if value@ == "i32"@ {
        TargetType::I32
    } else if value@ == "i64"@ {
        TargetType::I64
    } else if value@ == "i128"@ {
        TargetType::I128
    } else {
        TargetType::TypeName(value)
    }
}

/// How a target type is written in generated code: an integer type by its
/// Rust name, a type name in upper camel case.
pub open spec fn target_type_text(t: TargetType) -> Seq<char> {
    match t {
        TargetType::U8 => "u8"@,
        TargetType::U16 => "u16"@,
        TargetType::U32 => "u32"@,
        TargetType::U64 => "u64"@,
        TargetType::U128 => "u128"@,
        TargetType::I8 => "i8"@,
        TargetType::I16 => "i16"@,
        TargetType::I32 => "i32"@,
        TargetType::I64 => "i64"@,
        TargetType::I128 => "i128"@,
        TargetType::TypeName(name) => upper_camel_case(name@),
    }
}

impl From<String> for TargetType {
    fn from(value: String) -> (r: TargetType) {
        let s = value.as_str();
        if same_text(s, "u8") {
            TargetType::U8
        } else if same_text(s, "u16") {
            TargetType::U16
        } else if same_text(s, "u32") {
            TargetType::U32
        } else if same_text(s, "u64") {
            TargetType::U64
        } else if same_text(s, "u128") {
            TargetType::U128
        } else if same_text(s, "i8") {
            TargetType::I8
        } else if same_text(s, "i16") {
            TargetType::I16
        } else if same_text(s, "i32") {
            TargetType::I32
        } else if same_text(s, "i64") {
            TargetType::I64
        } else if same_text(s, "i128") {
            TargetType::I128
        } else {
            TargetType::TypeName(value)
        }
    }
}

impl FromSpecImpl<String> for TargetType {
    open spec fn obeys_from_spec() -> bool {
        true
    }

    open spec fn from_spec(v: String) -> TargetType {
        target_type_of(v)
    }
}

impl TargetType {
    /// The type as written in generated code.
    pub fn to_string(&self) -> (r: String)
        ensures
            r@ == target_type_text(*self),
    {
        match self {
            TargetType::U8 => String::from_str("u8"),
            TargetType::U16 => String::from_str("u16"),
            TargetType::U32 => String::from_str("u32"),
            TargetType::U64 => String::from_str("u64"),
            TargetType::U128 => String::from_str("u128"),
            TargetType::I8 => String::from_str("i8"),
            TargetType::I16 => String::from_str("i16"),
            TargetType::I32 => String::from_str("i32"),
            TargetType::I64 => String::from_str("i64"),
            TargetType::I128 => String::from_str("i128"),
            TargetType::TypeName(name) => to_upper_camel(name.as_str()),
        }
    }
}

} // verus!
