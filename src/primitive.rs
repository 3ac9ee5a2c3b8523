//! The built-in types, usable anywhere without an import.
use vstd::prelude::*;

verus! {

#[derive(Debug, Clone, Copy, PartialEq, Eq)]
pub enum Primitive {
    Void,
    Bool,
    BoolArray,
    Char,
    CharArray,
    Byte,
    ByteArray,
    Int,
    IntArray,
    Long,
    LongArray,
    Float,
    FloatArray,
    Double,
    DoubleArray,
    String,
    Vector,
    MapType,
    Array,
    List,
}

/// The name a built-in type is written with.
pub open spec fn primitive_name(p: Primitive) -> Seq<char> {
    match p {
        Primitive::Void => seq!['v', 'o', 'i', 'd'],
        Primitive::Bool => seq!['b', 'o', 'o', 'l', 'e', 'a', 'n'],
        Primitive::BoolArray => seq!['b', 'o', 'o', 'l', 'e', 'a', 'n', '[', ']'],
        Primitive::Char => seq!['c', 'h', 'a', 'r'],
        Primitive::CharArray => seq!['c', 'h', 'a', 'r', '[', ']'],
        Primitive::Byte => seq!['b', 'y', 't', 'e'],
        Primitive::ByteArray => seq!['b', 'y', 't', 'e', '[', ']'],
        Primitive::Int => seq!['i', 'n', 't'],
        Primitive::IntArray => seq!['i', 'n', 't', '[', ']'],
        Primitive::Long => seq!['l', 'o', 'n', 'g'],
        Primitive::LongArray => seq!['l', 'o', 'n', 'g', '[', ']'],
        Primitive::Float => seq!['f', 'l', 'o', 'a', 't'],
        Primitive::FloatArray => seq!['f', 'l', 'o', 'a', 't', '[', ']'],
        Primitive::Double => seq!['d', 'o', 'u', 'b', 'l', 'e'],
        Primitive::DoubleArray => seq!['d', 'o', 'u', 'b', 'l', 'e', '[', ']'],
        Primitive::String => seq!['S', 't', 'r', 'i', 'n', 'g'],
        Primitive::Vector => seq!['V', 'e', 'c', 't', 'o', 'r'],
        Primitive::MapType => seq!['M', 'a', 'p'],
        Primitive::Array => seq!['A', 'r', 'r', 'a', 'y'],
        Primitive::List => seq!['L', 'i', 's', 't'],
    }
}

/// Every built-in type, each once.
pub open spec fn all_primitives() -> Seq<Primitive> {
    seq![Primitive::Void, Primitive::Bool, Primitive::BoolArray, Primitive::Char, Primitive::CharArray, Primitive::Byte, Primitive::ByteArray, Primitive::Int, Primitive::IntArray, Primitive::Long, Primitive::LongArray, Primitive::Float, Primitive::FloatArray, Primitive::Double, Primitive::DoubleArray, Primitive::String, Primitive::Vector, Primitive::MapType, Primitive::Array, Primitive::List]
}

impl Primitive {
    pub fn get_name(&self) -> (r: &'static str)
        ensures
            r@ == primitive_name(*self),
    {
        let r = match self {
            Primitive::Void => {
                proof {
                    reveal_strlit("void");
                }
                "void"
            },
            Primitive::Bool => {
                proof {
                    reveal_strlit("boolean");
                }
                "boolean"
            },
            Primitive::BoolArray => {
                proof {
                    reveal_strlit("boolean[]");
                }
                "boolean[]"
            },
            Primitive::Char => {
                proof {
                    reveal_strlit("char");
                }
                "char"
            },
            Primitive::CharArray => {
                proof {
                    reveal_strlit("char[]");
                }
                "char[]"
            },
            Primitive::Byte => {
                proof {
                    reveal_strlit("byte");
                }
                "byte"
            },
            Primitive::ByteArray => {
                proof {
                    reveal_strlit("byte[]");
                }
                "byte[]"
            },
            Primitive::Int => {
                proof {
                    reveal_strlit("int");
                }
                "int"
            },
            Primitive::IntArray => {
                proof {
                    reveal_strlit("int[]");
                }
                "int[]"
            },
            Primitive::Long => {
                proof {
                    reveal_strlit("long");
                }
                "long"
            },
            Primitive::LongArray => {
                proof {
                    reveal_strlit("long[]");
                }
                "long[]"
            },
            Primitive::Float => {
                proof {
                    reveal_strlit("float");
                }
                "float"
            },
            Primitive::FloatArray => {
                proof {
                    reveal_strlit("float[]");
                }
                "float[]"
            },
            Primitive::Double => {
                proof {
                    reveal_strlit("double");
                }
                "double"
            },
            Primitive::DoubleArray => {
                proof {
                    reveal_strlit("double[]");
                }
                "double[]"
            },
            Primitive::String => {
                proof {
                    reveal_strlit("String");
                }
                "String"
            },
            Primitive::Vector => {
                proof {
                    reveal_strlit("Vector");
                }
                "Vector"
            },
            Primitive::MapType => {
                proof {
                    reveal_strlit("Map");
                }
                "Map"
            },
            Primitive::Array => {
                proof {
                    reveal_strlit("Array");
                }
                "Array"
            },
            Primitive::List => {
                proof {
                    reveal_strlit("List");
                }
                "List"
            },
        };
        proof {
            assert(r@ =~= primitive_name(*self));
        }
        r
    }

    /// Every built-in type, in declaration order.
    pub fn all() -> (r: Vec<Primitive>)
        ensures
            r@ == all_primitives(),
    {
        let r = vec![Primitive::Void, Primitive::Bool, Primitive::BoolArray, Primitive::Char, Primitive::CharArray, Primitive::Byte, Primitive::ByteArray, Primitive::Int, Primitive::IntArray, Primitive::Long, Primitive::LongArray, Primitive::Float, Primitive::FloatArray, Primitive::Double, Primitive::DoubleArray, Primitive::String, Primitive::Vector, Primitive::MapType, Primitive::Array, Primitive::List];
        assert(r@ =~= all_primitives());
        r
    }
}

} // verus!
