//! A token-level description of declarations: native and container types,
//! custom types by package and name, and enum values with their ids.
use vstd::prelude::*;

verus! {

pub enum AIDLToken {
    Package { name: String },
    Interface { methods: Vec<Method> },
    Parcelable { items: Vec<ParcelableItem> },
    Enum { backing_type: String, values: Vec<EnumValue> },
}

pub struct Method {
    pub is_one_way: bool,
    pub name: String,
    pub args: Vec<MethodArg>,
    pub return_type: Type,
}

pub struct MethodArg {
    pub name: String,
    pub arg_type: Type,
}

pub enum Type {
    Native(NativeType),
    Container { container_type: ContainerType, contained: Box<Type> },
    Custom(CustomType),
}

pub enum ContainerType {
    Array,
    Vector,
}

pub enum NativeType {
    Boolean,
    Byte,
    Char,
    Int,
    String,
    ByteArray,
    IntArray,
}

pub struct CustomType {
    pub package: String,
    pub name: String,
}

pub struct ParcelableItem {
    pub name: String,
    pub item_type: Type,
}

pub struct EnumValue {
    pub name: String,
    pub id: i32,
}

} // verus!
