//! The syntax tree of one source file, as the parser produces it.
use vstd::prelude::*;

verus! {

/// One parsed compilation unit.
#[derive(Debug, PartialEq)]
pub struct File {
    pub package: String,
    pub imports: Vec<String>,
    pub items: Vec<Item>,
}

/// An element of an interface body.
#[derive(Debug, PartialEq)]
pub enum InterfaceElement {
    Const(Const),
    Method(Method),
}

/// A top-level declaration.
#[derive(Debug, PartialEq)]
pub enum Item {
    Interface {
        name: String,
        docu: String,
        consts: Vec<Const>,
        methods: Vec<Method>,
        annotations: Vec<Annotation>,
    },
    Parcelable {
        name: String,
        docu: String,
        members: Vec<Member>,
        annotations: Vec<Annotation>,
    },
    Enum {
        name: String,
        docu: String,
        elements: Vec<EnumElement>,
        annotations: Vec<Annotation>,
    },
}

impl Item {
    pub open spec fn name(&self) -> String {
        match self {
            Item::Interface { name, .. } => *name,
            Item::Parcelable { name, .. } => *name,
            Item::Enum { name, .. } => *name,
        }
    }

    pub open spec fn annotations(&self) -> Vec<Annotation> {
        match self {
            Item::Interface { annotations, .. } => *annotations,
            Item::Parcelable { annotations, .. } => *annotations,
            Item::Enum { annotations, .. } => *annotations,
        }
    }

    pub open spec fn docu(&self) -> String {
        match self {
            Item::Interface { docu, .. } => *docu,
            Item::Parcelable { docu, .. } => *docu,
            Item::Enum { docu, .. } => *docu,
        }
    }
}

/// `const Type NAME = value;`
#[derive(Debug, PartialEq)]
pub struct Const {
    pub name: String,
    pub const_type: Type,
    pub value: String,
    pub docu: String,
    pub annotations: Vec<Annotation>,
}

impl Const {
    pub fn new(name: &str, const_type: Type, value: &str, docu: String, annotations: Vec<Annotation>) -> (r: Const)
        ensures
            r.name@ == name@,
            r.const_type == const_type,
            r.value@ == value@,
            r.docu == docu,
            r.annotations == annotations,
    {
        Const { name: name.to_owned(), const_type, value: value.to_owned(), docu, annotations }
    }
}

/// `[oneway] ReturnType name(args) [= id];`
#[derive(Debug, PartialEq)]
pub struct Method {
    pub is_one_way: bool,
    pub name: String,
    pub return_type: Type,
    pub args: Vec<Arg>,
    pub docu: String,
    pub annotations: Vec<Annotation>,
}

impl Method {
    pub fn new(
        is_one_way: bool,
        name: &str,
        return_type: Type,
        args: Vec<Arg>,
        docu: String,
        annotations: Vec<Annotation>,
    ) -> (r: Method)
        ensures
            r.is_one_way == is_one_way,
            r.name@ == name@,
            r.return_type == return_type,
            r.args == args,
            r.docu == docu,
            r.annotations == annotations,
    {
        Method { is_one_way, name: name.to_owned(), return_type, args, docu, annotations }
    }
}

/// A method argument: `[annotations] [direction] Type [name]`.
#[derive(Debug, PartialEq)]
pub struct Arg {
    pub direction: Direction,
    pub name: String,
    pub arg_type: Type,
    pub annotations: Vec<Annotation>,
}

impl Arg {
    pub fn new(direction: Direction, name: &str, arg_type: Type, annotations: Vec<Annotation>) -> (r: Arg)
        ensures
            r.direction == direction,
            r.name@ == name@,
            r.arg_type == arg_type,
            r.annotations == annotations,
    {
        Arg { direction, name: name.to_owned(), arg_type, annotations }
    }

    /// A named arg with no direction and no annotation.
    pub fn with_name(name: &str, arg_type: Type) -> (r: Arg)
        ensures
            r.direction == Direction::Unspecified,
            r.name@ == name@,
            r.arg_type == arg_type,
            r.annotations@.len() == 0,
    {
        Self::with_direction(Direction::Unspecified, name, arg_type)
    }

    /// An arg with no annotation.
    pub fn with_direction(direction: Direction, name: &str, arg_type: Type) -> (r: Arg)
        ensures
            r.direction == direction,
            r.name@ == name@,
            r.arg_type == arg_type,
            r.annotations@.len() == 0,
    {
        Arg { direction, name: name.to_owned(), arg_type, annotations: Vec::new() }
    }

    /// An arg with no name, no direction and no annotation.
    pub fn unnamed(arg_type: Type) -> (r: Arg)
        ensures
            r.direction == Direction::Unspecified,
            r.name@.len() == 0,
            r.arg_type == arg_type,
            r.annotations@.len() == 0,
    {
        let r = Self::with_direction(Direction::Unspecified, "", arg_type);
        proof {
            reveal_strlit("");
        }
        r
    }
}

#[derive(Debug, PartialEq, Eq, Clone, Copy)]
pub enum Direction {
    In,
    Out,
    InOut,
    Unspecified,
}

/// An annotation's text after `@`, kept as written and never interpreted.
#[derive(Debug, PartialEq)]
pub struct Annotation(pub String);

/// A type as written: a possibly dotted name and its generic parameters.
/// `Name[]` is read as the generic `Array<Name>`.
#[derive(Debug, PartialEq)]
pub struct Type {
    pub name: String,
    pub generic_types: Vec<Type>,
}

impl Type {
    pub fn new(name: &str, generic_types: Vec<Type>) -> (r: Type)
        ensures
            r.name@ == name@,
            r.generic_types == generic_types,
    {
        Type { name: name.to_owned(), generic_types }
    }

    pub fn with_name(name: &str) -> (r: Type)
        ensures
            r.name@ == name@,
            r.generic_types@.len() == 0,
    {
        Type { name: name.to_owned(), generic_types: Vec::new() }
    }
}

/// A struct member: `[annotations] Type name [= value];`
#[derive(Debug, PartialEq)]
pub struct Member {
    pub name: String,
    pub member_type: Type,
    pub docu: String,
    pub annotations: Vec<Annotation>,
}

impl Member {
    pub fn new(name: &str, member_type: Type, docu: String, annotations: Vec<Annotation>) -> (r: Member)
        ensures
            r.name@ == name@,
            r.member_type == member_type,
            r.docu == docu,
            r.annotations == annotations,
    {
        Member { name: name.to_owned(), member_type, docu, annotations }
    }
}

/// `NAME [= value]` inside an enum; the value is kept as raw text.
#[derive(Debug, PartialEq)]
pub struct EnumElement {
    pub name: String,
    pub value: String,
    pub docu: String,
}

} // verus!
