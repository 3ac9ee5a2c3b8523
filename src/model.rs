use vstd::prelude::*;

verus! {

/// A symbol's global identifier: `"{package}.{name}"`.
pub type Key = String;

/// The key of a symbol declared as `name` in the package at `path`.
pub open spec fn key_of(path: Seq<char>, name: Seq<char>) -> Seq<char> {
    path + seq!['.'] + name
}

/// Appends `b` to a copy of `a`.
pub(crate) fn concat(a: &String, b: &str) -> (r: String)
    ensures
        r@ == a@ + b@,
{
    let mut r = a.clone();
    r.append(b);
    r
}

pub(crate) fn make_key(path: &String, name: &String) -> (r: String)
    ensures
        r@ == key_of(path@, name@),
{
    let r = concat(path, ".");
    proof {
        reveal_strlit(".");
    }
    let r = concat(&r, name.as_str());
    r
}

/// The symbol universe: declared symbols, each under a unique key, and the
/// built-in types.
#[derive(Debug)]
pub struct Model {
    pub items: Vec<Item>,
    pub standard_types: Vec<StandardType>,
}

impl Model {
    /// No two symbols share a key.
    pub open spec fn keys_unique(&self) -> bool {
        forall|i: int, j: int|
            0 <= i < j < self.items@.len() ==> (#[trigger] self.items@[i]).key()
                != (#[trigger] self.items@[j]).key()
    }

    /// The model's invariant: keys are unique and each symbol's ordinals
    /// are contiguous from 0.
    pub open spec fn wf(&self) -> bool {
        &&& self.keys_unique()
        &&& forall|i: int| 0 <= i < self.items@.len() ==> ordinals_contiguous(#[trigger] self.items@[i])
    }
}

/// The ordinals of a symbol's consts and methods (in that order), members or
/// elements are `0, 1, 2, ...` in declaration order.
pub open spec fn ordinals_contiguous(item: Item) -> bool {
    match item {
        Item::Interface(i) => {
            &&& forall|k: int| 0 <= k < i.consts@.len() ==> (#[trigger] i.consts@[k]).index == k
            &&& forall|k: int|
                0 <= k < i.methods@.len() ==> (#[trigger] i.methods@[k]).index == i.consts@.len() + k
        },
        Item::Struct(s) => forall|k: int| 0 <= k < s.members@.len() ==> (#[trigger] s.members@[k]).index == k,
        Item::Enum(e) => forall|k: int| 0 <= k < e.elements@.len() ==> (#[trigger] e.elements@[k]).index == k,
    }
}

/// The ordinals of an interface's consts followed by its methods.
pub open spec fn interface_ordinals(i: Interface) -> Seq<int> {
    i.consts@.map_values(|c: Const| c.index as int) + i.methods@.map_values(|m: Method| m.index as int)
}

/// In a well-formed model the ordinals of an interface's consts followed by
/// its methods are exactly `0, 1, ..., N + M - 1`.
pub proof fn lemma_interface_ordinals(m: Model, k: int)
    requires
        m.wf(),
        0 <= k < m.items@.len(),
        m.items@[k] is Interface,
    ensures
        interface_ordinals(m.items@[k]->Interface_0) == Seq::new(
            (m.items@[k]->Interface_0.consts@.len() + m.items@[k]->Interface_0.methods@.len()) as nat,
            |j: int| j,
        ),
{
    let i = m.items@[k]->Interface_0;
    assert(ordinals_contiguous(m.items@[k]));
    assert(interface_ordinals(i) =~= Seq::new((i.consts@.len() + i.methods@.len()) as nat, |j: int| j));
}

/// Errors of lookups in a model.
#[derive(Debug)]
pub enum Error {
    NotFound(Key),
    InvalidType { key: Key, expected: String, found: String },
}

/// A dotted package path; `""` is the root package.
#[derive(Debug, PartialEq, Eq)]
pub struct Package {
    pub path: String,
}

impl Package {
    pub fn new(path: &str) -> (r: Package)
        ensures
            r.path@ == path@,
    {
        Package { path: path.to_owned() }
    }

    pub fn get_key(&self) -> (r: &String)
        ensures
            r == &self.path,
    {
        &self.path
    }

    /// A copy of this package.
    pub fn copy(&self) -> (r: Package)
        ensures
            r == *self,
    {
        Package { path: self.path.clone() }
    }
}


/// A declared symbol: an interface, a struct ("parcelable") or an enum.
#[derive(Debug)]
pub enum Item {
    Interface(Interface),
    Struct(Struct),
    Enum(Enum),
}

impl Item {
    pub open spec fn name(&self) -> String {
        match self {
            Item::Interface(i) => i.name,
            Item::Struct(s) => s.name,
            Item::Enum(e) => e.name,
        }
    }

    pub open spec fn pkg(&self) -> Package {
        match self {
            Item::Interface(i) => i.pkg,
            Item::Struct(s) => s.pkg,
            Item::Enum(e) => e.pkg,
        }
    }

    pub open spec fn docu(&self) -> String {
        match self {
            Item::Interface(i) => i.docu,
            Item::Struct(s) => s.docu,
            Item::Enum(e) => e.docu,
        }
    }

    pub open spec fn key(&self) -> Seq<char> {
        key_of(self.pkg().path@, self.name()@)
    }

    pub fn get_name(&self) -> (r: &String)
        ensures
            *r == self.name(),
    {
        match self {
            Item::Interface(i) => &i.name,
            Item::Struct(s) => &s.name,
            Item::Enum(e) => &e.name,
        }
    }

    pub fn get_pkg(&self) -> (r: &Package)
        ensures
            *r == self.pkg(),
    {
        match self {
            Item::Interface(i) => &i.pkg,
            Item::Struct(s) => &s.pkg,
            Item::Enum(e) => &e.pkg,
        }
    }

    pub fn get_key(&self) -> (r: Key)
        ensures
            r@ == self.key(),
    {
        make_key(&self.get_pkg().path, self.get_name())
    }

    pub fn get_docu(&self) -> (r: &String)
        ensures
            *r == self.docu(),
    {
        match self {
            Item::Interface(i) => &i.docu,
            Item::Struct(s) => &s.docu,
            Item::Enum(e) => &e.docu,
        }
    }
}

#[derive(Debug)]
pub struct Interface {
    pub pkg: Package,
    pub imports: Vec<String>,
    pub name: String,
    pub docu: String,
    pub consts: Vec<Const>,
    pub methods: Vec<Method>,
}

impl Interface {
    pub fn new(
        pkg: Package,
        imports: Vec<String>,
        name: String,
        docu: String,
        consts: Vec<Const>,
        methods: Vec<Method>,
    ) -> (r: Interface)
        ensures
            r == (Interface { pkg, imports, name, docu, consts, methods }),
    {
        Interface { pkg, imports, name, docu, consts, methods }
    }

    pub fn get_key(&self) -> (r: Key)
        ensures
            r@ == key_of(self.pkg.path@, self.name@),
    {
        make_key(&self.pkg.path, &self.name)
    }
}

#[derive(Debug)]
pub struct Struct {
    pub pkg: Package,
    pub imports: Vec<String>,
    pub name: String,
    pub docu: String,
    pub members: Vec<Member>,
}

impl Struct {
    pub fn new(pkg: Package, imports: Vec<String>, name: String, docu: String, members: Vec<Member>) -> (r: Struct)
        ensures
            r == (Struct { pkg, imports, name, docu, members }),
    {
        Struct { pkg, imports, name, docu, members }
    }

    pub fn get_key(&self) -> (r: Key)
        ensures
            r@ == key_of(self.pkg.path@, self.name@),
    {
        make_key(&self.pkg.path, &self.name)
    }
}

#[derive(Debug)]
pub struct Enum {
    pub pkg: Package,
    pub name: String,
    pub docu: String,
    pub elements: Vec<EnumElement>,
}

impl Enum {
    pub fn new(pkg: Package, name: String, docu: String, elements: Vec<EnumElement>) -> (r: Enum)
        ensures
            r == (Enum { pkg, name, docu, elements }),
    {
        Enum { pkg, name, docu, elements }
    }

    pub fn get_key(&self) -> (r: Key)
        ensures
            r@ == key_of(self.pkg.path@, self.name@),
    {
        make_key(&self.pkg.path, &self.name)
    }
}

/// `const Type NAME = value;` inside an interface; the value is kept as raw text.
#[derive(Debug)]
pub struct Const {
    pub name: String,
    pub const_type: Type,
    pub value: String,
    pub index: usize,
    pub docu: String,
}

impl Const {
    pub fn new(name: String, const_type: Type, value: String, index: usize, docu: String) -> (r: Const)
        ensures
            r == (Const { name, const_type, value, index, docu }),
    {
        Const { name, const_type, value, index, docu }
    }
}

/// A struct member: its typed name and its ordinal.
#[derive(Debug)]
pub struct Member {
    pub arg: Arg,
    pub index: usize,
    pub docu: String,
}

impl Member {
    pub fn new(arg: Arg, index: usize, docu: String) -> (r: Member)
        ensures
            r == (Member { arg, index, docu }),
    {
        Member { arg, index, docu }
    }
}

#[derive(Debug)]
pub struct Method {
    pub name: String,
    pub is_one_way: bool,
    pub return_arg: Arg,
    pub args: Vec<Arg>,
    pub index: usize,
    pub docu: String,
}

impl Method {
    pub fn new(
        name: String,
        is_one_way: bool,
        return_arg: Arg,
        args: Vec<Arg>,
        index: usize,
        docu: String,
    ) -> (r: Method)
        ensures
            r == (Method { name, is_one_way, return_arg, args, index, docu }),
    {
        Method { name, is_one_way, return_arg, args, index, docu }
    }
}

/// A typed name; generic type parameters are nested args.
#[derive(Debug)]
pub struct Arg {
    pub name: String,
    pub arg_type: Type,
    pub generic_args: Vec<Arg>,
}

impl Arg {
    pub fn new(name: String, arg_type: Type, generic_args: Vec<Arg>) -> (r: Arg)
        ensures
            r == (Arg { name, arg_type, generic_args }),
    {
        Arg { name, arg_type, generic_args }
    }
}

/// A handle on a declared symbol of a model: its position among the model's
/// items, with the package and name that it was resolved against.
#[derive(Debug, PartialEq, Eq)]
pub struct ItemRef {
    pub index: usize,
    pub pkg: Package,
    pub name: String,
}

#[derive(Debug)]
pub enum Type {
    Standard(StandardType),
    Unresolved(UnresolvedType),
    Item(ItemRef),
}

impl Type {
    pub open spec fn key(&self) -> Seq<char> {
        match self {
            Type::Standard(s) => s.key(),
            Type::Unresolved(u) => u.key(),
            Type::Item(i) => key_of(i.pkg.path@, i.name@),
        }
    }

    pub open spec fn name(&self) -> String {
        match self {
            Type::Standard(s) => s.name,
            Type::Unresolved(u) => u.name,
            Type::Item(i) => i.name,
        }
    }

    pub open spec fn spec_is_void(&self) -> bool {
        match self {
            Type::Standard(s) => s.name@ == seq!['v', 'o', 'i', 'd'],
            _ => false,
        }
    }

    pub fn get_key(&self) -> (r: Key)
        ensures
            r@ == self.key(),
    {
        match self {
            Type::Standard(s) => s.get_key(),
            Type::Unresolved(u) => u.get_key(),
            Type::Item(i) => make_key(&i.pkg.path, &i.name),
        }
    }

    pub fn get_name(&self) -> (r: &String)
        ensures
            *r == self.name(),
    {
        match self {
            Type::Standard(s) => &s.name,
            Type::Unresolved(u) => &u.name,
            Type::Item(i) => &i.name,
        }
    }

    pub fn is_void(&self) -> (r: bool)
        ensures
            r == self.spec_is_void(),
    {
        match self {
            Type::Standard(s) => s.is_void(),
            _ => false,
        }
    }
}

/// A built-in type, owned by the root package.
#[derive(Debug)]
pub struct StandardType {
    pub name: String,
    pub package: Package,
}

impl StandardType {
    pub open spec fn key(&self) -> Seq<char> {
        if self.package.path@.len() == 0 {
            self.name@
        } else {
            key_of(self.package.path@, self.name@)
        }
    }

    pub fn new(name: &str, package: Package) -> (r: StandardType)
        ensures
            r.name@ == name@,
            r.package == package,
    {
        StandardType { name: name.to_owned(), package }
    }

    pub fn is_void(&self) -> (r: bool)
        ensures
            r == (self.name@ == seq!['v', 'o', 'i', 'd']),
    {
        let void = "void".to_owned();
        proof {
            reveal_strlit("void");
            assert(void@ =~= seq!['v', 'o', 'i', 'd']);
        }
        self.name == void
    }

    pub fn get_key(&self) -> (r: Key)
        ensures
            r@ == self.key(),
    {
        if self.package.path.as_str().is_empty() {
            self.name.clone()
        } else {
            make_key(&self.package.path, &self.name)
        }
    }
}

/// A type reference before linking: the bare name as written and the package
/// of the declaration that wrote it.
#[derive(Debug)]
pub struct UnresolvedType {
    pub owner: Package,
    pub name: String,
}

impl UnresolvedType {
    pub open spec fn key(&self) -> Seq<char> {
        self.owner.path@ + seq![':'] + self.name@
    }

    pub fn new(owner: Package, name: String) -> (r: UnresolvedType)
        ensures
            r == (UnresolvedType { owner, name }),
    {
        UnresolvedType { owner, name }
    }

    pub fn get_key(&self) -> (r: Key)
        ensures
            r@ == self.key(),
    {
        let r = concat(&self.owner.path, ":");
        proof {
            reveal_strlit(":");
        }
        concat(&r, self.name.as_str())
    }
}

#[derive(Debug)]
pub struct EnumElement {
    pub name: String,
    pub value: String,
    pub index: usize,
    pub docu: String,
}

} // verus!
