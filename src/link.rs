//! Linking: every unresolved type reference of a model is resolved, where
//! possible, to a built-in type or to a declared symbol.
use vstd::prelude::*;
use crate::model::{
    concat, key_of, make_key, Arg, Const, Enum, EnumElement, Interface, Item, ItemRef, Member,
    Method, Model, Package, StandardType, Struct, Type, UnresolvedType,
};

verus! {

/// The character sequences of a sequence of strings.
pub open spec fn views(s: Seq<String>) -> Seq<Seq<char>> {
    s.map_values(|w: String| w@)
}

/// `name` names `item` through one of `imports`: either it is the item's
/// qualified name itself, or the import path followed by `.` and `name` is.
/// Both forms are tried only once per import, so an empty import list
/// matches nothing.
pub open spec fn import_matches(item: Item, name: Seq<char>, imports: Seq<String>) -> bool {
    import_matches_from(item.key(), name, imports, 0)
}

/// `name` names the symbol keyed `key` through one of `imports[k..]`.
pub open spec fn import_matches_from(key: Seq<char>, name: Seq<char>, imports: Seq<String>, k: int) -> bool
    decreases imports.len() - k,
{
    if k < 0 || k >= imports.len() {
        false
    } else if name == key || imports[k]@ + seq!['.'] + name == key {
        true
    } else {
        import_matches_from(key, name, imports, k + 1)
    }
}

/// The imports a struct's references are resolved with: its own and its package.
pub open spec fn struct_imports(s: Struct) -> Seq<String> {
    s.imports@.push(s.pkg.path)
}

impl Model {
    /// The first built-in type from position `i` on whose name is `name`.
    pub open spec fn lookup_standard(&self, name: Seq<char>, i: int) -> Option<int>
        decreases self.standard_types@.len() - i,
    {
        if i < 0 || i >= self.standard_types@.len() {
            None
        } else if self.standard_types@[i].name@ == name {
            Some(i)
        } else {
            self.lookup_standard(name, i + 1)
        }
    }

    /// The first symbol from position `i` on that is declared in the
    /// reference's own package under the bare name.
    pub open spec fn lookup_local(&self, ut: UnresolvedType, i: int) -> Option<int>
        decreases self.items@.len() - i,
    {
        if i < 0 || i >= self.items@.len() {
            None
        } else if self.items@[i].pkg().path@ == ut.owner.path@ && self.items@[i].name()@
            == ut.name@ {
            Some(i)
        } else {
            self.lookup_local(ut, i + 1)
        }
    }

    /// The first symbol from position `i` on that the bare name reaches
    /// through an import.
    pub open spec fn lookup_import(&self, ut: UnresolvedType, imports: Seq<String>, i: int) -> Option<int>
        decreases self.items@.len() - i,
    {
        if i < 0 || i >= self.items@.len() {
            None
        } else if import_matches(self.items@[i], ut.name@, imports) {
            Some(i)
        } else {
            self.lookup_import(ut, imports, i + 1)
        }
    }

    /// The handle on the symbol at position `k`.
    pub open spec fn item_ref(&self, k: int) -> ItemRef {
        ItemRef { index: k as usize, pkg: self.items@[k].pkg(), name: self.items@[k].name() }
    }

    /// What an unresolved reference resolves to: a built-in type of that name
    /// first, then a symbol of the same package, then one reached through an
    /// import.
    pub open spec fn resolution(&self, ut: UnresolvedType, imports: Seq<String>) -> Option<Type> {
        match self.lookup_standard(ut.name@, 0) {
            Some(k) => Some(Type::Standard(self.standard_types@[k])),
            None => match self.lookup_local(ut, 0) {
                Some(k) => Some(Type::Item(self.item_ref(k))),
                None => match self.lookup_import(ut, imports, 0) {
                    Some(k) => Some(Type::Item(self.item_ref(k))),
                    None => None,
                },
            },
        }
    }

    /// A type after linking: an unresolved reference is replaced by its
    /// resolution where there is one; every other type stays as it is.
    pub open spec fn linked_type(&self, t: Type, imports: Seq<String>) -> Type {
        match t {
            Type::Unresolved(ut) => match self.resolution(ut, imports) {
                Some(r) => r,
                None => t,
            },
            _ => t,
        }
    }

    /// The key of `t` if it is an unresolved reference that does not resolve.
    pub open spec fn type_warnings(&self, t: Type, imports: Seq<String>) -> Seq<Seq<char>> {
        match t {
            Type::Unresolved(ut) => if self.resolution(ut, imports) is None {
                seq![ut.key()]
            } else {
                seq![]
            },
            _ => seq![],
        }
    }

    /// `r` is `a` linked: same name, linked type, and each generic
    /// argument linked in turn.
    pub open spec fn arg_linked(&self, a: Arg, r: Arg, imports: Seq<String>) -> bool
        decreases a,
    {
        &&& r.name == a.name
        &&& r.arg_type == self.linked_type(a.arg_type, imports)
        &&& r.generic_args@.len() == a.generic_args@.len()
        &&& forall|i: int|
            0 <= i < a.generic_args@.len() ==> self.arg_linked(
                a.generic_args@[i],
                #[trigger] r.generic_args@[i],
                imports,
            )
    }

    /// Warnings of an arg: those of its generic arguments, then its own.
    pub open spec fn arg_warnings(&self, a: Arg, imports: Seq<String>) -> Seq<Seq<char>>
        decreases a, 0int,
    {
        self.args_warnings(a.generic_args@, a.generic_args@.len() as int, imports)
            + self.type_warnings(a.arg_type, imports)
    }

    /// Warnings of the first `n` args of `s`, in order.
    pub open spec fn args_warnings(&self, s: Seq<Arg>, n: int, imports: Seq<String>) -> Seq<Seq<char>>
        decreases s, n,
    {
        if n <= 0 || n > s.len() {
            seq![]
        } else {
            self.args_warnings(s, n - 1, imports) + self.arg_warnings(s[n - 1], imports)
        }
    }
}


impl Model {
    pub open spec fn const_linked(&self, c: Const, r: Const, imports: Seq<String>) -> bool {
        &&& r.name == c.name
        &&& r.value == c.value
        &&& r.index == c.index
        &&& r.docu == c.docu
        &&& r.const_type == self.linked_type(c.const_type, imports)
    }

    pub open spec fn method_linked(&self, m: Method, r: Method, imports: Seq<String>) -> bool {
        &&& r.name == m.name
        &&& r.is_one_way == m.is_one_way
        &&& r.index == m.index
        &&& r.docu == m.docu
        &&& self.arg_linked(m.return_arg, r.return_arg, imports)
        &&& r.args@.len() == m.args@.len()
        &&& forall|i: int|
            0 <= i < m.args@.len() ==> self.arg_linked(m.args@[i], #[trigger] r.args@[i], imports)
    }

    pub open spec fn member_linked(&self, m: Member, r: Member, imports: Seq<String>) -> bool {
        &&& r.index == m.index
        &&& r.docu == m.docu
        &&& self.arg_linked(m.arg, r.arg, imports)
    }

    /// `r` is the symbol `a` with every type reference linked; nothing else
    /// changes, ordinals included.
    pub open spec fn item_linked(&self, a: Item, r: Item) -> bool {
        match (a, r) {
            (Item::Interface(a), Item::Interface(r)) => {
                &&& r.pkg == a.pkg
                &&& r.imports@ == a.imports@
                &&& r.name == a.name
                &&& r.docu == a.docu
                &&& r.consts@.len() == a.consts@.len()
                &&& forall|i: int|
                    0 <= i < a.consts@.len() ==> self.const_linked(
                        a.consts@[i],
                        #[trigger] r.consts@[i],
                        a.imports@,
                    )
                &&& r.methods@.len() == a.methods@.len()
                &&& forall|i: int|
                    0 <= i < a.methods@.len() ==> self.method_linked(
                        a.methods@[i],
                        #[trigger] r.methods@[i],
                        a.imports@,
                    )
            },
            (Item::Struct(a), Item::Struct(r)) => {
                &&& r.pkg == a.pkg
                &&& r.imports@ == a.imports@
                &&& r.name == a.name
                &&& r.docu == a.docu
                &&& r.members@.len() == a.members@.len()
                &&& forall|i: int|
                    0 <= i < a.members@.len() ==> self.member_linked(
                        a.members@[i],
                        #[trigger] r.members@[i],
                        struct_imports(a),
                    )
            },
            (Item::Enum(a), Item::Enum(r)) => {
                &&& r.pkg == a.pkg
                &&& r.name == a.name
                &&& r.docu == a.docu
                &&& r.elements@ == a.elements@
            },
            _ => false,
        }
    }

    /// `new` is this model linked: the same built-in types, and each symbol
    /// linked against this model, in the same order.
    pub open spec fn linked(&self, new: Model) -> bool {
        &&& new.standard_types == self.standard_types
        &&& new.items@.len() == self.items@.len()
        &&& forall|i: int|
            0 <= i < self.items@.len() ==> self.item_linked(self.items@[i], #[trigger] new.items@[i])
    }

    pub open spec fn method_warnings(&self, m: Method, imports: Seq<String>) -> Seq<Seq<char>> {
        self.arg_warnings(m.return_arg, imports) + self.args_warnings(m.args@, m.args@.len() as int, imports)
    }

    pub open spec fn consts_warnings(&self, s: Seq<Const>, n: int, imports: Seq<String>) -> Seq<Seq<char>>
        decreases n,
    {
        if n <= 0 || n > s.len() {
            seq![]
        } else {
            self.consts_warnings(s, n - 1, imports) + self.type_warnings(s[n - 1].const_type, imports)
        }
    }

    pub open spec fn methods_warnings(&self, s: Seq<Method>, n: int, imports: Seq<String>) -> Seq<Seq<char>>
        decreases n,
    {
        if n <= 0 || n > s.len() {
            seq![]
        } else {
            self.methods_warnings(s, n - 1, imports) + self.method_warnings(s[n - 1], imports)
        }
    }

    pub open spec fn members_warnings(&self, s: Seq<Member>, n: int, imports: Seq<String>) -> Seq<Seq<char>>
        decreases n,
    {
        if n <= 0 || n > s.len() {
            seq![]
        } else {
            self.members_warnings(s, n - 1, imports) + self.arg_warnings(s[n - 1].arg, imports)
        }
    }

    /// The keys of the references of a symbol that stay unresolved, in
    /// declaration order: consts, then methods (return type, then
    /// arguments), or members.
    pub open spec fn item_warnings(&self, item: Item) -> Seq<Seq<char>> {
        match item {
            Item::Interface(i) => self.consts_warnings(i.consts@, i.consts@.len() as int, i.imports@)
                + self.methods_warnings(i.methods@, i.methods@.len() as int, i.imports@),
            Item::Struct(s) => self.members_warnings(
                s.members@,
                s.members@.len() as int,
                struct_imports(s),
            ),
            Item::Enum(_) => seq![],
        }
    }

    /// The warnings of the first `n` symbols, in order.
    pub open spec fn items_warnings(&self, n: int) -> Seq<Seq<char>>
        decreases n,
    {
        if n <= 0 || n > self.items@.len() {
            seq![]
        } else {
            self.items_warnings(n - 1) + self.item_warnings(self.items@[n - 1])
        }
    }
}

impl Type {
    /// A copy of this type.
    pub fn copy(&self) -> (r: Type)
        ensures
            r == *self,
    {
        match self {
            Type::Standard(s) => Type::Standard(s.copy()),
            Type::Unresolved(u) => Type::Unresolved(UnresolvedType { owner: u.owner.copy(), name: u.name.clone() }),
            Type::Item(i) => Type::Item(ItemRef { index: i.index, pkg: i.pkg.copy(), name: i.name.clone() }),
        }
    }
}

impl StandardType {
    /// A copy of this built-in type.
    pub fn copy(&self) -> (r: StandardType)
        ensures
            r == *self,
    {
        StandardType { name: self.name.clone(), package: self.package.copy() }
    }
}

/// A copy of a list of strings.
pub fn copy_strings(v: &Vec<String>) -> (r: Vec<String>)
    ensures
        r@ == v@,
{
    let mut r: Vec<String> = Vec::new();
    let mut i: usize = 0;
    while i < v.len()
        invariant
            i <= v@.len(),
            r@ == v@.subrange(0, i as int),
        decreases v@.len() - i,
    {
        r.push(v[i].clone());
        i += 1;
        assert(r@ =~= v@.subrange(0, i as int));
    }
    assert(r@ =~= v@);
    r
}

impl Model {
    fn find_standard(&self, name: &String) -> (r: Option<usize>)
        ensures
            r matches Some(k) ==> k < self.standard_types@.len(),
            match r {
                Some(k) => self.lookup_standard(name@, 0) == Some(k as int),
                None => self.lookup_standard(name@, 0) is None,
            },
    {
        let mut i: usize = 0;
        while i < self.standard_types.len()
            invariant
                i <= self.standard_types@.len(),
                self.lookup_standard(name@, 0) == self.lookup_standard(name@, i as int),
            decreases self.standard_types@.len() - i,
        {
            if self.standard_types[i].name == *name {
                return Some(i);
            }
            i += 1;
        }
        None
    }

    fn find_local(&self, ut: &UnresolvedType) -> (r: Option<usize>)
        ensures
            r matches Some(k) ==> k < self.items@.len(),
            match r {
                Some(k) => self.lookup_local(*ut, 0) == Some(k as int),
                None => self.lookup_local(*ut, 0) is None,
            },
    {
        let mut i: usize = 0;
        while i < self.items.len()
            invariant
                i <= self.items@.len(),
                self.lookup_local(*ut, 0) == self.lookup_local(*ut, i as int),
            decreases self.items@.len() - i,
        {
            let item = &self.items[i];
            if item.get_pkg().path == ut.owner.path && *item.get_name() == ut.name {
                return Some(i);
            }
            i += 1;
        }
        None
    }

    fn matches_import(item: &Item, name: &String, imports: &Vec<String>) -> (r: bool)
        ensures
            r == import_matches(*item, name@, imports@),
    {
        let key = item.get_key();
        let mut k: usize = 0;
        while k < imports.len()
            invariant
                k <= imports@.len(),
                key@ == item.key(),
                import_matches(*item, name@, imports@) == import_matches_from(key@, name@, imports@, k as int),
            decreases imports@.len() - k,
        {
            if *name == key {
                return true;
            }
            let qualified = make_key(&imports[k], name);
            if qualified == key {
                return true;
            }
            k += 1;
        }
        false
    }

    fn find_import(&self, ut: &UnresolvedType, imports: &Vec<String>) -> (r: Option<usize>)
        ensures
            r matches Some(k) ==> k < self.items@.len(),
            match r {
                Some(k) => self.lookup_import(*ut, imports@, 0) == Some(k as int),
                None => self.lookup_import(*ut, imports@, 0) is None,
            },
    {
        let mut i: usize = 0;
        while i < self.items.len()
            invariant
                i <= self.items@.len(),
                self.lookup_import(*ut, imports@, 0) == self.lookup_import(*ut, imports@, i as int),
            decreases self.items@.len() - i,
        {
            if Self::matches_import(&self.items[i], &ut.name, imports) {
                return Some(i);
            }
            i += 1;
        }
        None
    }

    fn make_item_ref(&self, k: usize) -> (r: ItemRef)
        requires
            k < self.items@.len(),
        ensures
            r == self.item_ref(k as int),
    {
        let item = &self.items[k];
        ItemRef { index: k, pkg: item.get_pkg().copy(), name: item.get_name().clone() }
    }

    /// Resolves one unresolved reference, trying built-in types, then the
    /// symbols of the reference's own package, then those reached through
    /// `imports`. Wildcard imports are not expanded.
    pub fn get_resolved_type(&self, unresolved_type: &UnresolvedType, imports: &Vec<String>) -> (r: Option<Type>)
        ensures
            r == self.resolution(*unresolved_type, imports@),
    {
        if let Some(k) = self.find_standard(&unresolved_type.name) {
            return Some(Type::Standard(self.standard_types[k].copy()));
        }
        if let Some(k) = self.find_local(unresolved_type) {
            return Some(Type::Item(self.make_item_ref(k)));
        }
        if let Some(k) = self.find_import(unresolved_type, imports) {
            return Some(Type::Item(self.make_item_ref(k)));
        }
        None
    }

    /// Links one type, and records the key of an unresolved reference that
    /// stays unresolved.
    fn resolved_type(&self, t: &Type, imports: &Vec<String>, warnings: &mut Vec<String>) -> (r: Type)
        ensures
            r == self.linked_type(*t, imports@),
            views(final(warnings)@) == views(old(warnings)@) + self.type_warnings(*t, imports@),
    {
        match t {
            Type::Unresolved(ut) => {
                match self.get_resolved_type(ut, imports) {
                    Some(r) => {
                        assert(views(warnings@) =~= views(warnings@) + self.type_warnings(*t, imports@));
                        r
                    },
                    None => {
                        let ghost before = warnings@;
                        warnings.push(ut.get_key());
                        assert(views(warnings@) =~= views(before) + self.type_warnings(*t, imports@));
                        t.copy()
                    },
                }
            },
            _ => {
                assert(views(warnings@) =~= views(warnings@) + self.type_warnings(*t, imports@));
                t.copy()
            },
        }
    }

    /// Links an arg and, in turn, each of its generic arguments.
    fn resolved_arg(&self, arg: &Arg, imports: &Vec<String>, warnings: &mut Vec<String>) -> (r: Arg)
        ensures
            self.arg_linked(*arg, r, imports@),
            views(final(warnings)@) == views(old(warnings)@) + self.arg_warnings(*arg, imports@),
        decreases arg,
    {
        let ghost start = views(warnings@);
        let mut generic_args: Vec<Arg> = Vec::new();
        let mut i: usize = 0;
        while i < arg.generic_args.len()
            invariant
                i <= arg.generic_args@.len(),
                generic_args@.len() == i,
                forall|j: int|
                    0 <= j < i ==> self.arg_linked(
                        arg.generic_args@[j],
                        #[trigger] generic_args@[j],
                        imports@,
                    ),
                views(warnings@) == start + self.args_warnings(arg.generic_args@, i as int, imports@),
            decreases arg.generic_args@.len() - i,
        {
            let ghost before = views(warnings@);
            let g = self.resolved_arg(&arg.generic_args[i], imports, warnings);
            generic_args.push(g);
            i += 1;
            assert(views(warnings@) =~= start + self.args_warnings(arg.generic_args@, i as int, imports@));
        }
        let ghost mid = views(warnings@);
        let arg_type = self.resolved_type(&arg.arg_type, imports, warnings);
        assert(views(warnings@) =~= start + self.arg_warnings(*arg, imports@));
        Arg { name: arg.name.clone(), arg_type, generic_args }
    }
}


impl EnumElement {
    /// A copy of this element.
    pub fn copy(&self) -> (r: EnumElement)
        ensures
            r == *self,
    {
        EnumElement {
            name: self.name.clone(),
            value: self.value.clone(),
            index: self.index,
            docu: self.docu.clone(),
        }
    }
}

impl Model {
    fn resolved_interface(&self, interface: &Interface, warnings: &mut Vec<String>) -> (r: Interface)
        ensures
            self.item_linked(Item::Interface(*interface), Item::Interface(r)),
            views(final(warnings)@) == views(old(warnings)@) + self.item_warnings(Item::Interface(*interface)),
    {
        let ghost start = views(warnings@);
        let imports = &interface.imports;
        let mut consts: Vec<Const> = Vec::new();
        let mut i: usize = 0;
        while i < interface.consts.len()
            invariant
                i <= interface.consts@.len(),
                consts@.len() == i,
                forall|j: int|
                    0 <= j < i ==> self.const_linked(
                        interface.consts@[j],
                        #[trigger] consts@[j],
                        imports@,
                    ),
                views(warnings@) == start + self.consts_warnings(interface.consts@, i as int, imports@),
            decreases interface.consts@.len() - i,
        {
            let c = &interface.consts[i];
            let const_type = self.resolved_type(&c.const_type, imports, warnings);
            consts.push(Const::new(c.name.clone(), const_type, c.value.clone(), c.index, c.docu.clone()));
            i += 1;
            assert(views(warnings@) =~= start + self.consts_warnings(interface.consts@, i as int, imports@));
        }
        let ghost mid = views(warnings@);
        let mut methods: Vec<Method> = Vec::new();
        let mut i: usize = 0;
        while i < interface.methods.len()
            invariant
                i <= interface.methods@.len(),
                methods@.len() == i,
                forall|j: int|
                    0 <= j < i ==> self.method_linked(
                        interface.methods@[j],
                        #[trigger] methods@[j],
                        imports@,
                    ),
                views(warnings@) == mid + self.methods_warnings(interface.methods@, i as int, imports@),
            decreases interface.methods@.len() - i,
        {
            let m = &interface.methods[i];
            let ghost before = views(warnings@);
            let return_arg = self.resolved_arg(&m.return_arg, imports, warnings);
            let ghost after_return = views(warnings@);
            let mut args: Vec<Arg> = Vec::new();
            let mut k: usize = 0;
            while k < m.args.len()
                invariant
                    i < interface.methods@.len(),
                    *m == interface.methods@[i as int],
                    k <= m.args@.len(),
                    args@.len() == k,
                    forall|j: int|
                        0 <= j < k ==> self.arg_linked(m.args@[j], #[trigger] args@[j], imports@),
                    views(warnings@) == after_return + self.args_warnings(m.args@, k as int, imports@),
                decreases m.args@.len() - k,
            {
                args.push(self.resolved_arg(&m.args[k], imports, warnings));
                k += 1;
                assert(views(warnings@) =~= after_return + self.args_warnings(m.args@, k as int, imports@));
            }
            methods.push(Method::new(m.name.clone(), m.is_one_way, return_arg, args, m.index, m.docu.clone()));
            i += 1;
            assert(views(warnings@) =~= mid + self.methods_warnings(interface.methods@, i as int, imports@));
        }
        assert(views(warnings@) =~= start + self.item_warnings(Item::Interface(*interface)));
        Interface::new(
            interface.pkg.copy(),
            copy_strings(imports),
            interface.name.clone(),
            interface.docu.clone(),
            consts,
            methods,
        )
    }

    fn resolved_struct(&self, structure: &Struct, warnings: &mut Vec<String>) -> (r: Struct)
        ensures
            self.item_linked(Item::Struct(*structure), Item::Struct(r)),
            views(final(warnings)@) == views(old(warnings)@) + self.item_warnings(Item::Struct(*structure)),
    {
        let ghost start = views(warnings@);
        let mut imports = copy_strings(&structure.imports);
        imports.push(structure.pkg.path.clone());
        assert(imports@ == struct_imports(*structure));
        let mut members: Vec<Member> = Vec::new();
        let mut i: usize = 0;
        while i < structure.members.len()
            invariant
                imports@ == struct_imports(*structure),
                i <= structure.members@.len(),
                members@.len() == i,
                forall|j: int|
                    0 <= j < i ==> self.member_linked(
                        structure.members@[j],
                        #[trigger] members@[j],
                        imports@,
                    ),
                views(warnings@) == start + self.members_warnings(structure.members@, i as int, imports@),
            decreases structure.members@.len() - i,
        {
            let m = &structure.members[i];
            let arg = self.resolved_arg(&m.arg, &imports, warnings);
            members.push(Member::new(arg, m.index, m.docu.clone()));
            i += 1;
            assert(views(warnings@) =~= start + self.members_warnings(structure.members@, i as int, imports@));
        }
        Struct::new(
            structure.pkg.copy(),
            copy_strings(&structure.imports),
            structure.name.clone(),
            structure.docu.clone(),
            members,
        )
    }

    fn resolved_enum(&self, enumeration: &Enum) -> (r: Enum)
        ensures
            self.item_linked(Item::Enum(*enumeration), Item::Enum(r)),
    {
        let mut elements: Vec<EnumElement> = Vec::new();
        let mut i: usize = 0;
        while i < enumeration.elements.len()
            invariant
                i <= enumeration.elements@.len(),
                elements@ == enumeration.elements@.subrange(0, i as int),
            decreases enumeration.elements@.len() - i,
        {
            elements.push(enumeration.elements[i].copy());
            i += 1;
            assert(elements@ =~= enumeration.elements@.subrange(0, i as int));
        }
        assert(elements@ =~= enumeration.elements@);
        Enum::new(enumeration.pkg.copy(), enumeration.name.clone(), enumeration.docu.clone(), elements)
    }

    fn resolved_item(&self, item: &Item, warnings: &mut Vec<String>) -> (r: Item)
        ensures
            self.item_linked(*item, r),
            views(final(warnings)@) == views(old(warnings)@) + self.item_warnings(*item),
    {
        match item {
            Item::Interface(i) => Item::Interface(self.resolved_interface(i, warnings)),
            Item::Struct(s) => Item::Struct(self.resolved_struct(s, warnings)),
            Item::Enum(e) => {
                assert(views(warnings@) =~= views(warnings@) + self.item_warnings(*item));
                Item::Enum(self.resolved_enum(e))
            },
        }
    }

    /// Links the model: every unresolved type reference of every symbol is
    /// replaced by its resolution where there is one. Returns the keys
    /// (`"{package}:{name}"`) of the references that stay unresolved, one per
    /// reference, in declaration order.
    pub fn resolve_types(&mut self) -> (warnings: Vec<String>)
        ensures
            old(self).linked(*final(self)),
            views(warnings@) == old(self).items_warnings(old(self).items@.len() as int),
    {
        let mut warnings: Vec<String> = Vec::new();
        let mut items: Vec<Item> = Vec::new();
        let mut i: usize = 0;
        while i < self.items.len()
            invariant
                i <= self.items@.len(),
                items@.len() == i,
                forall|j: int|
                    0 <= j < i ==> self.item_linked(self.items@[j], #[trigger] items@[j]),
                views(warnings@) == self.items_warnings(i as int),
            decreases self.items@.len() - i,
        {
            let item = self.resolved_item(&self.items[i], &mut warnings);
            items.push(item);
            i += 1;
            assert(views(warnings@) =~= self.items_warnings(i as int));
        }
        self.items = items;
        warnings
    }
}


/// Linking keeps every symbol's package, name and ordinals, so a
/// well-formed model stays well-formed.
pub proof fn lemma_linked_wf(m: Model, r: Model)
    requires
        m.wf(),
        m.linked(r),
    ensures
        r.wf(),
        forall|i: int| 0 <= i < r.items@.len() ==> (#[trigger] r.items@[i]).key() == m.items@[i].key(),
{
    assert forall|i: int| 0 <= i < r.items@.len() implies (#[trigger] r.items@[i]).key() == m.items@[i].key()
        && crate::model::ordinals_contiguous(r.items@[i]) by {
        assert(m.item_linked(m.items@[i], r.items@[i]));
        assert(crate::model::ordinals_contiguous(m.items@[i]));
    }
    assert forall|i: int, j: int| 0 <= i < j < r.items@.len() implies (#[trigger] r.items@[i]).key()
        != (#[trigger] r.items@[j]).key() by {
        assert(r.items@[i].key() == m.items@[i].key());
        assert(r.items@[j].key() == m.items@[j].key());
    }
}


proof fn lemma_lookup_standard_finds(m: Model, name: Seq<char>, i: int, k: int)
    requires
        0 <= i <= k < m.standard_types@.len(),
        m.standard_types@[k].name@ == name,
    ensures
        m.lookup_standard(name, i) matches Some(j) && i <= j <= k && m.standard_types@[j].name@ == name,
    decreases k - i,
{
    if m.standard_types@[i].name@ != name {
        lemma_lookup_standard_finds(m, name, i + 1, k);
    }
}

/// A bare name that is the name of a built-in type resolves to a built-in
/// type of that name, whatever symbols of that name the model declares and
/// whatever the imports are.
pub proof fn lemma_primitive_priority(m: Model, ut: UnresolvedType, imports: Seq<String>)
    requires
        exists|k: int| 0 <= k < m.standard_types@.len() && #[trigger] m.standard_types@[k].name@ == ut.name@,
    ensures
        m.resolution(ut, imports) matches Some(Type::Standard(st)) && st.name@ == ut.name@,
{
    let k = choose|k: int| 0 <= k < m.standard_types@.len() && #[trigger] m.standard_types@[k].name@ == ut.name@;
    lemma_lookup_standard_finds(m, ut.name@, 0, k);
}

/// `b` is `a` itself, down to every generic argument.
pub open spec fn arg_same(a: Arg, b: Arg) -> bool
    decreases a,
{
    &&& b.name == a.name
    &&& b.arg_type == a.arg_type
    &&& b.generic_args@.len() == a.generic_args@.len()
    &&& forall|i: int|
        0 <= i < a.generic_args@.len() ==> arg_same(a.generic_args@[i], #[trigger] b.generic_args@[i])
}

pub open spec fn method_same(a: Method, b: Method) -> bool {
    &&& b.name == a.name
    &&& b.is_one_way == a.is_one_way
    &&& b.index == a.index
    &&& b.docu == a.docu
    &&& arg_same(a.return_arg, b.return_arg)
    &&& b.args@.len() == a.args@.len()
    &&& forall|i: int| 0 <= i < a.args@.len() ==> arg_same(a.args@[i], #[trigger] b.args@[i])
}

/// `b` is the symbol `a`, down to every type reference.
pub open spec fn item_same(a: Item, b: Item) -> bool {
    match (a, b) {
        (Item::Interface(a), Item::Interface(b)) => {
            &&& b.pkg == a.pkg
            &&& b.imports@ == a.imports@
            &&& b.name == a.name
            &&& b.docu == a.docu
            &&& b.consts@ == a.consts@
            &&& b.methods@.len() == a.methods@.len()
            &&& forall|i: int| 0 <= i < a.methods@.len() ==> method_same(a.methods@[i], #[trigger] b.methods@[i])
        },
        (Item::Struct(a), Item::Struct(b)) => {
            &&& b.pkg == a.pkg
            &&& b.imports@ == a.imports@
            &&& b.name == a.name
            &&& b.docu == a.docu
            &&& b.members@.len() == a.members@.len()
            &&& forall|i: int|
                0 <= i < a.members@.len() ==> (#[trigger] b.members@[i]).index == a.members@[i].index
                    && b.members@[i].docu == a.members@[i].docu && arg_same(a.members@[i].arg, b.members@[i].arg)
        },
        (Item::Enum(a), Item::Enum(b)) => {
            &&& b.pkg == a.pkg
            &&& b.name == a.name
            &&& b.docu == a.docu
            &&& b.elements@ == a.elements@
        },
        _ => false,
    }
}

/// Two models whose symbols have the same packages and names, in the same
/// order, and the same built-in types resolve every reference alike.
proof fn lemma_same_names_resolve_alike(m1: Model, m2: Model, ut: UnresolvedType, imports: Seq<String>)
    requires
        m2.standard_types == m1.standard_types,
        m2.items@.len() == m1.items@.len(),
        forall|i: int|
            0 <= i < m1.items@.len() ==> (#[trigger] m2.items@[i]).pkg() == m1.items@[i].pkg()
                && m2.items@[i].name() == m1.items@[i].name(),
    ensures
        m1.resolution(ut, imports) is None ==> m2.resolution(ut, imports) is None,
{
    lemma_lookups_alike(m1, m2, ut, imports, 0);
    lemma_standard_alike(m1, m2, ut.name@, 0);
}

proof fn lemma_lookups_alike(m1: Model, m2: Model, ut: UnresolvedType, imports: Seq<String>, i: int)
    requires
        m2.items@.len() == m1.items@.len(),
        forall|j: int|
            0 <= j < m1.items@.len() ==> (#[trigger] m2.items@[j]).pkg() == m1.items@[j].pkg()
                && m2.items@[j].name() == m1.items@[j].name(),
    ensures
        m2.lookup_local(ut, i) == m1.lookup_local(ut, i),
        m2.lookup_import(ut, imports, i) == m1.lookup_import(ut, imports, i),
    decreases m1.items@.len() - i,
{
    if 0 <= i < m1.items@.len() {
        assert(m2.items@[i].key() == m1.items@[i].key());
        lemma_import_matches_same_key(m1.items@[i], m2.items@[i], ut.name@, imports);
        lemma_lookups_alike(m1, m2, ut, imports, i + 1);
    }
}

proof fn lemma_import_matches_same_key(a: Item, b: Item, name: Seq<char>, imports: Seq<String>)
    requires
        a.key() == b.key(),
    ensures
        import_matches(a, name, imports) == import_matches(b, name, imports),
{
}

proof fn lemma_standard_alike(m1: Model, m2: Model, name: Seq<char>, i: int)
    requires
        m2.standard_types == m1.standard_types,
    ensures
        m2.lookup_standard(name, i) == m1.lookup_standard(name, i),
    decreases m1.standard_types@.len() - i,
{
    if 0 <= i < m1.standard_types@.len() {
        lemma_standard_alike(m1, m2, name, i + 1);
    }
}

/// A type linked once is left as it is by a second linking.
proof fn lemma_type_link_stable(m1: Model, m2: Model, t: Type, imports: Seq<String>)
    requires
        m1.linked(m2),
    ensures
        m2.linked_type(m1.linked_type(t, imports), imports) == m1.linked_type(t, imports),
{
    assert forall|i: int| 0 <= i < m1.items@.len() implies (#[trigger] m2.items@[i]).pkg() == m1.items@[i].pkg()
        && m2.items@[i].name() == m1.items@[i].name() by {
        assert(m1.item_linked(m1.items@[i], m2.items@[i]));
    }
    if let Type::Unresolved(ut) = t {
        lemma_same_names_resolve_alike(m1, m2, ut, imports);
    }
}

proof fn lemma_arg_link_stable(m1: Model, m2: Model, a1: Arg, a2: Arg, a3: Arg, imports: Seq<String>)
    requires
        m1.linked(m2),
        m1.arg_linked(a1, a2, imports),
        m2.arg_linked(a2, a3, imports),
    ensures
        arg_same(a2, a3),
    decreases a1,
{
    lemma_type_link_stable(m1, m2, a1.arg_type, imports);
    assert forall|i: int| 0 <= i < a2.generic_args@.len() implies arg_same(
        a2.generic_args@[i],
        #[trigger] a3.generic_args@[i],
    ) by {
        lemma_arg_link_stable(m1, m2, a1.generic_args@[i], a2.generic_args@[i], a3.generic_args@[i], imports);
    }
}

/// Linking an already linked model changes nothing: the built-in types stay,
/// and every symbol comes out as it went in, down to every type reference.
pub proof fn lemma_link_idempotent(m1: Model, m2: Model, m3: Model)
    requires
        m1.linked(m2),
        m2.linked(m3),
    ensures
        m3.standard_types == m2.standard_types,
        m3.items@.len() == m2.items@.len(),
        forall|i: int| 0 <= i < m2.items@.len() ==> item_same(m2.items@[i], #[trigger] m3.items@[i]),
{
    assert forall|i: int| 0 <= i < m2.items@.len() implies item_same(m2.items@[i], #[trigger] m3.items@[i]) by {
        let (a1, a2, a3) = (m1.items@[i], m2.items@[i], m3.items@[i]);
        assert(m1.item_linked(a1, a2));
        assert(m2.item_linked(a2, a3));
        match (a1, a2, a3) {
            (Item::Interface(x1), Item::Interface(x2), Item::Interface(x3)) => {
                let imps = x1.imports@;
                assert forall|k: int| 0 <= k < x2.consts@.len() implies x3.consts@[k] == x2.consts@[k] by {
                    assert(m1.const_linked(x1.consts@[k], x2.consts@[k], imps));
                    assert(m2.const_linked(x2.consts@[k], x3.consts@[k], imps));
                    lemma_type_link_stable(m1, m2, x1.consts@[k].const_type, imps);
                }
                assert(x3.consts@ =~= x2.consts@);
                assert forall|k: int| 0 <= k < x2.methods@.len() implies method_same(
                    x2.methods@[k],
                    #[trigger] x3.methods@[k],
                ) by {
                    let (y1, y2, y3) = (x1.methods@[k], x2.methods@[k], x3.methods@[k]);
                    assert(m1.method_linked(y1, y2, imps));
                    assert(m2.method_linked(y2, y3, imps));
                    lemma_arg_link_stable(m1, m2, y1.return_arg, y2.return_arg, y3.return_arg, imps);
                    assert forall|j: int| 0 <= j < y2.args@.len() implies arg_same(
                        y2.args@[j],
                        #[trigger] y3.args@[j],
                    ) by {
                        lemma_arg_link_stable(m1, m2, y1.args@[j], y2.args@[j], y3.args@[j], imps);
                    }
                }
            },
            (Item::Struct(x1), Item::Struct(x2), Item::Struct(x3)) => {
                assert(struct_imports(x2) == struct_imports(x1));
                assert forall|k: int| 0 <= k < x2.members@.len() implies (#[trigger] x3.members@[k]).index
                    == x2.members@[k].index && x3.members@[k].docu == x2.members@[k].docu && arg_same(
                    x2.members@[k].arg,
                    x3.members@[k].arg,
                ) by {
                    assert(m1.member_linked(x1.members@[k], x2.members@[k], struct_imports(x1)));
                    assert(m2.member_linked(x2.members@[k], x3.members@[k], struct_imports(x2)));
                    lemma_arg_link_stable(
                        m1,
                        m2,
                        x1.members@[k].arg,
                        x2.members@[k].arg,
                        x3.members@[k].arg,
                        struct_imports(x1),
                    );
                }
            },
            _ => {},
        }
    }
}


/// A symbol reference in `t`, if any, designates in `m` a symbol of the
/// package and name it carries.
pub open spec fn type_ref_valid(m: Model, t: Type) -> bool {
    match t {
        Type::Item(r) => r.index < m.items@.len() && m.items@[r.index as int].pkg() == r.pkg
            && m.items@[r.index as int].name() == r.name,
        _ => true,
    }
}

/// Every symbol reference in `a`, generic arguments included, is valid in `m`.
pub open spec fn arg_refs_valid(m: Model, a: Arg) -> bool
    decreases a,
{
    &&& type_ref_valid(m, a.arg_type)
    &&& forall|i: int| 0 <= i < a.generic_args@.len() ==> arg_refs_valid(m, #[trigger] a.generic_args@[i])
}

/// Every symbol reference in `it` is valid in `m`.
pub open spec fn item_refs_valid(m: Model, it: Item) -> bool {
    match it {
        Item::Interface(i) => {
            &&& forall|k: int| 0 <= k < i.consts@.len() ==> type_ref_valid(m, (#[trigger] i.consts@[k]).const_type)
            &&& forall|k: int|
                0 <= k < i.methods@.len() ==> arg_refs_valid(m, (#[trigger] i.methods@[k]).return_arg)
                    && forall|j: int| 0 <= j < i.methods@[k].args@.len() ==> arg_refs_valid(m, #[trigger] i.methods@[k].args@[j])
        },
        Item::Struct(s) => forall|k: int| 0 <= k < s.members@.len() ==> arg_refs_valid(m, (#[trigger] s.members@[k]).arg),
        Item::Enum(_) => true,
    }
}

/// Every symbol reference of the model designates one of its symbols.
pub open spec fn refs_valid(m: Model) -> bool {
    forall|i: int| 0 <= i < m.items@.len() ==> item_refs_valid(m, #[trigger] m.items@[i])
}

proof fn lemma_lookups_in_range(m: Model, ut: UnresolvedType, imports: Seq<String>, i: int)
    requires
        0 <= i,
    ensures
        m.lookup_local(ut, i) matches Some(k) ==> 0 <= k < m.items@.len(),
        m.lookup_import(ut, imports, i) matches Some(k) ==> 0 <= k < m.items@.len(),
    decreases m.items@.len() - i,
{
    if i < m.items@.len() {
        lemma_lookups_in_range(m, ut, imports, i + 1);
    }
}

proof fn lemma_type_ref_linked(m1: Model, m2: Model, t: Type, imports: Seq<String>)
    requires
        m1.linked(m2),
        type_ref_valid(m1, t),
    ensures
        type_ref_valid(m2, m1.linked_type(t, imports)),
{
    assert forall|i: int| 0 <= i < m1.items@.len() implies (#[trigger] m2.items@[i]).pkg() == m1.items@[i].pkg()
        && m2.items@[i].name() == m1.items@[i].name() by {
        assert(m1.item_linked(m1.items@[i], m2.items@[i]));
    }
    if let Type::Unresolved(ut) = t {
        lemma_lookups_in_range(m1, ut, imports, 0);
        assert(m1.items@.len() == m1.items.len());
        if let Some(Type::Item(r)) = m1.resolution(ut, imports) {
            assert(r.index < m2.items@.len());
        }
    }
}

proof fn lemma_arg_refs_linked(m1: Model, m2: Model, a: Arg, r: Arg, imports: Seq<String>)
    requires
        m1.linked(m2),
        arg_refs_valid(m1, a),
        m1.arg_linked(a, r, imports),
    ensures
        arg_refs_valid(m2, r),
    decreases a,
{
    lemma_type_ref_linked(m1, m2, a.arg_type, imports);
    assert forall|i: int| 0 <= i < r.generic_args@.len() implies arg_refs_valid(m2, #[trigger] r.generic_args@[i]) by {
        lemma_arg_refs_linked(m1, m2, a.generic_args@[i], r.generic_args@[i], imports);
    }
}

/// Linking keeps every symbol reference valid, and every reference it makes
/// designates the symbol it was resolved to.
pub proof fn lemma_linked_refs_valid(m1: Model, m2: Model)
    requires
        m1.linked(m2),
        refs_valid(m1),
    ensures
        refs_valid(m2),
{
    assert forall|i: int| 0 <= i < m2.items@.len() implies item_refs_valid(m2, #[trigger] m2.items@[i]) by {
        let (a, b) = (m1.items@[i], m2.items@[i]);
        assert(m1.item_linked(a, b));
        assert(item_refs_valid(m1, a));
        match (a, b) {
            (Item::Interface(x), Item::Interface(y)) => {
                assert forall|k: int| 0 <= k < y.consts@.len() implies type_ref_valid(m2, (#[trigger] y.consts@[k]).const_type) by {
                    assert(m1.const_linked(x.consts@[k], y.consts@[k], x.imports@));
                    lemma_type_ref_linked(m1, m2, x.consts@[k].const_type, x.imports@);
                }
                assert forall|k: int| 0 <= k < y.methods@.len() implies arg_refs_valid(m2, (#[trigger] y.methods@[k]).return_arg)
                    && forall|j: int| 0 <= j < y.methods@[k].args@.len() ==> arg_refs_valid(m2, #[trigger] y.methods@[k].args@[j]) by {
                    assert(m1.method_linked(x.methods@[k], y.methods@[k], x.imports@));
                    lemma_arg_refs_linked(m1, m2, x.methods@[k].return_arg, y.methods@[k].return_arg, x.imports@);
                    assert forall|j: int| 0 <= j < y.methods@[k].args@.len() implies arg_refs_valid(m2, #[trigger] y.methods@[k].args@[j]) by {
                        lemma_arg_refs_linked(m1, m2, x.methods@[k].args@[j], y.methods@[k].args@[j], x.imports@);
                    }
                }
            },
            (Item::Struct(x), Item::Struct(y)) => {
                assert forall|k: int| 0 <= k < y.members@.len() implies arg_refs_valid(m2, (#[trigger] y.members@[k]).arg) by {
                    assert(m1.member_linked(x.members@[k], y.members@[k], struct_imports(x)));
                    lemma_arg_refs_linked(m1, m2, x.members@[k].arg, y.members@[k].arg, struct_imports(x));
                }
            },
            _ => {},
        }
    }
}

} // verus!
