//! Building a symbol model from parsed files, then linking it.
use vstd::prelude::*;
use crate::ast;
use crate::model::{
    key_of, Arg, Const, Enum, EnumElement, Interface, Item, Member, Method, Model, Package,
    StandardType, Struct, Type, UnresolvedType,
};
use crate::link::copy_strings;
use crate::primitive::{all_primitives, primitive_name, Primitive};

verus! {

/// A model arg as built from a written type: every type, generic
/// parameters included, is an unresolved reference from package `pkg`;
/// generic parameters have no name.
pub open spec fn arg_built(pkg: Package, t: ast::Type, name: Seq<char>, a: Arg) -> bool
    decreases t,
{
    &&& a.name@ == name
    &&& a.arg_type == Type::Unresolved(UnresolvedType { owner: pkg, name: t.name })
    &&& a.generic_args@.len() == t.generic_types@.len()
    &&& forall|i: int|
        0 <= i < t.generic_types@.len() ==> arg_built(
            pkg,
            t.generic_types@[i],
            seq![],
            #[trigger] a.generic_args@[i],
        )
}

pub open spec fn const_built(pkg: Package, index: int, c: ast::Const, r: Const) -> bool {
    &&& r.name == c.name
    &&& r.value == c.value
    &&& r.docu == c.docu
    &&& r.index == index
    &&& r.const_type == Type::Unresolved(UnresolvedType { owner: pkg, name: c.const_type.name })
}

pub open spec fn method_built(pkg: Package, index: int, m: ast::Method, r: Method) -> bool {
    &&& r.name == m.name
    &&& r.is_one_way == m.is_one_way
    &&& r.docu == m.docu
    &&& r.index == index
    &&& arg_built(pkg, m.return_type, seq![], r.return_arg)
    &&& r.args@.len() == m.args@.len()
    &&& forall|i: int|
        0 <= i < m.args@.len() ==> arg_built(
            pkg,
            m.args@[i].arg_type,
            m.args@[i].name@,
            #[trigger] r.args@[i],
        )
}

pub open spec fn member_built(pkg: Package, index: int, m: ast::Member, r: Member) -> bool {
    &&& r.docu == m.docu
    &&& r.index == index
    &&& arg_built(pkg, m.member_type, m.name@, r.arg)
}

pub open spec fn element_built(index: int, e: ast::EnumElement, r: EnumElement) -> bool {
    &&& r.name == e.name
    &&& r.value == e.value
    &&& r.docu == e.docu
    &&& r.index == index
}

/// The symbol built from the declaration `a` of `file`: ordinals follow
/// declaration order from 0, an interface's methods continuing after its
/// consts. Annotations are not kept.
pub open spec fn item_built(file: ast::File, a: ast::Item, r: Item) -> bool {
    let pkg = Package { path: file.package };
    match (a, r) {
        (ast::Item::Interface { name, docu, consts, methods, .. }, Item::Interface(r)) => {
            &&& r.pkg == pkg
            &&& r.imports@ == file.imports@
            &&& r.name == name
            &&& r.docu == docu
            &&& r.consts@.len() == consts@.len()
            &&& forall|i: int|
                0 <= i < consts@.len() ==> const_built(pkg, i, consts@[i], #[trigger] r.consts@[i])
            &&& r.methods@.len() == methods@.len()
            &&& forall|i: int|
                0 <= i < methods@.len() ==> method_built(
                    pkg,
                    consts@.len() + i,
                    methods@[i],
                    #[trigger] r.methods@[i],
                )
        },
        (ast::Item::Parcelable { name, docu, members, .. }, Item::Struct(r)) => {
            &&& r.pkg == pkg
            &&& r.imports@ == file.imports@
            &&& r.name == name
            &&& r.docu == docu
            &&& r.members@.len() == members@.len()
            &&& forall|i: int|
                0 <= i < members@.len() ==> member_built(pkg, i, members@[i], #[trigger] r.members@[i])
        },
        (ast::Item::Enum { name, docu, elements, .. }, Item::Enum(r)) => {
            &&& r.pkg == pkg
            &&& r.name == name
            &&& r.docu == docu
            &&& r.elements@.len() == elements@.len()
            &&& forall|i: int|
                0 <= i < elements@.len() ==> element_built(i, elements@[i], #[trigger] r.elements@[i])
        },
        _ => false,
    }
}

/// No interface has more consts and methods together than ordinals can count.
pub open spec fn ordinals_fit(files: Seq<ast::File>) -> bool {
    forall|f: int, k: int|
        0 <= f < files.len() && 0 <= k < files[f].items@.len() ==> match #[trigger] files[f].items@[k] {
            ast::Item::Interface { consts, methods, .. } => consts@.len() + methods@.len() <= usize::MAX,
            _ => true,
        }
}

fn create_model_package(pkg: &String) -> (r: Package)
    ensures
        r == (Package { path: *pkg }),
{
    Package { path: pkg.clone() }
}

fn create_model_unresolved_type(package: &Package, arg_type: &ast::Type) -> (r: UnresolvedType)
    ensures
        r == (UnresolvedType { owner: *package, name: arg_type.name }),
{
    UnresolvedType::new(package.copy(), arg_type.name.clone())
}

fn create_model_arg(package: &Package, arg_type: &ast::Type, name: String) -> (r: Arg)
    ensures
        arg_built(*package, *arg_type, name@, r),
    decreases arg_type,
{
    let mut generic_args: Vec<Arg> = Vec::new();
    let mut i: usize = 0;
    while i < arg_type.generic_types.len()
        invariant
            i <= arg_type.generic_types@.len(),
            generic_args@.len() == i,
            forall|j: int|
                0 <= j < i ==> arg_built(
                    *package,
                    arg_type.generic_types@[j],
                    seq![],
                    #[trigger] generic_args@[j],
                ),
        decreases arg_type.generic_types@.len() - i,
    {
        let g = create_model_arg(package, &arg_type.generic_types[i], String::new());
        generic_args.push(g);
        i += 1;
    }
    Arg::new(name, Type::Unresolved(create_model_unresolved_type(package, arg_type)), generic_args)
}

fn create_model_const(index: usize, package: &Package, the_const: &ast::Const) -> (r: Const)
    ensures
        const_built(*package, index as int, *the_const, r),
{
    let const_type = create_model_unresolved_type(package, &the_const.const_type);
    Const::new(
        the_const.name.clone(),
        Type::Unresolved(const_type),
        the_const.value.clone(),
        index,
        the_const.docu.clone(),
    )
}

fn create_model_member(index: usize, package: &Package, member: &ast::Member) -> (r: Member)
    ensures
        member_built(*package, index as int, *member, r),
{
    Member::new(create_model_arg(package, &member.member_type, member.name.clone()), index, member.docu.clone())
}

fn create_model_enum_element(index: usize, element: &ast::EnumElement) -> (r: EnumElement)
    ensures
        element_built(index as int, *element, r),
{
    EnumElement {
        name: element.name.clone(),
        value: element.value.clone(),
        index,
        docu: element.docu.clone(),
    }
}

fn create_model_method(index: usize, package: &Package, method: &ast::Method) -> (r: Method)
    ensures
        method_built(*package, index as int, *method, r),
{
    let return_arg = create_model_arg(package, &method.return_type, String::new());
    let mut args: Vec<Arg> = Vec::new();
    let mut i: usize = 0;
    while i < method.args.len()
        invariant
            i <= method.args@.len(),
            args@.len() == i,
            forall|j: int|
                0 <= j < i ==> arg_built(
                    *package,
                    method.args@[j].arg_type,
                    method.args@[j].name@,
                    #[trigger] args@[j],
                ),
        decreases method.args@.len() - i,
    {
        let a = &method.args[i];
        args.push(create_model_arg(package, &a.arg_type, a.name.clone()));
        i += 1;
    }
    Method::new(method.name.clone(), method.is_one_way, return_arg, args, index, method.docu.clone())
}


fn create_model_interface(
    pkg: &Package,
    imports: &Vec<String>,
    name: &String,
    consts: &Vec<ast::Const>,
    methods: &Vec<ast::Method>,
    docu: String,
) -> (r: Interface)
    requires
        consts@.len() + methods@.len() <= usize::MAX,
    ensures
        r.pkg == *pkg,
        r.imports@ == imports@,
        r.name == *name,
        r.docu == docu,
        r.consts@.len() == consts@.len(),
        forall|i: int| 0 <= i < consts@.len() ==> const_built(*pkg, i, consts@[i], #[trigger] r.consts@[i]),
        r.methods@.len() == methods@.len(),
        forall|i: int|
            0 <= i < methods@.len() ==> method_built(*pkg, consts@.len() + i, methods@[i], #[trigger] r.methods@[i]),
{
    let mut model_consts: Vec<Const> = Vec::new();
    let mut index: usize = 0;
    while index < consts.len()
        invariant
            index <= consts@.len(),
            model_consts@.len() == index,
            forall|i: int| 0 <= i < index ==> const_built(*pkg, i, consts@[i], #[trigger] model_consts@[i]),
        decreases consts@.len() - index,
    {
        model_consts.push(create_model_const(index, pkg, &consts[index]));
        index += 1;
    }
    let mut model_methods: Vec<Method> = Vec::new();
    let mut i: usize = 0;
    while i < methods.len()
        invariant
            consts@.len() + methods@.len() <= usize::MAX,
            index == consts@.len(),
            i <= methods@.len(),
            model_methods@.len() == i,
            forall|j: int|
                0 <= j < i ==> method_built(*pkg, consts@.len() + j, methods@[j], #[trigger] model_methods@[j]),
        decreases methods@.len() - i,
    {
        model_methods.push(create_model_method(index + i, pkg, &methods[i]));
        i += 1;
    }
    Interface::new(pkg.copy(), copy_strings(imports), name.clone(), docu, model_consts, model_methods)
}

fn create_model_struct(
    pkg: &Package,
    imports: &Vec<String>,
    name: &String,
    members: &Vec<ast::Member>,
    docu: String,
) -> (r: Struct)
    ensures
        r.pkg == *pkg,
        r.imports@ == imports@,
        r.name == *name,
        r.docu == docu,
        r.members@.len() == members@.len(),
        forall|i: int| 0 <= i < members@.len() ==> member_built(*pkg, i, members@[i], #[trigger] r.members@[i]),
{
    let mut model_members: Vec<Member> = Vec::new();
    let mut index: usize = 0;
    while index < members.len()
        invariant
            index <= members@.len(),
            model_members@.len() == index,
            forall|i: int| 0 <= i < index ==> member_built(*pkg, i, members@[i], #[trigger] model_members@[i]),
        decreases members@.len() - index,
    {
        model_members.push(create_model_member(index, pkg, &members[index]));
        index += 1;
    }
    Struct::new(pkg.copy(), copy_strings(imports), name.clone(), docu, model_members)
}

fn create_model_enum(pkg: &Package, name: &String, elements: &Vec<ast::EnumElement>, docu: String) -> (r: Enum)
    ensures
        r.pkg == *pkg,
        r.name == *name,
        r.docu == docu,
        r.elements@.len() == elements@.len(),
        forall|i: int| 0 <= i < elements@.len() ==> element_built(i, elements@[i], #[trigger] r.elements@[i]),
{
    let mut model_elements: Vec<EnumElement> = Vec::new();
    let mut index: usize = 0;
    while index < elements.len()
        invariant
            index <= elements@.len(),
            model_elements@.len() == index,
            forall|i: int| 0 <= i < index ==> element_built(i, elements@[i], #[trigger] model_elements@[i]),
        decreases elements@.len() - index,
    {
        model_elements.push(create_model_enum_element(index, &elements[index]));
        index += 1;
    }
    Enum::new(pkg.copy(), name.clone(), docu, model_elements)
}

fn create_model_item(file: &ast::File, pkg: &Package, item: &ast::Item) -> (r: Item)
    requires
        *pkg == (Package { path: file.package }),
        match *item {
            ast::Item::Interface { consts, methods, .. } => consts@.len() + methods@.len() <= usize::MAX,
            _ => true,
        },
    ensures
        item_built(*file, *item, r),
{
    match item {
        ast::Item::Interface { name, docu, consts, methods, .. } => Item::Interface(
            create_model_interface(pkg, &file.imports, name, consts, methods, docu.clone()),
        ),
        ast::Item::Parcelable { name, docu, members, .. } => Item::Struct(
            create_model_struct(pkg, &file.imports, name, members, docu.clone()),
        ),
        ast::Item::Enum { name, docu, elements, .. } => Item::Enum(
            create_model_enum(pkg, name, elements, docu.clone()),
        ),
    }
}


/// The key of declaration `k` of file `f`.
pub open spec fn decl_key(files: Seq<ast::File>, f: int, k: int) -> Seq<char> {
    key_of(files[f].package@, files[f].items@[k].name()@)
}

pub open spec fn is_decl(files: Seq<ast::File>, f: int, k: int) -> bool {
    0 <= f < files.len() && 0 <= k < files[f].items@.len()
}

/// Declaration `(f1, k1)` comes before `(f2, k2)` in the batch.
pub open spec fn before(f1: int, k1: int, f2: int, k2: int) -> bool {
    f1 < f2 || (f1 == f2 && k1 < k2)
}

/// No later declaration of the batch has the key of declaration `(f, k)`.
pub open spec fn last_with_key(files: Seq<ast::File>, f: int, k: int) -> bool {
    forall|f2: int, k2: int|
        is_decl(files, f2, k2) && before(f, k, f2, k2) ==> #[trigger] decl_key(files, f2, k2)
            != decl_key(files, f, k)
}

/// The built-in types of a fresh model: one per primitive, in order, each
/// owned by the root package.
pub open spec fn standard_types_built(s: Seq<StandardType>) -> bool {
    &&& s.len() == all_primitives().len()
    &&& forall|k: int|
        0 <= k < s.len() ==> (#[trigger] s[k]).name@ == primitive_name(all_primitives()[k])
            && s[k].package.path@.len() == 0
}

/// `r` is built from a declaration of the batch that no later one
/// overrides.
pub open spec fn from_last_decl(files: Seq<ast::File>, r: Item) -> bool {
    exists|f: int, k: int|
        is_decl(files, f, k) && last_with_key(files, f, k) && #[trigger] item_built(
            files[f],
            files[f].items@[k],
            r,
        )
}

/// `m` is the unlinked model of the batch `files`: one symbol per key, built
/// from the last declaration with that key (a later declaration silently
/// replaces an earlier one), and the built-in types.
pub open spec fn built_from(files: Seq<ast::File>, m: Model) -> bool {
    &&& m.wf()
    &&& standard_types_built(m.standard_types@)
    &&& forall|i: int| 0 <= i < m.items@.len() ==> from_last_decl(files, #[trigger] m.items@[i])
    &&& forall|f: int, k: int|
        is_decl(files, f, k) ==> exists|i: int|
            0 <= i < m.items@.len() && (#[trigger] m.items@[i]).key() == decl_key(files, f, k)
}

proof fn lemma_built_key(files: Seq<ast::File>, f: int, k: int, r: Item)
    requires
        is_decl(files, f, k),
        item_built(files[f], files[f].items@[k], r),
    ensures
        r.key() == decl_key(files, f, k),
        crate::model::ordinals_contiguous(r),
{
}

fn find_key(items: &Vec<Item>, key: &String) -> (r: Option<usize>)
    ensures
        match r {
            Some(i) => i < items@.len() && items@[i as int].key() == key@,
            None => forall|i: int| 0 <= i < items@.len() ==> (#[trigger] items@[i]).key() != key@,
        },
{
    let mut i: usize = 0;
    while i < items.len()
        invariant
            i <= items@.len(),
            forall|j: int| 0 <= j < i ==> (#[trigger] items@[j]).key() != key@,
        decreases items@.len() - i,
    {
        if items[i].get_key() == *key {
            return Some(i);
        }
        i += 1;
    }
    None
}

fn create_standard_types() -> (r: Vec<StandardType>)
    ensures
        standard_types_built(r@),
{
    let primitives = Primitive::all();
    let mut r: Vec<StandardType> = Vec::new();
    let mut i: usize = 0;
    while i < primitives.len()
        invariant
            primitives@ == all_primitives(),
            i <= primitives@.len(),
            r@.len() == i,
            forall|k: int|
                0 <= k < i ==> (#[trigger] r@[k]).name@ == primitive_name(all_primitives()[k])
                    && r@[k].package.path@.len() == 0,
        decreases primitives@.len() - i,
    {
        let root = Package::new("");
        proof {
            reveal_strlit("");
        }
        r.push(StandardType::new(primitives[i].get_name(), root));
        i += 1;
    }
    r
}

/// Some symbol of `items` has key `key`.
pub open spec fn has_key(items: Seq<Item>, key: Seq<char>) -> bool {
    exists|i: int| 0 <= i < items.len() && (#[trigger] items[i]).key() == key
}

/// Builds the unlinked model of a batch of parsed files: each type
/// reference is unresolved, tagged with the package of the declaration that
/// wrote it.
pub fn build_model(files: &Vec<ast::File>) -> (r: Model)
    requires
        ordinals_fit(files@),
    ensures
        built_from(files@, r),
{
    let mut items: Vec<Item> = Vec::new();
    let ghost mut src: Seq<(int, int)> = Seq::empty();
    let mut f: usize = 0;
    while f < files.len()
        invariant
            ordinals_fit(files@),
            f <= files@.len(),
            items@.len() == src.len(),
            forall|i: int, j: int|
                0 <= i < j < items@.len() ==> (#[trigger] items@[i]).key() != (#[trigger] items@[j]).key(),
            forall|i: int|
                0 <= i < src.len() ==> is_decl(files@, (#[trigger] src[i]).0, src[i].1) && before(src[i].0, src[i].1, f as int, 0)
                    && item_built(files@[src[i].0], files@[src[i].0].items@[src[i].1], items@[i]),
            forall|i: int, f2: int, k2: int|
                0 <= i < src.len() && is_decl(files@, f2, k2) && before(f2, k2, f as int, 0) && before((#[trigger] src[i]).0, src[i].1, f2, k2)
                    ==> #[trigger] decl_key(files@, f2, k2) != items@[i].key(),
            forall|f2: int, k2: int|
                is_decl(files@, f2, k2) && before(f2, k2, f as int, 0) ==> has_key(items@, #[trigger] decl_key(files@, f2, k2)),
        decreases files@.len() - f,
    {
        let file = &files[f];
        let pkg = create_model_package(&file.package);
        let mut k: usize = 0;
        while k < file.items.len()
            invariant
                ordinals_fit(files@),
                f < files@.len(),
                *file == files@[f as int],
                pkg == (Package { path: file.package }),
                k <= file.items@.len(),
                items@.len() == src.len(),
                forall|i: int, j: int|
                    0 <= i < j < items@.len() ==> (#[trigger] items@[i]).key() != (#[trigger] items@[j]).key(),
                forall|i: int|
                    0 <= i < src.len() ==> is_decl(files@, (#[trigger] src[i]).0, src[i].1) && before(src[i].0, src[i].1, f as int, k as int)
                        && item_built(files@[src[i].0], files@[src[i].0].items@[src[i].1], items@[i]),
                forall|i: int, f2: int, k2: int|
                    0 <= i < src.len() && is_decl(files@, f2, k2) && before(f2, k2, f as int, k as int) && before((#[trigger] src[i]).0, src[i].1, f2, k2)
                        ==> #[trigger] decl_key(files@, f2, k2) != items@[i].key(),
                forall|f2: int, k2: int|
                    is_decl(files@, f2, k2) && before(f2, k2, f as int, k as int) ==> has_key(items@, #[trigger] decl_key(files@, f2, k2)),
            decreases file.items@.len() - k,
        {
            assert(is_decl(files@, f as int, k as int));
            let item = create_model_item(file, &pkg, &file.items[k]);
            proof {
                lemma_built_key(files@, f as int, k as int, item);
            }
            let key = item.get_key();
            let ghost old_items = items@;
            let ghost old_src = src;
            let ghost pos: int;
            match find_key(&items, &key) {
                Some(idx) => {
                    items.set(idx, item);
                    proof {
                        src = src.update(idx as int, (f as int, k as int));
                        pos = idx as int;
                        assert forall|j: int| 0 <= j < items@.len() implies (#[trigger] items@[j]).key() == old_items[j].key() by {}
                    }
                },
                None => {
                    items.push(item);
                    proof {
                        src = src.push((f as int, k as int));
                        pos = old_items.len() as int;
                    }
                },
            }
            proof {
                let kk = decl_key(files@, f as int, k as int);
                assert(items@[pos] == item);
                assert(items@[pos].key() == kk);
                assert forall|j: int| 0 <= j < items@.len() && j != pos implies (#[trigger] items@[j]) == old_items[j] && src[j] == old_src[j] by {}
                assert forall|j: int| 0 <= j < items@.len() && j != pos implies (#[trigger] items@[j]).key() != kk by {
                    if j < old_items.len() && pos < old_items.len() {
                        assert(old_items[pos].key() == kk);
                        if j < pos {
                            assert(old_items[j].key() != old_items[pos].key());
                        } else {
                            assert(old_items[pos].key() != old_items[j].key());
                        }
                    }
                }
                assert forall|i: int, j: int|
                    0 <= i < j < items@.len() implies (#[trigger] items@[i]).key() != (#[trigger] items@[j]).key() by {
                    if i != pos && j != pos {
                        assert(old_items[i].key() != old_items[j].key());
                    }
                }
                assert forall|i: int, f2: int, k2: int|
                    0 <= i < src.len() && is_decl(files@, f2, k2) && before(f2, k2, f as int, k + 1) && before((#[trigger] src[i]).0, src[i].1, f2, k2)
                        implies #[trigger] decl_key(files@, f2, k2) != items@[i].key() by {
                    if i != pos {
                        if f2 == f && k2 == k {
                        } else {
                            assert(before(f2, k2, f as int, k as int));
                            assert(old_src[i] == src[i]);
                        }
                    }
                }
                assert forall|f2: int, k2: int|
                    is_decl(files@, f2, k2) && before(f2, k2, f as int, k + 1) implies has_key(items@, #[trigger] decl_key(files@, f2, k2)) by {
                    if f2 == f && k2 == k {
                        assert(items@[pos].key() == decl_key(files@, f2, k2));
                    } else {
                        assert(before(f2, k2, f as int, k as int));
                        assert(has_key(old_items, decl_key(files@, f2, k2)));
                        let i = choose|i: int| 0 <= i < old_items.len() && (#[trigger] old_items[i]).key() == decl_key(files@, f2, k2);
                        if i == pos {
                            assert(items@[pos].key() == decl_key(files@, f2, k2));
                        } else {
                            assert(items@[i].key() == decl_key(files@, f2, k2));
                        }
                    }
                }
            }
            k += 1;
        }
        proof {
            assert forall|f2: int, k2: int| is_decl(files@, f2, k2) implies (before(f2, k2, f as int, k as int) <==> before(f2, k2, f + 1, 0)) by {}
        }
        f += 1;
    }
    let r = Model { items, standard_types: create_standard_types() };
    proof {
        assert forall|i: int| 0 <= i < r.items@.len() implies from_last_decl(files@, #[trigger] r.items@[i]) by {
            let (f0, k0) = src[i];
            lemma_built_key(files@, f0, k0, r.items@[i]);
            assert(last_with_key(files@, f0, k0));
        }
        assert forall|i: int| 0 <= i < r.items@.len() implies crate::model::ordinals_contiguous(
            #[trigger] r.items@[i],
        ) by {
            lemma_built_key(files@, src[i].0, src[i].1, r.items@[i]);
        }
        assert forall|f: int, k: int| is_decl(files@, f, k) implies exists|i: int|
            0 <= i < r.items@.len() && (#[trigger] r.items@[i]).key() == decl_key(files@, f, k) by {
            assert(has_key(r.items@, decl_key(files@, f, k)));
        }
    }
    r
}


proof fn lemma_built_arg_refs(m: Model, pkg: Package, t: ast::Type, name: Seq<char>, a: Arg)
    requires
        arg_built(pkg, t, name, a),
    ensures
        crate::link::arg_refs_valid(m, a),
    decreases t,
{
    assert forall|i: int| 0 <= i < a.generic_args@.len() implies crate::link::arg_refs_valid(m, #[trigger] a.generic_args@[i]) by {
        lemma_built_arg_refs(m, pkg, t.generic_types@[i], seq![], a.generic_args@[i]);
    }
}

/// A freshly built model refers to no symbol yet: every type reference is
/// unresolved.
proof fn lemma_built_refs_valid(files: Seq<ast::File>, m: Model)
    requires
        built_from(files, m),
    ensures
        crate::link::refs_valid(m),
{
    assert forall|i: int| 0 <= i < m.items@.len() implies crate::link::item_refs_valid(m, #[trigger] m.items@[i]) by {
        assert(from_last_decl(files, m.items@[i]));
        let (f, k) = choose|f: int, k: int|
            is_decl(files, f, k) && last_with_key(files, f, k) && #[trigger] item_built(files[f], files[f].items@[k], m.items@[i]);
        let pkg = Package { path: files[f].package };
        match (files[f].items@[k], m.items@[i]) {
            (ast::Item::Interface { consts, methods, .. }, Item::Interface(x)) => {
                assert forall|q: int| 0 <= q < x.methods@.len() implies crate::link::arg_refs_valid(m, (#[trigger] x.methods@[q]).return_arg)
                    && forall|j: int| 0 <= j < x.methods@[q].args@.len() ==> crate::link::arg_refs_valid(m, #[trigger] x.methods@[q].args@[j]) by {
                    assert(method_built(pkg, consts@.len() + q, methods@[q], x.methods@[q]));
                    lemma_built_arg_refs(m, pkg, methods@[q].return_type, seq![], x.methods@[q].return_arg);
                    assert forall|j: int| 0 <= j < x.methods@[q].args@.len() implies crate::link::arg_refs_valid(m, #[trigger] x.methods@[q].args@[j]) by {
                        lemma_built_arg_refs(m, pkg, methods@[q].args@[j].arg_type, methods@[q].args@[j].name@, x.methods@[q].args@[j]);
                    }
                }
                assert forall|q: int| 0 <= q < x.consts@.len() implies crate::link::type_ref_valid(m, (#[trigger] x.consts@[q]).const_type) by {
                    assert(const_built(pkg, q, consts@[q], x.consts@[q]));
                }
            },
            (ast::Item::Parcelable { members, .. }, Item::Struct(x)) => {
                assert forall|q: int| 0 <= q < x.members@.len() implies crate::link::arg_refs_valid(m, (#[trigger] x.members@[q]).arg) by {
                    assert(member_built(pkg, q, members@[q], x.members@[q]));
                    lemma_built_arg_refs(m, pkg, members@[q].member_type, members@[q].name@, x.members@[q].arg);
                }
            },
            _ => {},
        }
    }
}

/// Builds the model of a batch of parsed files and links it. The result is
/// the linked form of the batch's unlinked model; references that stay
/// unresolved are left as they are.
pub fn create_model(files: Vec<ast::File>) -> (r: Model)
    requires
        ordinals_fit(files@),
    ensures
        r.wf(),
        crate::link::refs_valid(r),
        exists|m: Model| built_from(files@, m) && #[trigger] m.linked(r),
{
    create_model_with_warnings(files).0
}

/// Builds the model of a batch of parsed files and links it, as
/// `create_model` does, with the keys (`"{package}:{name}"`) of the
/// references that stay unresolved, one per reference, in declaration order.
pub fn create_model_with_warnings(files: Vec<ast::File>) -> (r: (Model, Vec<String>))
    requires
        ordinals_fit(files@),
    ensures
        r.0.wf(),
        crate::link::refs_valid(r.0),
        exists|m: Model|
            built_from(files@, m) && #[trigger] m.linked(r.0) && crate::link::views(r.1@) == m.items_warnings(
                m.items@.len() as int,
            ),
{
    let mut model = build_model(&files);
    let ghost unlinked = model;
    let warnings = model.resolve_types();
    proof {
        crate::link::lemma_linked_wf(unlinked, model);
        lemma_built_refs_valid(files@, unlinked);
        crate::link::lemma_linked_refs_valid(unlinked, model);
    }
    (model, warnings)
}


/// In the linked model of a batch, every symbol's key is its package path,
/// `.` and its name; no two symbols share a key; and every declaration of
/// the batch has its key there exactly once.
pub proof fn lemma_keys_unique(files: Seq<ast::File>, unlinked: Model, m: Model)
    requires
        built_from(files, unlinked),
        unlinked.linked(m),
    ensures
        forall|i: int| 0 <= i < m.items@.len() ==> (#[trigger] m.items@[i]).key() == m.items@[i].pkg().path@ + seq!['.'] + m.items@[i].name()@,
        m.keys_unique(),
        forall|f: int, k: int|
            is_decl(files, f, k) ==> exists|i: int|
                0 <= i < m.items@.len() && (#[trigger] m.items@[i]).key() == decl_key(files, f, k) && forall|j: int|
                    0 <= j < m.items@.len() && j != i ==> m.items@[j].key() != decl_key(files, f, k),
{
    crate::link::lemma_linked_wf(unlinked, m);
    assert forall|f: int, k: int| is_decl(files, f, k) implies exists|i: int|
        0 <= i < m.items@.len() && (#[trigger] m.items@[i]).key() == decl_key(files, f, k) && forall|j: int|
            0 <= j < m.items@.len() && j != i ==> m.items@[j].key() != decl_key(files, f, k) by {
        let i = choose|i: int| 0 <= i < unlinked.items@.len() && (#[trigger] unlinked.items@[i]).key() == decl_key(files, f, k);
        assert(m.items@[i].key() == decl_key(files, f, k));
        assert forall|j: int| 0 <= j < m.items@.len() && j != i implies m.items@[j].key() != decl_key(files, f, k) by {
            if j < i {
                assert(m.items@[j].key() != m.items@[i].key());
            } else {
                assert(m.items@[i].key() != m.items@[j].key());
            }
        }
    }
}

} // verus!
