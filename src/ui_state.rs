//! Plain values that describe the model to a presentation layer.
use vstd::prelude::*;
use crate::model::{Arg, Const, EnumElement, Item, Key, Member, Method};
use crate::order::{lemma_text_lt_irreflexive, lemma_text_lt_transitive, text_less, text_lt};

verus! {

/// The symbols to choose from, and the chosen one (`-1`: none).
#[derive(Debug)]
pub struct UiSelection {
    pub items: Vec<UiSelectionItem>,
    pub current: i32,
}

/// A symbol as offered for selection.
#[derive(Debug)]
pub struct UiSelectionItem {
    pub item_type: ItemType,
    pub name: String,
    pub pkg_path: String,
    pub key: Key,
}

/// The kind of a symbol, in the order kinds are listed.
#[derive(Debug, Clone, Copy, PartialEq, Eq, PartialOrd, Ord)]
pub enum ItemType {
    Interface,
    Struct,
    Enum,
}

/// A symbol shown in a graph, expanded to its edges or not.
#[derive(Debug)]
pub struct UiNode {
    pub item: UiItem,
    pub state: UiNodeState,
}

/// A symbol with its members as one line of text each.
#[derive(Debug)]
pub struct UiItem {
    pub key: Key,
    pub item_type: ItemType,
    pub name: String,
    pub docu: String,
    pub members: Vec<UiMember>,
}

/// One const, method, member or enum element as text, with its ordinal.
#[derive(Debug)]
pub struct UiMember {
    pub text: String,
    pub docu: String,
    pub index: usize,
}

#[derive(Debug)]
pub enum UiNodeState {
    Expanded(Vec<UiEdge>),
    Collapsed,
}

/// An edge to a node, with the ordinals of the members it comes from.
#[derive(Debug)]
pub struct UiEdge {
    pub to: UiNode,
    pub from_indices: Vec<usize>,
}

pub open spec fn item_type_of(item: Item) -> ItemType {
    match item {
        Item::Interface(_) => ItemType::Interface,
        Item::Struct(_) => ItemType::Struct,
        Item::Enum(_) => ItemType::Enum,
    }
}

/// `const NAME: Type = value`
pub open spec fn const_text(c: Const) -> Seq<char> {
    "const "@ + c.name@ + ": "@ + c.const_type.name()@ + " = "@ + c.value@
}

/// `name: Type`
pub open spec fn member_text(m: Member) -> Seq<char> {
    m.arg.name@ + ": "@ + m.arg.arg_type.name()@
}

/// The type names of the first `n` args, separated by `, `.
pub open spec fn arg_types_text(args: Seq<Arg>, n: int) -> Seq<char>
    decreases n,
{
    if n <= 0 || n > args.len() {
        seq![]
    } else if n == 1 {
        args[0].arg_type.name()@
    } else {
        arg_types_text(args, n - 1) + ", "@ + args[n - 1].arg_type.name()@
    }
}

/// `name (T1, T2)`, followed by ` -> R` unless the method returns `void`.
pub open spec fn method_text(m: Method) -> Seq<char> {
    let base = m.name@ + " ("@ + arg_types_text(m.args@, m.args@.len() as int) + ")"@;
    if m.return_arg.arg_type.spec_is_void() {
        base
    } else {
        base + " -> "@ + m.return_arg.arg_type.name()@
    }
}

impl ItemType {
    pub fn of_model_item(model_item: &Item) -> (r: ItemType)
        ensures
            r == item_type_of(*model_item),
    {
        match model_item {
            Item::Interface(_) => ItemType::Interface,
            Item::Struct(_) => ItemType::Struct,
            Item::Enum(_) => ItemType::Enum,
        }
    }
}

impl UiSelectionItem {
    /// This entry describes `item`.
    pub open spec fn describes(&self, item: Item) -> bool {
        &&& self.item_type == item_type_of(item)
        &&& self.name@ == item.name()@
        &&& self.pkg_path@ == item.pkg().path@
        &&& self.key@ == item.key()
    }

    pub fn new_with_model_item(model_item: &Item) -> (r: UiSelectionItem)
        ensures
            r.describes(*model_item),
    {
        UiSelectionItem {
            item_type: ItemType::of_model_item(model_item),
            name: model_item.get_name().clone(),
            pkg_path: model_item.get_pkg().path.clone(),
            key: model_item.get_key(),
        }
    }
}

impl UiMember {
    pub fn new_from_model_const(model_const: &Const) -> (r: UiMember)
        ensures
            r.text@ == const_text(*model_const),
            r.docu == model_const.docu,
            r.index == model_const.index,
    {
        let mut text = "const ".to_owned();
        text.append(model_const.name.as_str());
        text.append(": ");
        text.append(model_const.const_type.get_name().as_str());
        text.append(" = ");
        text.append(model_const.value.as_str());
        UiMember { text, docu: model_const.docu.clone(), index: model_const.index }
    }

    pub fn new_from_model_member(model_member: &Member) -> (r: UiMember)
        ensures
            r.text@ == member_text(*model_member),
            r.docu == model_member.docu,
            r.index == model_member.index,
    {
        let mut text = model_member.arg.name.clone();
        text.append(": ");
        text.append(model_member.arg.arg_type.get_name().as_str());
        UiMember { text, docu: model_member.docu.clone(), index: model_member.index }
    }

    pub fn new_from_model_method(model_method: &Method) -> (r: UiMember)
        ensures
            r.text@ == method_text(*model_method),
            r.docu == model_method.docu,
            r.index == model_method.index,
    {
        let mut text = model_method.name.clone();
        text.append(" (");
        let ghost prefix = text@;
        let args = &model_method.args;
        let mut i: usize = 0;
        while i < args.len()
            invariant
                i <= args@.len(),
                text@ == prefix + arg_types_text(args@, i as int),
            decreases args@.len() - i,
        {
            if i > 0 {
                text.append(", ");
            }
            text.append(args[i].arg_type.get_name().as_str());
            i += 1;
        }
        text.append(")");
        let ret = &model_method.return_arg.arg_type;
        if !ret.is_void() {
            text.append(" -> ");
            text.append(ret.get_name().as_str());
        }
        UiMember { text, docu: model_method.docu.clone(), index: model_method.index }
    }

    pub fn new_from_enum_element(element: &EnumElement) -> (r: UiMember)
        ensures
            r.text == element.name,
            r.docu == element.docu,
            r.index == element.index,
    {
        UiMember { text: element.name.clone(), docu: element.docu.clone(), index: element.index }
    }
}


/// `m` is the line of const `c`.
pub open spec fn const_line(c: Const, m: UiMember) -> bool {
    m.text@ == const_text(c) && m.docu == c.docu && m.index == c.index
}

/// `m` is the line of method `x`.
pub open spec fn method_line(x: Method, m: UiMember) -> bool {
    m.text@ == method_text(x) && m.docu == x.docu && m.index == x.index
}

/// `m` is the line of struct member `x`.
pub open spec fn member_line(x: Member, m: UiMember) -> bool {
    m.text@ == member_text(x) && m.docu == x.docu && m.index == x.index
}

/// `m` is the line of enum element `e`.
pub open spec fn element_line(e: EnumElement, m: UiMember) -> bool {
    m.text == e.name && m.docu == e.docu && m.index == e.index
}

/// `ms` are the lines of `item`: an interface's consts then methods, a
/// struct's members, or an enum's elements, in order.
pub open spec fn member_lines(item: Item, ms: Seq<UiMember>) -> bool {
    match item {
        Item::Interface(i) => {
            &&& ms.len() == i.consts@.len() + i.methods@.len()
            &&& forall|k: int| 0 <= k < i.consts@.len() ==> const_line(i.consts@[k], #[trigger] ms[k])
            &&& forall|k: int|
                0 <= k < i.methods@.len() ==> method_line(i.methods@[k], #[trigger] ms[i.consts@.len() + k])
        },
        Item::Struct(s) => {
            &&& ms.len() == s.members@.len()
            &&& forall|k: int| 0 <= k < s.members@.len() ==> member_line(s.members@[k], #[trigger] ms[k])
        },
        Item::Enum(e) => {
            &&& ms.len() == e.elements@.len()
            &&& forall|k: int| 0 <= k < e.elements@.len() ==> element_line(e.elements@[k], #[trigger] ms[k])
        },
    }
}

impl UiItem {
    /// This node content describes `item`.
    pub open spec fn describes(&self, item: Item) -> bool {
        &&& self.key@ == item.key()
        &&& self.item_type == item_type_of(item)
        &&& self.name == item.name()
        &&& self.docu == item.docu()
        &&& member_lines(item, self.members@)
    }

    pub fn new_for_model_item(model_item: &Item) -> (r: UiItem)
        ensures
            r.describes(*model_item),
    {
        let mut members: Vec<UiMember> = Vec::new();
        match model_item {
            Item::Interface(i) => {
                let mut k: usize = 0;
                while k < i.consts.len()
                    invariant
                        k <= i.consts@.len(),
                        members@.len() == k,
                        forall|j: int| 0 <= j < k ==> const_line(i.consts@[j], #[trigger] members@[j]),
                    decreases i.consts@.len() - k,
                {
                    members.push(UiMember::new_from_model_const(&i.consts[k]));
                    k += 1;
                }
                let mut k: usize = 0;
                while k < i.methods.len()
                    invariant
                        k <= i.methods@.len(),
                        members@.len() == i.consts@.len() + k,
                        forall|j: int| 0 <= j < i.consts@.len() ==> const_line(i.consts@[j], #[trigger] members@[j]),
                        forall|j: int|
                            0 <= j < k ==> method_line(i.methods@[j], #[trigger] members@[i.consts@.len() + j]),
                    decreases i.methods@.len() - k,
                {
                    members.push(UiMember::new_from_model_method(&i.methods[k]));
                    k += 1;
                }
            },
            Item::Struct(s) => {
                let mut k: usize = 0;
                while k < s.members.len()
                    invariant
                        k <= s.members@.len(),
                        members@.len() == k,
                        forall|j: int| 0 <= j < k ==> member_line(s.members@[j], #[trigger] members@[j]),
                    decreases s.members@.len() - k,
                {
                    members.push(UiMember::new_from_model_member(&s.members[k]));
                    k += 1;
                }
            },
            Item::Enum(e) => {
                let mut k: usize = 0;
                while k < e.elements.len()
                    invariant
                        k <= e.elements@.len(),
                        members@.len() == k,
                        forall|j: int| 0 <= j < k ==> element_line(e.elements@[j], #[trigger] members@[j]),
                    decreases e.elements@.len() - k,
                {
                    members.push(UiMember::new_from_enum_element(&e.elements[k]));
                    k += 1;
                }
            },
        }
        UiItem {
            key: model_item.get_key(),
            item_type: ItemType::of_model_item(model_item),
            name: model_item.get_name().clone(),
            docu: model_item.get_docu().clone(),
            members,
        }
    }
}


pub open spec fn kind_rank(t: ItemType) -> int {
    match t {
        ItemType::Interface => 0,
        ItemType::Struct => 1,
        ItemType::Enum => 2,
    }
}

/// `a` is listed before `b`: by kind, then name (`by_kind`), or by package
/// path.
pub open spec fn entry_before(a: UiSelectionItem, b: UiSelectionItem, by_kind: bool) -> bool {
    if by_kind {
        kind_rank(a.item_type) < kind_rank(b.item_type) || (a.item_type == b.item_type && text_lt(
            a.name@,
            b.name@,
        ))
    } else {
        text_lt(a.pkg_path@, b.pkg_path@)
    }
}

/// No entry is listed after one it comes before.
pub open spec fn entries_sorted(s: Seq<UiSelectionItem>, by_kind: bool) -> bool {
    forall|i: int, j: int| 0 <= i < j < s.len() ==> !entry_before(#[trigger] s[j], #[trigger] s[i], by_kind)
}

/// Some entry describes `item`.
pub open spec fn listed_item(entries: Seq<UiSelectionItem>, item: Item) -> bool {
    exists|i: int| 0 <= i < entries.len() && (#[trigger] entries[i]).describes(item)
}

/// `entry` describes one of `items`.
pub open spec fn described(entry: UiSelectionItem, items: Seq<Item>) -> bool {
    exists|k: int| 0 <= k < items.len() && entry.describes(items[k])
}

/// `entries` describe `items`, one entry per symbol.
pub open spec fn lists(entries: Seq<UiSelectionItem>, items: Seq<Item>) -> bool {
    &&& entries.len() == items.len()
    &&& forall|i: int| 0 <= i < entries.len() ==> described(#[trigger] entries[i], items)
    &&& forall|k: int| 0 <= k < items.len() ==> listed_item(entries, #[trigger] items[k])
}

proof fn lemma_entry_order(a: UiSelectionItem, b: UiSelectionItem, c: UiSelectionItem, by_kind: bool)
    ensures
        !entry_before(a, a, by_kind),
        entry_before(a, b, by_kind) && entry_before(b, c, by_kind) ==> entry_before(a, c, by_kind),
{
    lemma_text_lt_irreflexive(a.name@, 0);
    lemma_text_lt_irreflexive(a.pkg_path@, 0);
    if entry_before(a, b, by_kind) && entry_before(b, c, by_kind) {
        if by_kind {
            if a.item_type == b.item_type && b.item_type == c.item_type {
                lemma_text_lt_transitive(a.name@, b.name@, c.name@, 0);
            }
        } else {
            lemma_text_lt_transitive(a.pkg_path@, b.pkg_path@, c.pkg_path@, 0);
        }
    }
}

fn entry_less(a: &UiSelectionItem, b: &UiSelectionItem, by_kind: bool) -> (r: bool)
    ensures
        r == entry_before(*a, *b, by_kind),
{
    if by_kind {
        let ra: u8 = match a.item_type {
            ItemType::Interface => 0,
            ItemType::Struct => 1,
            ItemType::Enum => 2,
        };
        let rb: u8 = match b.item_type {
            ItemType::Interface => 0,
            ItemType::Struct => 1,
            ItemType::Enum => 2,
        };
        ra < rb || (ra == rb && text_less(&a.name, &b.name))
    } else {
        text_less(&a.pkg_path, &b.pkg_path)
    }
}

/// Some position of `perm` holds `k`.
pub open spec fn covers(perm: Seq<int>, k: int) -> bool {
    exists|i: int| 0 <= i < perm.len() && perm[i] == k
}

/// One entry per symbol, sorted; entries that compare equal keep the
/// symbols' order.
fn sorted_entries(items: &Vec<Item>, by_kind: bool) -> (r: Vec<UiSelectionItem>)
    ensures
        lists(r@, items@),
        entries_sorted(r@, by_kind),
{
    let mut r: Vec<UiSelectionItem> = Vec::new();
    let ghost mut perm: Seq<int> = Seq::empty();
    let mut k: usize = 0;
    while k < items.len()
        invariant
            k <= items@.len(),
            r@.len() == k,
            perm.len() == k,
            forall|i: int| 0 <= i < k ==> 0 <= #[trigger] perm[i] < k && r@[i].describes(items@[perm[i]]),
            forall|k2: int| 0 <= k2 < k ==> #[trigger] covers(perm, k2),
            entries_sorted(r@, by_kind),
        decreases items@.len() - k,
    {
        let x = UiSelectionItem::new_with_model_item(&items[k]);
        let mut idx: usize = 0;
        while idx < r.len() && !entry_less(&x, &r[idx], by_kind)
            invariant
                idx <= r@.len(),
                forall|j: int| 0 <= j < idx ==> !entry_before(x, #[trigger] r@[j], by_kind),
            decreases r@.len() - idx,
        {
            idx += 1;
        }
        let ghost old_r = r@;
        let ghost old_perm = perm;
        proof {
            assert(idx < old_r.len() ==> entry_before(x, old_r[idx as int], by_kind));
        }
        r.insert(idx, x);
        proof {
            perm = perm.insert(idx as int, k as int);
            assert forall|i: int, j: int| 0 <= i < j < r@.len() implies !entry_before(#[trigger] r@[j], #[trigger] r@[i], by_kind) by {
                if i < idx && j < idx {
                    assert(r@[i] == old_r[i] && r@[j] == old_r[j]);
                } else if i < idx && j == idx {
                } else if i < idx && j > idx {
                    assert(r@[i] == old_r[i] && r@[j] == old_r[j - 1]);
                } else if i == idx {
                    assert(r@[j] == old_r[j - 1]);
                    lemma_entry_order(old_r[j - 1], x, old_r[idx as int], by_kind);
                    if entry_before(old_r[j - 1], x, by_kind) {
                        assert(entry_before(old_r[j - 1], old_r[idx as int], by_kind));
                        if j - 1 > idx {
                            assert(!entry_before(old_r[j - 1], old_r[idx as int], by_kind));
                        }
                    }
                } else {
                    assert(r@[i] == old_r[i - 1] && r@[j] == old_r[j - 1]);
                }
            }
            assert forall|i: int| 0 <= i < k + 1 implies 0 <= #[trigger] perm[i] < k + 1 && r@[i].describes(items@[perm[i]]) by {
                if i < idx {
                    assert(perm[i] == old_perm[i]);
                } else if i > idx {
                    assert(perm[i] == old_perm[i - 1]);
                }
            }
            assert forall|k2: int| 0 <= k2 < k + 1 implies #[trigger] covers(perm, k2) by {
                if k2 == k {
                    assert(perm[idx as int] == k2);
                } else {
                    assert(covers(old_perm, k2));
                    let i = choose|i: int| 0 <= i < old_perm.len() && old_perm[i] == k2;
                    if i < idx {
                        assert(perm[i] == k2);
                    } else {
                        assert(perm[i + 1] == k2);
                    }
                }
            }
        }
        k += 1;
    }
    proof {
        assert forall|i: int| 0 <= i < r@.len() implies described(#[trigger] r@[i], items@) by {
            assert(r@[i].describes(items@[perm[i]]));
        }
        assert forall|k2: int| 0 <= k2 < items@.len() implies listed_item(r@, #[trigger] items@[k2]) by {
            assert(covers(perm, k2));
            let i = choose|i: int| 0 <= i < perm.len() && perm[i] == k2;
            assert(r@[i].describes(items@[k2]));
        }
    }
    r
}

impl UiSelection {
    /// Every symbol, ordered by package path, with nothing chosen.
    pub fn new_with_model_items(model_items: &Vec<Item>) -> (r: UiSelection)
        ensures
            lists(r.items@, model_items@),
            entries_sorted(r.items@, false),
            r.current == -1,
    {
        UiSelection { items: sorted_entries(model_items, false), current: -1 }
    }
}

/// Every symbol, ordered by kind (interfaces, structs, enums), then name.
pub fn create_selection_items(items: &Vec<Item>) -> (r: Vec<UiSelectionItem>)
    ensures
        lists(r@, items@),
        entries_sorted(r@, true),
{
    sorted_entries(items, true)
}

} // verus!
