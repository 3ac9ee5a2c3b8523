//! Queries a presentation layer makes of a model, answered as plain values.
use vstd::prelude::*;
use crate::aidl::{built_from, create_model, ordinals_fit};
use crate::ast;
use crate::error::ParseContentError;
use crate::graph::{depends_on, depends_via};
use crate::parse::{elements_within, file_items_spec, file_outcome, parse};
use crate::model::{Error, Item, Key, Model};
use crate::ui_state::{
    create_selection_items, entries_sorted, lists, UiEdge, UiItem, UiNode, UiNodeState,
    UiSelection,
};

verus! {

/// A model with the list of its symbols to choose from.
pub struct UiController {
    pub model: Model,
    pub selection: UiSelection,
}

/// `e` is a collapsed edge to the symbol at `t`, carrying the ordinals
/// `o` for which `from_ordinal(o)` holds.
pub open spec fn edge_to(m: Model, e: UiEdge, t: int) -> bool {
    &&& 0 <= t < m.items@.len()
    &&& e.to.item.describes(m.items@[t])
    &&& e.to.state is Collapsed
    &&& e.from_indices@.no_duplicates()
}

/// `e` is the edge from `from` to one symbol it depends on, with the
/// ordinals that refer to it.
pub open spec fn dependency_edge(m: Model, from: Item, e: UiEdge) -> bool {
    exists|t: usize|
        edge_to(m, e, t as int) && #[trigger] depends_on(from, t) && forall|o: usize|
            e.from_indices@.contains(o) <==> depends_via(from, o, t)
}

/// Every symbol of the model that `from` depends on has an edge.
#[verifier::opaque]
pub open spec fn dependencies_covered(m: Model, from: Item, edges: Seq<UiEdge>) -> bool {
    forall|t: usize|
        t < m.items@.len() && #[trigger] depends_on(from, t) ==> exists|a: int|
            0 <= a < edges.len() && edge_to(m, edges[a], t as int)
}

/// An edge to the symbol at `t`.
pub open spec fn has_edge_to(m: Model, edges: Seq<UiEdge>, t: int) -> bool {
    exists|a: int| 0 <= a < edges.len() && edge_to(m, edges[a], t)
}

proof fn lemma_every_dependency_has_edge(
    m: Model,
    from: Item,
    deps: Seq<(Vec<usize>, usize)>,
    edges: Seq<UiEdge>,
)
    requires
        forall|b: int| 0 <= b < deps.len() && (#[trigger] deps[b]).1 < m.items@.len() ==> has_edge_to(m, edges, deps[b].1 as int),
        forall|t: usize| (exists|b: int| 0 <= b < deps.len() && #[trigger] deps[b].1 == t) <==> depends_on(from, t),
    ensures
        dependencies_covered(m, from, edges),
{
    reveal(dependencies_covered);
    assert forall|t: usize| t < m.items@.len() && #[trigger] depends_on(from, t) implies exists|a: int|
        0 <= a < edges.len() && edge_to(m, edges[a], t as int) by {
        let b = choose|b: int| 0 <= b < deps.len() && #[trigger] deps[b].1 == t;
        assert(has_edge_to(m, edges, deps[b].1 as int));
    }
}

/// `e` is the edge from one symbol that refers to the symbol keyed `key`,
/// with the ordinals that do.
pub open spec fn reference_edge(m: Model, key: Seq<char>, e: UiEdge) -> bool {
    exists|c: usize|
        edge_to(m, e, c as int) && #[trigger] m.is_referrer(c, key) && forall|o: usize|
            e.from_indices@.contains(o) <==> m.refers_via(m.items@[c as int], o, key)
}

/// No two edges lead to symbols of the same key.
pub open spec fn edges_distinct(edges: Seq<UiEdge>) -> bool {
    forall|a: int, b: int| 0 <= a < b < edges.len() ==> (#[trigger] edges[a]).to.item.key@ != (#[trigger] edges[b]).to.item.key@
}

/// Edges to pairwise distinct positions of a model with unique keys lead to
/// distinct symbols.
proof fn lemma_edges_distinct(m: Model, edges: Seq<UiEdge>, tgt: Seq<int>)
    requires
        m.keys_unique(),
        tgt.len() == edges.len(),
        forall|c: int| 0 <= c < edges.len() ==> edge_to(m, #[trigger] edges[c], tgt[c]),
        forall|c1: int, c2: int| 0 <= c1 < c2 < tgt.len() ==> tgt[c1] != tgt[c2],
    ensures
        edges_distinct(edges),
{
    assert forall|a: int, b: int| 0 <= a < b < edges.len() implies (#[trigger] edges[a]).to.item.key@
        != (#[trigger] edges[b]).to.item.key@ by {
        assert(edge_to(m, edges[a], tgt[a]));
        assert(edge_to(m, edges[b], tgt[b]));
        if tgt[a] < tgt[b] {
            assert(m.items@[tgt[a]].key() != m.items@[tgt[b]].key());
        } else {
            assert(m.items@[tgt[b]].key() != m.items@[tgt[a]].key());
        }
    }
}

/// Some entry before `a` among `deps` is for the symbol at `t`.
pub open spec fn among(deps: Seq<(Vec<usize>, usize)>, a: int, t: int) -> bool {
    exists|b: int| 0 <= b < a && deps[b].1 as int == t
}

/// A copy of a list of ordinals.
fn copy_ordinals(v: &Vec<usize>) -> (r: Vec<usize>)
    ensures
        r@ == v@,
{
    let mut r: Vec<usize> = Vec::new();
    let mut k: usize = 0;
    while k < v.len()
        invariant
            k <= v@.len(),
            r@ == v@.subrange(0, k as int),
        decreases v@.len() - k,
    {
        r.push(v[k]);
        k += 1;
        assert(r@ =~= v@.subrange(0, k as int));
    }
    assert(r@ =~= v@);
    r
}

impl UiController {
    /// A controller over `model`, its symbols listed by kind, then name.
    pub fn new(model: Model) -> (r: UiController)
        ensures
            r.model == model,
            lists(r.selection.items@, model.items@),
            entries_sorted(r.selection.items@, true),
            r.selection.current == -1,
    {
        let items = create_selection_items(&model.items);
        UiController { model, selection: UiSelection { items, current: -1 } }
    }

    /// A collapsed node for the symbol keyed `key`, if there is one.
    pub fn create_node(&self, key: &Key) -> (r: Option<UiNode>)
        ensures
            r is None <==> forall|i: int|
                0 <= i < self.model.items@.len() ==> (#[trigger] self.model.items@[i]).key() != key@,
            r matches Some(n) ==> n.state is Collapsed && exists|i: int|
                0 <= i < self.model.items@.len() && self.model.items@[i].key() == key@
                    && n.item.describes(#[trigger] self.model.items@[i]),
    {
        match self.model.get_index(key) {
            Ok(i) => {
                let item = UiItem::new_for_model_item(&self.model.items[i]);
                Some(UiNode { item, state: UiNodeState::Collapsed })
            },
            Err(_) => None,
        }
    }

    /// The edges from the symbol keyed `key` to each symbol it depends on,
    /// with the ordinals that refer to it; `NotFound` if no symbol has
    /// that key.
    pub fn get_dependencies(&self, key: &Key) -> (r: Result<Vec<UiEdge>, Error>)
        ensures
            r is Err <==> forall|i: int|
                0 <= i < self.model.items@.len() ==> (#[trigger] self.model.items@[i]).key() != key@,
            r matches Err(e) ==> e matches Error::NotFound(k) && k@ == key@,
            r matches Ok(edges) ==> exists|i: int|
                0 <= i < self.model.items@.len() && (#[trigger] self.model.items@[i]).key() == key@
                    && (forall|a: int|
                    0 <= a < edges@.len() ==> dependency_edge(self.model, self.model.items@[i], #[trigger] edges@[a]))
                    && dependencies_covered(self.model, self.model.items@[i], edges@),
            r matches Ok(edges) ==> self.model.keys_unique() ==> edges_distinct(edges@),
    {
        let i = self.model.get_index(key)?;
        let deps = self.model.find_dependencies(&self.model.items[i]);
        let ghost from = self.model.items@[i as int];
        let mut edges: Vec<UiEdge> = Vec::new();
        let ghost mut tgt: Seq<int> = Seq::empty();
        let mut a: usize = 0;
        while a < deps.len()
            invariant
                i < self.model.items@.len(),
                from == self.model.items@[i as int],
                a <= deps@.len(),
                forall|b: int| 0 <= b < deps@.len() ==> (#[trigger] deps@[b]).0@.no_duplicates(),
                forall|b: int, o: usize|
                    0 <= b < deps@.len() ==> (#[trigger] deps@[b].0@.contains(o) <==> depends_via(from, o, deps@[b].1)),
                forall|t: usize|
                    (exists|b: int| 0 <= b < deps@.len() && #[trigger] deps@[b].1 == t) <==> depends_on(from, t),
                forall|c: int| 0 <= c < edges@.len() ==> dependency_edge(self.model, from, #[trigger] edges@[c]),
                forall|b: int|
                    0 <= b < a && (#[trigger] deps@[b]).1 < self.model.items@.len() ==> has_edge_to(self.model, edges@, deps@[b].1 as int),
                forall|b1: int, b2: int| 0 <= b1 < b2 < deps@.len() ==> deps@[b1].1 != deps@[b2].1,
                tgt.len() == edges@.len(),
                forall|c: int| 0 <= c < edges@.len() ==> edge_to(self.model, #[trigger] edges@[c], tgt[c]),
                forall|c: int| 0 <= c < tgt.len() ==> among(deps@, a as int, #[trigger] tgt[c]),
                forall|c1: int, c2: int| 0 <= c1 < c2 < tgt.len() ==> tgt[c1] != tgt[c2],
            decreases deps@.len() - a,
        {
            let (ords, t) = &deps[a];
            if *t < self.model.items.len() {
                let item = UiItem::new_for_model_item(&self.model.items[*t]);
                let from_indices = copy_ordinals(ords);
                proof {
                    assert(deps@[a as int].1 == *t);
                    assert(depends_on(from, *t));
                }
                let edge = UiEdge { to: UiNode { item, state: UiNodeState::Collapsed }, from_indices };
                let ghost before = edges@;
                edges.push(edge);
                proof {
                    assert forall|c: int| 0 <= c < edges@.len() implies dependency_edge(self.model, from, #[trigger] edges@[c]) by {
                        if c < before.len() {
                            assert(edges@[c] == before[c]);
                        } else {
                            assert(edge_to(self.model, edges@[c], *t as int));
                        }
                    }
                    assert forall|b: int|
                        0 <= b < a + 1 && (#[trigger] deps@[b]).1 < self.model.items@.len() implies has_edge_to(self.model, edges@, deps@[b].1 as int) by {
                        if b < a {
                            let c = choose|c: int| 0 <= c < before.len() && edge_to(self.model, before[c], deps@[b].1 as int);
                            assert(edges@[c] == before[c]);
                        } else {
                            assert(edge_to(self.model, edges@[before.len() as int], deps@[b].1 as int));
                        }
                    }
                    let ghost old_tgt = tgt;
                    assert forall|c: int| 0 <= c < old_tgt.len() implies old_tgt[c] != *t as int by {
                        assert(among(deps@, a as int, old_tgt[c]));
                        let b = choose|b: int| 0 <= b < a && deps@[b].1 as int == old_tgt[c];
                        assert(deps@[b].1 != deps@[a as int].1);
                    }
                    tgt = tgt.push(*t as int);
                    assert forall|c: int| 0 <= c < edges@.len() implies edge_to(self.model, #[trigger] edges@[c], tgt[c]) by {
                        if c < before.len() {
                            assert(edges@[c] == before[c]);
                        }
                    }
                    assert forall|c: int| 0 <= c < tgt.len() implies among(deps@, a + 1, #[trigger] tgt[c]) by {
                        if c < old_tgt.len() {
                            assert(among(deps@, a as int, old_tgt[c]));
                            let b = choose|b: int| 0 <= b < a && deps@[b].1 as int == old_tgt[c];
                            assert(0 <= b < a + 1 && deps@[b].1 as int == tgt[c]);
                        } else {
                            assert(deps@[a as int].1 as int == tgt[c]);
                        }
                    }
                }
            } else {
                proof {
                    assert forall|c: int| 0 <= c < tgt.len() implies among(deps@, a + 1, #[trigger] tgt[c]) by {
                        assert(among(deps@, a as int, tgt[c]));
                        let b = choose|b: int| 0 <= b < a && deps@[b].1 as int == tgt[c];
                        assert(0 <= b < a + 1 && deps@[b].1 as int == tgt[c]);
                    }
                }
            }
            a += 1;
        }
        assert(self.model.items@[i as int].key() == key@);
        proof {
            lemma_every_dependency_has_edge(self.model, from, deps@, edges@);
            if self.model.keys_unique() {
                lemma_edges_distinct(self.model, edges@, tgt);
            }
        }
        Ok(edges)
    }
}


/// Every symbol that refers to the symbol keyed `key` has an edge.
#[verifier::opaque]
pub open spec fn referrers_covered(m: Model, key: Seq<char>, edges: Seq<UiEdge>) -> bool {
    forall|c: usize|
        c < m.items@.len() && #[trigger] m.is_referrer(c, key) ==> exists|a: int|
            0 <= a < edges.len() && edge_to(m, edges[a], c as int)
}

proof fn lemma_every_referrer_has_edge(
    m: Model,
    key: Seq<char>,
    refs: Seq<(Vec<usize>, usize)>,
    edges: Seq<UiEdge>,
)
    requires
        edges.len() == refs.len(),
        forall|b: int| 0 <= b < refs.len() ==> edge_to(m, #[trigger] edges[b], refs[b].1 as int),
        forall|c: usize| c < m.items@.len() ==> (crate::graph::listed(refs, c) <==> #[trigger] m.is_referrer(c, key)),
    ensures
        referrers_covered(m, key, edges),
{
    assert forall|c: usize| c < m.items@.len() && #[trigger] m.is_referrer(c, key) implies exists|a: int|
        0 <= a < edges.len() && edge_to(m, edges[a], c as int) by {
        assert(crate::graph::listed(refs, c));
        let b = choose|b: int| 0 <= b < refs.len() && #[trigger] refs[b].1 == c;
        assert(edge_to(m, edges[b], c as int));
    }
    reveal(referrers_covered);
}

impl UiController {
    fn reference_edge_from(&self, key: &Key, ords: &Vec<usize>, c: usize) -> (e: UiEdge)
        requires
            c < self.model.items@.len(),
            self.model.is_referrer(c, key@),
            ords@.no_duplicates(),
            forall|o: usize| ords@.contains(o) <==> self.model.refers_via(self.model.items@[c as int], o, key@),
        ensures
            reference_edge(self.model, key@, e),
            edge_to(self.model, e, c as int),
    {
        let item = UiItem::new_for_model_item(&self.model.items[c]);
        let from_indices = copy_ordinals(ords);
        UiEdge { to: UiNode { item, state: UiNodeState::Collapsed }, from_indices }
    }

    /// The edges to the symbol keyed `key` from each symbol that refers to
    /// it, with the ordinals that do; `NotFound` if no symbol has that key.
    pub fn get_references(&self, key: &Key) -> (r: Result<Vec<UiEdge>, Error>)
        ensures
            r is Err <==> forall|i: int|
                0 <= i < self.model.items@.len() ==> (#[trigger] self.model.items@[i]).key() != key@,
            r matches Err(e) ==> e matches Error::NotFound(k) && k@ == key@,
            r matches Ok(edges) ==> forall|a: int|
                0 <= a < edges@.len() ==> reference_edge(self.model, key@, #[trigger] edges@[a]),
            r matches Ok(edges) ==> referrers_covered(self.model, key@, edges@),
            r matches Ok(edges) ==> self.model.keys_unique() ==> edges_distinct(edges@),
    {
        let i = self.model.get_index(key)?;
        let refs = self.model.find_references(&self.model.items[i]);
        let mut edges: Vec<UiEdge> = Vec::new();
        let mut a: usize = 0;
        while a < refs.len()
            invariant
                self.model.items@[i as int].key() == key@,
                a <= refs@.len(),
                edges@.len() == a,
                forall|b: int| 0 <= b < refs@.len() ==> (#[trigger] refs@[b]).1 < self.model.items@.len(),
                forall|c: usize|
                    c < self.model.items@.len() ==> (crate::graph::listed(refs@, c) <==> #[trigger] self.model.is_referrer(c, key@)),
                forall|b: int| 0 <= b < refs@.len() ==> (#[trigger] refs@[b]).0@.no_duplicates(),
                forall|b: int, o: usize|
                    0 <= b < refs@.len() ==> (#[trigger] refs@[b].0@.contains(o) <==> self.model.refers_via(
                        self.model.items@[refs@[b].1 as int],
                        o,
                        key@,
                    )),
                forall|b: int| 0 <= b < a ==> edge_to(self.model, #[trigger] edges@[b], refs@[b].1 as int),
                forall|b: int| 0 <= b < a ==> reference_edge(self.model, key@, #[trigger] edges@[b]),
            decreases refs@.len() - a,
        {
            let (ords, c) = &refs[a];
            proof {
                assert(refs@[a as int].1 == *c);
                assert(crate::graph::listed(refs@, *c));
                assert forall|o: usize| ords@.contains(o) <==> self.model.refers_via(self.model.items@[*c as int], o, key@) by {
                    assert(refs@[a as int].0@.contains(o) <==> self.model.refers_via(
                        self.model.items@[refs@[a as int].1 as int],
                        o,
                        key@,
                    ));
                }
            }
            let edge = self.reference_edge_from(key, ords, *c);
            edges.push(edge);
            a += 1;
        }
        proof {
            lemma_every_referrer_has_edge(self.model, key@, refs@, edges@);
            if self.model.keys_unique() {
                let tgt = Seq::new(refs@.len(), |b: int| refs@[b].1 as int);
                assert forall|c: int| 0 <= c < edges@.len() implies edge_to(self.model, #[trigger] edges@[c], tgt[c]) by {
                    assert(edge_to(self.model, edges@[c], refs@[c].1 as int));
                }
                lemma_edges_distinct(self.model, edges@, tgt);
            }
        }
        Ok(edges)
    }
}


/// Parses one source file, builds and links its model, and puts a controller
/// over it; the syntax error if the text is not a file.
pub fn create_ui_controller(aidl: &str) -> (r: Result<UiController, ParseContentError>)
    requires
        aidl@.len() < usize::MAX,
    ensures
        r is Ok <==> file_outcome(aidl@) is Ok,
        r matches Ok(c) ==> c.model.wf() && lists(c.selection.items@, c.model.items@),
        r matches Ok(c) ==> exists|f: ast::File, m: Model|
            file_items_spec(aidl@, f) && #[trigger] built_from(seq![f], m) && m.linked(c.model),
{
    let file = parse(aidl)?;
    let files = vec![file];
    proof {
        assert forall|f: int, k: int|
            0 <= f < files@.len() && 0 <= k < files@[f].items@.len() implies match #[trigger] files@[f].items@[k] {
            ast::Item::Interface { consts, methods, .. } => consts@.len() + methods@.len() <= usize::MAX,
            _ => true,
        } by {
            assert(elements_within(files@[f].items@[k], aidl@.len() as int));
        }
    }
    let ghost f = files@[0];
    assert(files@ =~= seq![f]);
    let model = create_model(files);
    Ok(UiController::new(model))
}

} // verus!
