//! Dependency and reference queries over a linked model.
use vstd::prelude::*;
use crate::model::{Arg, Enum, Error, Interface, Item, Member, Method, Model, Struct, Type};

verus! {

/// The symbol a type refers to, if it is a linked symbol reference.
pub open spec fn type_deps(t: Type) -> Seq<usize> {
    match t {
        Type::Item(r) => seq![r.index],
        _ => seq![],
    }
}

/// The symbols an arg refers to: those of its generic arguments, in order,
/// then its own. Symbols are not followed any further.
pub open spec fn arg_deps(a: Arg) -> Seq<usize>
    decreases a, 0int,
{
    args_deps(a.generic_args@, a.generic_args@.len() as int) + type_deps(a.arg_type)
}

/// The symbols the first `n` args of `s` refer to, in order.
pub open spec fn args_deps(s: Seq<Arg>, n: int) -> Seq<usize>
    decreases s, n,
{
    if n <= 0 || n > s.len() {
        seq![]
    } else {
        args_deps(s, n - 1) + arg_deps(s[n - 1])
    }
}

/// Each symbol of `s`, paired with the ordinal `o` that introduced it.
pub open spec fn tagged(o: usize, s: Seq<usize>) -> Seq<(usize, usize)> {
    s.map_values(|t: usize| (o, t))
}

/// The symbols a method refers to through its arguments, then its return type.
pub open spec fn method_deps(m: Method) -> Seq<(usize, usize)> {
    tagged(m.index, args_deps(m.args@, m.args@.len() as int) + arg_deps(m.return_arg))
}

pub open spec fn methods_deps(s: Seq<Method>, n: int) -> Seq<(usize, usize)>
    decreases n,
{
    if n <= 0 || n > s.len() {
        seq![]
    } else {
        methods_deps(s, n - 1) + method_deps(s[n - 1])
    }
}

pub open spec fn members_deps(s: Seq<Member>, n: int) -> Seq<(usize, usize)>
    decreases n,
{
    if n <= 0 || n > s.len() {
        seq![]
    } else {
        members_deps(s, n - 1) + tagged(s[n - 1].index, arg_deps(s[n - 1].arg))
    }
}

/// Every (ordinal, symbol) pair by which a symbol refers to another, in
/// declaration order, repeats included. Enums refer to nothing.
pub open spec fn dependency_seq(item: Item) -> Seq<(usize, usize)> {
    match item {
        Item::Interface(i) => methods_deps(i.methods@, i.methods@.len() as int),
        Item::Struct(s) => members_deps(s.members@, s.members@.len() as int),
        Item::Enum(_) => seq![],
    }
}

/// `item` refers to the symbol at `t` through ordinal `o`.
pub open spec fn depends_via(item: Item, o: usize, t: usize) -> bool {
    dependency_seq(item).contains((o, t))
}

/// `item` refers to the symbol at `t`.
pub open spec fn depends_on(item: Item, t: usize) -> bool {
    exists|o: usize| depends_via(item, o, t)
}

fn contains(v: &Vec<usize>, x: usize) -> (r: bool)
    ensures
        r == v@.contains(x),
{
    let mut i: usize = 0;
    while i < v.len()
        invariant
            i <= v@.len(),
            forall|j: int| 0 <= j < i ==> v@[j] != x,
        decreases v@.len() - i,
    {
        if v[i] == x {
            return true;
        }
        i += 1;
    }
    false
}

impl Model {
    fn find_dependencies_of_arg(&self, from: &Arg, out: &mut Vec<usize>)
        ensures
            final(out)@ == old(out)@ + arg_deps(*from),
        decreases from,
    {
        let ghost start = out@;
        let mut i: usize = 0;
        while i < from.generic_args.len()
            invariant
                i <= from.generic_args@.len(),
                out@ == start + args_deps(from.generic_args@, i as int),
            decreases from.generic_args@.len() - i,
        {
            self.find_dependencies_of_arg(&from.generic_args[i], out);
            i += 1;
            assert(out@ =~= start + args_deps(from.generic_args@, i as int));
        }
        if let Type::Item(r) = &from.arg_type {
            out.push(r.index);
        }
        assert(out@ =~= start + arg_deps(*from));
    }

    fn push_tagged(o: usize, s: &Vec<usize>, out: &mut Vec<(usize, usize)>)
        ensures
            final(out)@ == old(out)@ + tagged(o, s@),
    {
        let ghost start = out@;
        let mut i: usize = 0;
        while i < s.len()
            invariant
                i <= s@.len(),
                out@ == start + tagged(o, s@.subrange(0, i as int)),
            decreases s@.len() - i,
        {
            out.push((o, s[i]));
            i += 1;
            assert(out@ =~= start + tagged(o, s@.subrange(0, i as int)));
        }
        assert(s@.subrange(0, i as int) =~= s@);
    }

    /// The (ordinal, symbol) pairs of an interface's methods, repeats included.
    pub fn find_dependencies_of_interface(&self, from: &Interface) -> (r: Vec<(usize, usize)>)
        ensures
            r@ == dependency_seq(Item::Interface(*from)),
    {
        let mut out: Vec<(usize, usize)> = Vec::new();
        let mut i: usize = 0;
        while i < from.methods.len()
            invariant
                i <= from.methods@.len(),
                out@ == methods_deps(from.methods@, i as int),
            decreases from.methods@.len() - i,
        {
            let m = &from.methods[i];
            let mut targets: Vec<usize> = Vec::new();
            let mut k: usize = 0;
            while k < m.args.len()
                invariant
                    i < from.methods@.len(),
                    *m == from.methods@[i as int],
                    k <= m.args@.len(),
                    targets@ == args_deps(m.args@, k as int),
                decreases m.args@.len() - k,
            {
                self.find_dependencies_of_arg(&m.args[k], &mut targets);
                k += 1;
            }
            self.find_dependencies_of_arg(&m.return_arg, &mut targets);
            Self::push_tagged(m.index, &targets, &mut out);
            i += 1;
            assert(out@ =~= methods_deps(from.methods@, i as int));
        }
        out
    }

    /// The (ordinal, symbol) pairs of a struct's members, repeats included.
    pub fn find_dependencies_of_struct(&self, from: &Struct) -> (r: Vec<(usize, usize)>)
        ensures
            r@ == dependency_seq(Item::Struct(*from)),
    {
        let mut out: Vec<(usize, usize)> = Vec::new();
        let mut i: usize = 0;
        while i < from.members.len()
            invariant
                i <= from.members@.len(),
                out@ == members_deps(from.members@, i as int),
            decreases from.members@.len() - i,
        {
            let m = &from.members[i];
            let mut targets: Vec<usize> = Vec::new();
            self.find_dependencies_of_arg(&m.arg, &mut targets);
            assert(targets@ =~= arg_deps(m.arg));
            Self::push_tagged(m.index, &targets, &mut out);
            i += 1;
            assert(out@ =~= members_deps(from.members@, i as int));
        }
        out
    }

    /// Enums carry no types and so refer to nothing.
    pub fn find_dependencies_of_enum(&self, _from: &Enum) -> (r: Vec<(usize, usize)>)
        ensures
            r@ == dependency_seq(Item::Enum(*_from)),
    {
        Vec::new()
    }

    fn dependency_pairs(&self, from: &Item) -> (r: Vec<(usize, usize)>)
        ensures
            r@ == dependency_seq(*from),
    {
        match from {
            Item::Interface(i) => self.find_dependencies_of_interface(i),
            Item::Struct(s) => self.find_dependencies_of_struct(s),
            Item::Enum(e) => self.find_dependencies_of_enum(e),
        }
    }
}


proof fn lemma_push_contains<T>(s: Seq<T>, v: T)
    ensures
        forall|x: T| #[trigger] s.push(v).contains(x) <==> (s.contains(x) || x == v),
{
    assert forall|x: T| #[trigger] s.push(v).contains(x) <==> (s.contains(x) || x == v) by {
        if s.contains(x) {
            let j = choose|j: int| 0 <= j < s.len() && s[j] == x;
            assert(s.push(v)[j] == x);
        }
        if x == v {
            assert(s.push(v)[s.len() as int] == x);
        }
    }
}

/// The ordinals `o` with `(o, t)` among `deps`, each once.
fn ordinals_for(deps: &Vec<(usize, usize)>, t: usize) -> (r: Vec<usize>)
    ensures
        r@.no_duplicates(),
        forall|o: usize| r@.contains(o) <==> deps@.contains((o, t)),
{
    let mut r: Vec<usize> = Vec::new();
    let mut k: usize = 0;
    while k < deps.len()
        invariant
            k <= deps@.len(),
            r@.no_duplicates(),
            forall|o: usize|
                r@.contains(o) <==> exists|j: int| 0 <= j < k && #[trigger] deps@[j] == (o, t),
        decreases deps@.len() - k,
    {
        let (o, u) = deps[k];
        proof {
            lemma_push_contains(r@, o);
        }
        if u == t && !contains(&r, o) {
            r.push(o);
        }
        k += 1;
    }
    r
}


/// Some entry of `r` is for the symbol at `c`.
pub open spec fn listed(r: Seq<(Vec<usize>, usize)>, c: usize) -> bool {
    exists|a: int| 0 <= a < r.len() && #[trigger] r[a].1 == c
}

/// The distinct symbols among `deps`, in order of first appearance.
fn distinct_targets(deps: &Vec<(usize, usize)>) -> (r: Vec<usize>)
    ensures
        r@.no_duplicates(),
        forall|t: usize| r@.contains(t) <==> exists|j: int| 0 <= j < deps@.len() && #[trigger] deps@[j].1 == t,
{
    let mut r: Vec<usize> = Vec::new();
    let mut k: usize = 0;
    while k < deps.len()
        invariant
            k <= deps@.len(),
            r@.no_duplicates(),
            forall|t: usize| r@.contains(t) <==> exists|j: int| 0 <= j < k && #[trigger] deps@[j].1 == t,
        decreases deps@.len() - k,
    {
        let (_, t) = deps[k];
        proof {
            lemma_push_contains(r@, t);
        }
        if !contains(&r, t) {
            r.push(t);
        }
        k += 1;
    }
    r
}

impl Model {
    /// The distinct symbols that `from` refers to directly (through generic
    /// arguments too, but never through another symbol), each with the set
    /// of `from`'s ordinals that refer to it. Cycles between symbols need no
    /// care: one hop is taken.
    pub fn find_dependencies(&self, from: &Item) -> (r: Vec<(Vec<usize>, usize)>)
        ensures
            forall|a: int, b: int| 0 <= a < b < r@.len() ==> r@[a].1 != r@[b].1,
            forall|t: usize|
                (exists|a: int| 0 <= a < r@.len() && #[trigger] r@[a].1 == t) <==> depends_on(*from, t),
            forall|a: int|
                0 <= a < r@.len() ==> (#[trigger] r@[a]).0@.no_duplicates(),
            forall|a: int, o: usize|
                0 <= a < r@.len() ==> (#[trigger] r@[a].0@.contains(o) <==> depends_via(*from, o, r@[a].1)),
    {
        let deps = self.dependency_pairs(from);
        let targets = distinct_targets(&deps);
        let mut r: Vec<(Vec<usize>, usize)> = Vec::new();
        let mut a: usize = 0;
        while a < targets.len()
            invariant
                deps@ == dependency_seq(*from),
                a <= targets@.len(),
                r@.len() == a,
                forall|b: int| 0 <= b < a ==> (#[trigger] r@[b]).1 == targets@[b],
                forall|b: int| 0 <= b < a ==> (#[trigger] r@[b]).0@.no_duplicates(),
                forall|b: int, o: usize|
                    0 <= b < a ==> (#[trigger] r@[b].0@.contains(o) <==> deps@.contains((o, r@[b].1))),
            decreases targets@.len() - a,
        {
            let t = targets[a];
            let ords = ordinals_for(&deps, t);
            r.push((ords, t));
            a += 1;
        }
        proof {
            assert forall|t: usize|
                (exists|a: int| 0 <= a < r@.len() && #[trigger] r@[a].1 == t) <==> depends_on(*from, t) by {
                if exists|a: int| 0 <= a < r@.len() && #[trigger] r@[a].1 == t {
                    let a = choose|a: int| 0 <= a < r@.len() && #[trigger] r@[a].1 == t;
                    assert(targets@[a] == t);
                    assert(targets@.contains(t));
                    let j = choose|j: int| 0 <= j < deps@.len() && #[trigger] deps@[j].1 == t;
                    assert(depends_via(*from, deps@[j].0, t));
                }
                if depends_on(*from, t) {
                    let o = choose|o: usize| depends_via(*from, o, t);
                    let j = choose|j: int| 0 <= j < deps@.len() && deps@[j] == (o, t);
                    assert(deps@[j].1 == t);
                    assert(targets@.contains(t));
                    let a = choose|a: int| 0 <= a < targets@.len() && targets@[a] == t;
                    assert(r@[a].1 == t);
                }
            }
            assert forall|a: int, b: int| 0 <= a < b < r@.len() implies r@[a].1 != r@[b].1 by {
                assert(r@[a].1 == targets@[a]);
                assert(r@[b].1 == targets@[b]);
            }
        }
        r
    }
}


impl Model {
    /// `t` designates a symbol of this model whose key is `key`.
    pub open spec fn designates(&self, t: usize, key: Seq<char>) -> bool {
        t < self.items@.len() && self.items@[t as int].key() == key
    }

    /// `item` refers, through ordinal `o`, to a symbol of this model whose
    /// key is `key`.
    pub open spec fn refers_via(&self, item: Item, o: usize, key: Seq<char>) -> bool {
        exists|t: usize| #[trigger] depends_via(item, o, t) && self.designates(t, key)
    }

    /// Some ordinal of the symbol at `c` refers to a symbol keyed `key`.
    pub open spec fn is_referrer(&self, c: usize, key: Seq<char>) -> bool {
        exists|o: usize| self.refers_via(self.items@[c as int], o, key)
    }

    /// The ordinals `o` of the pairs `(o, t)` of `deps` whose `t`
    /// designates the symbol keyed `key`, each once.
    fn ordinals_to(&self, deps: &Vec<(usize, usize)>, key: &String) -> (r: Vec<usize>)
        ensures
            r@.no_duplicates(),
            forall|o: usize|
                #[trigger] r@.contains(o) <==> exists|j: int|
                    0 <= j < deps@.len() && deps@[j].0 == o && self.designates(#[trigger] deps@[j].1, key@),
    {
        let mut r: Vec<usize> = Vec::new();
        let mut k: usize = 0;
        while k < deps.len()
            invariant
                k <= deps@.len(),
                r@.no_duplicates(),
                forall|o: usize|
                    #[trigger] r@.contains(o) <==> exists|j: int|
                        0 <= j < k && deps@[j].0 == o && self.designates(#[trigger] deps@[j].1, key@),
            decreases deps@.len() - k,
        {
            let (o, t) = deps[k];
            proof {
                lemma_push_contains(r@, o);
            }
            if t < self.items.len() && self.items[t].get_key() == *key && !contains(&r, o) {
                r.push(o);
            }
            k += 1;
        }
        r
    }

    /// Every symbol of the model that refers directly to a symbol keyed as
    /// `to` is, in model order, with the set of its ordinals that do.
    pub fn find_references(&self, to: &Item) -> (r: Vec<(Vec<usize>, usize)>)
        ensures
            forall|a: int, b: int| 0 <= a < b < r@.len() ==> r@[a].1 < r@[b].1,
            forall|a: int| 0 <= a < r@.len() ==> (#[trigger] r@[a]).1 < self.items@.len(),
            forall|c: usize|
                c < self.items@.len() ==> (listed(r@, c) <==> #[trigger] self.is_referrer(c, to.key())),
            forall|a: int| 0 <= a < r@.len() ==> (#[trigger] r@[a]).0@.no_duplicates(),
            forall|a: int, o: usize|
                0 <= a < r@.len() ==> (#[trigger] r@[a].0@.contains(o) <==> self.refers_via(
                    self.items@[r@[a].1 as int],
                    o,
                    to.key(),
                )),
    {
        let key = to.get_key();
        let mut r: Vec<(Vec<usize>, usize)> = Vec::new();
        let mut c: usize = 0;
        while c < self.items.len()
            invariant
                key@ == to.key(),
                c <= self.items@.len(),
                forall|a: int, b: int| 0 <= a < b < r@.len() ==> r@[a].1 < r@[b].1,
                forall|a: int| 0 <= a < r@.len() ==> (#[trigger] r@[a]).1 < c,
                forall|d: usize| d < c ==> (listed(r@, d) <==> #[trigger] self.is_referrer(d, key@)),
                forall|a: int| 0 <= a < r@.len() ==> (#[trigger] r@[a]).0@.no_duplicates(),
                forall|a: int, o: usize|
                    0 <= a < r@.len() ==> (#[trigger] r@[a].0@.contains(o) <==> self.refers_via(
                        self.items@[r@[a].1 as int],
                        o,
                        key@,
                    )),
            decreases self.items@.len() - c,
        {
            let deps = self.dependency_pairs(&self.items[c]);
            let ords = self.ordinals_to(&deps, &key);
            let ghost item = self.items@[c as int];
            proof {
                assert forall|o: usize| ords@.contains(o) <==> self.refers_via(item, o, key@) by {
                    if ords@.contains(o) {
                        let j = choose|j: int|
                            0 <= j < deps@.len() && deps@[j].0 == o && self.designates(#[trigger] deps@[j].1, key@);
                        assert(deps@[j] == (o, deps@[j].1));
                        assert(depends_via(item, o, deps@[j].1));
                    }
                    if self.refers_via(item, o, key@) {
                        let t = choose|t: usize| #[trigger] depends_via(item, o, t) && self.designates(t, key@);
                        let j = choose|j: int| 0 <= j < deps@.len() && deps@[j] == (o, t);
                        assert(self.designates(deps@[j].1, key@));
                        assert(ords@.contains(o));
                    }
                }
            }
            let ghost r_before = r@;
            if ords.len() > 0 {
                proof {
                    assert(ords@.contains(ords@[0]));
                }
                r.push((ords, c));
            } else {
                proof {
                    assert forall|o: usize| !self.refers_via(item, o, key@) by {
                        if self.refers_via(item, o, key@) {
                            assert(ords@.contains(o));
                        }
                    }
                }
            }
            proof {
                assert forall|d: usize| d < c + 1 implies (listed(r@, d) <==> #[trigger] self.is_referrer(d, key@)) by {
                    if d < c {
                        if exists|a: int| 0 <= a < r@.len() && #[trigger] r@[a].1 == d {
                            let a = choose|a: int| 0 <= a < r@.len() && #[trigger] r@[a].1 == d;
                            assert(a < r_before.len());
                            assert(r_before[a].1 == d);
                        }
                        if exists|a: int| 0 <= a < r_before.len() && #[trigger] r_before[a].1 == d {
                            let a = choose|a: int| 0 <= a < r_before.len() && #[trigger] r_before[a].1 == d;
                            assert(r@[a].1 == d);
                        }
                    } else {
                        if exists|a: int| 0 <= a < r@.len() && #[trigger] r@[a].1 == d {
                            let a = choose|a: int| 0 <= a < r@.len() && #[trigger] r@[a].1 == d;
                            assert(a == r_before.len());
                            assert(ords@.contains(ords@[0]));
                        }
                        if exists|o: usize| self.refers_via(self.items@[d as int], o, key@) {
                            let o = choose|o: usize| self.refers_via(self.items@[d as int], o, key@);
                            assert(ords@.contains(o));
                            assert(r@[r_before.len() as int].1 == d);
                        }
                    }
                }
            }
            c += 1;
        }
        r
    }
}


impl Model {
    /// The position of the symbol keyed `key`, or `NotFound` with that key
    /// if the model has none.
    pub fn get_index(&self, key: &String) -> (r: Result<usize, Error>)
        ensures
            r matches Ok(i) ==> i < self.items@.len() && self.items@[i as int].key() == key@,
            r matches Err(e) ==> e matches Error::NotFound(k) && k@ == key@,
            r is Err <==> forall|i: int| 0 <= i < self.items@.len() ==> (#[trigger] self.items@[i]).key() != key@,
    {
        let mut i: usize = 0;
        while i < self.items.len()
            invariant
                i <= self.items@.len(),
                forall|j: int| 0 <= j < i ==> (#[trigger] self.items@[j]).key() != key@,
            decreases self.items@.len() - i,
        {
            if self.items[i].get_key() == *key {
                return Ok(i);
            }
            i += 1;
        }
        Err(Error::NotFound(key.clone()))
    }
}


/// Argument `j` of method `k` of the interface `item` has the symbol at `t`
/// as its type.
pub open spec fn method_arg_refers(item: Item, k: int, j: int, t: usize) -> bool {
    match item {
        Item::Interface(i) => 0 <= k < i.methods@.len() && 0 <= j < i.methods@[k].args@.len()
            && (i.methods@[k].args@[j].arg_type matches Type::Item(r) && r.index == t),
        _ => false,
    }
}

proof fn lemma_args_deps_contains(s: Seq<Arg>, n: int, j: int, t: usize)
    requires
        0 <= j < n <= s.len(),
        arg_deps(s[j]).contains(t),
    ensures
        args_deps(s, n).contains(t),
    decreases n,
{
    let x = args_deps(s, n - 1);
    let y = arg_deps(s[n - 1]);
    if j == n - 1 {
        let p = choose|p: int| 0 <= p < y.len() && y[p] == t;
        assert((x + y)[x.len() + p] == t);
    } else {
        lemma_args_deps_contains(s, n - 1, j, t);
        let p = choose|p: int| 0 <= p < x.len() && x[p] == t;
        assert((x + y)[p] == t);
    }
}

proof fn lemma_methods_deps_contains(s: Seq<Method>, n: int, k: int, d: (usize, usize))
    requires
        0 <= k < n <= s.len(),
        method_deps(s[k]).contains(d),
    ensures
        methods_deps(s, n).contains(d),
    decreases n,
{
    let x = methods_deps(s, n - 1);
    let y = method_deps(s[n - 1]);
    if k == n - 1 {
        let p = choose|p: int| 0 <= p < y.len() && y[p] == d;
        assert((x + y)[x.len() + p] == d);
    } else {
        lemma_methods_deps_contains(s, n - 1, k, d);
        let p = choose|p: int| 0 <= p < x.len() && x[p] == d;
        assert((x + y)[p] == d);
    }
}

/// An interface depends, through a method's ordinal, on the symbol that an
/// argument of that method has as its type.
proof fn lemma_arg_dependency(item: Item, k: int, j: int, t: usize)
    requires
        method_arg_refers(item, k, j, t),
    ensures
        depends_via(item, item->Interface_0.methods@[k].index, t),
{
    let i = item->Interface_0;
    let m = i.methods@[k];
    let a = m.args@[j];
    let own = args_deps(a.generic_args@, a.generic_args@.len() as int);
    assert(arg_deps(a)[own.len() as int] == t);
    lemma_args_deps_contains(m.args@, m.args@.len() as int, j, t);
    let ts = args_deps(m.args@, m.args@.len() as int) + arg_deps(m.return_arg);
    let p = choose|p: int| 0 <= p < args_deps(m.args@, m.args@.len() as int).len() && args_deps(m.args@, m.args@.len() as int)[p] == t;
    assert(ts[p] == t);
    assert(method_deps(m)[p] == (m.index, t));
    lemma_methods_deps_contains(i.methods@, i.methods@.len() as int, k, (m.index, t));
}

/// Two interfaces that each take the other as a method argument each depend
/// on the other and each refer to the other. Queries take one hop, so such
/// a cycle is answered like any other pair; `find_dependencies` lists each
/// symbol once, so each appears exactly once in the other's dependencies.
pub proof fn lemma_mutual_dependency(m: Model, a: usize, b: usize, ka: int, ja: int, kb: int, jb: int)
    requires
        a < m.items@.len(),
        b < m.items@.len(),
        method_arg_refers(m.items@[a as int], ka, ja, b),
        method_arg_refers(m.items@[b as int], kb, jb, a),
    ensures
        depends_on(m.items@[a as int], b),
        depends_on(m.items@[b as int], a),
        m.is_referrer(a, m.items@[b as int].key()),
        m.is_referrer(b, m.items@[a as int].key()),
{
    lemma_arg_dependency(m.items@[a as int], ka, ja, b);
    lemma_arg_dependency(m.items@[b as int], kb, jb, a);
    let oa = m.items@[a as int]->Interface_0.methods@[ka].index;
    let ob = m.items@[b as int]->Interface_0.methods@[kb].index;
    assert(m.designates(b, m.items@[b as int].key()));
    assert(m.refers_via(m.items@[a as int], oa, m.items@[b as int].key()));
    assert(m.designates(a, m.items@[a as int].key()));
    assert(m.refers_via(m.items@[b as int], ob, m.items@[a as int].key()));
}


/// With unique keys, references are the inverse of dependencies: the symbol
/// at `a` refers to the one at `b`, through ordinal `o`, exactly when `b` is
/// among `a`'s dependencies through `o`.
pub proof fn lemma_references_invert_dependencies(m: Model, a: usize, b: usize, o: usize)
    requires
        m.keys_unique(),
        a < m.items@.len(),
        b < m.items@.len(),
    ensures
        m.refers_via(m.items@[a as int], o, m.items@[b as int].key()) <==> depends_via(m.items@[a as int], o, b),
        m.is_referrer(a, m.items@[b as int].key()) <==> depends_on(m.items@[a as int], b),
{
    let key = m.items@[b as int].key();
    assert(m.designates(b, key));
    if m.refers_via(m.items@[a as int], o, key) {
        let t = choose|t: usize| #[trigger] depends_via(m.items@[a as int], o, t) && m.designates(t, key);
        if t != b {
            if t < b {
                assert(m.items@[t as int].key() != m.items@[b as int].key());
            } else {
                assert(m.items@[b as int].key() != m.items@[t as int].key());
            }
        }
    }
    if m.is_referrer(a, key) {
        let o2 = choose|o2: usize| m.refers_via(m.items@[a as int], o2, key);
        let t = choose|t: usize| #[trigger] depends_via(m.items@[a as int], o2, t) && m.designates(t, key);
        if t != b {
            if t < b {
                assert(m.items@[t as int].key() != m.items@[b as int].key());
            } else {
                assert(m.items@[b as int].key() != m.items@[t as int].key());
            }
        }
        assert(depends_via(m.items@[a as int], o2, b));
    }
    if depends_on(m.items@[a as int], b) {
        let o2 = choose|o2: usize| depends_via(m.items@[a as int], o2, b);
        assert(m.refers_via(m.items@[a as int], o2, key));
    }
}

} // verus!
