//! Lexical scopes for the newt runtime.
//!
//! A scope binds names to values. A scope opened inside another one sees the bindings
//! that the outer scope had when it was opened, and none that it made later. Scopes
//! live in a `Scopes` arena and are named by `ScopeNode` handles; copies of a handle
//! name the same scope, so a binding made through one is seen through every other.
use vstd::prelude::*;

verus! {

/// The errors that binding, assigning and resolving a name can raise.
#[derive(Debug, Clone, Copy, PartialEq, Eq, Structural)]
pub enum NewtRuntimeError {
    /// The name is already bound in this very scope.
    DuplicateDeclaration,
    /// No visible scope binds the name.
    UndefinedVariable,
}

/// What a scope holds: its names in the order they were bound, the value of each, and
/// the scope it was opened in with the number of bindings that scope had then.
pub struct FrameModel<V> {
    pub names: Seq<Seq<char>>,
    pub values: Seq<V>,
    pub link: Option<(int, int)>,
}

impl<V> FrameModel<V> {
    /// A scope with no bindings.
    pub open spec fn opened(link: Option<(int, int)>) -> FrameModel<V> {
        FrameModel { names: Seq::empty(), values: Seq::empty(), link }
    }

    /// This scope after binding `name` to `value`.
    pub open spec fn bound(self, name: Seq<char>, value: V) -> FrameModel<V> {
        FrameModel { names: self.names.push(name), values: self.values.push(value), link: self.link }
    }

    /// The scope this one was opened in, or -1 for a root scope.
    pub open spec fn opened_in(self) -> int {
        match self.link {
            Some((p, _)) => p,
            None => -1,
        }
    }

    /// The value bound to `name` here (meaningful only where `name` is bound).
    pub open spec fn value_of(self, name: Seq<char>) -> V {
        self.values[self.names.index_of(name)]
    }

    /// This scope after giving the binding of `name` the value `value`.
    pub open spec fn with_value(self, name: Seq<char>, value: V) -> FrameModel<V> {
        FrameModel {
            names: self.names,
            values: self.values.update(self.names.index_of(name), value),
            link: self.link,
        }
    }
}

/// Every scope binds each name at most once, has a value for each name, and was
/// opened in an older scope, which had at least as many bindings then as the link
/// records.
pub open spec fn frames_wf<V>(frames: Seq<FrameModel<V>>) -> bool {
    forall|i: int|
        0 <= i < frames.len() ==> {
            &&& #[trigger] frames[i].names.len() == frames[i].values.len()
            &&& frames[i].names.no_duplicates()
            &&& match frames[i].link {
                Some((p, s)) => 0 <= p < i && 0 <= s <= frames[p].names.len(),
                None => true,
            }
        }
}

/// What resolving `name` in scope `f` gives: the scope's own binding, else what the
/// scope it was opened in had bound before it was opened.
pub open spec fn resolve<V>(frames: Seq<FrameModel<V>>, f: int, name: Seq<char>) -> Result<
    V,
    NewtRuntimeError,
>
    decreases f,
{
    if !(0 <= f < frames.len()) {
        Err(NewtRuntimeError::UndefinedVariable)
    } else if frames[f].names.contains(name) {
        Ok(frames[f].value_of(name))
    } else {
        match frames[f].link {
            Some((p, s)) => if 0 <= p < f {
                resolve_before(frames, p, name, s)
            } else {
                Err(NewtRuntimeError::UndefinedVariable)
            },
            None => Err(NewtRuntimeError::UndefinedVariable),
        }
    }
}

/// What resolving `name` in scope `f` gives when only its first `seq` bindings are
/// seen; past them, the scope it was opened in is searched as by `resolve`.
pub open spec fn resolve_before<V>(
    frames: Seq<FrameModel<V>>,
    f: int,
    name: Seq<char>,
    seq: int,
) -> Result<V, NewtRuntimeError>
    decreases f,
{
    if !(0 <= f < frames.len()) {
        Err(NewtRuntimeError::UndefinedVariable)
    } else if frames[f].names.contains(name) && frames[f].names.index_of(name) < seq {
        Ok(frames[f].value_of(name))
    } else {
        match frames[f].link {
            Some((p, _)) => if 0 <= p < f {
                resolve(frames, p, name)
            } else {
                Err(NewtRuntimeError::UndefinedVariable)
            },
            None => Err(NewtRuntimeError::UndefinedVariable),
        }
    }
}

/// The scope whose binding an assignment to `name` in scope `f` changes: the nearest
/// of `f` and the scopes it was opened in, one after another, that binds `name`.
pub open spec fn assign_target<V>(frames: Seq<FrameModel<V>>, f: int, name: Seq<char>) -> Option<
    int,
>
    decreases f,
{
    if !(0 <= f < frames.len()) {
        None
    } else if frames[f].names.contains(name) {
        Some(f)
    } else {
        match frames[f].link {
            Some((p, _)) => if 0 <= p < f {
                assign_target(frames, p, name)
            } else {
                None
            },
            None => None,
        }
    }
}

struct Binding<V> {
    name: String,
    value: V,
}

struct Frame<V> {
    bindings: Vec<Binding<V>>,
    link: Option<(usize, usize)>,
}

impl<V> Frame<V> {
    spec fn model(self) -> FrameModel<V> {
        FrameModel {
            names: self.bindings@.map_values(|b: Binding<V>| b.name@),
            values: self.bindings@.map_values(|b: Binding<V>| b.value),
            link: match self.link {
                Some((p, s)) => Some((p as int, s as int)),
                None => None,
            },
        }
    }

    /// The position of the binding of `name`, if this scope binds it.
    fn find(&self, name: &String) -> (r: Option<usize>)
        ensures
            match r {
                Some(i) => i < self.model().names.len() && self.model().names[i as int] == name@,
                None => !self.model().names.contains(name@),
            },
    {
        let ghost names = self.model().names;
        let mut i: usize = 0;
        while i < self.bindings.len()
            invariant
                i <= self.bindings@.len(),
                names == self.model().names,
                names.len() == self.bindings@.len(),
                forall|j: int| 0 <= j < i ==> names[j] != name@,
            decreases self.bindings@.len() - i,
        {
            if self.bindings[i].name == *name {
                return Some(i);
            }
            i = i + 1;
        }
        proof {
            assert forall|j: int| 0 <= j < names.len() implies names[j] != name@ by {}
        }
        None
    }
}

/// In a sequence without duplicates, the index of an element found at `i` is `i`.
proof fn lemma_index_of_unique<A>(s: Seq<A>, i: int)
    requires
        s.no_duplicates(),
        0 <= i < s.len(),
    ensures
        s.contains(s[i]),
        s.index_of(s[i]) == i,
{
    assert(s.contains(s[i]));
}

/// Binding a name that a scope does not bind yet keeps every scope well formed.
proof fn lemma_bind_keeps_wf<V>(frames: Seq<FrameModel<V>>, f: int, name: Seq<char>, value: V)
    requires
        frames_wf(frames),
        0 <= f < frames.len(),
        !frames[f].names.contains(name),
    ensures
        frames_wf(frames.update(f, frames[f].bound(name, value))),
{
    let after = frames.update(f, frames[f].bound(name, value));
    let names = frames[f].names.push(name);
    assert forall|i: int, j: int| 0 <= i < names.len() && 0 <= j < names.len() && i != j implies names[i]
        != names[j] by {
        if i < frames[f].names.len() && j < frames[f].names.len() {
            assert(frames[f].names[i] != frames[f].names[j]);
        } else if i < frames[f].names.len() {
            assert(frames[f].names.contains(frames[f].names[i]));
        } else {
            assert(frames[f].names.contains(frames[f].names[j]));
        }
    }
    assert forall|i: int| 0 <= i < after.len() implies {
        &&& #[trigger] after[i].names.len() == after[i].values.len()
        &&& after[i].names.no_duplicates()
        &&& match after[i].link {
            Some((p, s)) => 0 <= p < i && 0 <= s <= after[p].names.len(),
            None => true,
        }
    } by {
        assert(frames[i].names.len() == frames[i].values.len());
    }
}

/// Giving a binding another value keeps every scope well formed.
proof fn lemma_assign_keeps_wf<V>(frames: Seq<FrameModel<V>>, f: int, name: Seq<char>, value: V)
    requires
        frames_wf(frames),
        0 <= f < frames.len(),
        frames[f].names.contains(name),
    ensures
        frames_wf(frames.update(f, frames[f].with_value(name, value))),
{
    assert(0 <= frames[f].names.index_of(name) < frames[f].names.len());
    let after = frames.update(f, frames[f].with_value(name, value));
    assert forall|i: int| 0 <= i < after.len() implies {
        &&& #[trigger] after[i].names.len() == after[i].values.len()
        &&& after[i].names.no_duplicates()
        &&& match after[i].link {
            Some((p, s)) => 0 <= p < i && 0 <= s <= after[p].names.len(),
            None => true,
        }
    } by {
        assert(frames[i].names.len() == frames[i].values.len());
        match frames[i].link {
            Some((p, s)) => {
                assert(after[p].names == frames[p].names);
            },
            None => {},
        }
    }
}

/// Opening a scope, inside an older one that has at least `link`'s number of bindings,
/// keeps every scope well formed.
proof fn lemma_open_keeps_wf<V>(frames: Seq<FrameModel<V>>, link: Option<(int, int)>)
    requires
        frames_wf(frames),
        match link {
            Some((p, s)) => 0 <= p < frames.len() && 0 <= s <= frames[p].names.len(),
            None => true,
        },
    ensures
        frames_wf(frames.push(FrameModel::opened(link))),
{
    let after = frames.push(FrameModel::<V>::opened(link));
    assert forall|i: int| 0 <= i < after.len() implies {
        &&& #[trigger] after[i].names.len() == after[i].values.len()
        &&& after[i].names.no_duplicates()
        &&& match after[i].link {
            Some((p, s)) => 0 <= p < i && 0 <= s <= after[p].names.len(),
            None => true,
        }
    } by {
        if i < frames.len() {
            assert(frames[i].names.len() == frames[i].values.len());
        }
    }
}

/// What scope `f` resolves depends only on `f` and the scopes older than it.
proof fn lemma_resolve_reads_older_scopes<V>(
    a: Seq<FrameModel<V>>,
    b: Seq<FrameModel<V>>,
    f: int,
    name: Seq<char>,
    seq: int,
)
    requires
        0 <= f < a.len(),
        f < b.len(),
        forall|i: int| 0 <= i <= f ==> a[i] == b[i],
    ensures
        resolve(a, f, name) == resolve(b, f, name),
        resolve_before(a, f, name, seq) == resolve_before(b, f, name, seq),
    decreases f,
{
    assert(a[f] == b[f]);
    match a[f].link {
        Some((p, s)) => {
            if 0 <= p < f {
                lemma_resolve_reads_older_scopes(a, b, p, name, s);
                lemma_resolve_reads_older_scopes(a, b, p, name, seq);
            }
        },
        None => {},
    }
}

/// After `name` is bound to `value` in a scope, resolving `name` there gives `value`.
pub proof fn law_resolve_after_bind<V>(frames: Seq<FrameModel<V>>, f: int, name: Seq<char>, value: V)
    requires
        frames_wf(frames),
        0 <= f < frames.len(),
        !frames[f].names.contains(name),
    ensures
        resolve(frames.update(f, frames[f].bound(name, value)), f, name) == Ok::<V, NewtRuntimeError>(value),
{
    let names = frames[f].names.push(name);
    lemma_bind_keeps_wf(frames, f, name, value);
    lemma_index_of_unique(names, frames[f].names.len() as int);
    assert(frames[f].names.len() == frames[f].values.len());
}

/// After an assignment to `name` from a scope that binds `name` itself, resolving
/// `name` there gives the assigned value.
pub proof fn law_resolve_after_assign<V>(frames: Seq<FrameModel<V>>, f: int, name: Seq<char>, value: V)
    requires
        frames_wf(frames),
        0 <= f < frames.len(),
        frames[f].names.contains(name),
    ensures
        assign_target(frames, f, name) == Some(f),
        resolve(frames.update(f, frames[f].with_value(name, value)), f, name) == Ok::<V, NewtRuntimeError>(value),
{
    assert(frames[f].names.len() == frames[f].values.len());
    assert(0 <= frames[f].names.index_of(name) < frames[f].names.len());
}

/// Binding a new name in a scope changes nothing that a scope opened inside it earlier
/// resolves: the opened scope does not see the outer scope's later bindings.
pub proof fn law_later_outer_bindings_are_unseen<V>(
    frames: Seq<FrameModel<V>>,
    inner: int,
    name: Seq<char>,
    value: V,
    looked_up: Seq<char>,
)
    requires
        frames_wf(frames),
        0 <= inner < frames.len(),
        frames[inner].link is Some,
        !frames[frames[inner].opened_in()].names.contains(name),
    ensures
        ({
            let outer = frames[inner].opened_in();
            resolve(frames.update(outer, frames[outer].bound(name, value)), inner, looked_up)
                == resolve(frames, inner, looked_up)
        }),
{
    let outer = frames[inner].opened_in();
    let seq = frames[inner].link.unwrap().1;
    let after = frames.update(outer, frames[outer].bound(name, value));
    assert(frames[inner].names.len() == frames[inner].values.len());
    assert(0 <= outer < inner && seq <= frames[outer].names.len());
    assert(after[inner] == frames[inner]);
    if !frames[inner].names.contains(looked_up) {
        let old_names = frames[outer].names;
        let new_names = after[outer].names;
        assert(old_names.len() == frames[outer].values.len());
        lemma_bind_keeps_wf(frames, outer, name, value);
        assert(new_names.no_duplicates());
        let visible_before = old_names.contains(looked_up) && old_names.index_of(looked_up) < seq;
        let visible_after = new_names.contains(looked_up) && new_names.index_of(looked_up) < seq;
        if old_names.contains(looked_up) {
            let k = old_names.index_of(looked_up);
            assert(new_names[k] == looked_up);
            lemma_index_of_unique(new_names, k);
            assert(after[outer].value_of(looked_up) == frames[outer].value_of(looked_up));
        } else if new_names.contains(looked_up) {
            lemma_index_of_unique(new_names, old_names.len() as int);
            assert(looked_up == name);
        }
        assert(visible_before == visible_after);
        match frames[outer].link {
            Some((p, s)) => {
                if 0 <= p < outer {
                    lemma_resolve_reads_older_scopes(frames, after, p, looked_up, s);
                }
            },
            None => {},
        }
    }
}

/// A scope just opened inside a root scope resolves every name as the root scope does.
pub proof fn law_scope_opened_in_root_resolves_as_root<V>(
    frames: Seq<FrameModel<V>>,
    root: int,
    looked_up: Seq<char>,
)
    requires
        frames_wf(frames),
        0 <= root < frames.len(),
        frames[root].link is None,
    ensures
        ({
            let after = frames.push(FrameModel::opened(Some((root, frames[root].names.len() as int))));
            resolve(after, frames.len() as int, looked_up) == resolve(frames, root, looked_up)
        }),
{
    let after = frames.push(FrameModel::<V>::opened(Some((root, frames[root].names.len() as int))));
    assert(after[root] == frames[root]);
    assert(!after[frames.len() as int].names.contains(looked_up));
    if frames[root].names.contains(looked_up) {
        assert(0 <= frames[root].names.index_of(looked_up) < frames[root].names.len());
    }
}

/// `chain` is a chain of scopes, each opened in the next, with `chain[0]` innermost.
pub open spec fn opened_in_chain<V>(frames: Seq<FrameModel<V>>, chain: Seq<int>) -> bool {
    &&& chain.len() >= 1
    &&& forall|i: int| 0 <= i < chain.len() ==> 0 <= #[trigger] chain[i] < frames.len()
    &&& forall|i: int|
        0 <= i < chain.len() - 1 ==> (#[trigger] frames[chain[i]]).opened_in() == chain[i + 1]
}

/// The number of bindings the outermost scope of `chain` had when the next scope of the
/// chain was opened in it.
pub open spec fn seen_of_outermost<V>(frames: Seq<FrameModel<V>>, chain: Seq<int>) -> int {
    frames[chain[chain.len() - 2]].link.unwrap().1
}

proof fn lemma_chain_resolves<V>(frames: Seq<FrameModel<V>>, chain: Seq<int>, name: Seq<char>, i: int)
    requires
        frames_wf(frames),
        opened_in_chain(frames, chain),
        chain.len() >= 2,
        0 <= i < chain.len(),
        forall|k: int| 0 <= k < chain.len() - 1 ==> !(#[trigger] frames[chain[k]]).names.contains(name),
        frames[chain[chain.len() - 1]].names.contains(name),
        frames[chain[chain.len() - 1]].names.index_of(name) < seen_of_outermost(frames, chain),
    ensures
        resolve(frames, chain[i], name) == Ok::<V, NewtRuntimeError>(
            frames[chain[chain.len() - 1]].value_of(name),
        ),
        i < chain.len() - 1 ==> forall|seq: int|
            resolve_before(frames, chain[i], name, seq) == Ok::<V, NewtRuntimeError>(
                frames[chain[chain.len() - 1]].value_of(name),
            ),
        i == chain.len() - 1 ==> resolve_before(frames, chain[i], name, seen_of_outermost(frames, chain))
            == Ok::<V, NewtRuntimeError>(frames[chain[chain.len() - 1]].value_of(name)),
    decreases chain.len() - i,
{
    let g = chain[chain.len() - 1];
    let f = chain[i];
    assert(0 <= f < frames.len());
    if i < chain.len() - 1 {
        lemma_chain_resolves(frames, chain, name, i + 1);
        let p = chain[i + 1];
        assert(frames[f].opened_in() == p);
        assert(!frames[f].names.contains(name));
        match frames[f].link {
            Some((q, s)) => {
                assert(q == p);
                assert(frames[f].names.len() == frames[f].values.len());
                assert(0 <= q < f);
                if i + 1 == chain.len() - 1 {
                    assert(s == seen_of_outermost(frames, chain));
                }
            },
            None => {
                assert(false);
            },
        }
    }
}

/// A name bound in a scope before a chain of scopes was opened from it, and bound in no
/// closer scope of the chain, resolves to that binding from every scope of the chain,
/// however deep.
pub proof fn law_outer_binding_resolves_through_nested_scopes<V>(
    frames: Seq<FrameModel<V>>,
    chain: Seq<int>,
    name: Seq<char>,
)
    requires
        frames_wf(frames),
        opened_in_chain(frames, chain),
        chain.len() >= 2,
        forall|k: int| 0 <= k < chain.len() - 1 ==> !(#[trigger] frames[chain[k]]).names.contains(name),
        frames[chain[chain.len() - 1]].names.contains(name),
        frames[chain[chain.len() - 1]].names.index_of(name) < seen_of_outermost(frames, chain),
    ensures
        forall|i: int|
            0 <= i < chain.len() ==> resolve(frames, #[trigger] chain[i], name) == Ok::<V, NewtRuntimeError>(
                frames[chain[chain.len() - 1]].value_of(name),
            ),
{
    assert forall|i: int| 0 <= i < chain.len() implies resolve(frames, #[trigger] chain[i], name)
        == Ok::<V, NewtRuntimeError>(frames[chain[chain.len() - 1]].value_of(name)) by {
        lemma_chain_resolves(frames, chain, name, i);
    }
}

/// The scopes of a program run.
pub struct Scopes<V> {
    frames: Vec<Frame<V>>,
}

impl<V> View for Scopes<V> {
    type V = Seq<FrameModel<V>>;

    closed spec fn view(&self) -> Seq<FrameModel<V>> {
        self.frames@.map_values(|f: Frame<V>| f.model())
    }
}

/// A scope, named by its place among the `Scopes` it was opened in.
#[derive(Debug, Clone, Copy, PartialEq, Eq, Structural)]
pub struct ScopeNode {
    index: usize,
}

impl ScopeNode {
    /// The place of this scope among its `Scopes`.
    pub closed spec fn id(self) -> int {
        self.index as int
    }
}

impl<V> Scopes<V> {
    /// Whether every scope is well formed (see `frames_wf`).
    pub open spec fn wf(&self) -> bool {
        frames_wf(self@)
    }

    /// No scopes yet.
    pub fn new() -> (s: Scopes<V>)
        ensures
            s.wf(),
            s@ == Seq::<FrameModel<V>>::empty(),
    {
        let s = Scopes { frames: Vec::new() };
        assert(s@ =~= Seq::<FrameModel<V>>::empty());
        s
    }

    /// The number of scopes opened so far.
    pub fn len(&self) -> (n: usize)
        ensures
            n == self@.len(),
    {
        self.frames.len()
    }
}

impl ScopeNode {
    /// Opens a root scope, one opened in no other, and names it.
    pub fn new<V>(scopes: &mut Scopes<V>) -> (node: ScopeNode)
        requires
            old(scopes).wf(),
            old(scopes)@.len() < usize::MAX,
        ensures
            final(scopes).wf(),
            node.id() == old(scopes)@.len(),
            final(scopes)@ == old(scopes)@.push(FrameModel::opened(None)),
    {
        let index = scopes.frames.len();
        let frame: Frame<V> = Frame { bindings: Vec::new(), link: None };
        assert(frame.model().names =~= Seq::<Seq<char>>::empty());
        assert(frame.model().values =~= Seq::<V>::empty());
        scopes.frames.push(frame);
        assert(scopes@ =~= old(scopes)@.push(FrameModel::opened(None)));
        proof {
            lemma_open_keeps_wf(old(scopes)@, None);
        }
        ScopeNode { index }
    }

    /// Opens a scope inside `parent` and names it. It sees the bindings that `parent`
    /// has now, and none that `parent` makes later.
    pub fn new_with_scope<V>(scopes: &mut Scopes<V>, parent: &ScopeNode) -> (node: ScopeNode)
        requires
            old(scopes).wf(),
            0 <= parent.id() < old(scopes)@.len(),
            old(scopes)@.len() < usize::MAX,
        ensures
            final(scopes).wf(),
            node.id() == old(scopes)@.len(),
            final(scopes)@ == old(scopes)@.push(
                FrameModel::opened(Some((parent.id(), old(scopes)@[parent.id()].names.len() as int))),
            ),
    {
        let index = scopes.frames.len();
        let sequence_number = scopes.frames[parent.index].bindings.len();
        let frame: Frame<V> = Frame { bindings: Vec::new(), link: Some((parent.index, sequence_number)) };
        let ghost link = Some((parent.id(), old(scopes)@[parent.id()].names.len() as int));
        assert(frame.model().names =~= Seq::<Seq<char>>::empty());
        assert(frame.model().values =~= Seq::<V>::empty());
        scopes.frames.push(frame);
        assert(scopes@ =~= old(scopes)@.push(FrameModel::opened(link)));
        proof {
            lemma_open_keeps_wf(old(scopes)@, link);
        }
        ScopeNode { index }
    }

    /// Gives `value` to the binding of `identifier` in this scope or, failing that, in
    /// the scopes it was opened in, one after another; the nearest binding is changed.
    pub fn assign<V>(&self, scopes: &mut Scopes<V>, identifier: &str, value: V) -> (r: Result<
        (),
        NewtRuntimeError,
    >)
        requires
            old(scopes).wf(),
            0 <= self.id() < old(scopes)@.len(),
        ensures
            final(scopes).wf(),
            match assign_target(old(scopes)@, self.id(), identifier@) {
                Some(t) => r == Ok::<(), NewtRuntimeError>(()) && final(scopes)@ == old(scopes)@.update(
                    t,
                    old(scopes)@[t].with_value(identifier@, value),
                ),
                None => r == Err::<(), NewtRuntimeError>(NewtRuntimeError::UndefinedVariable)
                    && final(scopes)@ == old(scopes)@,
            },
    {
        let name = identifier.to_owned();
        let mut f: usize = self.index;
        loop
            invariant
                scopes@ == old(scopes)@,
                scopes.wf(),
                name@ == identifier@,
                0 <= f < scopes@.len(),
                assign_target(scopes@, self.id(), name@) == assign_target(scopes@, f as int, name@),
            decreases f,
        {
            match scopes.frames[f].find(&name) {
                Some(i) => {
                    let ghost before = scopes.frames@[f as int];
                    proof {
                        assert(old(scopes)@[f as int] == before.model());
                        lemma_index_of_unique(before.model().names, i as int);
                    }
                    scopes.frames[f].bindings[i].value = value;
                    proof {
                        let after = scopes.frames@[f as int];
                        assert(after.model().names =~= before.model().names);
                        assert(after.model().values =~= before.model().values.update(i as int, value));
                        assert(scopes@ =~= old(scopes)@.update(
                            f as int,
                            old(scopes)@[f as int].with_value(identifier@, value),
                        ));
                        lemma_assign_keeps_wf(old(scopes)@, f as int, identifier@, value);
                    }
                    return Ok(());
                },
                None => {},
            }
            match scopes.frames[f].link {
                Some((p, _)) => {
                    proof {
                        assert(old(scopes)@[f as int].link == Some((p as int, scopes.frames@[f as int].link.unwrap().1 as int)));
                        assert(old(scopes)@[f as int].names.len() == old(scopes)@[f as int].values.len());
                    }
                    f = p;
                },
                None => {
                    return Err(NewtRuntimeError::UndefinedVariable);
                },
            }
        }
    }

    /// The value bound to `identifier` as seen from this scope: its own binding, else
    /// the binding that the scope it was opened in had made before opening it, and so on
    /// outwards (see `resolve`).
    pub fn resolve<V: Clone>(&self, scopes: &Scopes<V>, identifier: &str) -> (r: Result<
        V,
        NewtRuntimeError,
    >)
        requires
            scopes.wf(),
            0 <= self.id() < scopes@.len(),
        ensures
            match (r, resolve(scopes@, self.id(), identifier@)) {
                (Ok(v), Ok(w)) => cloned(w, v),
                (Err(e), Err(d)) => e == d,
                _ => false,
            },
    {
        let name = identifier.to_owned();
        let mut f: usize = self.index;
        let mut limit: Option<usize> = None;
        loop
            invariant
                scopes.wf(),
                name@ == identifier@,
                0 <= f < scopes@.len(),
                resolve(scopes@, self.id(), name@) == match limit {
                    None => resolve(scopes@, f as int, name@),
                    Some(s) => resolve_before(scopes@, f as int, name@, s as int),
                },
            decreases f,
        {
            let ghost frame = scopes@[f as int];
            proof {
                assert(frame == scopes.frames@[f as int].model());
                assert(frame.names.len() == frame.values.len());
            }
            match scopes.frames[f].find(&name) {
                Some(i) => {
                    let visible = match limit {
                        None => true,
                        Some(s) => i < s,
                    };
                    if visible {
                        proof {
                            lemma_index_of_unique(frame.names, i as int);
                        }
                        return Ok(scopes.frames[f].bindings[i].value.clone());
                    }
                },
                None => {},
            }
            match scopes.frames[f].link {
                Some((p, s)) => {
                    limit = match limit {
                        None => Some(s),
                        Some(_) => None,
                    };
                    f = p;
                },
                None => {
                    return Err(NewtRuntimeError::UndefinedVariable);
                },
            }
        }
    }

    /// Binds `identifier` to `value` in this scope; a name already bound in this very
    /// scope is refused.
    pub fn bind<V>(&self, scopes: &mut Scopes<V>, identifier: &str, value: V) -> (r: Result<
        (),
        NewtRuntimeError,
    >)
        requires
            old(scopes).wf(),
            0 <= self.id() < old(scopes)@.len(),
        ensures
            final(scopes).wf(),
            old(scopes)@[self.id()].names.contains(identifier@) ==> r == Err::<(), NewtRuntimeError>(
                NewtRuntimeError::DuplicateDeclaration,
            ) && final(scopes)@ == old(scopes)@,
            !old(scopes)@[self.id()].names.contains(identifier@) ==> r == Ok::<(), NewtRuntimeError>(())
                && final(scopes)@ == old(scopes)@.update(
                self.id(),
                old(scopes)@[self.id()].bound(identifier@, value),
            ),
    {
        let name = identifier.to_owned();
        match scopes.frames[self.index].find(&name) {
            Some(_) => Err(NewtRuntimeError::DuplicateDeclaration),
            None => {
                let ghost f = self.index as int;
                let ghost before = scopes.frames@[f];
                scopes.frames[self.index].bindings.push(Binding { name, value });
                proof {
                    let after = scopes.frames@[f];
                    assert(after.model().names =~= before.model().names.push(identifier@));
                    assert(after.model().values =~= before.model().values.push(value));
                    assert(scopes@ =~= old(scopes)@.update(f, old(scopes)@[f].bound(identifier@, value)));
                    lemma_bind_keeps_wf(old(scopes)@, f, identifier@, value);
                }
                Ok(())
            },
        }
    }
}

} // verus!
