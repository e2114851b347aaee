//! The element tree, the state store and the render pass that resolves one
//! against the other.

use crate::path::{child_path, container_kind, derive_path, node_kind};
use std::rc::Rc;
use vstd::hash_map::StringHashMap;
use vstd::prelude::*;

verus! {

/// A payload-bearing unit with its declared children.
pub struct Node<P, TChild> {
    pub payload: Rc<P>,
    pub children: Vec<TChild>,
}

impl<P, TChild> Node<P, TChild> {
    /// A node that carries `payload` and has no children yet.
    pub fn new(payload: P) -> (node: Self)
        ensures
            *node.payload == payload,
            node.children@ == Seq::<TChild>::empty(),
    {
        Self { payload: Rc::new(payload), children: Vec::new() }
    }

    /// The node with `e` added behind its children.
    pub fn add_child(self, e: TChild) -> (node: Self)
        ensures
            node.payload == self.payload,
            node.children@ == self.children@.push(e),
    {
        let mut node = self;
        node.children.push(e);
        node
    }

    /// The node with the elements of `cn` added behind its children, in
    /// their order.
    pub fn add_children(self, cn: Vec<TChild>) -> (node: Self)
        ensures
            node.payload == self.payload,
            node.children@ == self.children@ + cn@,
    {
        let mut node = self;
        let mut rest = cn;
        node.children.append(&mut rest);
        node
    }
}

/// The declarative description of one tree position, built afresh for every
/// render pass. `P` is the payload that nodes carry, `C` the type of the
/// stateful components that may stand in the tree.
pub enum El<P, C> {
    /// Renders to nothing.
    Empty,
    /// A payload with declared children.
    Node(Node<P, El<P, C>>),
    /// A stateful component, resolved by invoking it during the pass.
    Component(Box<C>),
    /// A transparent group of sibling elements.
    Container(Vec<El<P, C>>),
}

/// A resolved payload node: its path, its payload and its resolved children.
pub struct RenderedNode<P> {
    pub path: String,
    pub payload: Rc<P>,
    pub children: Vec<RenderedEl<P>>,
}

/// The result of a render pass: the element tree with every component
/// replaced by what it rendered to.
pub enum RenderedEl<P> {
    Empty,
    Node(RenderedNode<P>),
    Container(Vec<RenderedEl<P>>),
}

/// `Rc::clone` of std: another handle to the same shared value. The contract
/// claims that the new handle holds the value that the given one holds.
#[verifier::external_body]
pub(crate) fn share<T>(value: &Rc<T>) -> (shared: Rc<T>)
    ensures
        *shared == **value,
{
    Rc::clone(value)
}

/// The only memory that survives from one render pass to the next: a map
/// from structural path to the state of the component rendered there.
/// `S` is the type-erased state that the components of one tree share.
#[verifier::reject_recursive_types(S)]
pub struct StateStore<S> {
    state: StringHashMap<Rc<S>>,
}

impl<S> View for StateStore<S> {
    type V = Map<Seq<char>, S>;

    closed spec fn view(&self) -> Map<Seq<char>, S> {
        Map::new(
            |path: Seq<char>| self.state@.contains_key(path),
            |path: Seq<char>| *self.state@[path],
        )
    }
}

impl<S> StateStore<S> {
    /// An empty store.
    pub fn new() -> (store: Self)
        ensures
            store@ == Map::<Seq<char>, S>::empty(),
    {
        let store = StateStore { state: StringHashMap::new() };
        assert(store@ =~= Map::<Seq<char>, S>::empty());
        store
    }

    /// Overwrites, or creates, the entry at `path`.
    pub fn set(&mut self, path: &str, state: Rc<S>)
        ensures
            final(self)@ == old(self)@.insert(path@, *state),
    {
        self.state.insert(String::from_str(path), state);
        assert(self@ =~= old(self)@.insert(path@, *state));
    }

    /// The state stored at `path`, or `None` where nothing was ever stored.
    pub fn get(&self, path: &str) -> (state: Option<Rc<S>>)
        ensures
            match state {
                Some(s) => self@.contains_key(path@) && *s == self@[path@],
                None => !self@.contains_key(path@),
            },
    {
        match self.state.get(path) {
            None => None,
            Some(s) => Some(share(s)),
        }
    }
}

/// An empty store for a new frame loop.
pub fn new_state_store<S>() -> (store: StateStore<S>)
    ensures
        store@ == Map::<Seq<char>, S>::empty(),
{
    StateStore::new()
}

/// The mathematical model of an element tree.
pub ghost enum ElView<P, C> {
    Empty,
    Node { payload: P, children: Seq<ElView<P, C>> },
    Component { component: C },
    Container { elements: Seq<ElView<P, C>> },
}

/// The mathematical model of a resolved tree.
pub ghost enum RenderedView<P> {
    Empty,
    Node { path: Seq<char>, payload: P, children: Seq<RenderedView<P>> },
    Container { elements: Seq<RenderedView<P>> },
}

/// The model of an element.
pub open spec fn el_view<P: View, C>(el: El<P, C>) -> ElView<P::V, C>
    decreases el, 0nat,
{
    match el {
        El::Empty => ElView::Empty,
        El::Node(n) => ElView::Node {
            payload: (*n.payload)@,
            children: views_of_first(n.children@, n.children@.len()),
        },
        El::Component(c) => ElView::Component { component: *c },
        El::Container(v) => ElView::Container { elements: views_of_first(v@, v@.len()) },
    }
}

/// The models of the first `n` elements of `els`, in order.
pub open spec fn views_of_first<P: View, C>(els: Seq<El<P, C>>, n: nat) -> Seq<ElView<P::V, C>>
    decreases els, n,
{
    if n == 0 || n > els.len() {
        Seq::empty()
    } else {
        views_of_first(els, (n - 1) as nat).push(el_view(els[n - 1]))
    }
}

impl<P: View, C> View for El<P, C> {
    type V = ElView<P::V, C>;

    open spec fn view(&self) -> ElView<P::V, C> {
        el_view(*self)
    }
}

/// The model of a resolved element.
pub open spec fn rendered_view<P: View>(el: RenderedEl<P>) -> RenderedView<P::V>
    decreases el, 0nat,
{
    match el {
        RenderedEl::Empty => RenderedView::Empty,
        RenderedEl::Node(n) => RenderedView::Node {
            path: n.path@,
            payload: (*n.payload)@,
            children: rendered_views_of_first(n.children@, n.children@.len()),
        },
        RenderedEl::Container(v) => RenderedView::Container {
            elements: rendered_views_of_first(v@, v@.len()),
        },
    }
}

/// The models of the first `n` resolved elements of `els`, in order.
pub open spec fn rendered_views_of_first<P: View>(els: Seq<RenderedEl<P>>, n: nat) -> Seq<
    RenderedView<P::V>,
>
    decreases els, n,
{
    if n == 0 || n > els.len() {
        Seq::empty()
    } else {
        rendered_views_of_first(els, (n - 1) as nat).push(rendered_view(els[n - 1]))
    }
}

impl<P: View> View for RenderedEl<P> {
    type V = RenderedView<P::V>;

    open spec fn view(&self) -> RenderedView<P::V> {
        rendered_view(*self)
    }
}

/// A pending overwrite of one store entry: the state to store and the path
/// to store it at. A frontend keeps such a value in a payload and applies it
/// between two render passes, when the event it stands for has come.
pub struct StateChange<S> {
    pub path: String,
    pub state: Rc<S>,
}

impl<S> StateChange<S> {
    /// Overwrites the store entry at this change's path with its state.
    pub fn apply(&self, store: &mut StateStore<S>)
        ensures
            final(store)@ == old(store)@.insert(self.path@, *self.state),
    {
        store.set(self.path.as_str(), share(&self.state));
    }
}

/// The state-change callback handed to a component: it is bound to the path
/// that the component is rendered at. A request made during a pass is written
/// to the store when the component's `render` returns, and is seen by the
/// next pass.
pub struct SetState<S> {
    path: String,
    requested: Option<Rc<S>>,
}

impl<S> SetState<S> {
    /// The path that this callback is bound to.
    pub closed spec fn path(&self) -> Seq<char> {
        self.path@
    }

    /// The state requested through this callback so far, if any.
    pub closed spec fn requested(&self) -> Option<S> {
        match self.requested {
            Some(s) => Some(*s),
            None => None,
        }
    }

    /// A callback bound to `path`, with nothing requested.
    pub fn new(path: &str) -> (set_state: Self)
        ensures
            set_state.path() == path@,
            set_state.requested() is None,
    {
        SetState { path: String::from_str(path), requested: None }
    }

    /// Requests that the entry at the bound path be overwritten with `state`.
    /// The latest request wins.
    pub fn set(&mut self, state: Rc<S>)
        ensures
            final(self).path() == old(self).path(),
            final(self).requested() == Some(*state),
    {
        self.requested = Some(state);
    }

    /// The same overwrite as a value, to be applied later.
    pub fn bind(&self, state: Rc<S>) -> (change: StateChange<S>)
        ensures
            change.path@ == self.path(),
            *change.state == *state,
    {
        StateChange { path: self.path.clone(), state }
    }

    /// The state requested through this callback, if any.
    pub fn take(self) -> (state: Option<Rc<S>>)
        ensures
            match state {
                Some(s) => self.requested() == Some(*s),
                None => self.requested() is None,
            },
    {
        self.requested
    }
}

/// What a component knows of its own type.
pub trait KnowsType {
    /// The identity of the component's concrete type: the discriminator of
    /// the path segment that the component occupies.
    spec fn spec_type_id(&self) -> Seq<char>;

    /// A bound on how deep components nest in what this one renders to: every
    /// component in that subtree has a smaller rank.
    spec fn rank(&self) -> nat;

    fn type_id(&self) -> (id: String)
        ensures
            id@ == self.spec_type_id(),
    ;
}

/// The largest rank among the first `n` elements of `els`.
pub open spec fn rank_of_first<P, C: KnowsType>(els: Seq<ElView<P, C>>, n: nat) -> nat
    decreases els, n,
{
    if n == 0 || n > els.len() {
        0
    } else {
        let last = el_rank(els[n - 1]);
        let before = rank_of_first(els, (n - 1) as nat);
        if last > before {
            last
        } else {
            before
        }
    }
}

/// One more than the largest rank of a component that stands in `el`, or 0
/// where none does.
pub open spec fn el_rank<P, C: KnowsType>(el: ElView<P, C>) -> nat
    decreases el, 0nat,
{
    match el {
        ElView::Empty => 0,
        ElView::Node { payload, children } => rank_of_first(children, children.len()),
        ElView::Component { component } => component.rank() + 1,
        ElView::Container { elements } => rank_of_first(elements, elements.len()),
    }
}

/// A stateful component: it declares an initial state and, given its current
/// state and a state-change callback, produces the subtree that stands for it
/// in this render pass.
pub trait Component<P: View>: KnowsType + Sized {
    /// The type-erased state that the store keeps for the components of one
    /// tree.
    type State;

    /// The state that the component has where the store holds none for it.
    spec fn spec_initial_state(&self) -> Self::State;

    /// The subtree that the component renders to in `state`, with its
    /// callback bound to `path`.
    spec fn spec_render(&self, state: Self::State, path: Seq<char>) -> ElView<P::V, Self>;

    /// The state that the component requests while it renders in `state`,
    /// if it requests one.
    spec fn spec_next_state(&self, state: Self::State) -> Option<Self::State>;

    fn initial_state(&self) -> (state: Rc<Self::State>)
        ensures
            *state == self.spec_initial_state(),
    ;

    fn render(&self, state: Rc<Self::State>, set_state: &mut SetState<Self::State>) -> (el: El<
        P,
        Self,
    >)
        requires
            old(set_state).requested() is None,
        ensures
            el@ == self.spec_render(*state, old(set_state).path()),
            final(set_state).path() == old(set_state).path(),
            final(set_state).requested() == self.spec_next_state(*state),
            el_rank(el@) <= self.rank(),
    ;
}

/// Declares that a component's own state is `T`, and how a `T` is recovered
/// from the type-erased state `S` that the store keeps.
pub trait StateReceiver<S, T> {
    /// The `T` that `state` holds, or `None` where it holds something else.
    spec fn spec_downcast(state: S) -> Option<T>;

    /// The checked downcast: a copy of the `T` that `state` holds.
    fn downcast(state: &S) -> (own: Option<T>)
        ensures
            own == Self::spec_downcast(*state),
    ;
}

/// The typed accessors that every `StateReceiver` has.
pub trait StateReceiverDefault<S, T>: StateReceiver<S, T> {
    /// The component's own state, shared, where `state` holds one. The
    /// caller has established that it does.
    fn must_receive_state_rc(&self, state: Rc<S>) -> (own: Rc<T>)
        requires
            Self::spec_downcast(*state) is Some,
        ensures
            Self::spec_downcast(*state) == Some(*own),
    ;

    /// The component's own state where `state` holds one. The caller has
    /// established that it does.
    fn must_receive_state(&self, state: Rc<S>) -> (own: T)
        requires
            Self::spec_downcast(*state) is Some,
        ensures
            Self::spec_downcast(*state) == Some(own),
    ;

    /// The component's own state, shared, or else the untouched opaque
    /// state as the error.
    fn receive_state_rc(&self, state: Rc<S>) -> (own: Result<Rc<T>, Rc<S>>)
        ensures
            match own {
                Ok(t) => Self::spec_downcast(*state) == Some(*t),
                Err(e) => Self::spec_downcast(*state) is None && *e == *state,
            },
    ;

    /// The component's own state, or else the untouched opaque state as the
    /// error.
    fn receive_state(&self, state: Rc<S>) -> (own: Result<T, Rc<S>>)
        ensures
            match own {
                Ok(t) => Self::spec_downcast(*state) == Some(t),
                Err(e) => Self::spec_downcast(*state) is None && *e == *state,
            },
    ;
}

impl<S, U, T: StateReceiver<S, U>> StateReceiverDefault<S, U> for T {
    fn must_receive_state_rc(&self, state: Rc<S>) -> (own: Rc<U>) {
        Rc::new(self.must_receive_state(state))
    }

    fn must_receive_state(&self, state: Rc<S>) -> (own: U) {
        match T::downcast(&state) {
            Some(u) => u,
            None => vstd::pervasive::unreached(),
        }
    }

    fn receive_state_rc(&self, state: Rc<S>) -> (own: Result<Rc<U>, Rc<S>>) {
        match self.receive_state(state) {
            Ok(u) => Ok(Rc::new(u)),
            Err(e) => Err(e),
        }
    }

    fn receive_state(&self, state: Rc<S>) -> (own: Result<U, Rc<S>>) {
        match T::downcast(&state) {
            Some(u) => Ok(u),
            None => Err(state),
        }
    }
}

/// The models of a list of elements, in order.
pub open spec fn views<P: View, C>(els: Seq<El<P, C>>) -> Seq<ElView<P::V, C>> {
    views_of_first(els, els.len())
}

/// The models of a list of resolved elements, in order.
pub open spec fn rendered_views<P: View>(els: Seq<RenderedEl<P>>) -> Seq<RenderedView<P::V>> {
    rendered_views_of_first(els, els.len())
}

/// The state that a component rendered at `path` reads from `store`: the
/// stored one, or its declared initial state where none is stored.
pub open spec fn observed_state<P: View, C: Component<P>>(
    component: C,
    path: Seq<char>,
    store: Map<Seq<char>, C::State>,
) -> C::State {
    if store.contains_key(path) {
        store[path]
    } else {
        component.spec_initial_state()
    }
}

/// The store after a component was invoked at `path`: the entry at `path`
/// holds the state that the component requested, or else the one it read.
pub open spec fn store_after_component<P: View, C: Component<P>>(
    component: C,
    path: Seq<char>,
    store: Map<Seq<char>, C::State>,
) -> Map<Seq<char>, C::State> {
    let seen = observed_state(component, path, store);
    match component.spec_next_state(seen) {
        Some(next) => store.insert(path, next),
        None => store.insert(path, seen),
    }
}

/// One render pass over `el`, which stands at sibling position `index` below
/// `path`: the resolved tree and the store that the pass leaves.
///
/// A component is invoked once, with the state that the store holds for its
/// path or else its initial state, and what it renders to is resolved at the
/// component's own path and sibling position. `Component::render` keeps the
/// rank of that subtree within the component's own, which is what ends the
/// recursion; the branch for a subtree of a higher rank only makes the
/// definition total.
pub open spec fn render_spec<P: View, C: Component<P>>(
    el: ElView<P::V, C>,
    path: Seq<char>,
    index: nat,
    store: Map<Seq<char>, C::State>,
) -> (RenderedView<P::V>, Map<Seq<char>, C::State>)
    decreases el_rank(el), el, 0nat,
{
    match el {
        ElView::Empty => (RenderedView::Empty, store),
        ElView::Node { payload, children } => {
            let own = child_path(path, index, node_kind());
            let below = render_children_spec::<P, C>(children, own, children.len(), store);
            (RenderedView::Node { path: own, payload, children: below.0 }, below.1)
        },
        ElView::Component { component } => {
            let own = child_path(path, index, component.spec_type_id());
            let seen = observed_state(component, own, store);
            let subtree = component.spec_render(seen, own);
            let after = store_after_component(component, own, store);
            if el_rank(subtree) <= component.rank() {
                render_spec::<P, C>(subtree, own, index, after)
            } else {
                (RenderedView::Empty, after)
            }
        },
        ElView::Container { elements } => {
            let own = child_path(path, index, container_kind());
            let below = render_children_spec::<P, C>(elements, own, elements.len(), store);
            (RenderedView::Container { elements: below.0 }, below.1)
        },
    }
}

/// The first `n` elements of `els` rendered in order as the children of the
/// element at `path`, each at its own sibling position, the store handed
/// from one to the next.
pub open spec fn render_children_spec<P: View, C: Component<P>>(
    els: Seq<ElView<P::V, C>>,
    path: Seq<char>,
    n: nat,
    store: Map<Seq<char>, C::State>,
) -> (Seq<RenderedView<P::V>>, Map<Seq<char>, C::State>)
    decreases rank_of_first(els, n), els, n,
{
    if n == 0 || n > els.len() {
        (Seq::empty(), store)
    } else {
        let before = render_children_spec::<P, C>(els, path, (n - 1) as nat, store);
        let last = render_spec::<P, C>(els[n - 1], path, (n - 1) as nat, before.1);
        (before.0.push(last.0), last.1)
    }
}

/// What invoking `component` at its own path `path` renders to, and the
/// store that this leaves.
pub open spec fn render_component_spec<P: View, C: Component<P>>(
    component: C,
    path: Seq<char>,
    index: nat,
    store: Map<Seq<char>, C::State>,
) -> (RenderedView<P::V>, Map<Seq<char>, C::State>) {
    let seen = observed_state(component, path, store);
    let subtree = component.spec_render(seen, path);
    let after = store_after_component(component, path, store);
    if el_rank(subtree) <= component.rank() {
        render_spec::<P, C>(subtree, path, index, after)
    } else {
        (RenderedView::Empty, after)
    }
}

/// No element among the first `n` has a rank above that of all of them.
pub proof fn lemma_rank_of_first_bounds<P, C: KnowsType>(els: Seq<ElView<P, C>>, n: nat, i: int)
    requires
        0 <= i < n <= els.len(),
    ensures
        el_rank(els[i]) <= rank_of_first(els, n),
    decreases n,
{
    if i < n - 1 {
        lemma_rank_of_first_bounds(els, (n - 1) as nat, i);
    }
}

/// A bound on the rank of each of the first `n` elements bounds the rank of
/// all of them.
pub proof fn lemma_rank_of_first_below<P, C: KnowsType>(els: Seq<ElView<P, C>>, n: nat, bound: nat)
    requires
        n <= els.len(),
        forall|i: int| 0 <= i < n ==> el_rank(#[trigger] els[i]) <= bound,
    ensures
        rank_of_first(els, n) <= bound,
    decreases n,
{
    if n > 0 {
        lemma_rank_of_first_below(els, (n - 1) as nat, bound);
    }
}

/// The models of the first `n` elements: one for each, in order.
pub proof fn lemma_views_of_first<P: View, C>(els: Seq<El<P, C>>, n: nat)
    requires
        n <= els.len(),
    ensures
        views_of_first(els, n).len() == n,
        forall|i: int| 0 <= i < n ==> (#[trigger] views_of_first(els, n)[i]) == els[i]@,
    decreases n,
{
    if n > 0 {
        lemma_views_of_first(els, (n - 1) as nat);
    }
}

/// The models of a list of elements: one for each, in order.
pub proof fn lemma_views<P: View, C>(els: Seq<El<P, C>>)
    ensures
        views(els).len() == els.len(),
        forall|i: int| 0 <= i < els.len() ==> (#[trigger] views(els)[i]) == els[i]@,
{
    lemma_views_of_first(els, els.len());
}

/// The model of a payload node over the models of its children.
pub proof fn lemma_node_view<P: View, C>(n: Node<P, El<P, C>>)
    ensures
        El::Node(n)@ == (ElView::<P::V, C>::Node {
            payload: (*n.payload)@,
            children: views(n.children@),
        }),
        views(n.children@).len() == n.children@.len(),
        forall|i: int|
            0 <= i < n.children@.len() ==> (#[trigger] views(n.children@)[i]) == n.children@[i]@,
{
    lemma_views(n.children@);
}

/// The model of a container over the models of its elements.
pub proof fn lemma_container_view<P: View, C>(elements: Vec<El<P, C>>)
    ensures
        El::Container(elements)@ == (ElView::<P::V, C>::Container { elements: views(elements@) }),
        views(elements@).len() == elements@.len(),
        forall|i: int|
            0 <= i < elements@.len() ==> (#[trigger] views(elements@)[i]) == elements@[i]@,
{
    lemma_views(elements@);
}

/// The models of the first `n` resolved elements: one for each, in order.
pub proof fn lemma_rendered_views_of_first<P: View>(els: Seq<RenderedEl<P>>, n: nat)
    requires
        n <= els.len(),
    ensures
        rendered_views_of_first(els, n).len() == n,
        forall|i: int| 0 <= i < n ==> (#[trigger] rendered_views_of_first(els, n)[i]) == els[i]@,
    decreases n,
{
    if n > 0 {
        lemma_rendered_views_of_first(els, (n - 1) as nat);
    }
}

/// The models of a list of resolved elements: one for each, in order.
pub proof fn lemma_rendered_views<P: View>(els: Seq<RenderedEl<P>>)
    ensures
        rendered_views(els).len() == els.len(),
        forall|i: int| 0 <= i < els.len() ==> (#[trigger] rendered_views(els)[i]) == els[i]@,
{
    lemma_rendered_views_of_first(els, els.len());
}

/// Renders `el`, which stands at sibling position `sibling_num` below
/// `path`, against `state_store`.
pub fn render<P: View, C: Component<P>>(
    el: &El<P, C>,
    path: &str,
    sibling_num: usize,
    state_store: &mut StateStore<C::State>,
) -> (rendered: RenderedEl<P>)
    ensures
        (rendered@, final(state_store)@) == render_spec::<P, C>(
            el@,
            path@,
            sibling_num as nat,
            old(state_store)@,
        ),
    decreases el_rank(el@), el@, 1nat,
{
    proof {
        reveal_strlit("Node");
        reveal_strlit("Container");
        assert("Node"@ =~= node_kind());
        assert("Container"@ =~= container_kind());
    }
    match el {
        El::Empty => {
            let rendered = RenderedEl::Empty;
            assert(rendered@ == RenderedView::<P::V>::Empty);
            assert(el@ == ElView::<P::V, C>::Empty);
            rendered
        },
        El::Node(n) => {
            let own = derive_path(path, sibling_num, "Node");
            proof {
                lemma_views(n.children@);
                assert(el@->Node_children == views(n.children@));
                assert(decreases_to!(el@ => views(n.children@)));
            }
            render_node(n, own.as_str(), sibling_num, state_store)
        },
        El::Component(c) => {
            let id = c.type_id();
            let own = derive_path(path, sibling_num, id.as_str());
            render_stateful_component(c, own.as_str(), sibling_num, state_store)
        },
        El::Container(c) => {
            let own = derive_path(path, sibling_num, "Container");
            proof {
                lemma_views(c@);
                assert(el@->Container_elements == views(c@));
                assert(decreases_to!(el@ => views(c@)));
            }
            render_container(c, own.as_str(), sibling_num, state_store)
        },
    }
}

/// Renders the elements of a container whose own path is `path`.
pub fn render_container<P: View, C: Component<P>>(
    cont: &Vec<El<P, C>>,
    path: &str,
    _sibling_num: usize,
    state_store: &mut StateStore<C::State>,
) -> (rendered: RenderedEl<P>)
    ensures
        ({
            let below = render_children_spec::<P, C>(
                views(cont@),
                path@,
                cont@.len(),
                old(state_store)@,
            );
            &&& rendered@ == (RenderedView::Container { elements: below.0 })
            &&& final(state_store)@ == below.1
        }),
    decreases rank_of_first(views(cont@), cont@.len()), views(cont@), 1nat,
{
    let container = render_children(cont, path, state_store);
    let rendered = RenderedEl::Container(container);
    rendered
}

/// Renders a payload node whose own path is `path`.
pub fn render_node<P: View, C: Component<P>>(
    n: &Node<P, El<P, C>>,
    path: &str,
    _sibling_num: usize,
    state_store: &mut StateStore<C::State>,
) -> (rendered: RenderedEl<P>)
    ensures
        ({
            let below = render_children_spec::<P, C>(
                views(n.children@),
                path@,
                n.children@.len(),
                old(state_store)@,
            );
            &&& rendered@ == (RenderedView::Node {
                path: path@,
                payload: (*n.payload)@,
                children: below.0,
            })
            &&& final(state_store)@ == below.1
        }),
    decreases rank_of_first(views(n.children@), n.children@.len()), views(n.children@), 1nat,
{
    let children = render_children(&n.children, path, state_store);
    let rendered = RenderedEl::Node(
        RenderedNode { path: String::from_str(path), payload: share(&n.payload), children },
    );
    rendered
}

/// Renders `els` in order as the children of the element at `path`.
pub fn render_children<P: View, C: Component<P>>(
    els: &Vec<El<P, C>>,
    path: &str,
    state_store: &mut StateStore<C::State>,
) -> (rendered: Vec<RenderedEl<P>>)
    ensures
        (rendered_views(rendered@), final(state_store)@) == render_children_spec::<P, C>(
            views(els@),
            path@,
            els@.len(),
            old(state_store)@,
        ),
    decreases rank_of_first(views(els@), els@.len()), views(els@), 0nat,
{
    let ghost kids = views(els@);
    let mut rendered: Vec<RenderedEl<P>> = Vec::new();
    let mut i: usize = 0;
    assert(rendered_views(rendered@) =~= Seq::<RenderedView<P::V>>::empty());
    while i < els.len()
        invariant
            i <= els.len(),
            kids == views(els@),
            (rendered_views(rendered@), state_store@) == render_children_spec::<P, C>(
                kids,
                path@,
                i as nat,
                old(state_store)@,
            ),
        decreases els.len() - i,
    {
        proof {
            lemma_views(els@);
            lemma_rank_of_first_bounds(kids, els@.len(), i as int);
        }
        let ghost before = rendered@;
        let child = render(&els[i], path, i, state_store);
        rendered.push(child);
        proof {
            lemma_rendered_views(before);
            lemma_rendered_views(rendered@);
            assert(rendered_views(rendered@) =~= rendered_views(before).push(child@));
        }
        i += 1;
    }
    rendered
}

/// Invokes the component `c`, whose own path is `path`, and renders what it
/// produced. The component reads the state stored at `path`, or its initial
/// state, which is then stored; a state that it requests is stored when it
/// returns.
pub fn render_stateful_component<P: View, C: Component<P>>(
    c: &Box<C>,
    path: &str,
    sibling_num: usize,
    state_store: &mut StateStore<C::State>,
) -> (rendered: RenderedEl<P>)
    ensures
        (rendered@, final(state_store)@) == render_component_spec::<P, C>(
            **c,
            path@,
            sibling_num as nat,
            old(state_store)@,
        ),
    decreases c.rank() + 1, (ElView::<P::V, C>::Component { component: **c }), 0nat,
{
    let s = match state_store.get(path) {
        None => {
            let initial_state = c.initial_state();
            state_store.set(path, share(&initial_state));
            initial_state
        },
        Some(s) => s,
    };
    let mut set_state = SetState::new(path);
    let el = c.render(s, &mut set_state);
    match set_state.take() {
        Some(next) => {
            state_store.set(path, next);
        },
        None => {},
    }
    assert(state_store@ =~= store_after_component(**c, path@, old(state_store)@));
    render(&el, path, sibling_num, state_store)
}

/// One render pass over the whole tree `el`.
pub fn render_app<P: View, C: Component<P>>(
    el: &El<P, C>,
    state_store: &mut StateStore<C::State>,
) -> (rendered: RenderedEl<P>)
    ensures
        (rendered@, final(state_store)@) == render_spec::<P, C>(
            el@,
            Seq::<char>::empty(),
            0,
            old(state_store)@,
        ),
{
    proof {
        reveal_strlit("");
    }
    render(el, "", 0, state_store)
}

} // verus!
