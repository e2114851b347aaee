//! What a component finds in the store from one render pass to the next.

use crate::engine::{
    el_rank, observed_state, rank_of_first, render_children_spec, render_spec,
    store_after_component, Component, ElView, StateReceiver,
};
use crate::isolation::{
    agree_at, children_prefix, lemma_earlier_siblings_keep_slot,
    lemma_later_siblings_keep_slot, lemma_prefix_transitive, lemma_render_writes_own_slot,
    lemma_slot_nesting,
};
use crate::path::{
    child_path, container_kind, decimal, lemma_slots_disjoint, node_kind, slot_prefix,
};
use vstd::prelude::*;

verus! {

/// The state that a component leaves behind when it has read `seen`: the one
/// that it asks for, or else `seen`.
pub open spec fn state_after<P: View, C: Component<P>>(component: C, seen: C::State) -> C::State {
    match component.spec_next_state(seen) {
        Some(next) => next,
        None => seen,
    }
}

/// The state that a pass leaves for the component rendered at `own`: the one
/// that the component asked for while it rendered, or else the one that it
/// read from `store`.
pub open spec fn state_left<P: View, C: Component<P>>(
    component: C,
    own: Seq<char>,
    store: Map<Seq<char>, C::State>,
) -> C::State {
    state_after(component, observed_state(component, own, store))
}

/// After a pass over a component, the store holds at the component's path
/// the state that the pass left for it: nothing that was rendered below the
/// component has touched that entry.
pub proof fn lemma_component_entry_after_pass<P: View, C: Component<P>>(
    component: C,
    parent: Seq<char>,
    index: nat,
    store: Map<Seq<char>, C::State>,
)
    ensures
        ({
            let own = child_path(parent, index, component.spec_type_id());
            let after = render_spec::<P, C>(
                ElView::Component { component },
                parent,
                index,
                store,
            ).1;
            &&& after.contains_key(own)
            &&& after[own] == state_left(component, own, store)
        }),
{
    let own = child_path(parent, index, component.spec_type_id());
    let seen = observed_state(component, own, store);
    let subtree = component.spec_render(seen, own);
    let invoked = store_after_component(component, own, store);
    let after = render_spec::<P, C>(ElView::Component { component }, parent, index, store).1;
    assert(invoked.contains_key(own) && invoked[own] == state_left(component, own, store));
    if el_rank(subtree) <= component.rank() {
        lemma_render_writes_own_slot::<P, C>(subtree, own, index, invoked);
        lemma_slot_nesting(parent, index, component.spec_type_id(), index);
        assert(!slot_prefix(own, index).is_prefix_of(own));
        assert(agree_at(invoked, after, own));
    }
}

/// State persists across passes: where the component at a path asks for the
/// state `next` during one pass, the component rendered at that path in the
/// next pass reads exactly `next`.
pub proof fn lemma_requested_state_persists<P: View, C: Component<P>>(
    component: C,
    successor: C,
    parent: Seq<char>,
    index: nat,
    store: Map<Seq<char>, C::State>,
    next: C::State,
)
    requires
        component.spec_next_state(
            observed_state(
                component,
                child_path(parent, index, component.spec_type_id()),
                store,
            ),
        ) == Some(next),
    ensures
        observed_state(
            successor,
            child_path(parent, index, component.spec_type_id()),
            render_spec::<P, C>(ElView::Component { component }, parent, index, store).1,
        ) == next,
{
    lemma_component_entry_after_pass::<P, C>(component, parent, index, store);
}

/// The first pass starts from the declared default: a component rendered at
/// a path that the store holds nothing for reads exactly its initial state,
/// and the pass stores that state there unless the component asked for
/// another.
pub proof fn lemma_first_pass_default<P: View, C: Component<P>>(
    component: C,
    parent: Seq<char>,
    index: nat,
    store: Map<Seq<char>, C::State>,
)
    requires
        !store.contains_key(child_path(parent, index, component.spec_type_id())),
    ensures
        ({
            let own = child_path(parent, index, component.spec_type_id());
            let after = render_spec::<P, C>(
                ElView::Component { component },
                parent,
                index,
                store,
            ).1;
            &&& observed_state(component, own, store) == component.spec_initial_state()
            &&& after.contains_key(own)
            &&& component.spec_next_state(component.spec_initial_state()) is None ==> after[own]
                == component.spec_initial_state()
        }),
{
    lemma_component_entry_after_pass::<P, C>(component, parent, index, store);
}

/// A state of the wrong type is contained: where one pass leaves at a path a
/// state that the component rendered there in the next pass cannot take for
/// its own, that component is handed exactly that state, and the checked
/// downcast of what it is handed yields nothing. The fallible accessors then
/// return the state untouched as their error, and the demands of the
/// assertive ones are not met.
pub proof fn lemma_mismatch_is_contained<
    P: View,
    C: Component<P>,
    T,
    R: StateReceiver<C::State, T>,
>(
    component: C,
    successor: C,
    parent: Seq<char>,
    index: nat,
    store: Map<Seq<char>, C::State>,
)
    requires
        R::spec_downcast(
            state_left(component, child_path(parent, index, component.spec_type_id()), store),
        ) is None,
    ensures
        ({
            let own = child_path(parent, index, component.spec_type_id());
            let after = render_spec::<P, C>(
                ElView::Component { component },
                parent,
                index,
                store,
            ).1;
            let handed = observed_state(successor, own, after);
            &&& handed == state_left(component, own, store)
            &&& R::spec_downcast(handed) is None
        }),
{
    lemma_component_entry_after_pass::<P, C>(component, parent, index, store);
}

/// State persists among siblings: where a component stands at position `k`
/// among the children of an element, the pass over all the children leaves
/// at the component's path the state that the component asked for, or else
/// the one that it read, and what it read is what the store held for it
/// before the pass. No sibling in front of it or behind it has a part in
/// either.
pub proof fn lemma_sibling_component_state_persists<P: View, C: Component<P>>(
    els: Seq<ElView<P::V, C>>,
    own: Seq<char>,
    k: nat,
    component: C,
    store: Map<Seq<char>, C::State>,
)
    requires
        k < els.len(),
        els[k as int] == (ElView::<P::V, C>::Component { component }),
    ensures
        ({
            let at = child_path(own, k, component.spec_type_id());
            let before = render_children_spec::<P, C>(els, own, k, store).1;
            let after = render_children_spec::<P, C>(els, own, els.len(), store).1;
            &&& observed_state(component, at, before) == observed_state(component, at, store)
            &&& after.contains_key(at)
            &&& after[at] == state_left(component, at, store)
        }),
{
    let at = child_path(own, k, component.spec_type_id());
    let before = render_children_spec::<P, C>(els, own, k, store).1;
    let settled = render_children_spec::<P, C>(els, own, k + 1, store).1;
    let after = render_children_spec::<P, C>(els, own, els.len(), store).1;
    lemma_slot_nesting(own, k, component.spec_type_id(), 0);
    lemma_earlier_siblings_keep_slot::<P, C>(els, own, k, k, store);
    assert(agree_at(store, before, at));
    lemma_component_entry_after_pass::<P, C>(component, own, k, before);
    assert(settled == render_spec::<P, C>(els[k as int], own, k, before).1);
    lemma_later_siblings_keep_slot::<P, C>(els, own, k, els.len(), store);
    assert(agree_at(settled, after, at));
}

/// The component that a pass over `el` invokes at the path `at`, with the
/// state that it reads there, or `None` where the pass invokes no component
/// at that path.
pub open spec fn invoked_at<P: View, C: Component<P>>(
    el: ElView<P::V, C>,
    path: Seq<char>,
    index: nat,
    store: Map<Seq<char>, C::State>,
    at: Seq<char>,
) -> Option<(C, C::State)>
    decreases el_rank(el), el, 0nat,
{
    match el {
        ElView::Empty => None,
        ElView::Node { payload, children } => invoked_among::<P, C>(
            children,
            child_path(path, index, node_kind()),
            children.len(),
            store,
            at,
        ),
        ElView::Component { component } => {
            let own = child_path(path, index, component.spec_type_id());
            let seen = observed_state(component, own, store);
            let subtree = component.spec_render(seen, own);
            if own == at {
                Some((component, seen))
            } else if el_rank(subtree) <= component.rank() {
                invoked_at::<P, C>(
                    subtree,
                    own,
                    index,
                    store_after_component(component, own, store),
                    at,
                )
            } else {
                None
            }
        },
        ElView::Container { elements } => invoked_among::<P, C>(
            elements,
            child_path(path, index, container_kind()),
            elements.len(),
            store,
            at,
        ),
    }
}

/// The component that a pass over the first `n` children of the element at
/// `own` invokes at the path `at`, with the state that it reads there.
pub open spec fn invoked_among<P: View, C: Component<P>>(
    els: Seq<ElView<P::V, C>>,
    own: Seq<char>,
    n: nat,
    store: Map<Seq<char>, C::State>,
    at: Seq<char>,
) -> Option<(C, C::State)>
    decreases rank_of_first(els, n), els, n,
{
    if n == 0 || n > els.len() {
        None
    } else {
        match invoked_among::<P, C>(els, own, (n - 1) as nat, store, at) {
            Some(found) => Some(found),
            None => invoked_at::<P, C>(
                els[n - 1],
                own,
                (n - 1) as nat,
                render_children_spec::<P, C>(els, own, (n - 1) as nat, store).1,
                at,
            ),
        }
    }
}

/// State persists across passes, wherever in the tree a component stands:
/// the component that a pass invokes at a path reads what the store held
/// for that path before the pass, or its initial state where the store held
/// nothing; and the pass leaves at that path the state that the component
/// asked for, or else the one that it read. Nothing else that the pass
/// renders, before the component, below it or after it, has a part in
/// either, so the next pass finds exactly that state.
pub proof fn lemma_state_persists_in_tree<P: View, C: Component<P>>(
    el: ElView<P::V, C>,
    path: Seq<char>,
    index: nat,
    store: Map<Seq<char>, C::State>,
    at: Seq<char>,
)
    requires
        invoked_at::<P, C>(el, path, index, store, at) is Some,
    ensures
        ({
            let found = invoked_at::<P, C>(el, path, index, store, at)->Some_0;
            let after = render_spec::<P, C>(el, path, index, store).1;
            &&& slot_prefix(path, index).is_prefix_of(at)
            &&& found.1 == observed_state(found.0, at, store)
            &&& after.contains_key(at)
            &&& after[at] == state_after(found.0, found.1)
        }),
    decreases el_rank(el), el, 0nat,
{
    match el {
        ElView::Empty => {},
        ElView::Node { payload, children } => {
            let own = child_path(path, index, node_kind());
            lemma_slot_nesting(path, index, node_kind(), 0);
            lemma_state_persists_among::<P, C>(
                children,
                own,
                children.len(),
                children.len(),
                store,
                at,
            );
            lemma_prefix_transitive(slot_prefix(path, index), children_prefix(own), at);
        },
        ElView::Container { elements } => {
            let own = child_path(path, index, container_kind());
            lemma_slot_nesting(path, index, container_kind(), 0);
            lemma_state_persists_among::<P, C>(
                elements,
                own,
                elements.len(),
                elements.len(),
                store,
                at,
            );
            lemma_prefix_transitive(slot_prefix(path, index), children_prefix(own), at);
        },
        ElView::Component { component } => {
            let own = child_path(path, index, component.spec_type_id());
            let seen = observed_state(component, own, store);
            let subtree = component.spec_render(seen, own);
            let invoked = store_after_component(component, own, store);
            lemma_slot_nesting(path, index, component.spec_type_id(), index);
            if own == at {
                lemma_component_entry_after_pass::<P, C>(component, path, index, store);
            } else {
                lemma_state_persists_in_tree::<P, C>(subtree, own, index, invoked, at);
                lemma_prefix_transitive(slot_prefix(path, index), slot_prefix(own, index), at);
                assert(agree_at(store, invoked, at));
            }
        },
    }
}

/// State persists among the children of an element: see
/// `lemma_state_persists_in_tree`. The path of a component that is invoked
/// among the first `n` children lies below the element's own, and in none of
/// the slots of the children at position `n` or behind.
pub proof fn lemma_state_persists_among<P: View, C: Component<P>>(
    els: Seq<ElView<P::V, C>>,
    own: Seq<char>,
    n: nat,
    k: nat,
    store: Map<Seq<char>, C::State>,
    at: Seq<char>,
)
    requires
        n <= k,
        invoked_among::<P, C>(els, own, n, store, at) is Some,
    ensures
        ({
            let found = invoked_among::<P, C>(els, own, n, store, at)->Some_0;
            let after = render_children_spec::<P, C>(els, own, n, store).1;
            &&& children_prefix(own).is_prefix_of(at)
            &&& !slot_prefix(own, k).is_prefix_of(at)
            &&& found.1 == observed_state(found.0, at, store)
            &&& after.contains_key(at)
            &&& after[at] == state_after(found.0, found.1)
        }),
    decreases rank_of_first(els, n), els, n,
{
    if n == 0 || n > els.len() {
    } else {
        let j = (n - 1) as nat;
        let before = render_children_spec::<P, C>(els, own, j, store);
        let last = render_spec::<P, C>(els[j as int], own, j, before.1);
        lemma_render_writes_own_slot::<P, C>(els[j as int], own, j, before.1);
        if invoked_among::<P, C>(els, own, j, store, at) is Some {
            lemma_state_persists_among::<P, C>(els, own, j, j, store, at);
            lemma_state_persists_among::<P, C>(els, own, j, k, store, at);
            assert(agree_at(before.1, last.1, at));
        } else {
            lemma_state_persists_in_tree::<P, C>(els[j as int], own, j, before.1, at);
            lemma_earlier_siblings_keep_slot::<P, C>(els, own, j, j, store);
            assert(agree_at(store, before.1, at));
            assert(children_prefix(own).is_prefix_of(slot_prefix(own, j))) by {
                assert(slot_prefix(own, j) =~= children_prefix(own) + (decimal(j) + seq!['~']));
            }
            lemma_prefix_transitive(children_prefix(own), slot_prefix(own, j), at);
            lemma_slots_disjoint(own, j, k, at);
        }
    }
}

} // verus!
