//! Which store entries a render pass reads and writes: every tree position
//! owns the paths below its slot and touches no others.

use crate::engine::{
    el_rank, observed_state, rank_of_first, render_children_spec, render_spec,
    store_after_component, Component, ElView,
};
use crate::path::{
    child_path, container_kind, lemma_child_path_below_slot, lemma_child_path_injective,
    lemma_slots_disjoint, node_kind, slot_prefix,
};
use vstd::prelude::*;

verus! {

/// Whether two stores hold the same at `key`: both nothing, or both the same
/// state.
pub open spec fn agree_at<S>(a: Map<Seq<char>, S>, b: Map<Seq<char>, S>, key: Seq<char>) -> bool {
    a.contains_key(key) == b.contains_key(key) && (a.contains_key(key) ==> a[key] == b[key])
}

/// Whether two stores hold the same at every path that does not start with
/// `prefix`.
pub open spec fn agree_outside<S>(
    prefix: Seq<char>,
    a: Map<Seq<char>, S>,
    b: Map<Seq<char>, S>,
) -> bool {
    forall|key: Seq<char>| !prefix.is_prefix_of(key) ==> #[trigger] agree_at(a, b, key)
}

/// Whether two stores hold the same at every path that starts with `prefix`.
pub open spec fn agree_under<S>(
    prefix: Seq<char>,
    a: Map<Seq<char>, S>,
    b: Map<Seq<char>, S>,
) -> bool {
    forall|key: Seq<char>| prefix.is_prefix_of(key) ==> #[trigger] agree_at(a, b, key)
}

/// The start of the paths of all children of the element at `own`.
pub open spec fn children_prefix(own: Seq<char>) -> Seq<char> {
    own + seq!['/']
}

/// A path that starts with `long` starts with every prefix of `long`.
pub proof fn lemma_prefix_transitive(short: Seq<char>, long: Seq<char>, key: Seq<char>)
    requires
        short.is_prefix_of(long),
        long.is_prefix_of(key),
    ensures
        short.is_prefix_of(key),
{
    assert forall|k: int| 0 <= k < short.len() implies short[k] == key[k] by {
        assert(short[k] == long[k]);
    }
}

/// How the slots of an element and of its children lie in one another: the
/// element's own path lies in its slot, the paths of its children start with
/// its own path and a slash, and each child's slot starts so too.
pub proof fn lemma_slot_nesting(parent: Seq<char>, index: nat, kind: Seq<char>, child: nat)
    ensures
        ({
            let own = child_path(parent, index, kind);
            &&& slot_prefix(parent, index).is_prefix_of(own)
            &&& slot_prefix(parent, index).is_prefix_of(children_prefix(own))
            &&& children_prefix(own).is_prefix_of(slot_prefix(own, child))
            &&& slot_prefix(parent, index).is_prefix_of(slot_prefix(own, child))
            &&& !children_prefix(own).is_prefix_of(own)
            &&& !slot_prefix(own, child).is_prefix_of(own)
        }),
{
    let own = child_path(parent, index, kind);
    let slot = slot_prefix(parent, index);
    lemma_child_path_below_slot(parent, index, kind);
    assert(own =~= slot + kind);
    assert(children_prefix(own) =~= slot + (kind + seq!['/']));
    assert(slot_prefix(own, child) =~= children_prefix(own) + (crate::path::decimal(child)
        + seq!['~']));
    assert(slot_prefix(own, child) =~= slot + (kind + seq!['/'] + crate::path::decimal(child)
        + seq!['~']));
}

/// Rendering an element writes only below its own slot: every store entry at
/// a path that does not start with the slot is as it was.
pub proof fn lemma_render_writes_own_slot<P: View, C: Component<P>>(
    el: ElView<P::V, C>,
    path: Seq<char>,
    index: nat,
    store: Map<Seq<char>, C::State>,
)
    ensures
        agree_outside(
            slot_prefix(path, index),
            store,
            render_spec::<P, C>(el, path, index, store).1,
        ),
    decreases el_rank(el), el, 0nat,
{
    let slot = slot_prefix(path, index);
    let after = render_spec::<P, C>(el, path, index, store).1;
    match el {
        ElView::Empty => {},
        ElView::Node { payload, children } => {
            let own = child_path(path, index, node_kind());
            lemma_children_write_below::<P, C>(children, own, children.len(), store);
            lemma_slot_nesting(path, index, node_kind(), 0);
            assert forall|key: Seq<char>| !slot.is_prefix_of(key) implies #[trigger] agree_at(
                store,
                after,
                key,
            ) by {
                if children_prefix(own).is_prefix_of(key) {
                    lemma_prefix_transitive(slot, children_prefix(own), key);
                }
            }
        },
        ElView::Container { elements } => {
            let own = child_path(path, index, container_kind());
            lemma_children_write_below::<P, C>(elements, own, elements.len(), store);
            lemma_slot_nesting(path, index, container_kind(), 0);
            assert forall|key: Seq<char>| !slot.is_prefix_of(key) implies #[trigger] agree_at(
                store,
                after,
                key,
            ) by {
                if children_prefix(own).is_prefix_of(key) {
                    lemma_prefix_transitive(slot, children_prefix(own), key);
                }
            }
        },
        ElView::Component { component } => {
            let own = child_path(path, index, component.spec_type_id());
            let seen = observed_state(component, own, store);
            let subtree = component.spec_render(seen, own);
            let invoked = store_after_component(component, own, store);
            lemma_slot_nesting(path, index, component.spec_type_id(), index);
            if el_rank(subtree) <= component.rank() {
                lemma_render_writes_own_slot::<P, C>(subtree, own, index, invoked);
            }
            assert forall|key: Seq<char>| !slot.is_prefix_of(key) implies #[trigger] agree_at(
                store,
                after,
                key,
            ) by {
                assert(key != own);
                assert(agree_at(store, invoked, key));
                if slot_prefix(own, index).is_prefix_of(key) {
                    lemma_prefix_transitive(slot, slot_prefix(own, index), key);
                }
                assert(agree_at(invoked, after, key));
            }
        },
    }
}

/// Rendering the children of the element at `own` writes only at paths that
/// start with `own` and a slash.
pub proof fn lemma_children_write_below<P: View, C: Component<P>>(
    els: Seq<ElView<P::V, C>>,
    own: Seq<char>,
    n: nat,
    store: Map<Seq<char>, C::State>,
)
    ensures
        agree_outside(
            children_prefix(own),
            store,
            render_children_spec::<P, C>(els, own, n, store).1,
        ),
    decreases rank_of_first(els, n), els, n,
{
    if n == 0 || n > els.len() {
    } else {
        let before = render_children_spec::<P, C>(els, own, (n - 1) as nat, store);
        let last = render_spec::<P, C>(els[n - 1], own, (n - 1) as nat, before.1);
        lemma_children_write_below::<P, C>(els, own, (n - 1) as nat, store);
        lemma_render_writes_own_slot::<P, C>(els[n - 1], own, (n - 1) as nat, before.1);
        assert(children_prefix(own).is_prefix_of(slot_prefix(own, (n - 1) as nat))) by {
            assert(slot_prefix(own, (n - 1) as nat) =~= children_prefix(own) + (
            crate::path::decimal((n - 1) as nat) + seq!['~']));
        }
        assert forall|key: Seq<char>|
            !children_prefix(own).is_prefix_of(key) implies #[trigger] agree_at(
            store,
            last.1,
            key,
        ) by {
            if slot_prefix(own, (n - 1) as nat).is_prefix_of(key) {
                lemma_prefix_transitive(
                    children_prefix(own),
                    slot_prefix(own, (n - 1) as nat),
                    key,
                );
            }
            assert(agree_at(store, before.1, key));
            assert(agree_at(before.1, last.1, key));
        }
    }
}

/// Rendering an element reads only below its own slot: from two stores that
/// hold the same there it renders to the same tree, and it leaves them
/// holding the same there.
pub proof fn lemma_render_reads_own_slot<P: View, C: Component<P>>(
    el: ElView<P::V, C>,
    path: Seq<char>,
    index: nat,
    a: Map<Seq<char>, C::State>,
    b: Map<Seq<char>, C::State>,
)
    requires
        agree_under(slot_prefix(path, index), a, b),
    ensures
        render_spec::<P, C>(el, path, index, a).0 == render_spec::<P, C>(el, path, index, b).0,
        agree_under(
            slot_prefix(path, index),
            render_spec::<P, C>(el, path, index, a).1,
            render_spec::<P, C>(el, path, index, b).1,
        ),
    decreases el_rank(el), el, 0nat,
{
    let slot = slot_prefix(path, index);
    let after_a = render_spec::<P, C>(el, path, index, a).1;
    let after_b = render_spec::<P, C>(el, path, index, b).1;
    match el {
        ElView::Empty => {},
        ElView::Node { payload, children } => {
            let own = child_path(path, index, node_kind());
            lemma_slot_nesting(path, index, node_kind(), 0);
            lemma_below_nested(slot, children_prefix(own), a, b);
            lemma_children_read_below::<P, C>(children, own, children.len(), a, b);
            lemma_children_write_below::<P, C>(children, own, children.len(), a);
            lemma_children_write_below::<P, C>(children, own, children.len(), b);
            assert forall|key: Seq<char>| slot.is_prefix_of(key) implies #[trigger] agree_at(
                after_a,
                after_b,
                key,
            ) by {
                assert(agree_at(a, b, key));
                if !children_prefix(own).is_prefix_of(key) {
                    assert(agree_at(a, after_a, key));
                    assert(agree_at(b, after_b, key));
                }
            }
        },
        ElView::Container { elements } => {
            let own = child_path(path, index, container_kind());
            lemma_slot_nesting(path, index, container_kind(), 0);
            lemma_below_nested(slot, children_prefix(own), a, b);
            lemma_children_read_below::<P, C>(elements, own, elements.len(), a, b);
            lemma_children_write_below::<P, C>(elements, own, elements.len(), a);
            lemma_children_write_below::<P, C>(elements, own, elements.len(), b);
            assert forall|key: Seq<char>| slot.is_prefix_of(key) implies #[trigger] agree_at(
                after_a,
                after_b,
                key,
            ) by {
                assert(agree_at(a, b, key));
                if !children_prefix(own).is_prefix_of(key) {
                    assert(agree_at(a, after_a, key));
                    assert(agree_at(b, after_b, key));
                }
            }
        },
        ElView::Component { component } => {
            let own = child_path(path, index, component.spec_type_id());
            lemma_slot_nesting(path, index, component.spec_type_id(), index);
            assert(agree_at(a, b, own));
            let seen = observed_state(component, own, a);
            assert(seen == observed_state(component, own, b));
            let subtree = component.spec_render(seen, own);
            let invoked_a = store_after_component(component, own, a);
            let invoked_b = store_after_component(component, own, b);
            assert forall|key: Seq<char>| slot.is_prefix_of(key) implies #[trigger] agree_at(
                invoked_a,
                invoked_b,
                key,
            ) by {
                assert(agree_at(a, b, key));
            }
            if el_rank(subtree) <= component.rank() {
                let inner = slot_prefix(own, index);
                lemma_below_nested(slot, inner, invoked_a, invoked_b);
                lemma_render_reads_own_slot::<P, C>(subtree, own, index, invoked_a, invoked_b);
                lemma_render_writes_own_slot::<P, C>(subtree, own, index, invoked_a);
                lemma_render_writes_own_slot::<P, C>(subtree, own, index, invoked_b);
                assert forall|key: Seq<char>| slot.is_prefix_of(key) implies #[trigger] agree_at(
                    after_a,
                    after_b,
                    key,
                ) by {
                    assert(agree_at(invoked_a, invoked_b, key));
                    if !inner.is_prefix_of(key) {
                        assert(agree_at(invoked_a, after_a, key));
                        assert(agree_at(invoked_b, after_b, key));
                    }
                }
            }
        },
    }
}

/// Rendering the children of the element at `own` reads only at paths that
/// start with `own` and a slash.
pub proof fn lemma_children_read_below<P: View, C: Component<P>>(
    els: Seq<ElView<P::V, C>>,
    own: Seq<char>,
    n: nat,
    a: Map<Seq<char>, C::State>,
    b: Map<Seq<char>, C::State>,
)
    requires
        agree_under(children_prefix(own), a, b),
    ensures
        render_children_spec::<P, C>(els, own, n, a).0 == render_children_spec::<P, C>(
            els,
            own,
            n,
            b,
        ).0,
        agree_under(
            children_prefix(own),
            render_children_spec::<P, C>(els, own, n, a).1,
            render_children_spec::<P, C>(els, own, n, b).1,
        ),
    decreases rank_of_first(els, n), els, n,
{
    if n == 0 || n > els.len() {
    } else {
        let k = (n - 1) as nat;
        let before_a = render_children_spec::<P, C>(els, own, k, a);
        let before_b = render_children_spec::<P, C>(els, own, k, b);
        lemma_children_read_below::<P, C>(els, own, k, a, b);
        let inner = slot_prefix(own, k);
        assert(children_prefix(own).is_prefix_of(inner)) by {
            assert(inner =~= children_prefix(own) + (crate::path::decimal(k) + seq!['~']));
        }
        lemma_below_nested(children_prefix(own), inner, before_a.1, before_b.1);
        lemma_render_reads_own_slot::<P, C>(els[k as int], own, k, before_a.1, before_b.1);
        lemma_render_writes_own_slot::<P, C>(els[k as int], own, k, before_a.1);
        lemma_render_writes_own_slot::<P, C>(els[k as int], own, k, before_b.1);
        let last_a = render_spec::<P, C>(els[k as int], own, k, before_a.1);
        let last_b = render_spec::<P, C>(els[k as int], own, k, before_b.1);
        assert forall|key: Seq<char>|
            children_prefix(own).is_prefix_of(key) implies #[trigger] agree_at(
            last_a.1,
            last_b.1,
            key,
        ) by {
            assert(agree_at(before_a.1, before_b.1, key));
            if !inner.is_prefix_of(key) {
                assert(agree_at(before_a.1, last_a.1, key));
                assert(agree_at(before_b.1, last_b.1, key));
            }
        }
    }
}

/// Two stores that hold the same below a prefix hold the same below every
/// longer one.
pub proof fn lemma_below_nested<S>(
    outer: Seq<char>,
    inner: Seq<char>,
    a: Map<Seq<char>, S>,
    b: Map<Seq<char>, S>,
)
    requires
        outer.is_prefix_of(inner),
        agree_under(outer, a, b),
    ensures
        agree_under(inner, a, b),
{
    assert forall|key: Seq<char>| inner.is_prefix_of(key) implies #[trigger] agree_at(
        a,
        b,
        key,
    ) by {
        lemma_prefix_transitive(outer, inner, key);
    }
}

/// Two siblings never share a path, whatever their types: elements at
/// different sibling positions below one parent have different paths.
pub proof fn lemma_sibling_paths_differ(
    parent: Seq<char>,
    i: nat,
    kind_i: Seq<char>,
    j: nat,
    kind_j: Seq<char>,
)
    requires
        i != j,
    ensures
        child_path(parent, i, kind_i) != child_path(parent, j, kind_j),
{
    if child_path(parent, i, kind_i) == child_path(parent, j, kind_j) {
        lemma_child_path_injective(parent, i, kind_i, j, kind_j);
    }
}

/// Siblings are isolated from one another: what an element at one sibling
/// position renders to is the same whether or not an element at another
/// position of the same parent, a component of the same type included, was
/// rendered before it, and the entries below its slot are left untouched by
/// the other.
pub proof fn lemma_siblings_isolated<P: View, C: Component<P>>(
    el: ElView<P::V, C>,
    other: ElView<P::V, C>,
    parent: Seq<char>,
    i: nat,
    j: nat,
    store: Map<Seq<char>, C::State>,
)
    requires
        i != j,
    ensures
        agree_under(
            slot_prefix(parent, i),
            store,
            render_spec::<P, C>(other, parent, j, store).1,
        ),
        render_spec::<P, C>(el, parent, i, render_spec::<P, C>(other, parent, j, store).1).0
            == render_spec::<P, C>(el, parent, i, store).0,
{
    let disturbed = render_spec::<P, C>(other, parent, j, store).1;
    lemma_render_writes_own_slot::<P, C>(other, parent, j, store);
    assert forall|key: Seq<char>|
        slot_prefix(parent, i).is_prefix_of(key) implies #[trigger] agree_at(
        store,
        disturbed,
        key,
    ) by {
        lemma_slots_disjoint(parent, i, j, key);
    }
    lemma_render_reads_own_slot::<P, C>(el, parent, i, store, disturbed);
}

/// The siblings in front of a position leave its slot alone: rendering the
/// first `n` children of an element changes no store entry below the slot
/// of a child at position `n` or behind.
pub proof fn lemma_earlier_siblings_keep_slot<P: View, C: Component<P>>(
    els: Seq<ElView<P::V, C>>,
    own: Seq<char>,
    n: nat,
    k: nat,
    store: Map<Seq<char>, C::State>,
)
    requires
        n <= k,
    ensures
        agree_under(
            slot_prefix(own, k),
            store,
            render_children_spec::<P, C>(els, own, n, store).1,
        ),
    decreases n,
{
    if n == 0 || n > els.len() {
    } else {
        let j = (n - 1) as nat;
        let before = render_children_spec::<P, C>(els, own, j, store);
        let last = render_spec::<P, C>(els[j as int], own, j, before.1);
        lemma_earlier_siblings_keep_slot::<P, C>(els, own, j, k, store);
        lemma_render_writes_own_slot::<P, C>(els[j as int], own, j, before.1);
        assert forall|key: Seq<char>|
            slot_prefix(own, k).is_prefix_of(key) implies #[trigger] agree_at(
            store,
            last.1,
            key,
        ) by {
            lemma_slots_disjoint(own, k, j, key);
            assert(agree_at(store, before.1, key));
            assert(agree_at(before.1, last.1, key));
        }
    }
}

/// The siblings behind a position leave its slot alone: once the child at
/// position `k` is rendered, rendering the children up to the `n`-th changes
/// no store entry below its slot.
pub proof fn lemma_later_siblings_keep_slot<P: View, C: Component<P>>(
    els: Seq<ElView<P::V, C>>,
    own: Seq<char>,
    k: nat,
    n: nat,
    store: Map<Seq<char>, C::State>,
)
    requires
        k < n <= els.len(),
    ensures
        agree_under(
            slot_prefix(own, k),
            render_children_spec::<P, C>(els, own, k + 1, store).1,
            render_children_spec::<P, C>(els, own, n, store).1,
        ),
    decreases n,
{
    if n > k + 1 {
        let j = (n - 1) as nat;
        let before = render_children_spec::<P, C>(els, own, j, store);
        let last = render_spec::<P, C>(els[j as int], own, j, before.1);
        let settled = render_children_spec::<P, C>(els, own, k + 1, store).1;
        lemma_later_siblings_keep_slot::<P, C>(els, own, k, j, store);
        lemma_render_writes_own_slot::<P, C>(els[j as int], own, j, before.1);
        assert forall|key: Seq<char>|
            slot_prefix(own, k).is_prefix_of(key) implies #[trigger] agree_at(
            settled,
            last.1,
            key,
        ) by {
            lemma_slots_disjoint(own, k, j, key);
            assert(agree_at(settled, before.1, key));
            assert(agree_at(before.1, last.1, key));
        }
    }
}

} // verus!
