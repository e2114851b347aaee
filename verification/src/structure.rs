//! What a resolved tree owes to the shape of the element tree alone: its
//! paths, and, where no component stands in it, everything.

use crate::engine::{
    el_rank, observed_state, rank_of_first, render_children_spec, render_spec,
    store_after_component, Component, ElView, RenderedView,
};
use crate::isolation::{children_prefix, lemma_prefix_transitive, lemma_slot_nesting};
use crate::path::{
    child_path, container_kind, decimal, lemma_numeral_then_tilde, lemma_slots_disjoint,
    node_kind, slot_prefix,
};
use vstd::prelude::*;

verus! {

/// Whether no component stands anywhere in `el`.
pub open spec fn is_static<PV, C>(el: ElView<PV, C>) -> bool
    decreases el, 0nat,
{
    match el {
        ElView::Empty => true,
        ElView::Node { payload, children } => all_static(children, children.len()),
        ElView::Component { component } => false,
        ElView::Container { elements } => all_static(elements, elements.len()),
    }
}

/// Whether no component stands anywhere in the first `n` elements of `els`.
pub open spec fn all_static<PV, C>(els: Seq<ElView<PV, C>>, n: nat) -> bool
    decreases els, n,
{
    if n == 0 || n > els.len() {
        true
    } else {
        all_static(els, (n - 1) as nat) && is_static(els[n - 1])
    }
}

/// Whether every node of `r` has a path that starts with `prefix`.
pub open spec fn paths_under<PV>(r: RenderedView<PV>, prefix: Seq<char>) -> bool
    decreases r, 0nat,
{
    match r {
        RenderedView::Empty => true,
        RenderedView::Node { path, payload, children } => prefix.is_prefix_of(path)
            && all_paths_under(children, children.len(), prefix),
        RenderedView::Container { elements } => all_paths_under(elements, elements.len(), prefix),
    }
}

/// Whether every node of the first `n` trees of `els` has a path that starts
/// with `prefix`.
pub open spec fn all_paths_under<PV>(els: Seq<RenderedView<PV>>, n: nat, prefix: Seq<char>) -> bool
    decreases els, n,
{
    if n == 0 || n > els.len() {
        true
    } else {
        all_paths_under(els, (n - 1) as nat, prefix) && paths_under(els[n - 1], prefix)
    }
}

/// The payloads of `r` in the order in which they are drawn: a node's own
/// before those of its children, paths and grouping left out.
pub open spec fn payloads<PV>(r: RenderedView<PV>) -> Seq<PV>
    decreases r, 0nat,
{
    match r {
        RenderedView::Empty => Seq::empty(),
        RenderedView::Node { path, payload, children } => seq![payload] + payloads_of_first(
            children,
            children.len(),
        ),
        RenderedView::Container { elements } => payloads_of_first(elements, elements.len()),
    }
}

/// The payloads of the first `n` trees of `els`, in order.
pub open spec fn payloads_of_first<PV>(els: Seq<RenderedView<PV>>, n: nat) -> Seq<PV>
    decreases els, n,
{
    if n == 0 || n > els.len() {
        Seq::empty()
    } else {
        payloads_of_first(els, (n - 1) as nat) + payloads(els[n - 1])
    }
}

/// The payloads that a static element holds, in the order in which they are
/// drawn.
pub open spec fn declared_payloads<PV, C>(el: ElView<PV, C>) -> Seq<PV>
    decreases el, 0nat,
{
    match el {
        ElView::Empty => Seq::empty(),
        ElView::Node { payload, children } => seq![payload] + declared_payloads_of_first(
            children,
            children.len(),
        ),
        ElView::Component { component } => Seq::empty(),
        ElView::Container { elements } => declared_payloads_of_first(elements, elements.len()),
    }
}

/// The payloads that the first `n` elements of `els` hold, in order.
pub open spec fn declared_payloads_of_first<PV, C>(els: Seq<ElView<PV, C>>, n: nat) -> Seq<PV>
    decreases els, n,
{
    if n == 0 || n > els.len() {
        Seq::empty()
    } else {
        declared_payloads_of_first(els, (n - 1) as nat) + declared_payloads(els[n - 1])
    }
}

/// The children of an element are rendered one for one: the resolved list is
/// as long as the declared one.
pub proof fn lemma_children_rendered_one_for_one<P: View, C: Component<P>>(
    els: Seq<ElView<P::V, C>>,
    own: Seq<char>,
    n: nat,
    store: Map<Seq<char>, C::State>,
)
    requires
        n <= els.len(),
    ensures
        render_children_spec::<P, C>(els, own, n, store).0.len() == n,
    decreases n,
{
    if n > 0 {
        lemma_children_rendered_one_for_one::<P, C>(els, own, (n - 1) as nat, store);
    }
}

/// A static tree is resolved from its shape alone: whatever the store holds,
/// it renders to the same tree, paths included, and the store is left as it
/// was.
pub proof fn lemma_static_render_ignores_store<P: View, C: Component<P>>(
    el: ElView<P::V, C>,
    path: Seq<char>,
    index: nat,
    a: Map<Seq<char>, C::State>,
    b: Map<Seq<char>, C::State>,
)
    requires
        is_static(el),
    ensures
        render_spec::<P, C>(el, path, index, a).0 == render_spec::<P, C>(el, path, index, b).0,
        render_spec::<P, C>(el, path, index, a).1 == a,
        payloads(render_spec::<P, C>(el, path, index, a).0) == declared_payloads(el),
    decreases el, 0nat,
{
    match el {
        ElView::Empty => {},
        ElView::Node { payload, children } => {
            let own = child_path(path, index, node_kind());
            lemma_static_children_ignore_store::<P, C>(children, own, children.len(), a, b);
            lemma_children_rendered_one_for_one::<P, C>(children, own, children.len(), a);
        },
        ElView::Component { component } => {},
        ElView::Container { elements } => {
            let own = child_path(path, index, container_kind());
            lemma_static_children_ignore_store::<P, C>(elements, own, elements.len(), a, b);
            lemma_children_rendered_one_for_one::<P, C>(elements, own, elements.len(), a);
        },
    }
}

/// The static children of an element are resolved from their shapes alone.
pub proof fn lemma_static_children_ignore_store<P: View, C: Component<P>>(
    els: Seq<ElView<P::V, C>>,
    own: Seq<char>,
    n: nat,
    a: Map<Seq<char>, C::State>,
    b: Map<Seq<char>, C::State>,
)
    requires
        n <= els.len(),
        all_static(els, n),
    ensures
        render_children_spec::<P, C>(els, own, n, a).0 == render_children_spec::<P, C>(
            els,
            own,
            n,
            b,
        ).0,
        render_children_spec::<P, C>(els, own, n, a).1 == a,
        payloads_of_first(render_children_spec::<P, C>(els, own, n, a).0, n)
            == declared_payloads_of_first(els, n),
    decreases els, n,
{
    if n > 0 {
        let k = (n - 1) as nat;
        lemma_static_children_ignore_store::<P, C>(els, own, k, a, b);
        lemma_static_children_ignore_store::<P, C>(els, own, k, b, a);
        lemma_static_render_ignores_store::<P, C>(els[k as int], own, k, a, b);
        lemma_children_rendered_one_for_one::<P, C>(els, own, k, a);
        let before = render_children_spec::<P, C>(els, own, k, a);
        let last = render_spec::<P, C>(els[k as int], own, k, a);
        let all = before.0.push(last.0);
        lemma_payloads_of_longer_list(before.0, all, k);
    }
}

/// The payloads of the first `n` trees do not depend on what follows them in
/// the list.
pub proof fn lemma_payloads_of_longer_list<PV>(
    short: Seq<RenderedView<PV>>,
    long: Seq<RenderedView<PV>>,
    n: nat,
)
    requires
        n <= short.len() <= long.len(),
        forall|i: int| 0 <= i < n ==> short[i] == long[i],
    ensures
        payloads_of_first(short, n) == payloads_of_first(long, n),
    decreases n,
{
    if n > 0 {
        lemma_payloads_of_longer_list(short, long, (n - 1) as nat);
    }
}

/// The children `before`, then one container of `elements`, then the
/// children `behind`.
pub open spec fn grouped<PV, C>(
    before: Seq<ElView<PV, C>>,
    elements: Seq<ElView<PV, C>>,
    behind: Seq<ElView<PV, C>>,
) -> Seq<ElView<PV, C>> {
    before + seq![ElView::Container { elements }] + behind
}

/// The children `before`, then `elements` themselves, then the children
/// `behind`.
pub open spec fn inlined<PV, C>(
    before: Seq<ElView<PV, C>>,
    elements: Seq<ElView<PV, C>>,
    behind: Seq<ElView<PV, C>>,
) -> Seq<ElView<PV, C>> {
    before + elements + behind
}

/// Every one of the first `n` elements of a static list is static.
pub proof fn lemma_all_static_each<PV, C>(els: Seq<ElView<PV, C>>, n: nat, i: int)
    requires
        0 <= i < n <= els.len(),
        all_static(els, n),
    ensures
        is_static(els[i]),
    decreases n,
{
    if i < n - 1 {
        lemma_all_static_each(els, (n - 1) as nat, i);
    }
}

/// A container is transparent for content: where no component stands among
/// the children of an element, putting the elements of one container among
/// them in the container's place leaves the sequence of resolved payloads as
/// it was.
pub proof fn lemma_container_transparent_for_content<P: View, C: Component<P>>(
    before: Seq<ElView<P::V, C>>,
    elements: Seq<ElView<P::V, C>>,
    behind: Seq<ElView<P::V, C>>,
    own: Seq<char>,
    store: Map<Seq<char>, C::State>,
)
    requires
        all_static(before, before.len()),
        all_static(elements, elements.len()),
        all_static(behind, behind.len()),
    ensures
        ({
            let whole = grouped(before, elements, behind);
            let flat = inlined(before, elements, behind);
            payloads_of_first(
                render_children_spec::<P, C>(whole, own, whole.len(), store).0,
                whole.len(),
            ) == payloads_of_first(
                render_children_spec::<P, C>(flat, own, flat.len(), store).0,
                flat.len(),
            )
        }),
{
    let m = before.len();
    let k = elements.len();
    let whole = grouped(before, elements, behind);
    let flat = inlined(before, elements, behind);
    let at = child_path(own, m, container_kind());
    let reached = render_children_spec::<P, C>(whole, own, m, store).1;
    assert forall|j: nat| j < k implies payloads(
        #[trigger] child_pass::<P, C>(elements, at, j, reached),
    ) == payloads(child_pass::<P, C>(flat, own, m + j, store)) by {
        lemma_all_static_each(elements, k, j as int);
        assert(flat[(m + j) as int] == elements[j as int]);
        let inside = render_children_spec::<P, C>(elements, at, j, reached).1;
        let outside = render_children_spec::<P, C>(flat, own, m + j, store).1;
        lemma_static_render_ignores_store::<P, C>(elements[j as int], at, j, inside, inside);
        lemma_static_render_ignores_store::<P, C>(
            elements[j as int],
            own,
            m + j,
            outside,
            outside,
        );
    }
    assert forall|i: nat| m < i < whole.len() implies payloads(
        #[trigger] child_pass::<P, C>(whole, own, i, store),
    ) == payloads(child_pass::<P, C>(flat, own, (i + k - 1) as nat, store)) by {
        let h = (i + k - 1) as nat;
        lemma_all_static_each(behind, behind.len(), i - m - 1);
        assert(whole[i as int] == behind[i - m - 1]);
        assert(flat[h as int] == behind[i - m - 1]);
        let grouped_store = render_children_spec::<P, C>(whole, own, i, store).1;
        let inlined_store = render_children_spec::<P, C>(flat, own, h, store).1;
        lemma_static_render_ignores_store::<P, C>(
            whole[i as int],
            own,
            i,
            grouped_store,
            grouped_store,
        );
        lemma_static_render_ignores_store::<P, C>(
            flat[h as int],
            own,
            h,
            inlined_store,
            inlined_store,
        );
    }
    lemma_container_transparent_in_general::<P, C>(before, elements, behind, own, store);
}

/// Every path of a resolved tree starts with the slot of the element that
/// it was rendered from: paths follow the shape of the tree, from the root
/// down.
pub proof fn lemma_paths_start_with_slot<P: View, C: Component<P>>(
    el: ElView<P::V, C>,
    path: Seq<char>,
    index: nat,
    store: Map<Seq<char>, C::State>,
)
    ensures
        paths_under(render_spec::<P, C>(el, path, index, store).0, slot_prefix(path, index)),
    decreases el_rank(el), el, 0nat,
{
    let slot = slot_prefix(path, index);
    match el {
        ElView::Empty => {},
        ElView::Node { payload, children } => {
            let own = child_path(path, index, node_kind());
            lemma_slot_nesting(path, index, node_kind(), 0);
            lemma_children_paths_below::<P, C>(children, own, children.len(), store);
            let below = render_children_spec::<P, C>(children, own, children.len(), store).0;
            lemma_children_rendered_one_for_one::<P, C>(children, own, children.len(), store);
            lemma_all_paths_under_shorter(below, below.len(), slot, children_prefix(own));
        },
        ElView::Container { elements } => {
            let own = child_path(path, index, container_kind());
            lemma_slot_nesting(path, index, container_kind(), 0);
            lemma_children_paths_below::<P, C>(elements, own, elements.len(), store);
            let below = render_children_spec::<P, C>(elements, own, elements.len(), store).0;
            lemma_children_rendered_one_for_one::<P, C>(elements, own, elements.len(), store);
            lemma_all_paths_under_shorter(below, below.len(), slot, children_prefix(own));
        },
        ElView::Component { component } => {
            let own = child_path(path, index, component.spec_type_id());
            let seen = observed_state(component, own, store);
            let subtree = component.spec_render(seen, own);
            let invoked = store_after_component(component, own, store);
            lemma_slot_nesting(path, index, component.spec_type_id(), index);
            if el_rank(subtree) <= component.rank() {
                lemma_paths_start_with_slot::<P, C>(subtree, own, index, invoked);
                lemma_paths_under_shorter(
                    render_spec::<P, C>(subtree, own, index, invoked).0,
                    slot,
                    slot_prefix(own, index),
                );
            }
        },
    }
}

/// Every path among the resolved children of the element at `own` starts
/// with `own` and a slash.
pub proof fn lemma_children_paths_below<P: View, C: Component<P>>(
    els: Seq<ElView<P::V, C>>,
    own: Seq<char>,
    n: nat,
    store: Map<Seq<char>, C::State>,
)
    requires
        n <= els.len(),
    ensures
        all_paths_under(
            render_children_spec::<P, C>(els, own, n, store).0,
            n,
            children_prefix(own),
        ),
    decreases rank_of_first(els, n), els, n,
{
    if n > 0 {
        let k = (n - 1) as nat;
        let before = render_children_spec::<P, C>(els, own, k, store);
        let last = render_spec::<P, C>(els[k as int], own, k, before.1);
        let all = before.0.push(last.0);
        lemma_children_paths_below::<P, C>(els, own, k, store);
        lemma_children_rendered_one_for_one::<P, C>(els, own, k, store);
        lemma_paths_start_with_slot::<P, C>(els[k as int], own, k, before.1);
        assert(children_prefix(own).is_prefix_of(slot_prefix(own, k))) by {
            assert(slot_prefix(own, k) =~= children_prefix(own) + (decimal(k) + seq!['~']));
        }
        lemma_paths_under_shorter(last.0, children_prefix(own), slot_prefix(own, k));
        lemma_all_paths_under_prefix_of_list(before.0, all, k, children_prefix(own));
    }
}

/// Paths that start with a prefix start with every shorter one.
pub proof fn lemma_paths_under_shorter<PV>(
    r: RenderedView<PV>,
    short: Seq<char>,
    long: Seq<char>,
)
    requires
        short.is_prefix_of(long),
        paths_under(r, long),
    ensures
        paths_under(r, short),
    decreases r, 0nat,
{
    match r {
        RenderedView::Empty => {},
        RenderedView::Node { path, payload, children } => {
            lemma_prefix_transitive(short, long, path);
            lemma_all_paths_under_shorter(children, children.len(), short, long);
        },
        RenderedView::Container { elements } => {
            lemma_all_paths_under_shorter(elements, elements.len(), short, long);
        },
    }
}

/// Paths of a list of trees that start with a prefix start with every
/// shorter one.
pub proof fn lemma_all_paths_under_shorter<PV>(
    els: Seq<RenderedView<PV>>,
    n: nat,
    short: Seq<char>,
    long: Seq<char>,
)
    requires
        short.is_prefix_of(long),
        all_paths_under(els, n, long),
    ensures
        all_paths_under(els, n, short),
    decreases els, n,
{
    if n == 0 || n > els.len() {
    } else {
        lemma_all_paths_under_shorter(els, (n - 1) as nat, short, long);
        lemma_paths_under_shorter(els[n - 1], short, long);
    }
}

/// Whether the paths of the first `n` trees start with a prefix does not
/// depend on what follows them in the list.
pub proof fn lemma_all_paths_under_prefix_of_list<PV>(
    short: Seq<RenderedView<PV>>,
    long: Seq<RenderedView<PV>>,
    n: nat,
    prefix: Seq<char>,
)
    requires
        n <= short.len() <= long.len(),
        forall|i: int| 0 <= i < n ==> short[i] == long[i],
    ensures
        all_paths_under(short, n, prefix) == all_paths_under(long, n, prefix),
    decreases n,
{
    if n > 0 {
        lemma_all_paths_under_prefix_of_list(short, long, (n - 1) as nat, prefix);
    }
}

/// A container is opaque for paths: it puts a segment of its own into every
/// path below it. Every path in what the container at sibling position
/// `index` renders to starts with the container's own path and a slash,
/// and no payload node that stands directly below the container's parent, at
/// whatever sibling position, has such a path. So an element of the
/// container that is put in the container's place gets another path.
pub proof fn lemma_container_opaque_for_paths<P: View, C: Component<P>>(
    elements: Seq<ElView<P::V, C>>,
    parent: Seq<char>,
    index: nat,
    store: Map<Seq<char>, C::State>,
    sibling: nat,
)
    ensures
        paths_under(
            render_spec::<P, C>(ElView::Container { elements }, parent, index, store).0,
            children_prefix(child_path(parent, index, container_kind())),
        ),
        !children_prefix(child_path(parent, index, container_kind())).is_prefix_of(
            child_path(parent, sibling, node_kind()),
        ),
{
    let own = child_path(parent, index, container_kind());
    lemma_children_paths_below::<P, C>(elements, own, elements.len(), store);
    lemma_children_rendered_one_for_one::<P, C>(elements, own, elements.len(), store);
    let inside = children_prefix(own);
    let outside = child_path(parent, sibling, node_kind());
    if inside.is_prefix_of(outside) {
        let head = parent + seq!['/'];
        let tail_in = decimal(index) + seq!['~'] + (container_kind() + seq!['/']);
        let numeral_in = decimal(index) + seq!['~'];
        let tail_out = decimal(sibling) + seq!['~'] + node_kind();
        assert(inside =~= head + tail_in);
        assert(outside =~= head + tail_out);
        assert forall|k: int| 0 <= k < tail_in.len() implies tail_in[k] == tail_out[k] by {
            assert(inside[head.len() + k] == outside[head.len() + k]);
            assert(inside[head.len() + k] == tail_in[k]);
            assert(outside[head.len() + k] == tail_out[k]);
        }
        assert forall|k: int| 0 <= k < numeral_in.len() implies numeral_in[k] == tail_out[k] by {
            assert(numeral_in[k] == tail_in[k]);
        }
        assert(numeral_in.is_prefix_of(tail_out));
        lemma_numeral_then_tilde(index, sibling, node_kind());
        assert(tail_in[numeral_in.len() as int] == 'C');
        assert(tail_out[numeral_in.len() as int] == 'N');
    }
}

/// The paths of the nodes of `r`, a node's own before those of its children.
pub open spec fn node_paths<PV>(r: RenderedView<PV>) -> Seq<Seq<char>>
    decreases r, 0nat,
{
    match r {
        RenderedView::Empty => Seq::empty(),
        RenderedView::Node { path, payload, children } => seq![path] + node_paths_of_first(
            children,
            children.len(),
        ),
        RenderedView::Container { elements } => node_paths_of_first(elements, elements.len()),
    }
}

/// The paths of the nodes of the first `n` trees of `els`, in order.
pub open spec fn node_paths_of_first<PV>(els: Seq<RenderedView<PV>>, n: nat) -> Seq<Seq<char>>
    decreases els, n,
{
    if n == 0 || n > els.len() {
        Seq::empty()
    } else {
        node_paths_of_first(els, (n - 1) as nat) + node_paths(els[n - 1])
    }
}

/// Whether no path occurs twice in `paths`.
pub open spec fn all_distinct(paths: Seq<Seq<char>>) -> bool {
    forall|i: int, j: int| 0 <= i < j < paths.len() ==> paths[i] != paths[j]
}

/// Whether every path in `paths` starts with `prefix`.
pub open spec fn all_start_with(paths: Seq<Seq<char>>, prefix: Seq<char>) -> bool {
    forall|i: int| 0 <= i < paths.len() ==> prefix.is_prefix_of(#[trigger] paths[i])
}

/// Whether no path in `paths` starts with `prefix`.
pub open spec fn none_starts_with(paths: Seq<Seq<char>>, prefix: Seq<char>) -> bool {
    forall|i: int| 0 <= i < paths.len() ==> !prefix.is_prefix_of(#[trigger] paths[i])
}

/// The listed paths of a tree whose paths all start with a prefix start with
/// it.
pub proof fn lemma_listed_paths_start_with<PV>(r: RenderedView<PV>, prefix: Seq<char>)
    requires
        paths_under(r, prefix),
    ensures
        all_start_with(node_paths(r), prefix),
    decreases r, 0nat,
{
    match r {
        RenderedView::Empty => {},
        RenderedView::Node { path, payload, children } => {
            lemma_all_listed_paths_start_with(children, children.len(), prefix);
        },
        RenderedView::Container { elements } => {
            lemma_all_listed_paths_start_with(elements, elements.len(), prefix);
        },
    }
}

/// The listed paths of trees whose paths all start with a prefix start with
/// it.
pub proof fn lemma_all_listed_paths_start_with<PV>(
    els: Seq<RenderedView<PV>>,
    n: nat,
    prefix: Seq<char>,
)
    requires
        all_paths_under(els, n, prefix),
    ensures
        all_start_with(node_paths_of_first(els, n), prefix),
    decreases els, n,
{
    if n == 0 || n > els.len() {
    } else {
        lemma_all_listed_paths_start_with(els, (n - 1) as nat, prefix);
        lemma_listed_paths_start_with(els[n - 1], prefix);
    }
}

/// The listed paths of the first `n` trees do not depend on what follows
/// them in the list.
pub proof fn lemma_node_paths_of_longer_list<PV>(
    short: Seq<RenderedView<PV>>,
    long: Seq<RenderedView<PV>>,
    n: nat,
)
    requires
        n <= short.len() <= long.len(),
        forall|i: int| 0 <= i < n ==> short[i] == long[i],
    ensures
        node_paths_of_first(short, n) == node_paths_of_first(long, n),
    decreases n,
{
    if n > 0 {
        lemma_node_paths_of_longer_list(short, long, (n - 1) as nat);
    }
}

/// A path identifies one position: within the tree that one pass resolves,
/// no two nodes have the same path.
pub proof fn lemma_paths_are_unique<P: View, C: Component<P>>(
    el: ElView<P::V, C>,
    path: Seq<char>,
    index: nat,
    store: Map<Seq<char>, C::State>,
)
    ensures
        all_distinct(node_paths(render_spec::<P, C>(el, path, index, store).0)),
    decreases el_rank(el), el, 0nat,
{
    match el {
        ElView::Empty => {},
        ElView::Node { payload, children } => {
            let own = child_path(path, index, node_kind());
            let below = render_children_spec::<P, C>(children, own, children.len(), store).0;
            lemma_children_paths_are_unique::<P, C>(
                children,
                own,
                children.len(),
                children.len(),
                store,
            );
            lemma_children_rendered_one_for_one::<P, C>(children, own, children.len(), store);
            lemma_slot_nesting(path, index, node_kind(), 0);
            let listed = node_paths_of_first(below, below.len());
            let all = seq![own] + listed;
            assert forall|i: int, j: int| 0 <= i < j < all.len() implies all[i] != all[j] by {
                assert(all[j] == listed[j - 1]);
                if i == 0 {
                    assert(children_prefix(own).is_prefix_of(listed[j - 1]));
                } else {
                    assert(all[i] == listed[i - 1]);
                }
            }
        },
        ElView::Container { elements } => {
            let own = child_path(path, index, container_kind());
            lemma_children_paths_are_unique::<P, C>(
                elements,
                own,
                elements.len(),
                elements.len(),
                store,
            );
            lemma_children_rendered_one_for_one::<P, C>(elements, own, elements.len(), store);
        },
        ElView::Component { component } => {
            let own = child_path(path, index, component.spec_type_id());
            let seen = observed_state(component, own, store);
            let subtree = component.spec_render(seen, own);
            let invoked = store_after_component(component, own, store);
            if el_rank(subtree) <= component.rank() {
                lemma_paths_are_unique::<P, C>(subtree, own, index, invoked);
            }
        },
    }
}

/// Among the resolved children of the element at `own` no two nodes have the
/// same path; every path among the first `n` starts with `own` and a slash,
/// and none of them lies in the slot of a child at position `n` or behind.
pub proof fn lemma_children_paths_are_unique<P: View, C: Component<P>>(
    els: Seq<ElView<P::V, C>>,
    own: Seq<char>,
    n: nat,
    k: nat,
    store: Map<Seq<char>, C::State>,
)
    requires
        n <= els.len(),
        n <= k,
    ensures
        all_distinct(
            node_paths_of_first(render_children_spec::<P, C>(els, own, n, store).0, n),
        ),
        all_start_with(
            node_paths_of_first(render_children_spec::<P, C>(els, own, n, store).0, n),
            children_prefix(own),
        ),
        none_starts_with(
            node_paths_of_first(render_children_spec::<P, C>(els, own, n, store).0, n),
            slot_prefix(own, k),
        ),
    decreases rank_of_first(els, n), els, n,
{
    if n > 0 {
        let j = (n - 1) as nat;
        let before = render_children_spec::<P, C>(els, own, j, store);
        let last = render_spec::<P, C>(els[j as int], own, j, before.1);
        let all = before.0.push(last.0);
        lemma_children_rendered_one_for_one::<P, C>(els, own, j, store);
        lemma_children_paths_are_unique::<P, C>(els, own, j, j, store);
        lemma_children_paths_are_unique::<P, C>(els, own, j, k, store);
        lemma_paths_are_unique::<P, C>(els[j as int], own, j, before.1);
        lemma_paths_start_with_slot::<P, C>(els[j as int], own, j, before.1);
        lemma_listed_paths_start_with(last.0, slot_prefix(own, j));
        lemma_node_paths_of_longer_list(before.0, all, j);
        let front = node_paths_of_first(before.0, j);
        let back = node_paths(last.0);
        let listed = front + back;
        assert(node_paths_of_first(all, n) == listed);
        assert(children_prefix(own).is_prefix_of(slot_prefix(own, j))) by {
            assert(slot_prefix(own, j) =~= children_prefix(own) + (decimal(j) + seq!['~']));
        }
        assert forall|i: int| 0 <= i < listed.len() implies children_prefix(own).is_prefix_of(
            #[trigger] listed[i],
        ) && !slot_prefix(own, k).is_prefix_of(listed[i]) by {
            if i < front.len() {
                assert(listed[i] == front[i]);
            } else {
                assert(listed[i] == back[i - front.len()]);
                lemma_prefix_transitive(children_prefix(own), slot_prefix(own, j), listed[i]);
                lemma_slots_disjoint(own, j, k, listed[i]);
            }
        }
        assert forall|a: int, b: int| 0 <= a < b < listed.len() implies listed[a] != listed[b] by {
            if b < front.len() {
                assert(listed[a] == front[a] && listed[b] == front[b]);
            } else if a >= front.len() {
                assert(listed[a] == back[a - front.len()]);
                assert(listed[b] == back[b - front.len()]);
            } else {
                assert(listed[a] == front[a]);
                assert(listed[b] == back[b - front.len()]);
                assert(!slot_prefix(own, j).is_prefix_of(front[a]));
                assert(slot_prefix(own, j).is_prefix_of(back[b - front.len()]));
            }
        }
    }
}

/// The shape of what a pass resolves: the kind of every position, without
/// payloads, paths or states. A component's position holds the identity of
/// the component's type and the shape of what the component rendered to.
pub ghost enum Shape {
    Empty,
    Node { children: Seq<Shape> },
    Component { kind: Seq<char>, subtree: Box<Shape> },
    Container { elements: Seq<Shape> },
}

/// The shape that a pass over `el` takes: that of `el`, with the shape of
/// what each component renders to in this pass below the component.
pub open spec fn pass_shape<P: View, C: Component<P>>(
    el: ElView<P::V, C>,
    path: Seq<char>,
    index: nat,
    store: Map<Seq<char>, C::State>,
) -> Shape
    decreases el_rank(el), el, 0nat,
{
    match el {
        ElView::Empty => Shape::Empty,
        ElView::Node { payload, children } => Shape::Node {
            children: pass_shapes::<P, C>(
                children,
                child_path(path, index, node_kind()),
                children.len(),
                store,
            ),
        },
        ElView::Component { component } => {
            let own = child_path(path, index, component.spec_type_id());
            let seen = observed_state(component, own, store);
            let subtree = component.spec_render(seen, own);
            let invoked = store_after_component(component, own, store);
            Shape::Component {
                kind: component.spec_type_id(),
                subtree: Box::new(
                    if el_rank(subtree) <= component.rank() {
                        pass_shape::<P, C>(subtree, own, index, invoked)
                    } else {
                        Shape::Empty
                    },
                ),
            }
        },
        ElView::Container { elements } => Shape::Container {
            elements: pass_shapes::<P, C>(
                elements,
                child_path(path, index, container_kind()),
                elements.len(),
                store,
            ),
        },
    }
}

/// The shapes that a pass over the first `n` children of the element at
/// `own` takes, in order.
pub open spec fn pass_shapes<P: View, C: Component<P>>(
    els: Seq<ElView<P::V, C>>,
    own: Seq<char>,
    n: nat,
    store: Map<Seq<char>, C::State>,
) -> Seq<Shape>
    decreases rank_of_first(els, n), els, n,
{
    if n == 0 || n > els.len() {
        Seq::empty()
    } else {
        pass_shapes::<P, C>(els, own, (n - 1) as nat, store).push(
            pass_shape::<P, C>(
                els[n - 1],
                own,
                (n - 1) as nat,
                render_children_spec::<P, C>(els, own, (n - 1) as nat, store).1,
            ),
        )
    }
}

/// A resolved tree without its payloads: its positions and their paths.
pub open spec fn skeleton<PV>(r: RenderedView<PV>) -> RenderedView<()>
    decreases r, 0nat,
{
    match r {
        RenderedView::Empty => RenderedView::Empty,
        RenderedView::Node { path, payload, children } => RenderedView::Node {
            path,
            payload: (),
            children: skeletons_of_first(children, children.len()),
        },
        RenderedView::Container { elements } => RenderedView::Container {
            elements: skeletons_of_first(elements, elements.len()),
        },
    }
}

/// The first `n` trees of `els` without their payloads, in order.
pub open spec fn skeletons_of_first<PV>(els: Seq<RenderedView<PV>>, n: nat) -> Seq<
    RenderedView<()>,
>
    decreases els, n,
{
    if n == 0 || n > els.len() {
        Seq::empty()
    } else {
        skeletons_of_first(els, (n - 1) as nat).push(skeleton(els[n - 1]))
    }
}

/// The positions and paths that a shape stands for at sibling position
/// `index` below `path`: every path is made of the sibling positions and
/// the kinds on the way from the root, and of nothing else.
pub open spec fn shape_paths(shape: Shape, path: Seq<char>, index: nat) -> RenderedView<()>
    decreases shape, 0nat,
{
    match shape {
        Shape::Empty => RenderedView::Empty,
        Shape::Node { children } => {
            let own = child_path(path, index, node_kind());
            RenderedView::Node {
                path: own,
                payload: (),
                children: shapes_paths(children, own, children.len()),
            }
        },
        Shape::Component { kind, subtree } => shape_paths(
            *subtree,
            child_path(path, index, kind),
            index,
        ),
        Shape::Container { elements } => RenderedView::Container {
            elements: shapes_paths(
                elements,
                child_path(path, index, container_kind()),
                elements.len(),
            ),
        },
    }
}

/// The positions and paths that the first `n` of `shapes` stand for as the
/// children of the element at `own`.
pub open spec fn shapes_paths(shapes: Seq<Shape>, own: Seq<char>, n: nat) -> Seq<RenderedView<()>>
    decreases shapes, n,
{
    if n == 0 || n > shapes.len() {
        Seq::empty()
    } else {
        shapes_paths(shapes, own, (n - 1) as nat).push(
            shape_paths(shapes[n - 1], own, (n - 1) as nat),
        )
    }
}

/// Paths are decided by shape: the positions and paths of what a pass
/// resolves are those that the shape of the pass stands for. Time, earlier
/// passes and the store have a part in them only as far as they change the
/// shape of what a component renders to.
pub proof fn lemma_paths_follow_shape<P: View, C: Component<P>>(
    el: ElView<P::V, C>,
    path: Seq<char>,
    index: nat,
    store: Map<Seq<char>, C::State>,
)
    ensures
        skeleton(render_spec::<P, C>(el, path, index, store).0) == shape_paths(
            pass_shape::<P, C>(el, path, index, store),
            path,
            index,
        ),
    decreases el_rank(el), el, 0nat,
{
    match el {
        ElView::Empty => {},
        ElView::Node { payload, children } => {
            let own = child_path(path, index, node_kind());
            lemma_children_paths_follow_shape::<P, C>(children, own, children.len(), store);
            lemma_children_rendered_one_for_one::<P, C>(children, own, children.len(), store);
        },
        ElView::Component { component } => {
            let own = child_path(path, index, component.spec_type_id());
            let seen = observed_state(component, own, store);
            let subtree = component.spec_render(seen, own);
            let invoked = store_after_component(component, own, store);
            let below = if el_rank(subtree) <= component.rank() {
                pass_shape::<P, C>(subtree, own, index, invoked)
            } else {
                Shape::Empty
            };
            let shape = pass_shape::<P, C>(el, path, index, store);
            assert(shape == (Shape::Component {
                kind: component.spec_type_id(),
                subtree: Box::new(below),
            }));
            assert(shape_paths(shape, path, index) == shape_paths(below, own, index));
            if el_rank(subtree) <= component.rank() {
                lemma_paths_follow_shape::<P, C>(subtree, own, index, invoked);
            } else {
                assert(shape_paths(below, own, index) == RenderedView::<()>::Empty);
            }
        },
        ElView::Container { elements } => {
            let own = child_path(path, index, container_kind());
            lemma_children_paths_follow_shape::<P, C>(elements, own, elements.len(), store);
            lemma_children_rendered_one_for_one::<P, C>(elements, own, elements.len(), store);
        },
    }
}

/// Paths are decided by shape among the children of an element: see
/// `lemma_paths_follow_shape`.
pub proof fn lemma_children_paths_follow_shape<P: View, C: Component<P>>(
    els: Seq<ElView<P::V, C>>,
    own: Seq<char>,
    n: nat,
    store: Map<Seq<char>, C::State>,
)
    requires
        n <= els.len(),
    ensures
        pass_shapes::<P, C>(els, own, n, store).len() == n,
        skeletons_of_first(render_children_spec::<P, C>(els, own, n, store).0, n) == shapes_paths(
            pass_shapes::<P, C>(els, own, n, store),
            own,
            n,
        ),
    decreases rank_of_first(els, n), els, n,
{
    if n > 0 {
        let j = (n - 1) as nat;
        let before = render_children_spec::<P, C>(els, own, j, store);
        let last = render_spec::<P, C>(els[j as int], own, j, before.1);
        let all = before.0.push(last.0);
        let shapes_before = pass_shapes::<P, C>(els, own, j, store);
        let shape_last = pass_shape::<P, C>(els[j as int], own, j, before.1);
        let shapes = shapes_before.push(shape_last);
        lemma_children_paths_follow_shape::<P, C>(els, own, j, store);
        lemma_paths_follow_shape::<P, C>(els[j as int], own, j, before.1);
        lemma_children_rendered_one_for_one::<P, C>(els, own, j, store);
        lemma_skeletons_of_longer_list(before.0, all, j);
        lemma_shapes_paths_of_longer_list(shapes_before, shapes, own, j);
    }
}

/// The first `n` trees without payloads do not depend on what follows them
/// in the list.
pub proof fn lemma_skeletons_of_longer_list<PV>(
    short: Seq<RenderedView<PV>>,
    long: Seq<RenderedView<PV>>,
    n: nat,
)
    requires
        n <= short.len() <= long.len(),
        forall|i: int| 0 <= i < n ==> short[i] == long[i],
    ensures
        skeletons_of_first(short, n) == skeletons_of_first(long, n),
    decreases n,
{
    if n > 0 {
        lemma_skeletons_of_longer_list(short, long, (n - 1) as nat);
    }
}

/// What the first `n` shapes stand for does not depend on what follows them
/// in the list.
pub proof fn lemma_shapes_paths_of_longer_list(
    short: Seq<Shape>,
    long: Seq<Shape>,
    own: Seq<char>,
    n: nat,
)
    requires
        n <= short.len() <= long.len(),
        forall|i: int| 0 <= i < n ==> short[i] == long[i],
    ensures
        shapes_paths(short, own, n) == shapes_paths(long, own, n),
    decreases n,
{
    if n > 0 {
        lemma_shapes_paths_of_longer_list(short, long, own, (n - 1) as nat);
    }
}

/// Path determinism: two passes that take the same shape, over whatever
/// trees and from whatever stores, resolve to the same positions with the
/// same path at every node.
pub proof fn lemma_same_shape_same_paths<P: View, C: Component<P>>(
    first: ElView<P::V, C>,
    second: ElView<P::V, C>,
    path: Seq<char>,
    index: nat,
    a: Map<Seq<char>, C::State>,
    b: Map<Seq<char>, C::State>,
)
    requires
        pass_shape::<P, C>(first, path, index, a) == pass_shape::<P, C>(second, path, index, b),
    ensures
        skeleton(render_spec::<P, C>(first, path, index, a).0) == skeleton(
            render_spec::<P, C>(second, path, index, b).0,
        ),
        node_paths(render_spec::<P, C>(first, path, index, a).0) == node_paths(
            render_spec::<P, C>(second, path, index, b).0,
        ),
{
    lemma_paths_follow_shape::<P, C>(first, path, index, a);
    lemma_paths_follow_shape::<P, C>(second, path, index, b);
    lemma_node_paths_of_skeleton(render_spec::<P, C>(first, path, index, a).0);
    lemma_node_paths_of_skeleton(render_spec::<P, C>(second, path, index, b).0);
}

/// The listed paths of a tree are those of the tree without its payloads.
pub proof fn lemma_node_paths_of_skeleton<PV>(r: RenderedView<PV>)
    ensures
        node_paths(skeleton(r)) == node_paths(r),
    decreases r, 0nat,
{
    match r {
        RenderedView::Empty => {},
        RenderedView::Node { path, payload, children } => {
            lemma_all_node_paths_of_skeletons(children, children.len());
            lemma_skeletons_len(children, children.len());
        },
        RenderedView::Container { elements } => {
            lemma_all_node_paths_of_skeletons(elements, elements.len());
            lemma_skeletons_len(elements, elements.len());
        },
    }
}

/// There is one tree without payloads for each of the first `n` trees.
pub proof fn lemma_skeletons_len<PV>(els: Seq<RenderedView<PV>>, n: nat)
    requires
        n <= els.len(),
    ensures
        skeletons_of_first(els, n).len() == n,
        forall|i: int|
            0 <= i < n ==> (#[trigger] skeletons_of_first(els, n)[i]) == skeleton(els[i]),
    decreases n,
{
    if n > 0 {
        lemma_skeletons_len(els, (n - 1) as nat);
    }
}

/// The listed paths of the first `n` trees are those of the trees without
/// their payloads.
pub proof fn lemma_all_node_paths_of_skeletons<PV>(els: Seq<RenderedView<PV>>, n: nat)
    requires
        n <= els.len(),
    ensures
        node_paths_of_first(skeletons_of_first(els, els.len()), n) == node_paths_of_first(els, n),
    decreases els, n,
{
    if n > 0 {
        lemma_all_node_paths_of_skeletons(els, (n - 1) as nat);
        lemma_node_paths_of_skeleton(els[n - 1]);
        lemma_skeletons_len(els, els.len());
    }
}

/// What the child at position `k` renders to within the pass over the
/// children `els` of the element at `own`.
pub open spec fn child_pass<P: View, C: Component<P>>(
    els: Seq<ElView<P::V, C>>,
    own: Seq<char>,
    k: nat,
    store: Map<Seq<char>, C::State>,
) -> RenderedView<P::V> {
    render_spec::<P, C>(
        els[k as int],
        own,
        k,
        render_children_spec::<P, C>(els, own, k, store).1,
    ).0
}

/// Whether each element of the container renders to the same payloads where
/// it stands in the container and where it stands in the container's place.
pub open spec fn elements_render_alike<P: View, C: Component<P>>(
    before: Seq<ElView<P::V, C>>,
    elements: Seq<ElView<P::V, C>>,
    behind: Seq<ElView<P::V, C>>,
    own: Seq<char>,
    store: Map<Seq<char>, C::State>,
) -> bool {
    let at = child_path(own, before.len(), container_kind());
    let reached = render_children_spec::<P, C>(
        grouped(before, elements, behind),
        own,
        before.len(),
        store,
    ).1;
    forall|j: nat|
        j < elements.len() ==> payloads(#[trigger] child_pass::<P, C>(elements, at, j, reached))
            == payloads(
            child_pass::<P, C>(inlined(before, elements, behind), own, before.len() + j, store),
        )
}

/// Whether each sibling behind the container renders to the same payloads
/// behind the container and behind the container's elements.
pub open spec fn siblings_behind_render_alike<P: View, C: Component<P>>(
    before: Seq<ElView<P::V, C>>,
    elements: Seq<ElView<P::V, C>>,
    behind: Seq<ElView<P::V, C>>,
    own: Seq<char>,
    store: Map<Seq<char>, C::State>,
) -> bool {
    forall|i: nat|
        before.len() < i < grouped(before, elements, behind).len() ==> payloads(
            #[trigger] child_pass::<P, C>(grouped(before, elements, behind), own, i, store),
        ) == payloads(
            child_pass::<P, C>(
                inlined(before, elements, behind),
                own,
                (i + elements.len() - 1) as nat,
                store,
            ),
        )
}

/// The payloads of the first `n` resolved children are those of the first
/// `n - 1` followed by those of the child at position `n - 1`.
pub proof fn lemma_payloads_by_child<P: View, C: Component<P>>(
    els: Seq<ElView<P::V, C>>,
    own: Seq<char>,
    n: nat,
    store: Map<Seq<char>, C::State>,
)
    requires
        0 < n <= els.len(),
    ensures
        payloads_of_first(render_children_spec::<P, C>(els, own, n, store).0, n)
            == payloads_of_first(
            render_children_spec::<P, C>(els, own, (n - 1) as nat, store).0,
            (n - 1) as nat,
        ) + payloads(child_pass::<P, C>(els, own, (n - 1) as nat, store)),
{
    let j = (n - 1) as nat;
    let before = render_children_spec::<P, C>(els, own, j, store);
    let last = render_spec::<P, C>(els[j as int], own, j, before.1);
    lemma_children_rendered_one_for_one::<P, C>(els, own, j, store);
    lemma_payloads_of_longer_list(before.0, before.0.push(last.0), j);
}

/// The pass over the first `n` children does not depend on what follows
/// them in the list.
pub proof fn lemma_children_pass_of_longer_list<P: View, C: Component<P>>(
    short: Seq<ElView<P::V, C>>,
    long: Seq<ElView<P::V, C>>,
    own: Seq<char>,
    n: nat,
    store: Map<Seq<char>, C::State>,
)
    requires
        n <= short.len(),
        n <= long.len(),
        forall|i: int| 0 <= i < n ==> short[i] == long[i],
    ensures
        render_children_spec::<P, C>(short, own, n, store) == render_children_spec::<P, C>(
            long,
            own,
            n,
            store,
        ),
    decreases n,
{
    if n > 0 {
        lemma_children_pass_of_longer_list::<P, C>(short, long, own, (n - 1) as nat, store);
    }
}

/// Up to the `j`-th element of the container, the grouped and the inlined
/// children have rendered to the same payloads.
proof fn lemma_alike_within_container<P: View, C: Component<P>>(
    before: Seq<ElView<P::V, C>>,
    elements: Seq<ElView<P::V, C>>,
    behind: Seq<ElView<P::V, C>>,
    own: Seq<char>,
    store: Map<Seq<char>, C::State>,
    j: nat,
)
    requires
        j <= elements.len(),
        elements_render_alike::<P, C>(before, elements, behind, own, store),
    ensures
        ({
            let m = before.len();
            let at = child_path(own, m, container_kind());
            let whole = grouped(before, elements, behind);
            let flat = inlined(before, elements, behind);
            let reached = render_children_spec::<P, C>(whole, own, m, store);
            payloads_of_first(reached.0, m) + payloads_of_first(
                render_children_spec::<P, C>(elements, at, j, reached.1).0,
                j,
            ) == payloads_of_first(render_children_spec::<P, C>(flat, own, m + j, store).0, m + j)
        }),
    decreases j,
{
    let m = before.len();
    let at = child_path(own, m, container_kind());
    let whole = grouped(before, elements, behind);
    let flat = inlined(before, elements, behind);
    let reached = render_children_spec::<P, C>(whole, own, m, store);
    if j == 0 {
        lemma_children_pass_of_longer_list::<P, C>(whole, flat, own, m, store);
        assert(payloads_of_first(reached.0, m) + Seq::<P::V>::empty() =~= payloads_of_first(
            reached.0,
            m,
        ));
    } else {
        let i = (j - 1) as nat;
        lemma_alike_within_container::<P, C>(before, elements, behind, own, store, i);
        lemma_payloads_by_child::<P, C>(elements, at, j, reached.1);
        lemma_payloads_by_child::<P, C>(flat, own, m + j, store);
        let inside = child_pass::<P, C>(elements, at, i, reached.1);
        assert(payloads(inside) == payloads(child_pass::<P, C>(flat, own, m + i, store)));
        let front = payloads_of_first(reached.0, m);
        let so_far = payloads_of_first(
            render_children_spec::<P, C>(elements, at, i, reached.1).0,
            i,
        );
        assert(front + (so_far + payloads(inside)) =~= (front + so_far) + payloads(inside));
    }
}

/// Up to the `i`-th child of the grouped list, container included, the
/// grouped and the inlined children have rendered to the same payloads.
proof fn lemma_alike_behind_container<P: View, C: Component<P>>(
    before: Seq<ElView<P::V, C>>,
    elements: Seq<ElView<P::V, C>>,
    behind: Seq<ElView<P::V, C>>,
    own: Seq<char>,
    store: Map<Seq<char>, C::State>,
    i: nat,
)
    requires
        before.len() < i <= grouped(before, elements, behind).len(),
        elements_render_alike::<P, C>(before, elements, behind, own, store),
        siblings_behind_render_alike::<P, C>(before, elements, behind, own, store),
    ensures
        payloads_of_first(
            render_children_spec::<P, C>(grouped(before, elements, behind), own, i, store).0,
            i,
        ) == payloads_of_first(
            render_children_spec::<P, C>(
                inlined(before, elements, behind),
                own,
                (i + elements.len() - 1) as nat,
                store,
            ).0,
            (i + elements.len() - 1) as nat,
        ),
    decreases i,
{
    let m = before.len();
    let k = elements.len();
    let at = child_path(own, m, container_kind());
    let whole = grouped(before, elements, behind);
    let flat = inlined(before, elements, behind);
    lemma_payloads_by_child::<P, C>(whole, own, i, store);
    if i == m + 1 {
        let reached = render_children_spec::<P, C>(whole, own, m, store);
        lemma_alike_within_container::<P, C>(before, elements, behind, own, store, k);
        lemma_children_rendered_one_for_one::<P, C>(elements, at, k, reached.1);
        assert(whole[m as int] == ElView::<P::V, C>::Container { elements });
        assert(payloads(child_pass::<P, C>(whole, own, m, store)) == payloads_of_first(
            render_children_spec::<P, C>(elements, at, k, reached.1).0,
            k,
        ));
    } else {
        let h = (i - 1) as nat;
        lemma_alike_behind_container::<P, C>(before, elements, behind, own, store, h);
        lemma_payloads_by_child::<P, C>(flat, own, (i + k - 1) as nat, store);
        assert(payloads(child_pass::<P, C>(whole, own, h, store)) == payloads(
            child_pass::<P, C>(flat, own, (h + k - 1) as nat, store),
        ));
    }
}

/// A container is transparent for content, whatever stands in the tree:
/// putting the elements of one container among the children of an element
/// in the container's place leaves the sequence of resolved payloads, and
/// with it the number of nodes, as it was, where each element of the
/// container and each sibling behind it renders to the same payloads in
/// both places. A component does so where neither what it renders nor its
/// stored state depends on its path; an element without components always
/// does.
pub proof fn lemma_container_transparent_in_general<P: View, C: Component<P>>(
    before: Seq<ElView<P::V, C>>,
    elements: Seq<ElView<P::V, C>>,
    behind: Seq<ElView<P::V, C>>,
    own: Seq<char>,
    store: Map<Seq<char>, C::State>,
)
    requires
        elements_render_alike::<P, C>(before, elements, behind, own, store),
        siblings_behind_render_alike::<P, C>(before, elements, behind, own, store),
    ensures
        ({
            let whole = grouped(before, elements, behind);
            let flat = inlined(before, elements, behind);
            payloads_of_first(
                render_children_spec::<P, C>(whole, own, whole.len(), store).0,
                whole.len(),
            ) == payloads_of_first(
                render_children_spec::<P, C>(flat, own, flat.len(), store).0,
                flat.len(),
            )
        }),
{
    let whole = grouped(before, elements, behind);
    lemma_alike_behind_container::<P, C>(before, elements, behind, own, store, whole.len());
}

} // verus!
