//! The engine: the tick-driven loop body over one live widget tree.
//!
//! [`Engine::new`] materializes the root component once. Each [`Engine::tick`]
//! performs one draining pass over the tree: within a tick, components are
//! drained children-first, and each component applies at most one pending
//! message — its state is updated, its view re-evaluated, and its rendered
//! subtree reconciled against the previous one. [`Engine::fire`] plays the
//! part of a native event callback: it looks up a subscription and, if its
//! control is still alive, queues the bound message on the owning
//! component's private queue.

use vstd::prelude::*;

use crate::backend::Backend;
use crate::backend::backend_wf;
use crate::component::Component;
use crate::reconcile::materialize;
use crate::reconcile::reconcile;
use crate::store::ComponentState;
use crate::store::Inst;
use crate::store::InstList;
use crate::store::Root;
use crate::store::Store;
use crate::store::all_quiet;
use crate::store::appended_build_only;
use crate::store::controls_frame;
use crate::store::ctrl_set;
use crate::store::ilist_ctrls;
use crate::store::ilist_queues;
use crate::store::ilist_wf;
use crate::store::inst_control;
use crate::store::inst_entity;
use crate::store::inst_wf;
use crate::store::lemma_ilist_wf_frame;
use crate::store::lemma_inst_wf_frame;
use crate::store::lemma_wf_ctrls_below;
use crate::store::lemma_wf_ctrls_below_list;
use crate::store::lemma_wf_queues_below;
use crate::store::ents_below;
use crate::store::ilist_ents_below;
use crate::store::lemma_ents_below_mono;
use crate::store::lemma_ilist_ents_below_mono;
use crate::store::new_queues_empty;
use crate::store::lemma_wf_queues_below_list;
use crate::store::queue_set;
use crate::store::rank_of;
use crate::store::set_below;
use crate::store::store_after_drain;
use crate::store::store_wf;
use crate::store::sub_or_fresh;
use crate::store::widget_of;
use crate::store::wlist_of;
use crate::widgets::ComponentWidget;
use crate::widgets::Widget;
use crate::widgets::rank_bounded;
use crate::widgets::widget_eq;

verus! {

/// What one draining pass does, node by node: a non-component node is kept
/// as it is with its children drained in place; a component with nothing
/// pending keeps its state and queue, with its own subtree drained below;
/// a component with pending messages applies exactly the oldest one and
/// re-renders its subtree from the updated state's view.
pub open spec fn drained<C: Component<Msg = M>, M>(
    i: Inst<C, M>,
    r: Inst<C, M>,
    st1: Store<M>,
    st2: Store<M>,
) -> bool
    decreases i,
{
    match (i, r) {
        (Inst::Button { .. }, _) => r == i,
        (
            Inst::Single { entity, control, title, margined, child },
            Inst::Single { entity: e2, control: c2, title: t2, margined: m2, child: ch2 },
        ) => {
            &&& e2 == entity
            &&& c2 == control
            &&& t2 == title
            &&& m2 == margined
            &&& match (child, ch2) {
                (Some(a), Some(a2)) => drained(*a, *a2, st1, st2),
                (None, None) => true,
                _ => false,
            }
        },
        (
            Inst::Children { entity, control, padded, children },
            Inst::Children { entity: e2, control: c2, padded: p2, children: ch2 },
        ) => {
            &&& e2 == entity
            &&& c2 == control
            &&& p2 == padded
            &&& ilist_drained(children, ch2, st1, st2)
        },
        (
            Inst::Handler { handler, event, inner },
            Inst::Handler { handler: h2, event: ev2, inner: inner2 },
        ) => {
            &&& h2 == handler
            &&& ev2 == event
            &&& drained(*inner, *inner2, st1, st2)
        },
        (Inst::Component { entity, record }, Inst::Component { entity: e2, record: r2 }) => {
            let pend = st1.queues@[record.queue as int]@;
            &&& e2 == entity
            &&& r2.queue == record.queue
            &&& r2.value == record.value
            &&& (pend.len() == 0 ==> r2.state == record.state
                && st2.queues@[record.queue as int] == st1.queues@[record.queue as int]
                && drained(*record.inst, *r2.inst, st1, st2))
            &&& (pend.len() > 0 ==> {
                &&& r2.state == record.state.update_spec(pend[0])
                &&& st2.queues@[record.queue as int]@ == pend.drop_first()
                &&& exists|wv: Widget<C, M>|
                    r2.state.views(wv) && widget_eq(wv, widget_of(*r2.inst))
            })
        },
        _ => false,
    }
}

/// [`drained`], element by element over two child lists.
pub open spec fn ilist_drained<C: Component<Msg = M>, M>(
    l: InstList<C, M>,
    r: InstList<C, M>,
    st1: Store<M>,
    st2: Store<M>,
) -> bool
    decreases l,
{
    match (l, r) {
        (InstList::Nil, InstList::Nil) => true,
        (InstList::Cons(x, xs), InstList::Cons(y, ys)) => drained(*x, *y, st1, st2)
            && ilist_drained(*xs, *ys, st1, st2),
        _ => false,
    }
}

/// [`drained`] reads the stores only at the subtree's own queues, so it is
/// stable under any store change outside them.
pub proof fn lemma_drained_frame<C: Component<Msg = M>, M>(
    i: Inst<C, M>,
    r: Inst<C, M>,
    st1: Store<M>,
    st1b: Store<M>,
    st2: Store<M>,
    st2b: Store<M>,
)
    requires
        drained(i, r, st1, st2),
        forall|q: int| queue_set(i).contains(q) ==> #[trigger] st1b.queues@[q] == st1.queues@[q],
        forall|q: int| queue_set(i).contains(q) ==> #[trigger] st2b.queues@[q] == st2.queues@[q],
    ensures
        drained(i, r, st1b, st2b),
    decreases i,
{
    match (i, r) {
        (Inst::Button { .. }, _) => {},
        (Inst::Single { child, .. }, Inst::Single { child: ch2, .. }) => {
            if let (Some(a), Some(a2)) = (child, ch2) {
                lemma_drained_frame(*a, *a2, st1, st1b, st2, st2b);
            }
        },
        (Inst::Children { children, .. }, Inst::Children { children: ch2, .. }) => {
            lemma_ilist_drained_frame(children, ch2, st1, st1b, st2, st2b);
        },
        (Inst::Handler { inner, .. }, Inst::Handler { inner: inner2, .. }) => {
            lemma_drained_frame(*inner, *inner2, st1, st1b, st2, st2b);
        },
        (Inst::Component { record, .. }, Inst::Component { record: r2, .. }) => {
            assert(queue_set(i).contains(record.queue as int));
            if st1.queues@[record.queue as int]@.len() == 0 {
                assert forall|q: int| queue_set(*record.inst).contains(q) implies #[trigger] st1b.queues@[q]
                    == st1.queues@[q] by {
                    assert(queue_set(i).contains(q));
                }
                assert forall|q: int| queue_set(*record.inst).contains(q) implies #[trigger] st2b.queues@[q]
                    == st2.queues@[q] by {
                    assert(queue_set(i).contains(q));
                }
                lemma_drained_frame(*record.inst, *r2.inst, st1, st1b, st2, st2b);
            }
        },
        _ => {},
    }
}

/// List form of [`lemma_drained_frame`].
pub proof fn lemma_ilist_drained_frame<C: Component<Msg = M>, M>(
    l: InstList<C, M>,
    r: InstList<C, M>,
    st1: Store<M>,
    st1b: Store<M>,
    st2: Store<M>,
    st2b: Store<M>,
)
    requires
        ilist_drained(l, r, st1, st2),
        forall|q: int| ilist_queues(l).contains(q) ==> #[trigger] st1b.queues@[q] == st1.queues@[q],
        forall|q: int| ilist_queues(l).contains(q) ==> #[trigger] st2b.queues@[q] == st2.queues@[q],
    ensures
        ilist_drained(l, r, st1b, st2b),
    decreases l,
{
    match (l, r) {
        (InstList::Cons(x, xs), InstList::Cons(y, ys)) => {
            assert forall|q: int| queue_set(*x).contains(q) implies #[trigger] st1b.queues@[q]
                == st1.queues@[q] by {
                assert(ilist_queues(l).contains(q));
            }
            assert forall|q: int| queue_set(*x).contains(q) implies #[trigger] st2b.queues@[q]
                == st2.queues@[q] by {
                assert(ilist_queues(l).contains(q));
            }
            assert forall|q: int| ilist_queues(*xs).contains(q) implies #[trigger] st1b.queues@[q]
                == st1.queues@[q] by {
                assert(ilist_queues(l).contains(q));
            }
            assert forall|q: int| ilist_queues(*xs).contains(q) implies #[trigger] st2b.queues@[q]
                == st2.queues@[q] by {
                assert(ilist_queues(l).contains(q));
            }
            lemma_drained_frame(*x, *y, st1, st1b, st2, st2b);
            lemma_ilist_drained_frame(*xs, *ys, st1, st1b, st2, st2b);
        },
        _ => {},
    }
}

/// One draining pass over a subtree: children first, then, at each
/// component, at most one pending message is applied and the component's
/// subtree re-rendered — [`drained`] states it node by node. The widget
/// value the subtree renders — what its parent diffs against — is unchanged
/// by draining, as is its entity.
pub fn drain_inst<C: Component<Msg = M>, M>(
    i: Inst<C, M>,
    st: &mut Store<M>,
    b: &mut Backend,
) -> (r: Inst<C, M>)
    requires
        backend_wf(&*old(b)),
        store_wf(*old(st), *old(b)),
        inst_wf(i, *old(b), old(st).queues@.len() as nat),
        old(st).next_entity < u64::MAX ==> ents_below(i, old(st).next_entity),
    ensures
        backend_wf(&*final(b)),
        store_wf(*final(st), *final(b)),
        final(st).next_entity < u64::MAX ==> ents_below(r, final(st).next_entity),
        store_after_drain(*old(st), *final(st), queue_set(i)),
        new_queues_empty(*old(st), *final(st)),
        controls_frame(*old(b), *final(b), ctrl_set(i)),
        inst_wf(r, *final(b), final(st).queues@.len() as nat),
        widget_of(r) == widget_of(i),
        inst_entity(r) == inst_entity(i),
        sub_or_fresh(
            ctrl_set(r),
            ctrl_set(i),
            old(b).controls@.len() as int,
            final(b).controls@.len() as int,
        ),
        sub_or_fresh(
            queue_set(r),
            queue_set(i),
            old(st).queues@.len() as int,
            final(st).queues@.len() as int,
        ),
        drained(i, r, *old(st), *final(st)),
        all_quiet(*old(st), queue_set(i)) ==> *final(b) == *old(b) && all_quiet(
            *final(st),
            queue_set(i),
        ),
    decreases i,
{
    let ghost iw = i;
    match i {
        Inst::Button { entity, control, text } => {
            let r = Inst::Button { entity, control, text };
            proof {
                assert(r == iw);
            }
            r
        },
        Inst::Single { entity, control, title, margined, child } => {
            let ghost cset = match child {
                Some(ref c) => ctrl_set(**c),
                None => Set::<int>::empty(),
            };
            let child2 = match child {
                Some(c) => {
                    let c2 = drain_inst(*c, st, b);
                    Some(Box::new(c2))
                },
                None => None,
            };
            proof {
                assert(!cset.contains(control as int));
                assert(b.controls@[control as int] == old(b).controls@[control as int]);
            }
            let r = Inst::Single { entity, control, title, margined, child: child2 };
            proof {
                assert(drained(iw, r, *old(st), *st));
            }
            r
        },
        Inst::Children { entity, control, padded, children } => {
            let ghost cset = ilist_ctrls(children);
            let children2 = drain_list(children, st, b);
            proof {
                assert(!cset.contains(control as int));
                assert(b.controls@[control as int] == old(b).controls@[control as int]);
                assert(!ilist_ctrls(children2).contains(control as int)) by {
                    if ilist_ctrls(children2).contains(control as int) {
                        assert(cset.contains(control as int) || old(b).controls@.len() as int
                            <= control as int);
                    }
                }
            }
            let r = Inst::Children { entity, control, padded, children: children2 };
            proof {
                assert(drained(iw, r, *old(st), *st));
            }
            r
        },
        Inst::Handler { handler, event, inner } => {
            let inner2 = drain_inst(*inner, st, b);
            let r = Inst::Handler { handler, event, inner: Box::new(inner2) };
            proof {
                assert(drained(iw, r, *old(st), *st));
            }
            r
        },
        Inst::Component { entity, record } => {
            let ComponentState { value, state, queue, root, inst } = record;
            let ghost inner0 = *inst;
            let inner1 = drain_inst(*inst, st, b);
            let ghost st1 = *st;
            let ghost b1 = *b;
            proof {
                lemma_wf_queues_below(inner0, *old(b), old(st).queues@.len() as nat);
                assert(!queue_set(inner0).contains(queue as int));
                assert(st.queues@[queue as int] == old(st).queues@[queue as int]);
            }
            let msg = st.pop_queue(queue);
            proof {
                lemma_inst_wf_frame(
                    inner1,
                    b1,
                    *b,
                    st1.queues@.len() as nat,
                    st.queues@.len() as nat,
                );
            }
            match msg {
                Some(m) => {
                    let mut state2 = state;
                    state2.update(m);
                    let w2 = state2.view();
                    let ghost st2 = *st;
                    let ghost b2 = *b;
                    let inner2 = reconcile(&w2, inner1, queue, st, b, Ghost(state2.rank()));
                    let root2 = Root(inner2.entity());
                    proof {
                        assert(!queue_set(inner2).contains(queue as int)) by {
                            if queue_set(inner2).contains(queue as int) {
                                assert(queue_set(inner1).contains(queue as int)
                                    || st2.queues@.len() as int <= queue as int);
                                if queue_set(inner1).contains(queue as int) {
                                    assert(queue_set(inner0).contains(queue as int)
                                        || old(st).queues@.len() as int <= queue as int);
                                }
                            }
                        }
                    }
                    let r = Inst::Component {
                        entity,
                        record: ComponentState {
                            value,
                            state: state2,
                            queue,
                            root: root2,
                            inst: Box::new(inner2),
                        },
                    };
                    proof {
                        let pend = old(st).queues@[queue as int]@;
                        assert(pend.len() > 0);
                        assert(m == pend[0]);
                        assert(st2.queues@[queue as int]@ == pend.drop_first());
                        assert(st.queues@[queue as int]@ == pend.drop_first());
                        assert(exists|wv: Widget<C, M>|
                            state2.views(wv) && widget_eq(wv, widget_of(inner2))) by {
                            assert(state2.views(w2) && widget_eq(w2, widget_of(inner2)));
                        }
                        assert(iw matches Inst::Component { entity: e0, record: rec0 }
                            && e0 == entity && rec0.queue == queue && rec0.value == value
                            && rec0.state == state);
                        assert(r matches Inst::Component { entity: e1, record: rec1 }
                            && e1 == entity && rec1.queue == queue && rec1.value == value
                            && rec1.state == state2 && *rec1.inst == inner2);
                        assert(drained(iw, r, *old(st), *st)) by {
                            reveal_with_fuel(drained, 2);
                        }
                    }
                    r
                },
                None => {
                    let r = Inst::Component {
                        entity,
                        record: ComponentState { value, state, queue, root, inst: Box::new(
                            inner1,
                        ) },
                    };
                    proof {
                        let pend = old(st).queues@[queue as int]@;
                        assert(pend.len() == 0);
                        assert forall|q: int| queue_set(inner0).contains(q) implies (
                        #[trigger] st.queues@[q]) == st1.queues@[q] by {
                            assert(q != queue as int);
                        }
                        lemma_drained_frame(inner0, inner1, *old(st), *old(st), st1, *st);
                        assert(st.queues@[queue as int] == old(st).queues@[queue as int]);
                        assert(drained(iw, r, *old(st), *st));
                    }
                    r
                },
            }
        },
    }
}

/// One draining pass over each subtree of a child list, left to right.
pub fn drain_list<C: Component<Msg = M>, M>(
    l: InstList<C, M>,
    st: &mut Store<M>,
    b: &mut Backend,
) -> (r: InstList<C, M>)
    requires
        backend_wf(&*old(b)),
        store_wf(*old(st), *old(b)),
        ilist_wf(l, *old(b), old(st).queues@.len() as nat),
        old(st).next_entity < u64::MAX ==> ilist_ents_below(l, old(st).next_entity),
    ensures
        backend_wf(&*final(b)),
        store_wf(*final(st), *final(b)),
        final(st).next_entity < u64::MAX ==> ilist_ents_below(r, final(st).next_entity),
        store_after_drain(*old(st), *final(st), ilist_queues(l)),
        new_queues_empty(*old(st), *final(st)),
        controls_frame(*old(b), *final(b), ilist_ctrls(l)),
        ilist_wf(r, *final(b), final(st).queues@.len() as nat),
        wlist_of(r) == wlist_of(l),
        sub_or_fresh(
            ilist_ctrls(r),
            ilist_ctrls(l),
            old(b).controls@.len() as int,
            final(b).controls@.len() as int,
        ),
        sub_or_fresh(
            ilist_queues(r),
            ilist_queues(l),
            old(st).queues@.len() as int,
            final(st).queues@.len() as int,
        ),
        ilist_drained(l, r, *old(st), *final(st)),
        all_quiet(*old(st), ilist_queues(l)) ==> *final(b) == *old(b) && all_quiet(
            *final(st),
            ilist_queues(l),
        ),
    decreases l,
{
    match l {
        InstList::Nil => InstList::Nil,
        InstList::Cons(x, xs) => {
            let ghost lw = l;
            let ghost xset = ctrl_set(*x);
            let ghost xsset = ilist_ctrls(*xs);
            let ghost xq = queue_set(*x);
            let ghost xsq = ilist_queues(*xs);
            let ghost qn0 = old(st).queues@.len() as nat;
            proof {
                lemma_wf_ctrls_below(*x, *old(b), qn0);
                lemma_wf_ctrls_below_list(*xs, *old(b), qn0);
                lemma_wf_queues_below(*x, *old(b), qn0);
                lemma_wf_queues_below_list(*xs, *old(b), qn0);
            }
            let x2 = drain_inst(*x, st, b);
            let ghost b1 = *b;
            let ghost st1 = *st;
            proof {
                assert forall|d: int| xsset.contains(d) implies #[trigger] b.controls@[d] == old(
                    b,
                ).controls@[d] by {
                    assert(set_below(xsset, old(b).controls@.len() as int));
                    assert(!xset.contains(d));
                }
                lemma_ilist_wf_frame(*xs, *old(b), *b, qn0, st.queues@.len() as nat);
            }
            proof {
                if st.next_entity < u64::MAX {
                    lemma_ilist_ents_below_mono(*xs, old(st).next_entity, st.next_entity);
                }
            }
            let rest2 = drain_list(*xs, st, b);
            proof {
                if st.next_entity < u64::MAX {
                    lemma_ents_below_mono(x2, st1.next_entity, st.next_entity);
                    assert(ilist_ents_below(InstList::Cons(Box::new(x2), Box::new(rest2)),
                        st.next_entity));
                }
                // the first child's new subtree is untouched by its siblings' drains
                assert forall|d: int| ctrl_set(x2).contains(d) implies #[trigger] b.controls@[d]
                    == b1.controls@[d] by {
                    assert(set_below(ctrl_set(x2), b1.controls@.len() as int)) by {
                        crate::store::lemma_wf_ctrls_below(x2, b1, st1.queues@.len() as nat);
                    }
                    assert(!xsset.contains(d)) by {
                        assert(xset.contains(d) || old(b).controls@.len() as int <= d);
                        if xset.contains(d) {
                        } else {
                            assert(set_below(xsset, old(b).controls@.len() as int));
                        }
                    }
                }
                lemma_inst_wf_frame(x2, b1, *b, st1.queues@.len() as nat, st.queues@.len() as nat);
                // disjointness of the two new footprints
                assert(ctrl_set(x2).disjoint(ilist_ctrls(rest2))) by {
                    assert forall|d: int| ctrl_set(x2).contains(d) implies !ilist_ctrls(
                        rest2,
                    ).contains(d) by {
                        if ilist_ctrls(rest2).contains(d) {
                            assert(xsset.contains(d) || b1.controls@.len() as int <= d);
                            assert(xset.contains(d) || old(b).controls@.len() as int <= d);
                            assert(set_below(ctrl_set(x2), b1.controls@.len() as int));
                            assert(set_below(xsset, old(b).controls@.len() as int));
                        }
                    }
                }
                assert(queue_set(x2).disjoint(ilist_queues(rest2))) by {
                    assert(set_below(queue_set(x2), st1.queues@.len() as int)) by {
                        crate::store::lemma_wf_queues_below(x2, b1, st1.queues@.len() as nat);
                    }
                    assert forall|d: int| queue_set(x2).contains(d) implies !ilist_queues(
                        rest2,
                    ).contains(d) by {
                        if ilist_queues(rest2).contains(d) {
                            assert(xsq.contains(d) || st1.queues@.len() as int <= d);
                            assert(xq.contains(d) || old(st).queues@.len() as int <= d);
                            assert(set_below(xsq, old(st).queues@.len() as int));
                        }
                    }
                }
            }
            let r = InstList::Cons(Box::new(x2), Box::new(rest2));
            proof {
                // the siblings' drains left the first child's queues alone
                assert forall|q: int| queue_set(*x).contains(q) implies #[trigger] st.queues@[q]
                    == st1.queues@[q] by {
                    assert(set_below(xq, old(st).queues@.len() as int));
                    assert(!xsq.contains(q));
                    assert(0 <= q < st1.queues@.len());
                }
                lemma_drained_frame(*x, x2, *old(st), *old(st), st1, *st);
                // the first child's drain left the siblings' queues alone
                assert forall|q: int| ilist_queues(*xs).contains(q) implies (
                #[trigger] old(st).queues@[q]) == st1.queues@[q] by {
                    assert(set_below(xsq, old(st).queues@.len() as int));
                    assert(!xq.contains(q));
                }
                lemma_ilist_drained_frame(*xs, rest2, st1, *old(st), *st, *st);
                assert(ilist_drained(lw, r, *old(st), *st));
                assert forall|q: int|
                    old(st).queues@.len() <= q < st.queues@.len() implies (
                #[trigger] st.queues@[q])@.len() == 0 by {
                    if q < st1.queues@.len() {
                        assert(st1.queues@[q]@.len() == 0);
                        assert(!xsq.contains(q)) by {
                            assert(set_below(xsq, old(st).queues@.len() as int));
                        }
                        assert(st.queues@[q] == st1.queues@[q]);
                    }
                }
            }
            r
        },
    }
}

/// A running engine: the shared store, the modeled backend, and the live
/// instance tree of the root component.
pub struct Engine<C: Component> {
    /// Queues, subscriptions and the entity counter.
    pub store: Store<C::Msg>,
    /// The modeled native backend with its call log.
    pub backend: Backend,
    /// The materialized root component.
    pub root: Inst<C, C::Msg>,
}

/// Well-formedness of a running engine.
pub open spec fn engine_wf<C: Component>(e: Engine<C>) -> bool {
    &&& backend_wf(&e.backend)
    &&& store_wf(e.store, e.backend)
    &&& inst_wf(e.root, e.backend, e.store.queues@.len() as nat)
    &&& (e.store.next_entity < u64::MAX ==> ents_below(e.root, e.store.next_entity))
    &&& e.root matches Inst::Component { .. }
}

/// The root component's record.
pub open spec fn root_record<C: Component>(e: Engine<C>) -> ComponentState<C, C::Msg> {
    match e.root {
        Inst::Component { record, .. } => record,
        _ => arbitrary(),
    }
}

impl<C: Component> Engine<C> {
    /// Builds the engine: materializes the root component's view once,
    /// creating every native control afresh.
    pub fn new(root_component: C) -> (e: Engine<C>)
        ensures
            engine_wf(e),
            appended_build_only(Seq::<crate::backend::Op>::empty(), e.backend.ops@),
            root_record(e).state == root_component,
            root_record(e).value == root_component,
            e.store.queues@[root_record(e).queue as int]@.len() == 0,
            exists|wv: Widget<C, C::Msg>|
                root_record(e).state.views(wv) && widget_of(*root_record(e).inst) == wv,
    {
        let mut store: Store<C::Msg> = Store::new();
        let mut backend = Backend::new();
        let q0 = store.alloc_queue();
        let ghost rk = root_component.rank();
        let w: Widget<C, C::Msg> = Widget::Component(ComponentWidget(root_component));
        proof {
            assert(rank_bounded(w, rk + 1, rank_of::<C>()));
        }
        let root = materialize(&w, q0, &mut store, &mut backend, Ghost(rk + 1));
        proof {
            assert(root matches Inst::Component { .. }) by {
                assert(widget_of(root) == w);
                if !(root matches Inst::Component { .. }) {
                    assert(!(widget_of(root) matches Widget::Component(..)));
                }
            }
        }
        Engine { store, backend, root }
    }

    /// One tick: a single draining pass over the whole tree, children
    /// first. Each component applies at most one pending message and
    /// re-renders its subtree; a component with nothing pending is left
    /// alone, and the value the root renders to its host never changes.
    pub fn tick(self) -> (e: Engine<C>)
        requires
            engine_wf(self),
        ensures
            engine_wf(e),
            widget_of(e.root) == widget_of(self.root),
            inst_entity(e.root) == inst_entity(self.root),
            drained(self.root, e.root, self.store, e.store),
            new_queues_empty(self.store, e.store),
            all_quiet(self.store, queue_set(self.root)) ==> e.backend == self.backend,
            ({
                let rec = root_record(self);
                let rec2 = root_record(e);
                let pend = self.store.queues@[rec.queue as int]@;
                &&& rec2.queue == rec.queue
                &&& (pend.len() == 0 ==> rec2.state == rec.state && e.store.queues@[rec.queue as int]
                    == self.store.queues@[rec.queue as int])
                &&& (pend.len() > 0 ==> {
                    &&& rec2.state == rec.state.update_spec(pend[0])
                    &&& e.store.queues@[rec.queue as int]@ == pend.drop_first()
                    &&& exists|wv: Widget<C, C::Msg>|
                        rec2.state.views(wv) && widget_eq(wv, widget_of(*rec2.inst))
                })
            }),
    {
        let Engine { mut store, mut backend, root } = self;
        let root2 = drain_inst(root, &mut store, &mut backend);
        Engine { store, backend, root: root2 }
    }

    /// Simulates the native side firing subscription `k`: if the
    /// subscription exists and its control is still alive, the bound
    /// message is queued for the owning component and `true` is returned;
    /// a stale or unknown subscription fires nothing.
    pub fn fire(&mut self, k: usize) -> (fired: bool)
        requires
            engine_wf(*old(self)),
        ensures
            engine_wf(*final(self)),
            final(self).backend == old(self).backend,
            final(self).root == old(self).root,
            fired == (k < old(self).store.subs@.len()
                && old(self).backend.controls@[old(self).store.subs@[k as int].control as int].alive),
            fired ==> {
                let sub = old(self).store.subs@[k as int];
                &&& final(self).store.queues@[sub.queue as int]@
                    == old(self).store.queues@[sub.queue as int]@.push(sub.msg)
                &&& forall|j: int|
                    0 <= j < old(self).store.queues@.len() && j != sub.queue
                        ==> final(self).store.queues@[j] == old(self).store.queues@[j]
                &&& final(self).store.subs == old(self).store.subs
            },
            !fired ==> *final(self) == *old(self),
    {
        if k >= self.store.subs.len() {
            return false;
        }
        let control = self.store.subs[k].control;
        let q = self.store.subs[k].queue;
        if !self.backend.controls[control].alive {
            return false;
        }
        let m = C::dup_msg(&self.store.subs[k].msg);
        self.store.push_queue(q, m);
        true
    }

    /// Queues a message for the root component itself, as a host would
    /// through the root's own channel; it is applied on the next tick.
    pub fn send(&mut self, m: C::Msg)
        requires
            engine_wf(*old(self)),
        ensures
            engine_wf(*final(self)),
            final(self).backend == old(self).backend,
            final(self).root == old(self).root,
            final(self).store.subs == old(self).store.subs,
            final(self).store.queues@.len() == old(self).store.queues@.len(),
            final(self).store.queues@[root_record(*old(self)).queue as int]@ == old(
                self,
            ).store.queues@[root_record(*old(self)).queue as int]@.push(m),
            forall|j: int|
                0 <= j < old(self).store.queues@.len() && j != root_record(*old(self)).queue
                    ==> final(self).store.queues@[j] == old(self).store.queues@[j],
    {
        match &self.root {
            Inst::Component { record, .. } => {
                let q = record.queue;
                self.store.push_queue(q, m);
            },
            _ => {
                proof {
                    assert(false);
                }
            },
        }
    }

    /// The native control handle of the root, for the host to install as
    /// its window content.
    pub fn root_control(&self) -> (c: usize)
        ensures
            c == inst_control(self.root),
    {
        self.root.control_handle()
    }

    /// The entity of the root instance.
    pub fn root_entity(&self) -> (e: u64)
        ensures
            e == inst_entity(self.root),
    {
        self.root.entity()
    }
}

/// No leak of a destroy and no double-free, over the whole life of an
/// engine: every control the engine ever destroyed was destroyed by exactly
/// one backend call, and no later backend call names a destroyed control.
pub proof fn lemma_engine_no_double_free<C: Component>(e: Engine<C>)
    requires
        engine_wf(e),
    ensures
        forall|c: usize|
            crate::backend::destroy_count(e.backend.ops@, c) <= 1,
        forall|i: int, j: int, c: usize|
            #![trigger e.backend.ops@[i], crate::backend::op_refs(e.backend.ops@[j], c)]
            0 <= i < j < e.backend.ops@.len() && e.backend.ops@[i] == crate::backend::Op::Destroy(c)
                ==> !crate::backend::op_refs(e.backend.ops@[j], c),
{
    crate::backend::lemma_destroy_at_most_once(&e.backend);
    crate::backend::lemma_no_use_after_destroy(&e.backend);
}

} // verus!
