//! Fresh build and subtree destruction.
//!
//! [`materialize`] turns a widget value into a live instance tree, creating
//! one native control per node, attaching children under their containers,
//! subscribing handlers, and giving each embedded component a fresh record
//! with its own message queue. A fresh build only builds: it never updates a
//! field of an existing control and never destroys one.
//!
//! [`destroy_subtree`] releases an abandoned instance tree, destroying the
//! control of every node exactly once and nothing else.

use vstd::prelude::*;

use crate::backend::Backend;
use crate::backend::ControlKind;
use crate::backend::Field;
use crate::backend::Op;
use crate::backend::backend_wf;
use crate::backend::op_refs;
use crate::component::Component;
use crate::store::ComponentState;
use crate::store::Inst;
use crate::store::InstList;
use crate::store::Root;
use crate::store::Store;
use crate::store::Subscription;
use crate::store::all_dead;
use crate::store::appended_build_only;
use crate::store::appended_destroys;
use crate::store::controls_frame;
use crate::store::ctrl_set;
use crate::store::ilist_ctrls;
use crate::store::ilist_queues;
use crate::store::ilist_wf;
use crate::store::lemma_control_in_set;
use crate::store::appended_no_update;
use crate::store::inst_control;
use crate::store::inst_entity;
use crate::store::inst_wf;
use crate::store::lemma_ilist_wf_frame;
use crate::store::lemma_inst_wf_frame;
use crate::store::lemma_range_disjoint;
use crate::store::lemma_wf_control_alive;
use crate::store::lemma_wf_ctrls_below;
use crate::store::lemma_wf_ctrls_below_list;
use crate::store::queue_set;
use crate::store::rank_of;
use crate::store::set_below;
use crate::store::set_in_range;
use crate::store::sub_or_fresh;
use crate::store::store_extended;
use crate::store::store_wf;
use crate::store::widget_of;
use crate::store::matches_inst;
use crate::store::lemma_ops_on_frame;
use crate::store::lemma_ops_on_push;
use crate::store::ents_below;
use crate::store::ilist_ents_below;
use crate::store::lemma_ents_below_mono;
use crate::store::lemma_entity_below;
use crate::store::new_queues_empty;
use crate::store::ops_extended;
use crate::store::ops_on;
use crate::store::ops_scoped;
use crate::store::matches_list;
use crate::store::wlist_of;
use crate::widgets::ConnectChildren;
use crate::widgets::ConnectSingleChild;
use crate::widgets::Widget;
use crate::widgets::WidgetList;
use crate::widgets::rank_bounded;
use crate::widgets::same_kind;
use crate::widgets::lemma_widget_eq_refl;
use crate::widgets::list_eq;
use crate::widgets::lemma_list_eq_refl;
use crate::widgets::widget_eq;
use crate::widgets::list_rank_bounded;

verus! {

/// The child-slot control of a group instance, if the slot is filled.
pub open spec fn slot_control<C, M>(i: Inst<C, M>) -> Option<usize> {
    match i {
        Inst::Single { child, .. } => match child {
            Some(c) => Some(inst_control(*c)),
            None => None,
        },
        _ => None,
    }
}

/// The control footprint of a group instance's slotted child, if any.
pub open spec fn slot_ctrls<C, M>(i: Inst<C, M>) -> Set<int> {
    match i {
        Inst::Single { child, .. } => match child {
            Some(c) => ctrl_set(*c),
            None => Set::empty(),
        },
        _ => Set::empty(),
    }
}

/// The control footprint of a box instance's children.
pub open spec fn kids_ctrls<C, M>(i: Inst<C, M>) -> Set<int> {
    match i {
        Inst::Children { children, .. } => ilist_ctrls(children),
        _ => Set::empty(),
    }
}

/// The attachment calls a box control `g` receives for a freshly built
/// child list, one append per child, first child first.
pub open spec fn appends_of<C, M>(g: usize, l: InstList<C, M>) -> Seq<Op>
    decreases l,
{
    match l {
        InstList::Nil => Seq::empty(),
        InstList::Cons(x, xs) => seq![Op::AppendChild(g, inst_control(*x))] + appends_of(g, *xs),
    }
}

/// The calls a group control `g` receives while it is updated in place from
/// old value `os` to new value `ns`, with its slotted child's control going
/// from `oc` to `nc`: one update per changed field, then one attachment if
/// the child control changed, one clear if the slot was emptied, and
/// nothing else.
pub open spec fn group_update_ops<C, M>(
    g: usize,
    ns: ConnectSingleChild<C, M>,
    os: ConnectSingleChild<C, M>,
    oc: Option<usize>,
    nc: Option<usize>,
) -> Seq<Op> {
    (if ns.parent.title@ != os.parent.title@ {
        seq![Op::UpdateField(g, Field::Title(ns.parent.title))]
    } else {
        Seq::<Op>::empty()
    }) + (if ns.parent.margined != os.parent.margined {
        seq![Op::UpdateField(g, Field::Margined(ns.parent.margined))]
    } else {
        Seq::<Op>::empty()
    }) + (match (oc, nc) {
        (Some(a), Some(c)) => if c != a {
            seq![Op::SetChild(g, c)]
        } else {
            Seq::<Op>::empty()
        },
        (None, Some(c)) => seq![Op::SetChild(g, c)],
        (Some(a), None) => seq![Op::ClearChild(g)],
        (None, None) => Seq::<Op>::empty(),
    })
}

/// The calls a box control `g` receives while it is updated in place: one
/// padding update if that flag changed; if the child list changed at all,
/// one clear followed by the appends of the whole rebuilt list; and nothing
/// else.
pub open spec fn box_update_ops<C: Component<Msg = M>, M>(
    g: usize,
    nx: ConnectChildren<C, M>,
    ox: ConnectChildren<C, M>,
    rebuilt: InstList<C, M>,
) -> Seq<Op> {
    (if nx.parent.padded != ox.parent.padded {
        seq![Op::UpdateField(g, Field::Padded(nx.parent.padded))]
    } else {
        Seq::<Op>::empty()
    }) + (if !list_eq(nx.children, ox.children) {
        seq![Op::ClearChildren(g)] + appends_of(g, rebuilt)
    } else {
        Seq::<Op>::empty()
    })
}

/// Builds the live instance tree for widget `w` from scratch.
///
/// Every handler below `w`, down to but not into embedded components, sends
/// its messages to the queue `sender`; each embedded component gets a fresh
/// queue of its own. The build emits only building calls — creates,
/// attachments, subscriptions — and leaves every pre-existing control and
/// queue untouched.
pub fn materialize<C: Component<Msg = M>, M>(
    w: &Widget<C, M>,
    sender: usize,
    st: &mut Store<M>,
    b: &mut Backend,
    Ghost(bound): Ghost<nat>,
) -> (r: Inst<C, M>)
    requires
        backend_wf(&*old(b)),
        store_wf(*old(st), *old(b)),
        sender < old(st).queues@.len(),
        rank_bounded(*w, bound, rank_of::<C>()),
    ensures
        backend_wf(&*final(b)),
        store_wf(*final(st), *final(b)),
        store_extended(*old(st), *final(st)),
        new_queues_empty(*old(st), *final(st)),
        controls_frame(*old(b), *final(b), Set::empty()),
        appended_build_only(old(b).ops@, final(b).ops@),
        ops_scoped(old(b).ops@, final(b).ops@, Set::empty(), old(b).controls@.len() as int),
        inst_wf(r, *final(b), final(st).queues@.len() as nat),
        widget_of(r) == *w,
        set_in_range(ctrl_set(r), old(b).controls@.len() as int, final(b).controls@.len() as int),
        set_in_range(
            queue_set(r),
            old(st).queues@.len() as int,
            final(st).queues@.len() as int,
        ),
        inst_entity(r) >= old(st).next_entity,
        final(st).next_entity < u64::MAX ==> ents_below(r, final(st).next_entity),
        (match r {
            Inst::Button { control: g, text: rt, .. } => {
                let createop = final(b).ops@[old(b).ops@.len() as int];
                &&& ops_on(final(b).ops@, g) == ops_on(old(b).ops@, g) + seq![createop]
                &&& (createop matches Op::Create(g2, dsc) && g2 == g && dsc.kind
                    == ControlKind::Button && dsc.text@ == rt@ && dsc.title@
                    == Seq::<char>::empty() && !dsc.margined && !dsc.padded)
            },
            Inst::Single { control: g, title: rt, margined: rm, child, .. } => {
                let createop = final(b).ops@[old(b).ops@.len() as int];
                &&& ops_on(final(b).ops@, g) == ops_on(old(b).ops@, g) + seq![createop]
                    + (match child {
                    Some(c2) => seq![Op::SetChild(g, inst_control(*c2))],
                    None => Seq::<Op>::empty(),
                })
                &&& (createop matches Op::Create(g2, dsc) && g2 == g && dsc.kind
                    == ControlKind::Group && dsc.title@ == rt@ && dsc.margined == rm && dsc.text@
                    == Seq::<char>::empty() && !dsc.padded)
            },
            Inst::Children { control: g, padded: rp, children, .. } => {
                let createop = final(b).ops@[old(b).ops@.len() as int];
                &&& ops_on(final(b).ops@, g) == ops_on(old(b).ops@, g) + seq![createop]
                    + appends_of(g, children)
                &&& (createop matches Op::Create(g2, dsc) && g2 == g && dsc.kind
                    == ControlKind::HorizontalBox && dsc.padded == rp && dsc.text@
                    == Seq::<char>::empty() && dsc.title@ == Seq::<char>::empty()
                    && !dsc.margined)
            },
            _ => true,
        }),
        (*w matches Widget::Button(_)) ==> final(st).subs == old(st).subs,
        (match *w {
            Widget::Component(cw) => (match r {
                Inst::Component { record, .. } => {
                    &&& record.state == cw.0
                    &&& record.value == cw.0
                    &&& final(st).queues@[record.queue as int]@.len() == 0
                    &&& exists|wv: Widget<C, M>|
                        record.state.views(wv) && widget_of(*record.inst) == wv
                },
                _ => false,
            }),
            _ => true,
        }),
        (match *w {
            Widget::Handler(h) => {
                &&& final(st).subs@.len() > old(st).subs@.len()
                &&& final(st).subs@.last() == (Subscription {
                    control: inst_control(r),
                    event: h.event,
                    msg: h.handler,
                    queue: sender,
                })
            },
            _ => true,
        }),
        forall|k: int|
            old(st).subs@.len() <= k < final(st).subs@.len()
                ==> ((#[trigger] final(st).subs@[k]).queue == sender
                || final(st).subs@[k].queue >= old(st).queues@.len()),
    decreases bound, *w, 0int,
{
    match w {
        Widget::Button(x) => {
            let c = b.create(
                ControlKind::Button,
                x.text.clone(),
                String::new(),
                false,
                false,
            );
            let e = st.alloc_entity();
            let r = Inst::Button { entity: e, control: c, text: x.text.clone() };
            proof {
                assert(ctrl_set(r) =~= set![c as int]);
                assert(queue_set(r) =~= Set::<int>::empty());
                if st.next_entity < u64::MAX {
                    assert(ents_below(r, st.next_entity));
                }
                match b.ops@.last() {
                    Op::Create(c0, dsc) => {
                        lemma_ops_on_push(old(b).ops@, Op::Create(c0, dsc), c);
                        assert(ops_on(b.ops@, c) == ops_on(old(b).ops@, c) + seq![
                            Op::Create(c, dsc),
                        ]);
                        assert(dsc.kind == ControlKind::Button);
                        assert(dsc.text@ == x.text@);
                        assert(dsc.title@ == Seq::<char>::empty());
                        assert(!dsc.margined && !dsc.padded);
                    },
                    _ => {
                        assert(false);
                    },
                }
                assert forall|k: int, d: usize|
                    #![trigger op_refs(b.ops@[k], d)]
                    old(b).ops@.len() <= k < b.ops@.len() && op_refs(b.ops@[k], d) implies old(
                    b,
                ).controls@.len() as int <= d by {
                    assert(b.ops@[k] matches Op::Create(cc, _) && cc == c);
                }
            }
            r
        },
        Widget::Single(x) => {
            let c = b.create(
                ControlKind::Group,
                String::new(),
                x.parent.title.clone(),
                x.parent.margined,
                false,
            );
            let e = st.alloc_entity();
            let ghost b1 = *b;
            let child = match &x.child {
                Some(cw) => {
                    let ci = materialize(cw, sender, st, b, Ghost(bound));
                    let ghost b2 = *b;
                    proof {
                        lemma_wf_control_alive(ci, *b, st.queues@.len() as nat);
                        assert(!Set::<int>::empty().contains(c as int));
                        assert(b.controls@[c as int] == b1.controls@[c as int]);
                    }
                    let cc = ci.control_handle();
                    b.set_child(c, cc);
                    proof {
                        lemma_inst_wf_frame(
                            ci,
                            b2,
                            *b,
                            st.queues@.len() as nat,
                            st.queues@.len() as nat,
                        );
                        assert forall|k: int|
                            b1.ops@.len() <= k < b2.ops@.len() implies !op_refs(
                            #[trigger] b2.ops@[k],
                            c,
                        ) by {
                            if op_refs(b2.ops@[k], c) {
                                assert(!Set::<int>::empty().contains(c as int));
                                assert(b1.controls@.len() as int <= c as int);
                            }
                        }
                        lemma_ops_on_frame(b1.ops@, b2.ops@, c);
                        lemma_ops_on_push(b2.ops@, Op::SetChild(c, cc), c);
                        match b1.ops@.last() {
                            Op::Create(c0, dsc) => {
                                lemma_ops_on_push(old(b).ops@, Op::Create(c0, dsc), c);
                                assert(ops_on(b.ops@, c) == ops_on(old(b).ops@, c) + seq![
                                    Op::Create(c, dsc),
                                ] + seq![Op::SetChild(c, cc)]) by {
                                    assert((ops_on(old(b).ops@, c) + seq![Op::Create(c, dsc)])
                                        + seq![Op::SetChild(c, cc)] =~= ops_on(old(b).ops@, c)
                                        + seq![Op::Create(c, dsc)] + seq![Op::SetChild(c, cc)]);
                                }
                            },
                            _ => {
                                assert(false);
                            },
                        }
                    }
                    Some(Box::new(ci))
                },
                None => None,
            };
            let r = Inst::Single {
                entity: e,
                control: c,
                title: x.parent.title.clone(),
                margined: x.parent.margined,
                child,
            };
            proof {
                if st.next_entity < u64::MAX {
                    assert(ents_below(r, st.next_entity));
                }
                if r matches Inst::Single { child: None, .. } {
                    match b1.ops@.last() {
                        Op::Create(c0, dsc) => {
                            lemma_ops_on_push(old(b).ops@, Op::Create(c0, dsc), c);
                            assert(ops_on(b.ops@, c) == ops_on(old(b).ops@, c) + seq![
                                Op::Create(c, dsc),
                            ] + Seq::<Op>::empty()) by {
                                assert((ops_on(old(b).ops@, c) + seq![Op::Create(c, dsc)])
                                    + Seq::<Op>::empty() =~= ops_on(old(b).ops@, c) + seq![
                                    Op::Create(c, dsc),
                                ] + Seq::<Op>::empty());
                            }
                        },
                        _ => {
                            assert(false);
                        },
                    }
                }
                let lo = old(b).controls@.len() as int;
                assert forall|k: int, d: usize|
                    #![trigger op_refs(b.ops@[k], d)]
                    old(b).ops@.len() <= k < b.ops@.len() && op_refs(b.ops@[k], d) implies lo
                        <= d by {
                    if k == old(b).ops@.len() {
                        assert(b.ops@[k] matches Op::Create(cc, _) && cc == c);
                    } else {
                        match &r {
                            Inst::Single { child: Some(ci), .. } => {
                                if k < b.ops@.len() - 1 {
                                    assert(!Set::<int>::empty().contains(d as int));
                                } else {
                                    assert(b.ops@[k] == Op::SetChild(c, inst_control(**ci)));
                                    if d != c {
                                        lemma_control_in_set(**ci);
                                        assert(ctrl_set(**ci).contains(d as int));
                                    }
                                }
                            },
                            _ => {
                                assert(false);
                            },
                        }
                    }
                }
            }
            r
        },
        Widget::Children(x) => {
            let c = b.create(
                ControlKind::HorizontalBox,
                String::new(),
                String::new(),
                false,
                x.parent.padded,
            );
            let e = st.alloc_entity();
            let ghost b1 = *b;
            let il = materialize_list(&x.children, c, sender, st, b, Ghost(bound));
            proof {
                assert(!Set::<int>::empty().contains(c as int));
                assert(b.controls@[c as int] == b1.controls@[c as int]);
                assert(!ilist_ctrls(il).contains(c as int)) by {
                    if ilist_ctrls(il).contains(c as int) {
                        assert(b1.controls@.len() as int <= c as int);
                    }
                }
                if st.next_entity < u64::MAX {
                    assert(ilist_ents_below(il, st.next_entity));
                    assert(e < st.next_entity);
                }
                match b1.ops@.last() {
                    Op::Create(c0, dsc) => {
                        lemma_ops_on_push(old(b).ops@, Op::Create(c0, dsc), c);
                        assert(ops_on(b.ops@, c) == ops_on(old(b).ops@, c) + seq![
                            Op::Create(c, dsc),
                        ] + appends_of(c, il)) by {
                            assert((ops_on(old(b).ops@, c) + seq![Op::Create(c, dsc)])
                                + appends_of(c, il) =~= ops_on(old(b).ops@, c) + seq![
                                Op::Create(c, dsc),
                            ] + appends_of(c, il));
                        }
                    },
                    _ => {
                        assert(false);
                    },
                }
            }
            let r = Inst::Children { entity: e, control: c, padded: x.parent.padded, children: il };
            proof {
                let lo = old(b).controls@.len() as int;
                assert forall|k: int, d: usize|
                    #![trigger op_refs(b.ops@[k], d)]
                    old(b).ops@.len() <= k < b.ops@.len() && op_refs(b.ops@[k], d) implies lo
                        <= d by {
                    if k == old(b).ops@.len() {
                        assert(b.ops@[k] matches Op::Create(cc, _) && cc == c);
                    } else {
                        if d != c {
                            assert(!set![c as int].contains(d as int));
                        }
                    }
                }
            }
            r
        },
        Widget::Handler(h) => {
            let inner = materialize(&h.child, sender, st, b, Ghost(bound));
            let ghost b2 = *b;
            proof {
                lemma_wf_control_alive(inner, *b, st.queues@.len() as nat);
            }
            let cc = inner.control_handle();
            b.subscribe(cc, h.event.clone());
            let msg = C::dup_msg(&h.handler);
            st.add_sub(Subscription { control: cc, event: h.event.clone(), msg, queue: sender }, b);
            proof {
                lemma_inst_wf_frame(
                    inner,
                    b2,
                    *b,
                    st.queues@.len() as nat,
                    st.queues@.len() as nat,
                );
            }
            let r = Inst::Handler {
                handler: C::dup_msg(&h.handler),
                event: h.event.clone(),
                inner: Box::new(inner),
            };
            proof {
                if st.next_entity < u64::MAX {
                    assert(ents_below(r, st.next_entity));
                }
                let lo = old(b).controls@.len() as int;
                assert forall|k: int, d: usize|
                    #![trigger op_refs(b.ops@[k], d)]
                    old(b).ops@.len() <= k < b.ops@.len() && op_refs(b.ops@[k], d) implies lo
                        <= d by {
                    if k < b.ops@.len() - 1 {
                        assert(!Set::<int>::empty().contains(d as int));
                    } else {
                        assert(b.ops@[k] == Op::Subscribe(cc, h.event));
                        assert(d == cc);
                        lemma_control_in_set(inner);
                        assert(ctrl_set(inner).contains(d as int));
                    }
                }
            }
            r
        },
        Widget::Component(cw) => {
            let q = st.alloc_queue();
            let value = cw.0.dup();
            let state = cw.0.dup();
            let w2 = state.view();
            let inner = materialize(&w2, q, st, b, Ghost(state.rank()));
            let root = Root(inner.entity());
            let e = st.alloc_entity();
            let r = Inst::Component {
                entity: e,
                record: ComponentState { value, state, queue: q, root, inst: Box::new(inner) },
            };
            proof {
                if st.next_entity < u64::MAX {
                    lemma_ents_below_mono(inner, (st.next_entity - 1) as u64, st.next_entity);
                    assert(ents_below(r, st.next_entity));
                }
                let lo = old(b).controls@.len() as int;
                assert forall|k: int, d: usize|
                    #![trigger op_refs(b.ops@[k], d)]
                    old(b).ops@.len() <= k < b.ops@.len() && op_refs(b.ops@[k], d) implies lo
                        <= d by {
                    assert(!Set::<int>::empty().contains(d as int));
                }
            }
            r
        },
    }
}

/// Builds the live instances of an ordered child list, appending each one
/// under the box control `parent` as it is created.
pub fn materialize_list<C: Component<Msg = M>, M>(
    l: &WidgetList<C, M>,
    parent: usize,
    sender: usize,
    st: &mut Store<M>,
    b: &mut Backend,
    Ghost(bound): Ghost<nat>,
) -> (r: InstList<C, M>)
    requires
        backend_wf(&*old(b)),
        store_wf(*old(st), *old(b)),
        sender < old(st).queues@.len(),
        list_rank_bounded(*l, bound, rank_of::<C>()),
        parent < old(b).controls@.len(),
        old(b).controls@[parent as int].alive,
        old(b).controls@[parent as int].kind == ControlKind::HorizontalBox,
    ensures
        backend_wf(&*final(b)),
        store_wf(*final(st), *final(b)),
        store_extended(*old(st), *final(st)),
        new_queues_empty(*old(st), *final(st)),
        controls_frame(*old(b), *final(b), Set::empty()),
        appended_build_only(old(b).ops@, final(b).ops@),
        ops_scoped(old(b).ops@, final(b).ops@, set![parent as int], old(b).controls@.len() as int),
        ilist_wf(r, *final(b), final(st).queues@.len() as nat),
        wlist_of(r) == *l,
        set_in_range(
            ilist_ctrls(r),
            old(b).controls@.len() as int,
            final(b).controls@.len() as int,
        ),
        set_in_range(
            ilist_queues(r),
            old(st).queues@.len() as int,
            final(st).queues@.len() as int,
        ),
        forall|k: int|
            old(st).subs@.len() <= k < final(st).subs@.len()
                ==> ((#[trigger] final(st).subs@[k]).queue == sender
                || final(st).subs@[k].queue >= old(st).queues@.len()),
        ops_on(final(b).ops@, parent) == ops_on(old(b).ops@, parent) + appends_of(parent, r),
        final(st).next_entity < u64::MAX ==> ilist_ents_below(r, final(st).next_entity),
    decreases bound, *l, 0int,
{
    match l {
        WidgetList::Nil => {
            proof {
                assert(ilist_ctrls(InstList::<C, M>::Nil) =~= Set::<int>::empty());
                assert(ilist_queues(InstList::<C, M>::Nil) =~= Set::<int>::empty());
                assert(ops_on(b.ops@, parent) + appends_of(parent, InstList::<C, M>::Nil)
                    =~= ops_on(b.ops@, parent));
            }
            InstList::Nil
        },
        WidgetList::Cons(x, xs) => {
            let ci = materialize(x, sender, st, b, Ghost(bound));
            let ghost bchild = *b;
            proof {
                lemma_wf_control_alive(ci, *b, st.queues@.len() as nat);
                assert(!Set::<int>::empty().contains(parent as int));
                assert(b.controls@[parent as int] == old(b).controls@[parent as int]);
            }
            let cc = ci.control_handle();
            b.append_child(parent, cc);
            let ghost bmid = *b;
            let ghost stmid = *st;
            proof {
                lemma_inst_wf_frame(
                    ci,
                    bchild,
                    *b,
                    st.queues@.len() as nat,
                    st.queues@.len() as nat,
                );
            }
            let rest = materialize_list(xs, parent, sender, st, b, Ghost(bound));
            proof {
                assert forall|d: int| ctrl_set(ci).contains(d) implies #[trigger] b.controls@[d]
                    == bmid.controls@[d] by {
                    assert(old(b).controls@.len() <= d < bchild.controls@.len());
                    assert(!Set::<int>::empty().contains(d));
                }
                lemma_inst_wf_frame(
                    ci,
                    bmid,
                    *b,
                    stmid.queues@.len() as nat,
                    st.queues@.len() as nat,
                );
                lemma_range_disjoint(
                    ctrl_set(ci),
                    ilist_ctrls(rest),
                    old(b).controls@.len() as int,
                    bmid.controls@.len() as int,
                    bmid.controls@.len() as int,
                    b.controls@.len() as int,
                );
                lemma_range_disjoint(
                    queue_set(ci),
                    ilist_queues(rest),
                    old(st).queues@.len() as int,
                    stmid.queues@.len() as int,
                    stmid.queues@.len() as int,
                    st.queues@.len() as int,
                );
                let lo = old(b).controls@.len() as int;
                assert forall|k: int, d: usize|
                    #![trigger op_refs(b.ops@[k], d)]
                    old(b).ops@.len() <= k < b.ops@.len() && op_refs(b.ops@[k], d) implies (set![
                    parent as int].contains(d as int) || lo <= d) by {
                    if k < bmid.ops@.len() - 1 {
                        assert(!Set::<int>::empty().contains(d as int));
                    } else if k == bmid.ops@.len() - 1 {
                        assert(b.ops@[k] == Op::AppendChild(parent, cc));
                        if d != parent {
                            assert(d == cc);
                            lemma_control_in_set(ci);
                            assert(ctrl_set(ci).contains(d as int));
                        }
                    }
                }
                // the traffic the box receives: nothing from the child's own
                // build, then this child's append, then the rest's appends
                assert forall|k: int|
                    old(b).ops@.len() <= k < bchild.ops@.len() implies !op_refs(
                    #[trigger] bchild.ops@[k],
                    parent,
                ) by {
                    if op_refs(bchild.ops@[k], parent) {
                        assert(!Set::<int>::empty().contains(parent as int));
                        assert(lo <= parent as int);
                    }
                }
                lemma_ops_on_frame(old(b).ops@, bchild.ops@, parent);
                lemma_ops_on_push(bchild.ops@, Op::AppendChild(parent, cc), parent);
                assert(ops_on(bmid.ops@, parent) == ops_on(old(b).ops@, parent) + seq![
                    Op::AppendChild(parent, cc),
                ]);
            }
            let r = InstList::Cons(Box::new(ci), Box::new(rest));
            proof {
                if st.next_entity < u64::MAX {
                    lemma_ents_below_mono(ci, stmid.next_entity, st.next_entity);
                    assert(ilist_ents_below(r, st.next_entity));
                }
                assert(appends_of(parent, r) == seq![Op::AppendChild(parent, cc)] + appends_of(
                    parent,
                    rest,
                ));
                assert(ops_on(b.ops@, parent) == (ops_on(old(b).ops@, parent) + seq![
                    Op::AppendChild(parent, cc),
                ]) + appends_of(parent, rest));
                assert((ops_on(old(b).ops@, parent) + seq![Op::AppendChild(parent, cc)])
                    + appends_of(parent, rest) =~= ops_on(old(b).ops@, parent) + appends_of(
                    parent,
                    r,
                ));
            }
            r
        },
    }
}

/// Destroys every native control of an abandoned subtree, each exactly
/// once, and nothing else.
pub fn destroy_subtree<C: Component<Msg = M>, M>(
    i: Inst<C, M>,
    b: &mut Backend,
    Ghost(qn): Ghost<nat>,
)
    requires
        backend_wf(&*old(b)),
        inst_wf(i, *old(b), qn),
    ensures
        backend_wf(&*final(b)),
        final(b).controls@.len() == old(b).controls@.len(),
        controls_frame(*old(b), *final(b), ctrl_set(i)),
        appended_destroys(old(b).ops@, final(b).ops@, ctrl_set(i)),
        all_dead(ctrl_set(i), *final(b)),
        exists|k: int|
            old(b).ops@.len() <= k < final(b).ops@.len() && final(b).ops@[k] == Op::Destroy(
                inst_control(i),
            ),
    decreases i,
{
    let ghost iw = i;
    match i {
        Inst::Button { control, .. } => {
            b.destroy(control);
            proof {
                assert(ctrl_set(iw).contains(control as int));
                assert forall|d: int| ctrl_set(iw).contains(d) implies 0 <= d
                    < b.controls@.len() && !(#[trigger] b.controls@[d]).alive by {
                    assert(d == control as int);
                }
                assert(b.ops@ == old(b).ops@.push(Op::Destroy(control)));
                assert forall|k: int| old(b).ops@.len() <= k < b.ops@.len() implies ((
                #[trigger] b.ops@[k]) matches Op::Destroy(c) && ctrl_set(iw).contains(c as int)) by {
                    assert(b.ops@[k] == Op::Destroy(control));
                }
                assert(b.ops@[old(b).ops@.len() as int] == Op::Destroy(inst_control(iw)));
            }
        },
        Inst::Single { control, child, .. } => {
            let ghost cset = match child {
                Some(ref c) => ctrl_set(**c),
                None => Set::<int>::empty(),
            };
            match child {
                Some(c) => {
                    destroy_subtree(*c, b, Ghost(qn));
                },
                None => {},
            }
            let ghost bmid = *b;
            proof {
                assert(!cset.contains(control as int));
                assert(b.controls@[control as int] == old(b).controls@[control as int]);
            }
            b.destroy(control);
            proof {
                assert(ctrl_set(iw) == set![control as int].union(cset));
                assert(ctrl_set(iw).contains(control as int));
                assert forall|d: int|
                    0 <= d < old(b).controls@.len() && !ctrl_set(iw).contains(d) implies (
                #[trigger] b.controls@[d]) == old(b).controls@[d] by {
                    assert(!cset.contains(d));
                    assert(d != control as int);
                    assert(bmid.controls@[d] == old(b).controls@[d]);
                }
                assert forall|d: int| ctrl_set(iw).contains(d) implies 0 <= d
                    < b.controls@.len() && !(#[trigger] b.controls@[d]).alive by {
                    if d != control as int {
                        assert(cset.contains(d));
                        assert(all_dead(cset, bmid));
                        assert(b.controls@[d] == bmid.controls@[d]);
                    }
                }
                assert(b.ops@ == bmid.ops@.push(Op::Destroy(control)));
                assert forall|k: int| old(b).ops@.len() <= k < b.ops@.len() implies ((
                #[trigger] b.ops@[k]) matches Op::Destroy(c) && ctrl_set(iw).contains(c as int)) by {
                    if k < bmid.ops@.len() {
                        assert(b.ops@[k] == bmid.ops@[k]);
                        assert(bmid.ops@[k] matches Op::Destroy(c) && cset.contains(c as int));
                    } else {
                        assert(b.ops@[k] == Op::Destroy(control));
                    }
                }
                assert(b.ops@[bmid.ops@.len() as int] == Op::Destroy(inst_control(iw)));
            }
        },
        Inst::Children { control, children, .. } => {
            let ghost cset = ilist_ctrls(children);
            destroy_list(children, b, Ghost(qn));
            let ghost bmid = *b;
            proof {
                assert(!cset.contains(control as int));
                assert(b.controls@[control as int] == old(b).controls@[control as int]);
            }
            b.destroy(control);
            proof {
                assert(ctrl_set(iw) == set![control as int].union(cset));
                assert(ctrl_set(iw).contains(control as int));
                assert forall|d: int|
                    0 <= d < old(b).controls@.len() && !ctrl_set(iw).contains(d) implies (
                #[trigger] b.controls@[d]) == old(b).controls@[d] by {
                    assert(!cset.contains(d));
                    assert(d != control as int);
                    assert(bmid.controls@[d] == old(b).controls@[d]);
                }
                assert forall|d: int| ctrl_set(iw).contains(d) implies 0 <= d
                    < b.controls@.len() && !(#[trigger] b.controls@[d]).alive by {
                    if d != control as int {
                        assert(cset.contains(d));
                        assert(all_dead(cset, bmid));
                        assert(b.controls@[d] == bmid.controls@[d]);
                    }
                }
                assert(b.ops@ == bmid.ops@.push(Op::Destroy(control)));
                assert forall|k: int| old(b).ops@.len() <= k < b.ops@.len() implies ((
                #[trigger] b.ops@[k]) matches Op::Destroy(c) && ctrl_set(iw).contains(c as int)) by {
                    if k < bmid.ops@.len() {
                        assert(b.ops@[k] == bmid.ops@[k]);
                        assert(bmid.ops@[k] matches Op::Destroy(c) && cset.contains(c as int));
                    } else {
                        assert(b.ops@[k] == Op::Destroy(control));
                    }
                }
                assert(b.ops@[bmid.ops@.len() as int] == Op::Destroy(inst_control(iw)));
            }
        },
        Inst::Handler { inner, .. } => {
            destroy_subtree(*inner, b, Ghost(qn));
        },
        Inst::Component { record, .. } => {
            destroy_subtree(*record.inst, b, Ghost(qn));
        },
    }
}

/// Destroys every subtree of a child list, left to right.
pub fn destroy_list<C: Component<Msg = M>, M>(
    l: InstList<C, M>,
    b: &mut Backend,
    Ghost(qn): Ghost<nat>,
)
    requires
        backend_wf(&*old(b)),
        ilist_wf(l, *old(b), qn),
    ensures
        backend_wf(&*final(b)),
        final(b).controls@.len() == old(b).controls@.len(),
        controls_frame(*old(b), *final(b), ilist_ctrls(l)),
        appended_destroys(old(b).ops@, final(b).ops@, ilist_ctrls(l)),
        all_dead(ilist_ctrls(l), *final(b)),
    decreases l,
{
    let ghost lw = l;
    match l {
        InstList::Nil => {},
        InstList::Cons(x, xs) => {
            let ghost xset = ctrl_set(*x);
            let ghost xsset = ilist_ctrls(*xs);
            proof {
                lemma_wf_ctrls_below_list(lw, *old(b), qn);
            }
            destroy_subtree(*x, b, Ghost(qn));
            let ghost bmid = *b;
            proof {
                assert forall|d: int| xsset.contains(d) implies #[trigger] b.controls@[d] == old(
                    b,
                ).controls@[d] by {
                    assert(!xset.contains(d));
                    assert(ilist_ctrls(lw).contains(d));
                    assert(0 <= d < old(b).controls@.len());
                }
                lemma_ilist_wf_frame(*xs, *old(b), *b, qn, qn);
            }
            destroy_list(*xs, b, Ghost(qn));
            proof {
                assert(ilist_ctrls(lw) == xset.union(xsset));
                assert forall|d: int|
                    0 <= d < old(b).controls@.len() && !ilist_ctrls(lw).contains(d) implies (
                #[trigger] b.controls@[d]) == old(b).controls@[d] by {
                    assert(!xset.contains(d));
                    assert(!xsset.contains(d));
                    assert(bmid.controls@[d] == old(b).controls@[d]);
                }
                assert forall|d: int| ilist_ctrls(lw).contains(d) implies 0 <= d
                    < b.controls@.len() && !(#[trigger] b.controls@[d]).alive by {
                    if xsset.contains(d) {
                        assert(all_dead(xsset, *b));
                    } else {
                        assert(xset.contains(d));
                        assert(all_dead(xset, bmid));
                        assert(0 <= d < bmid.controls@.len());
                        assert(b.controls@[d] == bmid.controls@[d]);
                    }
                }

                assert forall|k: int| old(b).ops@.len() <= k < b.ops@.len() implies ((
                #[trigger] b.ops@[k]) matches Op::Destroy(c) && ilist_ctrls(lw).contains(
                    c as int,
                )) by {
                    if k < bmid.ops@.len() {
                        assert(b.ops@[k] == bmid.ops@[k]);
                        assert(bmid.ops@[k] matches Op::Destroy(c) && xset.contains(c as int));
                    } else {
                        assert(b.ops@[k] matches Op::Destroy(c) && xsset.contains(c as int));
                    }
                }
            }
        },
    }
}

/// In-place update of a group instance against a new group widget: the
/// group arm of [`reconcile`], split out with the same obligations.
#[verifier::rlimit(100)]
#[verifier::spinoff_prover]
fn reconcile_single<C: Component<Msg = M>, M>(
    ns: &ConnectSingleChild<C, M>,
    entity: u64,
    control: usize,
    title: String,
    margined: bool,
    child: Option<Box<Inst<C, M>>>,
    sender: usize,
    st: &mut Store<M>,
    b: &mut Backend,
    Ghost(bound): Ghost<nat>,
    Ghost(iw): Ghost<Inst<C, M>>,
) -> (r: Inst<C, M>)
    requires
        backend_wf(&*old(b)),
        store_wf(*old(st), *old(b)),
        sender < old(st).queues@.len(),
        iw == (Inst::Single { entity, control, title, margined, child }),
        inst_wf(iw, *old(b), old(st).queues@.len() as nat),
        old(st).next_entity < u64::MAX ==> ents_below(iw, old(st).next_entity),
        rank_bounded(Widget::Single(*ns), bound, rank_of::<C>()),
        rank_bounded(widget_of(iw), bound, rank_of::<C>()),
    ensures
        backend_wf(&*final(b)),
        store_wf(*final(st), *final(b)),
        store_extended(*old(st), *final(st)),
        new_queues_empty(*old(st), *final(st)),
        controls_frame(*old(b), *final(b), ctrl_set(iw)),
        ops_extended(old(b).ops@, final(b).ops@),
        ops_scoped(old(b).ops@, final(b).ops@, ctrl_set(iw), old(b).controls@.len() as int),
        inst_wf(r, *final(b), final(st).queues@.len() as nat),
        widget_eq(Widget::Single(*ns), widget_of(r)),
        rank_bounded(widget_of(r), bound, rank_of::<C>()),
        sub_or_fresh(
            ctrl_set(r),
            ctrl_set(iw),
            old(b).controls@.len() as int,
            final(b).controls@.len() as int,
        ),
        sub_or_fresh(
            queue_set(r),
            queue_set(iw),
            old(st).queues@.len() as int,
            final(st).queues@.len() as int,
        ),
        forall|k: int|
            old(st).subs@.len() <= k < final(st).subs@.len()
                ==> ((#[trigger] final(st).subs@[k]).queue == sender
                || final(st).subs@[k].queue >= old(st).queues@.len()),
        inst_control(r) == inst_control(iw),
        inst_entity(r) == inst_entity(iw),
        final(st).next_entity < u64::MAX ==> ents_below(r, final(st).next_entity),
        (match widget_of(iw) {
            Widget::Single(os) => {
                &&& ops_on(final(b).ops@, inst_control(iw)) == ops_on(
                    old(b).ops@,
                    inst_control(iw),
                ) + group_update_ops(
                    inst_control(iw),
                    *ns,
                    os,
                    slot_control(iw),
                    slot_control(r),
                )
                &&& (ns.child is None ==> all_dead(slot_ctrls(iw), *final(b)))
                &&& (match (ns.child, os.child) {
                    (Some(ncb), Some(ocb)) => (match (*ncb, *ocb) {
                        (Widget::Button(nb2), Widget::Button(ob2)) => {
                            &&& slot_control(iw) matches Some(cc)
                            &&& ops_on(final(b).ops@, cc) == ops_on(old(b).ops@, cc) + (
                            if nb2.text@ != ob2.text@ {
                                seq![Op::UpdateField(cc, Field::Text(nb2.text))]
                            } else {
                                Seq::<Op>::empty()
                            })
                        },
                        _ => true,
                    }),
                    _ => true,
                })
            },
            _ => false,
        }),
    decreases bound, Widget::Single(*ns), 0int,
{
    let ghost qn0 = old(st).queues@.len() as nat;
    let ghost cset = match child {
        Some(ref ci) => ctrl_set(**ci),
        None => Set::<int>::empty(),
    };
    proof {
        assert(ctrl_set(iw) == set![control as int].union(cset));
        assert(ctrl_set(iw).contains(control as int));
    }
    let ghost tpart: Seq<Op> = if ns.parent.title@ != title@ {
        seq![Op::UpdateField(control, Field::Title(ns.parent.title))]
    } else {
        Seq::<Op>::empty()
    };
    let ghost mpart: Seq<Op> = if ns.parent.margined != margined {
        seq![Op::UpdateField(control, Field::Margined(ns.parent.margined))]
    } else {
        Seq::<Op>::empty()
    };
    let new_title = if ns.parent.title != title {
        b.update_title(control, ns.parent.title.clone());
        ns.parent.title.clone()
    } else {
        title
    };
    let ghost bt = *b;
    proof {
        assert(ops_on(bt.ops@, control) == ops_on(old(b).ops@, control) + tpart) by {
            if ns.parent.title@ != title@ {
                lemma_ops_on_push(
                    old(b).ops@,
                    Op::UpdateField(control, Field::Title(ns.parent.title)),
                    control,
                );
            } else {
                assert(ops_on(bt.ops@, control) + Seq::<Op>::empty() =~= ops_on(
                    bt.ops@,
                    control,
                ));
            }
        }
    }
    if ns.parent.margined != margined {
        b.update_margined(control, ns.parent.margined);
    }
    let ghost b1 = *b;
    proof {
        assert(ops_on(b1.ops@, control) == ops_on(bt.ops@, control) + mpart) by {
            if ns.parent.margined != margined {
                lemma_ops_on_push(
                    bt.ops@,
                    Op::UpdateField(control, Field::Margined(ns.parent.margined)),
                    control,
                );
            } else {
                assert(ops_on(b1.ops@, control) + Seq::<Op>::empty() =~= ops_on(
                    b1.ops@,
                    control,
                ));
            }
        }
    }
    let child2 = match (&ns.child, child) {
        (Some(cw), Some(ci)) => {
            proof {
                assert(!cset.contains(control as int));
                lemma_wf_ctrls_below(*ci, *old(b), qn0);
                assert forall|d: int| ctrl_set(*ci).contains(d) implies (
                #[trigger] b.controls@[d]) == old(b).controls@[d] by {
                    assert(set_below(ctrl_set(*ci), old(b).controls@.len() as int));
                    assert(0 <= d < old(b).controls@.len());
                    assert(cset.contains(d));
                    assert(d != control as int);
                }
                lemma_inst_wf_frame(*ci, *old(b), *b, qn0, qn0);
            }
            let old_cc = ci.control_handle();
            let ci2 = reconcile(cw, *ci, sender, st, b, Ghost(bound));
            let ghost b2 = *b;
            let new_cc = ci2.control_handle();
            if new_cc != old_cc {
                proof {
                    lemma_wf_control_alive(ci2, *b, st.queues@.len() as nat);
                    assert(b.controls@[control as int] == b1.controls@[control as int]);
                }
                b.set_child(control, new_cc);
                proof {
                    lemma_inst_wf_frame(
                        ci2,
                        b2,
                        *b,
                        st.queues@.len() as nat,
                        st.queues@.len() as nat,
                    );
                }
            }
            proof {
                let lo = old(b).controls@.len() as int;
                assert forall|k: int, d: usize|
                    #![trigger op_refs(b.ops@[k], d)]
                    old(b).ops@.len() <= k < b.ops@.len() && op_refs(b.ops@[k], d) implies (
                    ctrl_set(iw).contains(d as int) || lo <= d) by {
                    if k < b1.ops@.len() {
                        assert(d == control);
                    } else {
                        if k < b2.ops@.len() {
                            assert(cset.contains(d as int) || b1.controls@.len() as int
                                <= d);
                        } else {
                            assert(b.ops@[k] == Op::SetChild(control, new_cc));
                            if d != control {
                                assert(d == new_cc);
                                lemma_control_in_set(ci2);
                                assert(ctrl_set(ci2).contains(d as int));
                                assert(cset.contains(d as int) || b1.controls@.len() as int
                                    <= d as int);
                            }
                        }
                    }
                }
                assert forall|k: int|
                    b1.ops@.len() <= k < b2.ops@.len() implies !op_refs(
                    #[trigger] b2.ops@[k],
                    control,
                ) by {
                    if op_refs(b2.ops@[k], control) {
                        assert(cset.contains(control as int) || b1.controls@.len() as int
                            <= control as int);
                    }
                }
                lemma_ops_on_frame(b1.ops@, b2.ops@, control);
                let spart: Seq<Op> = if new_cc != old_cc {
                    seq![Op::SetChild(control, new_cc)]
                } else {
                    Seq::<Op>::empty()
                };
                assert(ops_on(b.ops@, control) == ops_on(b2.ops@, control) + spart) by {
                    if new_cc != old_cc {
                        lemma_ops_on_push(b2.ops@, Op::SetChild(control, new_cc), control);
                    } else {
                        assert(ops_on(b.ops@, control) + Seq::<Op>::empty() =~= ops_on(
                            b.ops@,
                            control,
                        ));
                    }
                }
                assert(slot_control(iw) == Some(old_cc));
                assert(ops_on(b.ops@, control) == ops_on(old(b).ops@, control) + (tpart
                    + mpart + spart)) by {
                    assert(((ops_on(old(b).ops@, control) + tpart) + mpart) + spart
                        =~= ops_on(old(b).ops@, control) + (tpart + mpart + spart));
                }
                match (&**cw, widget_of(*ci)) {
                    (Widget::Button(nb2), Widget::Button(ob2)) => {
                        lemma_control_in_set(*ci);
                        assert(old_cc != control);
                        assert forall|k: int|
                            old(b).ops@.len() <= k < b1.ops@.len() implies !op_refs(
                            #[trigger] b1.ops@[k],
                            old_cc,
                        ) by {
                            if op_refs(b1.ops@[k], old_cc) {
                                assert(old_cc == control);
                            }
                        }
                        lemma_ops_on_frame(old(b).ops@, b1.ops@, old_cc);
                        if nb2.text@ != ob2.text@ {
                            lemma_ops_on_push(
                                b1.ops@,
                                Op::UpdateField(old_cc, Field::Text(nb2.text)),
                                old_cc,
                            );
                            assert(ops_on(b.ops@, old_cc) == ops_on(old(b).ops@, old_cc)
                                + seq![Op::UpdateField(old_cc, Field::Text(nb2.text))]);
                        } else {
                            assert(widget_eq(**cw, widget_of(*ci)));
                            assert(ops_on(b.ops@, old_cc) + Seq::<Op>::empty()
                                =~= ops_on(b.ops@, old_cc));
                        }
                    },
                    _ => {},
                }
            }
            Some(Box::new(ci2))
        },
        (Some(cw), None) => {
            let ci = materialize(cw, sender, st, b, Ghost(bound));
            let ghost b2 = *b;
            proof {
                lemma_widget_eq_refl(**cw);
                lemma_wf_control_alive(ci, *b, st.queues@.len() as nat);
                assert(!Set::<int>::empty().contains(control as int));
                assert(b.controls@[control as int] == b1.controls@[control as int]);
            }
            let cc = ci.control_handle();
            b.set_child(control, cc);
            proof {
                lemma_inst_wf_frame(
                    ci,
                    b2,
                    *b,
                    st.queues@.len() as nat,
                    st.queues@.len() as nat,
                );
                let lo = old(b).controls@.len() as int;
                assert forall|k: int, d: usize|
                    #![trigger op_refs(b.ops@[k], d)]
                    old(b).ops@.len() <= k < b.ops@.len() && op_refs(b.ops@[k], d) implies (
                    ctrl_set(iw).contains(d as int) || lo <= d) by {
                    if k < b1.ops@.len() {
                        assert(d == control);
                    } else if k < b2.ops@.len() {
                        assert(!Set::<int>::empty().contains(d as int));
                    } else {
                        assert(b.ops@[k] == Op::SetChild(control, cc));
                        if d != control {
                            assert(d == cc);
                            lemma_control_in_set(ci);
                            assert(ctrl_set(ci).contains(d as int));
                        }
                    }
                }
                assert forall|k: int|
                    b1.ops@.len() <= k < b2.ops@.len() implies !op_refs(
                    #[trigger] b2.ops@[k],
                    control,
                ) by {
                    if op_refs(b2.ops@[k], control) {
                        assert(!Set::<int>::empty().contains(control as int));
                        assert(b1.controls@.len() as int <= control as int);
                    }
                }
                lemma_ops_on_frame(b1.ops@, b2.ops@, control);
                lemma_ops_on_push(b2.ops@, Op::SetChild(control, cc), control);
                let spart: Seq<Op> = seq![Op::SetChild(control, cc)];
                assert(slot_control(iw) == None::<usize>);
                assert(ops_on(b.ops@, control) == ops_on(old(b).ops@, control) + (tpart
                    + mpart + spart)) by {
                    assert(((ops_on(old(b).ops@, control) + tpart) + mpart) + spart
                        =~= ops_on(old(b).ops@, control) + (tpart + mpart + spart));
                }
            }
            Some(Box::new(ci))
        },
        (None, Some(ci)) => {
            let ghost b1c = *b;
            b.clear_child(control);
            proof {
                lemma_wf_ctrls_below(*ci, *old(b), qn0);
                assert forall|d: int| ctrl_set(*ci).contains(d) implies (
                #[trigger] b.controls@[d]) == old(b).controls@[d] by {
                    assert(set_below(ctrl_set(*ci), old(b).controls@.len() as int));
                    assert(0 <= d < old(b).controls@.len());
                    assert(cset.contains(d));
                    assert(d != control as int);
                }
                lemma_inst_wf_frame(*ci, *old(b), *b, qn0, qn0);
            }
            let ghost b2 = *b;
            destroy_subtree(*ci, b, Ghost(qn0));
            proof {
                let lo = old(b).controls@.len() as int;
                assert forall|k: int, d: usize|
                    #![trigger op_refs(b.ops@[k], d)]
                    old(b).ops@.len() <= k < b.ops@.len() && op_refs(b.ops@[k], d) implies (
                    ctrl_set(iw).contains(d as int) || lo <= d) by {
                    if k < b1.ops@.len() {
                        assert(d == control);
                    } else if k < b2.ops@.len() {
                        assert(b.ops@[k] == Op::ClearChild(control));
                        assert(d == control);
                    } else {
                        assert(b.ops@[k] matches Op::Destroy(dd) && cset.contains(
                            dd as int,
                        ));
                    }
                }
                lemma_ops_on_push(b1.ops@, Op::ClearChild(control), control);
                assert forall|k: int|
                    b2.ops@.len() <= k < b.ops@.len() implies !op_refs(
                    #[trigger] b.ops@[k],
                    control,
                ) by {
                    if op_refs(b.ops@[k], control) {
                        assert(b.ops@[k] matches Op::Destroy(dd) && cset.contains(
                            dd as int,
                        ));
                        assert(cset.contains(control as int));
                    }
                }
                lemma_ops_on_frame(b2.ops@, b.ops@, control);
                assert(slot_ctrls(iw) == cset);
                let spart: Seq<Op> = seq![Op::ClearChild(control)];
                assert(ops_on(b.ops@, control) == ops_on(old(b).ops@, control) + (tpart
                    + mpart + spart)) by {
                    assert(((ops_on(old(b).ops@, control) + tpart) + mpart) + spart
                        =~= ops_on(old(b).ops@, control) + (tpart + mpart + spart));
                }
            }
            None
        },
        (None, None) => {
            proof {
                assert(slot_ctrls(iw) =~= Set::<int>::empty());
                assert forall|c: int| slot_ctrls(iw).contains(c) implies 0 <= c
                    < b.controls@.len() && !(#[trigger] b.controls@[c]).alive by {}
                assert forall|k: int, d: usize|
                    #![trigger op_refs(b.ops@[k], d)]
                    old(b).ops@.len() <= k < b.ops@.len() && op_refs(b.ops@[k], d) implies
                    ctrl_set(iw).contains(d as int) by {
                    assert(d == control);
                }
                assert(ops_on(b.ops@, control) == ops_on(old(b).ops@, control) + (tpart
                    + mpart + Seq::<Op>::empty())) by {
                    assert(((ops_on(old(b).ops@, control) + tpart) + mpart)
                        + Seq::<Op>::empty() =~= ops_on(old(b).ops@, control) + (tpart
                        + mpart + Seq::<Op>::empty()));
                }
            }
            None
        },
    };
    let r = Inst::Single {
        entity,
        control,
        title: new_title,
        margined: ns.parent.margined,
        child: child2,
    };
    r
}

/// Diff/update: reconciles the new widget `w` against the previously
/// materialized instance `inst`, touching the native side as little as
/// possible.
///
/// If `w` equals the instance's widget value, nothing at all happens and the
/// previous instance is returned as it was — the contract promises the
/// backend and the store come back untouched. Otherwise, a node of the same
/// kind is updated in place — a button's text change is exactly one backend
/// call, and container slots are reconciled recursively, re-attaching a
/// child only when its control changed. A changed child list is rebuilt
/// whole: cleared, destroyed and appended afresh, with no keyed reuse. A
/// handler whose binding changed re-subscribes the surviving control with
/// the new binding. A node of a different kind, or a component whose
/// embedded value changed, is destroyed and freshly rebuilt — never updated
/// in place; the caller attaches the returned instance if its control
/// changed.
#[verifier::rlimit(100)]
#[verifier::spinoff_prover]
pub fn reconcile<C: Component<Msg = M>, M>(
    w: &Widget<C, M>,
    inst: Inst<C, M>,
    sender: usize,
    st: &mut Store<M>,
    b: &mut Backend,
    Ghost(bound): Ghost<nat>,
) -> (r: Inst<C, M>)
    requires
        backend_wf(&*old(b)),
        store_wf(*old(st), *old(b)),
        sender < old(st).queues@.len(),
        inst_wf(inst, *old(b), old(st).queues@.len() as nat),
        old(st).next_entity < u64::MAX ==> ents_below(inst, old(st).next_entity),
        rank_bounded(*w, bound, rank_of::<C>()),
        rank_bounded(widget_of(inst), bound, rank_of::<C>()),
    ensures
        backend_wf(&*final(b)),
        store_wf(*final(st), *final(b)),
        store_extended(*old(st), *final(st)),
        new_queues_empty(*old(st), *final(st)),
        controls_frame(*old(b), *final(b), ctrl_set(inst)),
        ops_extended(old(b).ops@, final(b).ops@),
        ops_scoped(old(b).ops@, final(b).ops@, ctrl_set(inst), old(b).controls@.len() as int),
        inst_wf(r, *final(b), final(st).queues@.len() as nat),
        widget_eq(*w, widget_of(r)),
        rank_bounded(widget_of(r), bound, rank_of::<C>()),
        sub_or_fresh(
            ctrl_set(r),
            ctrl_set(inst),
            old(b).controls@.len() as int,
            final(b).controls@.len() as int,
        ),
        sub_or_fresh(
            queue_set(r),
            queue_set(inst),
            old(st).queues@.len() as int,
            final(st).queues@.len() as int,
        ),
        forall|k: int|
            old(st).subs@.len() <= k < final(st).subs@.len()
                ==> ((#[trigger] final(st).subs@[k]).queue == sender
                || final(st).subs@[k].queue >= old(st).queues@.len()),
        widget_eq(*w, widget_of(inst)) ==> r == inst && *final(b) == *old(b) && *final(st)
            == *old(st),
        (match (*w, widget_of(inst)) {
            (Widget::Single(ns), Widget::Single(os)) => (match (ns.child, os.child) {
                (Some(ncb), Some(ocb)) => (match (*ncb, *ocb) {
                    (Widget::Button(nb2), Widget::Button(ob2)) => {
                        &&& slot_control(inst) matches Some(cc)
                        &&& ops_on(final(b).ops@, cc) == ops_on(old(b).ops@, cc) + (
                        if nb2.text@ != ob2.text@ {
                            seq![Op::UpdateField(cc, Field::Text(nb2.text))]
                        } else {
                            Seq::<Op>::empty()
                        })
                    },
                    _ => true,
                }),
                _ => true,
            }),
            _ => true,
        }),
        (match (*w, widget_of(inst)) {
            (Widget::Single(ns), Widget::Single(_)) => ns.child is None ==> all_dead(
                slot_ctrls(inst),
                *final(b),
            ),
            (Widget::Children(nx), Widget::Children(ox)) => !list_eq(nx.children, ox.children)
                ==> all_dead(kids_ctrls(inst), *final(b)),
            _ => true,
        }),
        (match (*w, widget_of(inst)) {
            (Widget::Button(_), Widget::Button(_)) => inst_control(r) == inst_control(inst)
                && inst_entity(r) == inst_entity(inst),
            (Widget::Single(_), Widget::Single(_)) => inst_control(r) == inst_control(inst)
                && inst_entity(r) == inst_entity(inst),
            (Widget::Children(_), Widget::Children(_)) => inst_control(r) == inst_control(inst)
                && inst_entity(r) == inst_entity(inst),
            _ => true,
        }),
        (match (*w, widget_of(inst)) {
            (Widget::Button(nb), Widget::Button(ob)) => nb.text@ != ob.text@ ==> {
                &&& final(b).ops@ == old(b).ops@.push(
                    Op::UpdateField(inst_control(inst), Field::Text(nb.text)),
                )
                &&& inst_entity(r) == inst_entity(inst)
                &&& *final(st) == *old(st)
            },
            _ => true,
        }),
        (match (*w, widget_of(inst)) {
            (Widget::Single(ns), Widget::Single(os)) => ops_on(final(b).ops@, inst_control(inst))
                == ops_on(old(b).ops@, inst_control(inst)) + group_update_ops(
                inst_control(inst),
                ns,
                os,
                slot_control(inst),
                slot_control(r),
            ),
            _ => true,
        }),
        (match (*w, widget_of(inst), r) {
            (Widget::Children(nx), Widget::Children(ox), Inst::Children { children: rc, .. }) =>
                ops_on(final(b).ops@, inst_control(inst)) == ops_on(
                old(b).ops@,
                inst_control(inst),
            ) + box_update_ops(inst_control(inst), nx, ox, rc),
            _ => true,
        }),
        (match (*w, widget_of(inst)) {
            (Widget::Component(ncw), Widget::Component(ocw)) => !ncw.0.eq_spec(&ocw.0) ==> (
            match r {
                Inst::Component { record, .. } => {
                    &&& record.state == ncw.0
                    &&& record.value == ncw.0
                    &&& final(st).queues@[record.queue as int]@.len() == 0
                },
                _ => false,
            }),
            _ => true,
        }),
        !same_kind(*w, widget_of(inst)) ==> {
            &&& appended_no_update(old(b).ops@, final(b).ops@)
            &&& exists|k: int|
                old(b).ops@.len() <= k < final(b).ops@.len() && final(b).ops@[k] == Op::Destroy(
                    inst_control(inst),
                )
            &&& set_in_range(
                ctrl_set(r),
                old(b).controls@.len() as int,
                final(b).controls@.len() as int,
            )
            &&& inst_entity(r) >= old(st).next_entity
            &&& (final(st).next_entity < u64::MAX ==> inst_entity(r) != inst_entity(inst))
        },
        final(st).next_entity < u64::MAX ==> ents_below(r, final(st).next_entity),
    decreases bound, *w,
{
    let ghost iw = inst;
    let ghost qn0 = old(st).queues@.len() as nat;
    if matches_inst(w, &inst) {
        proof {
            let g = inst_control(iw);
            if let Widget::Single(ns) = w {
                match widget_of(iw) {
                    Widget::Single(os) => {
                        assert(ops_on(b.ops@, g) + group_update_ops(
                            g,
                            *ns,
                            os,
                            slot_control(iw),
                            slot_control(iw),
                        ) =~= ops_on(b.ops@, g)) by {
                            assert(ns.parent.title@ == os.parent.title@);
                            assert(ns.parent.margined == os.parent.margined);
                        }
                    },
                    _ => {},
                }
            }
            if let Widget::Single(ns2) = w {
                match (iw, &ns2.child) {
                    (Inst::Single { child: Some(ci0), .. }, Some(ncb0)) => {
                        let cc0 = inst_control(*ci0);
                        assert(widget_eq(*w, widget_of(iw)));
                        assert(widget_eq(**ncb0, widget_of(*ci0)));
                        assert(ops_on(b.ops@, cc0) + Seq::<Op>::empty() =~= ops_on(b.ops@, cc0));
                    },
                    _ => {},
                }
                if ns2.child is None {
                    assert(slot_ctrls(iw) =~= Set::<int>::empty()) by {
                        assert(widget_eq(*w, widget_of(iw)));
                    }
                    assert forall|c: int| slot_ctrls(iw).contains(c) implies 0 <= c
                        < b.controls@.len() && !(#[trigger] b.controls@[c]).alive by {}
                }
            }
            if let Widget::Children(nx) = w {
                match (widget_of(iw), iw) {
                    (Widget::Children(ox), Inst::Children { children: rc, .. }) => {
                        assert(ops_on(b.ops@, g) + box_update_ops(g, *nx, ox, rc) =~= ops_on(
                            b.ops@,
                            g,
                        )) by {
                            assert(nx.parent.padded == ox.parent.padded);
                            assert(list_eq(nx.children, ox.children));
                        }
                    },
                    _ => {},
                }
            }
        }
        return inst;
    }
    match (w, inst) {
        (Widget::Button(nb), Inst::Button { entity, control, text }) => {
            b.update_text(control, nb.text.clone());
            let r = Inst::Button { entity, control, text: nb.text.clone() };
            proof {
                assert(ctrl_set(iw).contains(control as int));
                assert(ctrl_set(r) =~= ctrl_set(iw));
                assert(queue_set(r) =~= queue_set(iw));
                assert forall|k: int, d: usize|
                    #![trigger op_refs(b.ops@[k], d)]
                    old(b).ops@.len() <= k < b.ops@.len() && op_refs(b.ops@[k], d) implies
                    ctrl_set(iw).contains(d as int) by {
                    assert(d == control);
                }
            }
            r
        },
        (Widget::Single(ns), Inst::Single { entity, control, title, margined, child }) => {
            let r = reconcile_single(
                ns,
                entity,
                control,
                title,
                margined,
                child,
                sender,
                st,
                b,
                Ghost(bound),
                Ghost(iw),
            );
            proof {
                assert((match (*w, widget_of(iw)) {
                    (Widget::Single(ns2), Widget::Single(os)) => (match (ns2.child, os.child) {
                        (Some(ncb), Some(ocb)) => (match (*ncb, *ocb) {
                            (Widget::Button(nb2), Widget::Button(ob2)) => {
                                &&& slot_control(iw) matches Some(cc)
                                &&& ops_on(b.ops@, cc) == ops_on(old(b).ops@, cc) + (
                                if nb2.text@ != ob2.text@ {
                                    seq![Op::UpdateField(cc, Field::Text(nb2.text))]
                                } else {
                                    Seq::<Op>::empty()
                                })
                            },
                            _ => true,
                        }),
                        _ => true,
                    }),
                    _ => true,
                }));
            }
            r
        },
        (Widget::Children(nx), Inst::Children { entity, control, padded, children }) => {
            let ghost cset = ilist_ctrls(children);
            proof {
                assert(ctrl_set(iw) == set![control as int].union(cset));
                assert(ctrl_set(iw).contains(control as int));
                assert(!cset.contains(control as int));
            }
            let ghost ppart: Seq<Op> = if nx.parent.padded != padded {
                seq![Op::UpdateField(control, Field::Padded(nx.parent.padded))]
            } else {
                Seq::<Op>::empty()
            };
            if nx.parent.padded != padded {
                b.update_padded(control, nx.parent.padded);
            }
            let ghost b1 = *b;
            proof {
                assert(ops_on(b1.ops@, control) == ops_on(old(b).ops@, control) + ppart) by {
                    if nx.parent.padded != padded {
                        lemma_ops_on_push(
                            old(b).ops@,
                            Op::UpdateField(control, Field::Padded(nx.parent.padded)),
                            control,
                        );
                    } else {
                        assert(ops_on(b1.ops@, control) + Seq::<Op>::empty() =~= ops_on(
                            b1.ops@,
                            control,
                        ));
                    }
                }
                lemma_wf_ctrls_below_list(children, *old(b), qn0);
                assert forall|d: int| ilist_ctrls(children).contains(d) implies (
                #[trigger] b.controls@[d]) == old(b).controls@[d] by {
                    assert(set_below(ilist_ctrls(children), old(b).controls@.len() as int));
                    assert(0 <= d < old(b).controls@.len());
                    assert(d != control as int);
                }
                lemma_ilist_wf_frame(children, *old(b), *b, qn0, qn0);
            }
            if !matches_list(&nx.children, &children) {
                b.clear_children(control);
                let ghost bc = *b;
                proof {
                    lemma_ilist_wf_frame(children, b1, *b, qn0, qn0);
                }
                destroy_list(children, b, Ghost(qn0));
                let ghost b2 = *b;
                proof {
                    assert(b.controls@[control as int] == b1.controls@[control as int]);
                }
                let il = materialize_list(&nx.children, control, sender, st, b, Ghost(bound));
                proof {
                    lemma_list_eq_refl(nx.children);
                    assert(!Set::<int>::empty().contains(control as int));
                    assert(b.controls@[control as int] == b2.controls@[control as int]);
                    assert(!ilist_ctrls(il).contains(control as int)) by {
                        if ilist_ctrls(il).contains(control as int) {
                            assert(b2.controls@.len() as int <= control as int);
                        }
                    }
                    let lo = old(b).controls@.len() as int;
                    assert forall|k: int, d: usize|
                        #![trigger op_refs(b.ops@[k], d)]
                        old(b).ops@.len() <= k < b.ops@.len() && op_refs(b.ops@[k], d) implies (
                        ctrl_set(iw).contains(d as int) || lo <= d) by {
                        if k < b1.ops@.len() {
                            assert(d == control);
                        } else if k < bc.ops@.len() {
                            assert(b.ops@[k] == Op::ClearChildren(control));
                            assert(d == control);
                        } else if k < b2.ops@.len() {
                            assert(b.ops@[k] matches Op::Destroy(dd) && cset.contains(dd as int));
                        } else {
                            assert(set![control as int].contains(d as int) || b2.controls@.len()
                                as int <= d);
                        }
                    }
                    assert(kids_ctrls(iw) == cset);
                    assert forall|d: int| cset.contains(d) implies 0 <= d < b.controls@.len()
                        && !(#[trigger] b.controls@[d]).alive by {
                        assert(all_dead(cset, b2));
                        assert(0 <= d < b2.controls@.len());
                        assert(!Set::<int>::empty().contains(d));
                        assert(b.controls@[d] == b2.controls@[d]);
                    }
                    lemma_ops_on_push(b1.ops@, Op::ClearChildren(control), control);
                    assert forall|k: int|
                        bc.ops@.len() <= k < b2.ops@.len() implies !op_refs(
                        #[trigger] b2.ops@[k],
                        control,
                    ) by {
                        if op_refs(b2.ops@[k], control) {
                            assert(b2.ops@[k] matches Op::Destroy(dd) && cset.contains(dd as int));
                            assert(cset.contains(control as int));
                        }
                    }
                    lemma_ops_on_frame(bc.ops@, b2.ops@, control);
                    assert(ops_on(b.ops@, control) == ops_on(b2.ops@, control) + appends_of(
                        control,
                        il,
                    ));
                    assert(ops_on(b.ops@, control) == ops_on(old(b).ops@, control) + (ppart + (
                    seq![Op::ClearChildren(control)] + appends_of(control, il)))) by {
                        assert(((ops_on(old(b).ops@, control) + ppart) + seq![
                            Op::ClearChildren(control),
                        ]) + appends_of(control, il) =~= ops_on(old(b).ops@, control) + (ppart + (
                        seq![Op::ClearChildren(control)] + appends_of(control, il))));
                    }
                }
                let r = Inst::Children {
                    entity,
                    control,
                    padded: nx.parent.padded,
                    children: il,
                };
                r
            } else {
                proof {
                    assert forall|k: int, d: usize|
                        #![trigger op_refs(b.ops@[k], d)]
                        old(b).ops@.len() <= k < b.ops@.len() && op_refs(b.ops@[k], d) implies
                        ctrl_set(iw).contains(d as int) by {
                        assert(d == control);
                    }
                    assert(ops_on(b.ops@, control) == ops_on(old(b).ops@, control) + (ppart
                        + Seq::<Op>::empty())) by {
                        assert((ops_on(old(b).ops@, control) + ppart) + Seq::<Op>::empty()
                            =~= ops_on(old(b).ops@, control) + (ppart + Seq::<Op>::empty()));
                    }
                }
                let r = Inst::Children { entity, control, padded: nx.parent.padded, children };
                r
            }
        },
        (Widget::Handler(nh), Inst::Handler { handler, event, inner }) => {
            let old_cc = inner.control_handle();
            let rebind = !(nh.event == event && C::msg_equals(&nh.handler, &handler));
            let ci2 = reconcile(&nh.child, *inner, sender, st, b, Ghost(bound));
            let ghost b2 = *b;
            let new_cc = ci2.control_handle();
            if new_cc != old_cc || rebind {
                // a fresh control, or a changed binding on the surviving one:
                // subscribe the new binding (on a native toolkit this replaces
                // the control's callback; the superseded subscription record
                // no longer matches the stored instance)
                proof {
                    lemma_wf_control_alive(ci2, *b, st.queues@.len() as nat);
                }
                b.subscribe(new_cc, nh.event.clone());
                let msg = C::dup_msg(&nh.handler);
                st.add_sub(
                    Subscription { control: new_cc, event: nh.event.clone(), msg, queue: sender },
                    b,
                );
                proof {
                    lemma_inst_wf_frame(
                        ci2,
                        b2,
                        *b,
                        st.queues@.len() as nat,
                        st.queues@.len() as nat,
                    );
                }
                proof {
                    let lo = old(b).controls@.len() as int;
                    assert forall|k: int, d: usize|
                        #![trigger op_refs(b.ops@[k], d)]
                        old(b).ops@.len() <= k < b.ops@.len() && op_refs(b.ops@[k], d) implies (
                        ctrl_set(iw).contains(d as int) || lo <= d) by {
                        if k < b2.ops@.len() {
                        } else {
                            assert(b.ops@[k] == Op::Subscribe(new_cc, nh.event));
                            assert(d == new_cc);
                            lemma_control_in_set(ci2);
                            assert(ctrl_set(ci2).contains(d as int));
                        }
                    }
                }
                let r = Inst::Handler {
                    handler: C::dup_msg(&nh.handler),
                    event: nh.event.clone(),
                    inner: Box::new(ci2),
                };
                proof {
                    C::msg_eq_refl(&nh.handler);
                }
                r
            } else {
                let r = Inst::Handler { handler, event, inner: Box::new(ci2) };
                proof {
                    assert(C::msg_eq_spec(&nh.handler, &handler));
                }
                r
            }
        },
        (_, other) => {
            let cc = other.control_handle();
            let ghost oset = ctrl_set(other);
            destroy_subtree(other, b, Ghost(qn0));
            let ghost bmid = *b;
            let r = materialize(w, sender, st, b, Ghost(bound));
            proof {
                if st.next_entity < u64::MAX {
                    lemma_entity_below(iw, old(st).next_entity);
                }
                lemma_widget_eq_refl(*w);
                let lo = old(b).controls@.len() as int;
                assert forall|k: int, d: usize|
                    #![trigger op_refs(b.ops@[k], d)]
                    old(b).ops@.len() <= k < b.ops@.len() && op_refs(b.ops@[k], d) implies (
                    ctrl_set(iw).contains(d as int) || lo <= d) by {
                    if k < bmid.ops@.len() {
                        assert(b.ops@[k] matches Op::Destroy(dd) && oset.contains(dd as int));
                    } else {
                        assert(!Set::<int>::empty().contains(d as int));
                        assert(bmid.controls@.len() as int <= d);
                    }
                }
                assert forall|d: int|
                    0 <= d < old(b).controls@.len() && !ctrl_set(iw).contains(d) implies (
                #[trigger] b.controls@[d]) == old(b).controls@[d] by {
                    assert(!Set::<int>::empty().contains(d));
                    assert(bmid.controls@[d] == old(b).controls@[d]);
                }
                assert forall|k: int| old(b).ops@.len() <= k < b.ops@.len() implies !((
                #[trigger] b.ops@[k]) matches Op::UpdateField(..)) by {
                    if k < bmid.ops@.len() {
                        assert(b.ops@[k] == bmid.ops@[k]);
                        assert(bmid.ops@[k] matches Op::Destroy(c) && oset.contains(c as int));
                    }
                }
                assert(exists|k: int|
                    old(b).ops@.len() <= k < b.ops@.len() && b.ops@[k] == Op::Destroy(
                        inst_control(iw),
                    )) by {
                    let k0 = choose|k: int|
                        old(b).ops@.len() <= k < bmid.ops@.len() && bmid.ops@[k] == Op::Destroy(
                            inst_control(iw),
                        );
                    assert(b.ops@[k0] == bmid.ops@[k0]);
                }
            }
            r
        },
    }
}

} // verus!
