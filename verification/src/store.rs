//! The entity store: materialized instances, component records, event
//! queues and subscriptions.
//!
//! Every materialized widget is an [`Inst`] node owning its native control
//! handle and, below containers, the instances of its children. Ownership of
//! a control is unique: a handle appears in exactly one instance node, which
//! is what makes destroying a subtree free of double-destroys. A component
//! node owns a [`ComponentState`]: the frozen widget value it was embedded
//! with (what the parent diffs against), the evolving state, the index of
//! its private message queue, and the rendered root instance of its view.
//!
//! The [`Store`] itself holds what is shared across the tree: the message
//! queues (one per live component, never deallocated), the subscriptions
//! routing a native event on a control to a message on a queue, and the
//! entity-id counter.

use vstd::prelude::*;

use crate::backend::Backend;
use crate::backend::Op;
use crate::backend::op_refs;
use crate::component::Component;
use crate::widgets::Button;
use crate::widgets::ComponentWidget;
use crate::widgets::ConnectChildren;
use crate::widgets::ConnectSingleChild;
use crate::widgets::Group;
use crate::widgets::Handler;
use crate::widgets::HorizontalBox;
use crate::widgets::Widget;
use crate::widgets::WidgetList;
use crate::widgets::rank_bounded;
use crate::widgets::widget_eq;
use crate::widgets::list_eq;

verus! {

/// The component-nesting measure as a spec function value.
pub open spec fn rank_of<C: Component>() -> spec_fn(C) -> nat {
    |c: C| c.rank()
}

/// The entity of the root instance a component rendered.
pub struct Root(pub u64);

/// The per-component record: frozen embedding value, evolving state, the
/// component's private message queue, and its rendered subtree.
pub struct ComponentState<C, M> {
    /// The widget value this component was embedded with; what the parent's
    /// diff compares against.
    pub value: C,
    /// The current, evolving state.
    pub state: C,
    /// Index of this component's private message queue in the store.
    pub queue: usize,
    /// The entity of the rendered root instance.
    pub root: Root,
    /// The rendered root instance of the component's view.
    pub inst: Box<Inst<C, M>>,
}

/// One materialized node: the live counterpart of one widget value.
pub enum Inst<C, M> {
    /// A materialized button.
    Button {
        /// This node's entity.
        entity: u64,
        /// The native control handle.
        control: usize,
        /// The label the control was last given.
        text: String,
    },
    /// A materialized group with its child slot.
    Single {
        /// This node's entity.
        entity: u64,
        /// The native control handle.
        control: usize,
        /// The title the control was last given.
        title: String,
        /// The margin flag the control was last given.
        margined: bool,
        /// The materialized child, if the slot is filled.
        child: Option<Box<Inst<C, M>>>,
    },
    /// A materialized box with its ordered children.
    Children {
        /// This node's entity.
        entity: u64,
        /// The native control handle.
        control: usize,
        /// The padding flag the control was last given.
        padded: bool,
        /// The materialized children, first child first.
        children: InstList<C, M>,
    },
    /// An event binding over a materialized child; shares the child's
    /// control and entity.
    Handler {
        /// The message queued when the event fires.
        handler: M,
        /// The subscribed event kind.
        event: String,
        /// The wrapped materialized child.
        inner: Box<Inst<C, M>>,
    },
    /// A materialized component with its record.
    Component {
        /// This node's entity.
        entity: u64,
        /// The component record.
        record: ComponentState<C, M>,
    },
}

/// An ordered list of materialized children.
pub enum InstList<C, M> {
    /// No further children.
    Nil,
    /// One child followed by the rest.
    Cons(Box<Inst<C, M>>, Box<InstList<C, M>>),
}

/// One event subscription: when the named event fires on the control, the
/// message is pushed onto the queue.
pub struct Subscription<M> {
    /// The subscribed control.
    pub control: usize,
    /// The subscribed event kind.
    pub event: String,
    /// The message to queue.
    pub msg: M,
    /// The queue of the component owning the enclosing subtree.
    pub queue: usize,
}

/// Shared state of the entity store: queues, subscriptions and the
/// entity-id counter.
pub struct Store<M> {
    /// The per-component message queues; a queue outlives its component and
    /// is simply abandoned when the component is destroyed.
    pub queues: Vec<Vec<M>>,
    /// All subscriptions made so far; one whose control has been destroyed
    /// is stale and can no longer fire.
    pub subs: Vec<Subscription<M>>,
    /// Entity ids handed out so far.
    pub next_entity: u64,
}

/// The widget value an instance currently renders. For a component node this
/// is the frozen embedding value, not the evolving state: internal mutations
/// do not change what the parent sees.
pub open spec fn widget_of<C, M>(i: Inst<C, M>) -> Widget<C, M>
    decreases i,
{
    match i {
        Inst::Button { text, .. } => Widget::Button(Button { text }),
        Inst::Single { title, margined, child, .. } => Widget::Single(
            ConnectSingleChild {
                parent: Group { title, margined },
                child: match child {
                    Some(c) => Some(Box::new(widget_of(*c))),
                    None => None,
                },
            },
        ),
        Inst::Children { padded, children, .. } => Widget::Children(
            ConnectChildren { parent: HorizontalBox { padded }, children: wlist_of(children) },
        ),
        Inst::Handler { handler, event, inner } => Widget::Handler(
            Handler { handler, event, child: Box::new(widget_of(*inner)) },
        ),
        Inst::Component { record, .. } => Widget::Component(ComponentWidget(record.value)),
    }
}

/// The widget values of a child list of instances.
pub open spec fn wlist_of<C, M>(l: InstList<C, M>) -> WidgetList<C, M>
    decreases l,
{
    match l {
        InstList::Nil => WidgetList::Nil,
        InstList::Cons(x, xs) => WidgetList::Cons(Box::new(widget_of(*x)), Box::new(wlist_of(*xs))),
    }
}

/// The native control handle of an instance: a handler shares its child's
/// control; a component's handle is the one of its rendered root.
pub open spec fn inst_control<C, M>(i: Inst<C, M>) -> usize
    decreases i,
{
    match i {
        Inst::Button { control, .. } => control,
        Inst::Single { control, .. } => control,
        Inst::Children { control, .. } => control,
        Inst::Handler { inner, .. } => inst_control(*inner),
        Inst::Component { record, .. } => inst_control(*record.inst),
    }
}

/// The entity of an instance; a handler shares its child's entity.
pub open spec fn inst_entity<C, M>(i: Inst<C, M>) -> u64
    decreases i,
{
    match i {
        Inst::Button { entity, .. } => entity,
        Inst::Single { entity, .. } => entity,
        Inst::Children { entity, .. } => entity,
        Inst::Handler { inner, .. } => inst_entity(*inner),
        Inst::Component { entity, .. } => entity,
    }
}

/// The set of control handles owned by a subtree.
pub open spec fn ctrl_set<C, M>(i: Inst<C, M>) -> Set<int>
    decreases i,
{
    match i {
        Inst::Button { control, .. } => set![control as int],
        Inst::Single { control, child, .. } => set![control as int].union(
            match child {
                Some(c) => ctrl_set(*c),
                None => Set::empty(),
            },
        ),
        Inst::Children { control, children, .. } => set![control as int].union(
            ilist_ctrls(children),
        ),
        Inst::Handler { inner, .. } => ctrl_set(*inner),
        Inst::Component { record, .. } => ctrl_set(*record.inst),
    }
}

/// The controls owned by a list of subtrees.
pub open spec fn ilist_ctrls<C, M>(l: InstList<C, M>) -> Set<int>
    decreases l,
{
    match l {
        InstList::Nil => Set::empty(),
        InstList::Cons(x, xs) => ctrl_set(*x).union(ilist_ctrls(*xs)),
    }
}

/// The set of queue indices owned by a subtree's components.
pub open spec fn queue_set<C, M>(i: Inst<C, M>) -> Set<int>
    decreases i,
{
    match i {
        Inst::Button { .. } => Set::empty(),
        Inst::Single { child, .. } => match child {
            Some(c) => queue_set(*c),
            None => Set::empty(),
        },
        Inst::Children { children, .. } => ilist_queues(children),
        Inst::Handler { inner, .. } => queue_set(*inner),
        Inst::Component { record, .. } => set![record.queue as int].union(queue_set(*record.inst)),
    }
}

/// The queues owned by a list of subtrees.
pub open spec fn ilist_queues<C, M>(l: InstList<C, M>) -> Set<int>
    decreases l,
{
    match l {
        InstList::Nil => Set::empty(),
        InstList::Cons(x, xs) => queue_set(*x).union(ilist_queues(*xs)),
    }
}

/// Well-formedness of a materialized subtree against the backend and the
/// number `qn` of queues in the store.
///
/// Each node's control is alive and reflects the node's stored fields, the
/// footprints of a parent and of sibling subtrees are disjoint (unique
/// ownership of controls and queues), and each component record's rendered
/// subtree stays within the component's nesting measure, with the frozen
/// value and the evolving state agreeing on that measure.
pub open spec fn inst_wf<C: Component, M>(i: Inst<C, M>, b: Backend, qn: nat) -> bool
    decreases i,
{
    match i {
        Inst::Button { control, text, .. } => {
            &&& control < b.controls@.len()
            &&& b.controls@[control as int].alive
            &&& b.controls@[control as int].kind == crate::backend::ControlKind::Button
            &&& b.controls@[control as int].text@ == text@
        },
        Inst::Single { control, title, margined, child, .. } => {
            &&& control < b.controls@.len()
            &&& b.controls@[control as int].alive
            &&& b.controls@[control as int].kind == crate::backend::ControlKind::Group
            &&& b.controls@[control as int].title@ == title@
            &&& b.controls@[control as int].margined == margined
            &&& match child {
                Some(c) => {
                    &&& inst_wf(*c, b, qn)
                    &&& !ctrl_set(*c).contains(control as int)
                },
                None => true,
            }
        },
        Inst::Children { control, padded, children, .. } => {
            &&& control < b.controls@.len()
            &&& b.controls@[control as int].alive
            &&& b.controls@[control as int].kind == crate::backend::ControlKind::HorizontalBox
            &&& b.controls@[control as int].padded == padded
            &&& ilist_wf(children, b, qn)
            &&& !ilist_ctrls(children).contains(control as int)
        },
        Inst::Handler { inner, .. } => inst_wf(*inner, b, qn),
        Inst::Component { record, .. } => {
            &&& record.queue < qn
            &&& inst_wf(*record.inst, b, qn)
            &&& !queue_set(*record.inst).contains(record.queue as int)
            &&& record.value.rank() == record.state.rank()
            &&& rank_bounded(widget_of(*record.inst), record.state.rank(), rank_of::<C>())
            &&& record.root.0 == inst_entity(*record.inst)
        },
    }
}

/// Well-formedness of a child list: each subtree is well-formed and the
/// footprints of distinct siblings are disjoint.
pub open spec fn ilist_wf<C: Component, M>(l: InstList<C, M>, b: Backend, qn: nat) -> bool
    decreases l,
{
    match l {
        InstList::Nil => true,
        InstList::Cons(x, xs) => {
            &&& inst_wf(*x, b, qn)
            &&& ilist_wf(*xs, b, qn)
            &&& ctrl_set(*x).disjoint(ilist_ctrls(*xs))
            &&& queue_set(*x).disjoint(ilist_queues(*xs))
        },
    }
}

/// Well-formedness of the shared store state: every subscription routes to
/// an existing queue and names an existing control.
pub open spec fn store_wf<M>(st: Store<M>, b: Backend) -> bool {
    forall|k: int|
        0 <= k < st.subs@.len() ==> (#[trigger] st.subs@[k]).queue < st.queues@.len()
            && st.subs@[k].control < b.controls@.len()
}

/// All members of `s` lie in `[0, n)`.
pub open spec fn set_below(s: Set<int>, n: int) -> bool {
    forall|c: int| s.contains(c) ==> 0 <= c < n
}

/// All members of `s` lie in `[lo, hi)`.
pub open spec fn set_in_range(s: Set<int>, lo: int, hi: int) -> bool {
    forall|c: int| s.contains(c) ==> lo <= c < hi
}

/// Controls may only be added, and every control existing before that is
/// outside `s` keeps its record unchanged.
pub open spec fn controls_frame(b1: Backend, b2: Backend, s: Set<int>) -> bool {
    &&& b2.controls@.len() >= b1.controls@.len()
    &&& forall|c: int|
        0 <= c < b1.controls@.len() && !s.contains(c) ==> b2.controls@[c] == b1.controls@[c]
}

/// Queues and subscriptions may only be added; what existed is unchanged,
/// and the entity counter does not go back.
pub open spec fn store_extended<M>(s1: Store<M>, s2: Store<M>) -> bool {
    &&& s2.queues@.len() >= s1.queues@.len()
    &&& forall|q: int| 0 <= q < s1.queues@.len() ==> s2.queues@[q] == s1.queues@[q]
    &&& s2.subs@.len() >= s1.subs@.len()
    &&& forall|k: int| 0 <= k < s1.subs@.len() ==> s2.subs@[k] == s1.subs@[k]
    &&& s2.next_entity >= s1.next_entity
}

/// Ops are only appended: `o2` extends `o1`.
pub open spec fn ops_extended(o1: Seq<Op>, o2: Seq<Op>) -> bool {
    &&& o2.len() >= o1.len()
    &&& forall|k: int| 0 <= k < o1.len() ==> o2[k] == o1[k]
}

/// `o2` extends `o1` and none of the appended ops updates a field.
pub open spec fn appended_no_update(o1: Seq<Op>, o2: Seq<Op>) -> bool {
    &&& ops_extended(o1, o2)
    &&& forall|k: int| o1.len() <= k < o2.len() ==> !((#[trigger] o2[k]) matches Op::UpdateField(..))
}

/// `o2` extends `o1` and every appended op destroys a control in `s`.
pub open spec fn appended_destroys(o1: Seq<Op>, o2: Seq<Op>, s: Set<int>) -> bool {
    &&& ops_extended(o1, o2)
    &&& forall|k: int|
        o1.len() <= k < o2.len() ==> ((#[trigger] o2[k]) matches Op::Destroy(c) && s.contains(
            c as int,
        ))
}

/// The subsequence of `ops` that names control `c`: the native call
/// traffic that control receives.
pub open spec fn ops_on(ops: Seq<Op>, c: usize) -> Seq<Op>
    decreases ops.len(),
{
    if ops.len() == 0 {
        Seq::empty()
    } else {
        ops_on(ops.drop_last(), c) + if op_refs(ops.last(), c) {
            seq![ops.last()]
        } else {
            Seq::<Op>::empty()
        }
    }
}

/// Appending one op extends the traffic of `c` by that op exactly when the
/// op names `c`.
pub proof fn lemma_ops_on_push(ops: Seq<Op>, op: Op, c: usize)
    ensures
        ops_on(ops.push(op), c) == ops_on(ops, c) + if op_refs(op, c) {
            seq![op]
        } else {
            Seq::<Op>::empty()
        },
{
    assert(ops.push(op).drop_last() =~= ops);
}

/// A window of appended ops none of which names `c` leaves the traffic of
/// `c` unchanged.
pub proof fn lemma_ops_on_frame(o1: Seq<Op>, o2: Seq<Op>, c: usize)
    requires
        ops_extended(o1, o2),
        forall|k: int| o1.len() <= k < o2.len() ==> !op_refs(#[trigger] o2[k], c),
    ensures
        ops_on(o2, c) == ops_on(o1, c),
    decreases o2.len(),
{
    if o2.len() == o1.len() {
        assert(o2 =~= o1);
    } else {
        let o2p = o2.drop_last();
        assert(forall|k: int| 0 <= k < o1.len() ==> o2p[k] == o2[k]);
        assert forall|k: int| o1.len() <= k < o2p.len() implies !op_refs(#[trigger] o2p[k], c) by {
            assert(o2p[k] == o2[k]);
        }
        assert(!op_refs(o2.last(), c)) by {
            assert(o2.last() == o2[o2.len() - 1]);
        }
        lemma_ops_on_frame(o1, o2p, c);
        assert(ops_on(o2, c) == ops_on(o2p, c) + Seq::<Op>::empty());
        assert(ops_on(o2p, c) + Seq::<Op>::empty() =~= ops_on(o2p, c));
    }
}

/// Every op appended between `o1` and `o2` names only controls in `s` or at
/// or above `lo`: the traffic of a pass stays within the footprint it
/// started from plus what it freshly created.
pub open spec fn ops_scoped(o1: Seq<Op>, o2: Seq<Op>, s: Set<int>, lo: int) -> bool {
    forall|k: int, c: usize|
        #![trigger op_refs(o2[k], c)]
        o1.len() <= k < o2.len() && op_refs(o2[k], c) ==> s.contains(c as int) || lo <= c
}

/// An instance's own control is part of its footprint.
pub proof fn lemma_control_in_set<C, M>(i: Inst<C, M>)
    ensures
        ctrl_set(i).contains(inst_control(i) as int),
    decreases i,
{
    match i {
        Inst::Button { .. } => {},
        Inst::Single { .. } => {},
        Inst::Children { .. } => {},
        Inst::Handler { inner, .. } => {
            lemma_control_in_set(*inner);
        },
        Inst::Component { record, .. } => {
            lemma_control_in_set(*record.inst);
        },
    }
}

/// `o2` extends `o1` and no appended op destroys or updates a control:
/// appended ops only build (create, attach, subscribe).
pub open spec fn appended_build_only(o1: Seq<Op>, o2: Seq<Op>) -> bool {
    &&& ops_extended(o1, o2)
    &&& forall|k: int|
        o1.len() <= k < o2.len() ==> !((#[trigger] o2[k]) matches Op::Destroy(..)) && !(o2[k]
            matches Op::UpdateField(..))
}

/// Every member of `s` is a member of `base` or lies in `[lo, hi)`: the
/// footprint of a reconciled subtree is drawn from the previous subtree's
/// footprint plus what was freshly created.
pub open spec fn sub_or_fresh(s: Set<int>, base: Set<int>, lo: int, hi: int) -> bool {
    forall|c: int| s.contains(c) ==> base.contains(c) || lo <= c < hi
}

/// What a draining pass may do to the shared store: queues outside `qs`
/// keep their contents, subscriptions are only added, and the entity
/// counter does not go back.
pub open spec fn store_after_drain<M>(s1: Store<M>, s2: Store<M>, qs: Set<int>) -> bool {
    &&& s2.queues@.len() >= s1.queues@.len()
    &&& forall|q: int|
        0 <= q < s1.queues@.len() && !qs.contains(q) ==> s2.queues@[q] == s1.queues@[q]
    &&& s2.subs@.len() >= s1.subs@.len()
    &&& forall|k: int| 0 <= k < s1.subs@.len() ==> s2.subs@[k] == s1.subs@[k]
    &&& s2.next_entity >= s1.next_entity
}

/// Every queue in `qs` holds no pending message.
pub open spec fn all_quiet<M>(st: Store<M>, qs: Set<int>) -> bool {
    forall|q: int| qs.contains(q) ==> (#[trigger] st.queues@[q])@.len() == 0
}

/// Every entity named anywhere in a subtree lies strictly below `n`: live
/// instances draw their ids from below the store's counter.
pub open spec fn ents_below<C, M>(i: Inst<C, M>, n: u64) -> bool
    decreases i,
{
    match i {
        Inst::Button { entity, .. } => entity < n,
        Inst::Single { entity, child, .. } => entity < n && match child {
            Some(c) => ents_below(*c, n),
            None => true,
        },
        Inst::Children { entity, children, .. } => entity < n && ilist_ents_below(children, n),
        Inst::Handler { inner, .. } => ents_below(*inner, n),
        Inst::Component { entity, record } => entity < n && ents_below(*record.inst, n),
    }
}

/// List form of [`ents_below`].
pub open spec fn ilist_ents_below<C, M>(l: InstList<C, M>, n: u64) -> bool
    decreases l,
{
    match l {
        InstList::Nil => true,
        InstList::Cons(x, xs) => ents_below(*x, n) && ilist_ents_below(*xs, n),
    }
}

/// Entity bounds are monotone in the bound.
pub proof fn lemma_ents_below_mono<C, M>(i: Inst<C, M>, n1: u64, n2: u64)
    requires
        ents_below(i, n1),
        n1 <= n2,
    ensures
        ents_below(i, n2),
    decreases i,
{
    match i {
        Inst::Button { .. } => {},
        Inst::Single { child, .. } => {
            if let Some(c) = child {
                lemma_ents_below_mono(*c, n1, n2);
            }
        },
        Inst::Children { children, .. } => {
            lemma_ilist_ents_below_mono(children, n1, n2);
        },
        Inst::Handler { inner, .. } => {
            lemma_ents_below_mono(*inner, n1, n2);
        },
        Inst::Component { record, .. } => {
            lemma_ents_below_mono(*record.inst, n1, n2);
        },
    }
}

/// List form of [`lemma_ents_below_mono`].
pub proof fn lemma_ilist_ents_below_mono<C, M>(l: InstList<C, M>, n1: u64, n2: u64)
    requires
        ilist_ents_below(l, n1),
        n1 <= n2,
    ensures
        ilist_ents_below(l, n2),
    decreases l,
{
    match l {
        InstList::Nil => {},
        InstList::Cons(x, xs) => {
            lemma_ents_below_mono(*x, n1, n2);
            lemma_ilist_ents_below_mono(*xs, n1, n2);
        },
    }
}

/// An instance's own entity respects the subtree's bound.
pub proof fn lemma_entity_below<C, M>(i: Inst<C, M>, n: u64)
    requires
        ents_below(i, n),
    ensures
        inst_entity(i) < n,
    decreases i,
{
    match i {
        Inst::Button { .. } => {},
        Inst::Single { .. } => {},
        Inst::Children { .. } => {},
        Inst::Handler { inner, .. } => {
            lemma_entity_below(*inner, n);
        },
        Inst::Component { .. } => {},
    }
}

/// Every queue created between the two store states is empty in the later
/// one: a freshly mounted component has nothing pending until an event is
/// fired into it.
pub open spec fn new_queues_empty<M>(s1: Store<M>, s2: Store<M>) -> bool {
    forall|q: int|
        s1.queues@.len() <= q < s2.queues@.len() ==> (#[trigger] s2.queues@[q])@.len() == 0
}

/// Every control in `s` exists in the backend and is no longer alive.
pub open spec fn all_dead(s: Set<int>, b: Backend) -> bool {
    forall|c: int|
        s.contains(c) ==> 0 <= c < b.controls@.len() && !(#[trigger] b.controls@[c]).alive
}

/// Two sets drawn from disjoint ranges are disjoint.
pub proof fn lemma_range_disjoint(s1: Set<int>, s2: Set<int>, lo1: int, hi1: int, lo2: int, hi2: int)
    requires
        set_in_range(s1, lo1, hi1),
        set_in_range(s2, lo2, hi2),
        hi1 <= lo2,
    ensures
        s1.disjoint(s2),
{
    assert forall|c: int| s1.contains(c) implies !s2.contains(c) by {
        assert(c < hi1);
        if s2.contains(c) {
            assert(c >= lo2);
        }
    }
}

/// A well-formed instance's own control is alive.
pub proof fn lemma_wf_control_alive<C: Component, M>(i: Inst<C, M>, b: Backend, qn: nat)
    requires
        inst_wf(i, b, qn),
    ensures
        inst_control(i) < b.controls@.len(),
        b.controls@[inst_control(i) as int].alive,
    decreases i,
{
    match i {
        Inst::Button { .. } => {},
        Inst::Single { .. } => {},
        Inst::Children { .. } => {},
        Inst::Handler { inner, .. } => {
            lemma_wf_control_alive(*inner, b, qn);
        },
        Inst::Component { record, .. } => {
            lemma_wf_control_alive(*record.inst, b, qn);
        },
    }
}

/// Every control in a well-formed subtree's footprint exists in the backend.
pub proof fn lemma_wf_ctrls_below<C: Component, M>(i: Inst<C, M>, b: Backend, qn: nat)
    requires
        inst_wf(i, b, qn),
    ensures
        set_below(ctrl_set(i), b.controls@.len() as int),
    decreases i,
{
    let n = b.controls@.len() as int;
    match i {
        Inst::Button { control, .. } => {
            assert forall|c: int| ctrl_set(i).contains(c) implies 0 <= c < n by {
                assert(c == control as int);
            }
        },
        Inst::Single { control, child, .. } => {
            if let Some(ch) = child {
                lemma_wf_ctrls_below(*ch, b, qn);
            }
            assert forall|c: int| ctrl_set(i).contains(c) implies 0 <= c < n by {
                if c != control as int {
                    match child {
                        Some(ch) => {
                            assert(ctrl_set(*ch).contains(c));
                            assert(set_below(ctrl_set(*ch), n));
                        },
                        None => {},
                    }
                }
            }
        },
        Inst::Children { control, children, .. } => {
            lemma_wf_ctrls_below_list(children, b, qn);
            assert forall|c: int| ctrl_set(i).contains(c) implies 0 <= c < n by {
                if c != control as int {
                    assert(ilist_ctrls(children).contains(c));
                    assert(set_below(ilist_ctrls(children), n));
                }
            }
        },
        Inst::Handler { inner, .. } => {
            lemma_wf_ctrls_below(*inner, b, qn);
        },
        Inst::Component { record, .. } => {
            lemma_wf_ctrls_below(*record.inst, b, qn);
        },
    }
}

/// List form of [`lemma_wf_ctrls_below`].
pub proof fn lemma_wf_ctrls_below_list<C: Component, M>(l: InstList<C, M>, b: Backend, qn: nat)
    requires
        ilist_wf(l, b, qn),
    ensures
        set_below(ilist_ctrls(l), b.controls@.len() as int),
    decreases l,
{
    let n = b.controls@.len() as int;
    match l {
        InstList::Nil => {
            assert forall|c: int| ilist_ctrls(l).contains(c) implies 0 <= c < n by {}
        },
        InstList::Cons(x, xs) => {
            lemma_wf_ctrls_below(*x, b, qn);
            lemma_wf_ctrls_below_list(*xs, b, qn);
            assert forall|c: int| ilist_ctrls(l).contains(c) implies 0 <= c < n by {
                if ctrl_set(*x).contains(c) {
                    assert(set_below(ctrl_set(*x), n));
                } else {
                    assert(ilist_ctrls(*xs).contains(c));
                    assert(set_below(ilist_ctrls(*xs), n));
                }
            }
        },
    }
}

/// Every queue in a well-formed subtree's footprint exists in the store.
pub proof fn lemma_wf_queues_below<C: Component, M>(i: Inst<C, M>, b: Backend, qn: nat)
    requires
        inst_wf(i, b, qn),
    ensures
        set_below(queue_set(i), qn as int),
    decreases i,
{
    let n = qn as int;
    match i {
        Inst::Button { .. } => {
            assert forall|q: int| queue_set(i).contains(q) implies 0 <= q < n by {}
        },
        Inst::Single { child, .. } => {
            if let Some(c) = child {
                lemma_wf_queues_below(*c, b, qn);
            }
            assert forall|q: int| queue_set(i).contains(q) implies 0 <= q < n by {
                match child {
                    Some(c) => {
                        assert(queue_set(*c).contains(q));
                        assert(set_below(queue_set(*c), n));
                    },
                    None => {},
                }
            }
        },
        Inst::Children { children, .. } => {
            lemma_wf_queues_below_list(children, b, qn);
        },
        Inst::Handler { inner, .. } => {
            lemma_wf_queues_below(*inner, b, qn);
        },
        Inst::Component { record, .. } => {
            lemma_wf_queues_below(*record.inst, b, qn);
            assert forall|q: int| queue_set(i).contains(q) implies 0 <= q < n by {
                if q != record.queue as int {
                    assert(queue_set(*record.inst).contains(q));
                    assert(set_below(queue_set(*record.inst), n));
                }
            }
        },
    }
}

/// List form of [`lemma_wf_queues_below`].
pub proof fn lemma_wf_queues_below_list<C: Component, M>(l: InstList<C, M>, b: Backend, qn: nat)
    requires
        ilist_wf(l, b, qn),
    ensures
        set_below(ilist_queues(l), qn as int),
    decreases l,
{
    let n = qn as int;
    match l {
        InstList::Nil => {
            assert forall|q: int| ilist_queues(l).contains(q) implies 0 <= q < n by {}
        },
        InstList::Cons(x, xs) => {
            lemma_wf_queues_below(*x, b, qn);
            lemma_wf_queues_below_list(*xs, b, qn);
            assert forall|q: int| ilist_queues(l).contains(q) implies 0 <= q < n by {
                if queue_set(*x).contains(q) {
                    assert(set_below(queue_set(*x), n));
                } else {
                    assert(ilist_queues(*xs).contains(q));
                    assert(set_below(ilist_queues(*xs), n));
                }
            }
        },
    }
}

/// Framing: a subtree stays well-formed when the backend only changes
/// outside the subtree's control footprint and queues are only added.
pub proof fn lemma_inst_wf_frame<C: Component, M>(
    i: Inst<C, M>,
    b1: Backend,
    b2: Backend,
    qn1: nat,
    qn2: nat,
)
    requires
        inst_wf(i, b1, qn1),
        qn2 >= qn1,
        b2.controls@.len() >= b1.controls@.len(),
        forall|c: int| ctrl_set(i).contains(c) ==> #[trigger] b2.controls@[c] == b1.controls@[c],
    ensures
        inst_wf(i, b2, qn2),
    decreases i,
{
    match i {
        Inst::Button { control, .. } => {
            assert(ctrl_set(i).contains(control as int));
        },
        Inst::Single { control, child, .. } => {
            assert(ctrl_set(i).contains(control as int));
            if let Some(c) = child {
                assert forall|d: int| ctrl_set(*c).contains(d) implies #[trigger] b2.controls@[d]
                    == b1.controls@[d] by {
                    assert(ctrl_set(i).contains(d));
                }
                lemma_inst_wf_frame(*c, b1, b2, qn1, qn2);
            }
        },
        Inst::Children { control, children, .. } => {
            assert(ctrl_set(i).contains(control as int));
            assert forall|d: int| ilist_ctrls(children).contains(d) implies #[trigger] b2.controls@[d]
                == b1.controls@[d] by {
                assert(ctrl_set(i).contains(d));
            }
            lemma_ilist_wf_frame(children, b1, b2, qn1, qn2);
        },
        Inst::Handler { inner, .. } => {
            lemma_inst_wf_frame(*inner, b1, b2, qn1, qn2);
        },
        Inst::Component { record, .. } => {
            lemma_inst_wf_frame(*record.inst, b1, b2, qn1, qn2);
        },
    }
}

/// List form of [`lemma_inst_wf_frame`].
pub proof fn lemma_ilist_wf_frame<C: Component, M>(
    l: InstList<C, M>,
    b1: Backend,
    b2: Backend,
    qn1: nat,
    qn2: nat,
)
    requires
        ilist_wf(l, b1, qn1),
        qn2 >= qn1,
        b2.controls@.len() >= b1.controls@.len(),
        forall|c: int| ilist_ctrls(l).contains(c) ==> #[trigger] b2.controls@[c] == b1.controls@[c],
    ensures
        ilist_wf(l, b2, qn2),
    decreases l,
{
    match l {
        InstList::Nil => {},
        InstList::Cons(x, xs) => {
            assert forall|c: int| ctrl_set(*x).contains(c) implies #[trigger] b2.controls@[c]
                == b1.controls@[c] by {
                assert(ilist_ctrls(l).contains(c));
            }
            assert forall|c: int| ilist_ctrls(*xs).contains(c) implies #[trigger] b2.controls@[c]
                == b1.controls@[c] by {
                assert(ilist_ctrls(l).contains(c));
            }
            lemma_inst_wf_frame(*x, b1, b2, qn1, qn2);
            lemma_ilist_wf_frame(*xs, b1, b2, qn1, qn2);
        },
    }
}

/// Framing through [`controls_frame`]: a subtree disjoint from the changed
/// region stays well-formed.
pub proof fn lemma_wf_preserved<C: Component, M>(
    i: Inst<C, M>,
    b1: Backend,
    b2: Backend,
    qn1: nat,
    qn2: nat,
    s: Set<int>,
)
    requires
        inst_wf(i, b1, qn1),
        controls_frame(b1, b2, s),
        ctrl_set(i).disjoint(s),
        qn2 >= qn1,
    ensures
        inst_wf(i, b2, qn2),
{
    lemma_wf_ctrls_below(i, b1, qn1);
    assert forall|c: int| ctrl_set(i).contains(c) implies #[trigger] b2.controls@[c]
        == b1.controls@[c] by {
        assert(0 <= c < b1.controls@.len());
        assert(!s.contains(c));
    }
    lemma_inst_wf_frame(i, b1, b2, qn1, qn2);
}

impl<C: Component, M> Inst<C, M> {
    /// The native control handle of this instance.
    pub fn control_handle(&self) -> (c: usize)
        ensures
            c == inst_control(*self),
        decreases *self,
    {
        match self {
            Inst::Button { control, .. } => *control,
            Inst::Single { control, .. } => *control,
            Inst::Children { control, .. } => *control,
            Inst::Handler { inner, .. } => inner.control_handle(),
            Inst::Component { record, .. } => record.inst.control_handle(),
        }
    }

    /// The entity of this instance.
    pub fn entity(&self) -> (e: u64)
        ensures
            e == inst_entity(*self),
        decreases *self,
    {
        match self {
            Inst::Button { entity, .. } => *entity,
            Inst::Single { entity, .. } => *entity,
            Inst::Children { entity, .. } => *entity,
            Inst::Handler { inner, .. } => inner.entity(),
            Inst::Component { entity, .. } => *entity,
        }
    }
}

impl<C, M> ComponentState<C, M> {
    /// Mutable access to the component's current state, for applying a
    /// mutation in place.
    pub fn edit(&mut self) -> (r: &mut C)
        ensures
            *r == old(self).state,
            final(self).state == *final(r),
            final(self).value == old(self).value,
            final(self).queue == old(self).queue,
            final(self).root == old(self).root,
            final(self).inst == old(self).inst,
    {
        &mut self.state
    }

    /// The desired widget tree for the component's current state.
    pub fn view(&self) -> (w: Widget<C, M>)
        where C: Component<Msg = M>
        ensures
            self.state.views(w),
            rank_bounded(w, self.state.rank(), rank_of::<C>()),
    {
        self.state.view()
    }
}

/// Decides whether widget `w` equals the widget an instance renders.
pub fn matches_inst<C: Component<Msg = M>, M>(w: &Widget<C, M>, i: &Inst<C, M>) -> (r: bool)
    ensures
        r == widget_eq(*w, widget_of(*i)),
    decreases *i,
{
    match (w, i) {
        (Widget::Button(x), Inst::Button { text, .. }) => x.text == *text,
        (Widget::Single(x), Inst::Single { title, margined, child, .. }) => {
            x.parent.title == *title && x.parent.margined == *margined && match (
                &x.child,
                child,
            ) {
                (Some(cw), Some(ci)) => matches_inst(cw, ci),
                (None, None) => true,
                _ => false,
            }
        },
        (Widget::Children(x), Inst::Children { padded, children, .. }) => x.parent.padded
            == *padded && matches_list(&x.children, children),
        (Widget::Handler(x), Inst::Handler { handler, event, inner }) => x.event == *event
            && C::msg_equals(&x.handler, handler) && matches_inst(&x.child, inner),
        (Widget::Component(x), Inst::Component { record, .. }) => x.0.equals(&record.value),
        _ => false,
    }
}

/// Decides whether a widget list equals the widgets an instance list renders.
pub fn matches_list<C: Component<Msg = M>, M>(l: &WidgetList<C, M>, il: &InstList<C, M>) -> (r:
    bool)
    ensures
        r == list_eq(*l, wlist_of(*il)),
    decreases *il,
{
    match (l, il) {
        (WidgetList::Nil, InstList::Nil) => true,
        (WidgetList::Cons(x, xs), InstList::Cons(y, ys)) => matches_inst(x, y) && matches_list(
            xs,
            ys,
        ),
        _ => false,
    }
}

impl<M> Store<M> {
    /// An empty store: no queues, no subscriptions, no entities yet.
    pub fn new() -> (st: Store<M>)
        ensures
            st.queues@.len() == 0,
            st.subs@.len() == 0,
            st.next_entity == 0,
    {
        Store { queues: Vec::new(), subs: Vec::new(), next_entity: 0 }
    }

    /// Allocates a fresh, empty message queue and returns its index.
    pub fn alloc_queue(&mut self) -> (q: usize)
        ensures
            q == old(self).queues@.len(),
            final(self).queues@.len() == old(self).queues@.len() + 1,
            forall|k: int|
                0 <= k < old(self).queues@.len() ==> final(self).queues@[k] == old(
                    self,
                ).queues@[k],
            final(self).queues@[q as int]@.len() == 0,
            final(self).subs == old(self).subs,
            final(self).next_entity == old(self).next_entity,
    {
        let q = self.queues.len();
        self.queues.push(Vec::new());
        q
    }

    /// Registers a subscription routing an event on a live control to a
    /// message on an existing queue.
    pub fn add_sub(&mut self, sub: Subscription<M>, b: &Backend)
        requires
            store_wf(*old(self), *b),
            sub.queue < old(self).queues@.len(),
            sub.control < b.controls@.len(),
        ensures
            store_wf(*final(self), *b),
            final(self).subs@ == old(self).subs@.push(sub),
            final(self).queues == old(self).queues,
            final(self).next_entity == old(self).next_entity,
    {
        self.subs.push(sub);
    }

    /// Pops the oldest pending message of queue `q`, if any.
    pub fn pop_queue(&mut self, q: usize) -> (m: Option<M>)
        requires
            q < old(self).queues@.len(),
        ensures
            final(self).queues@.len() == old(self).queues@.len(),
            forall|k: int|
                0 <= k < old(self).queues@.len() && k != q ==> final(self).queues@[k] == old(
                    self,
                ).queues@[k],
            final(self).subs == old(self).subs,
            final(self).next_entity == old(self).next_entity,
            old(self).queues@[q as int]@.len() == 0 ==> m is None && final(self).queues@[q as int]
                == old(self).queues@[q as int],
            old(self).queues@[q as int]@.len() > 0 ==> (m matches Some(x) && x == old(
                self,
            ).queues@[q as int]@[0] && final(self).queues@[q as int]@ == old(
                self,
            ).queues@[q as int]@.drop_first()),
    {
        let queue = &mut self.queues[q];
        if queue.len() == 0 {
            None
        } else {
            let m = queue.remove(0);
            Some(m)
        }
    }

    /// Pushes a message onto queue `q`, behind any pending ones.
    pub fn push_queue(&mut self, q: usize, m: M)
        requires
            q < old(self).queues@.len(),
        ensures
            final(self).queues@.len() == old(self).queues@.len(),
            forall|k: int|
                0 <= k < old(self).queues@.len() && k != q ==> final(self).queues@[k] == old(
                    self,
                ).queues@[k],
            final(self).queues@[q as int]@ == old(self).queues@[q as int]@.push(m),
            final(self).subs == old(self).subs,
            final(self).next_entity == old(self).next_entity,
    {
        let queue = &mut self.queues[q];
        queue.push(m);
    }

    /// Hands out the next entity id and advances the counter. Ids are names
    /// for nodes; once the counter is exhausted the last id is reused, so
    /// ids are fresh only below the maximum.
    pub fn alloc_entity(&mut self) -> (e: u64)
        ensures
            e == old(self).next_entity,
            final(self).queues == old(self).queues,
            final(self).subs == old(self).subs,
            old(self).next_entity < u64::MAX ==> final(self).next_entity == old(
                self,
            ).next_entity + 1,
            old(self).next_entity == u64::MAX ==> final(self).next_entity == u64::MAX,
    {
        let e = self.next_entity;
        if self.next_entity < u64::MAX {
            self.next_entity = self.next_entity + 1;
        }
        e
    }
}

} // verus!
