//! The component interface and the typed event carrying a state mutation.
//!
//! A component is a unit of encapsulated, persistent user-interface state.
//! Its author implements a pure `view` describing the desired widget tree
//! for the current state, and an `update` applying one typed message to the
//! state. All state mutation flows through messages; the engine queues them
//! per component and applies at most one per component per tick.

use vstd::prelude::*;

use crate::widgets::Widget;
use crate::widgets::rank_bounded;

verus! {

/// A stateful component embedded in a widget tree.
///
/// Beyond the executable obligations, an implementation provides the ghost
/// functions that its contracts are stated against: `eq_spec` (what equality
/// of two states means), `update_spec` (the state one message produces) and
/// `views` (which widget trees `view` may return for a state). `rank` is the
/// component-nesting measure: `view` may only embed components of strictly
/// smaller rank, which is what makes materializing a view well-founded, and
/// `update` must preserve it.
pub trait Component: Sized {
    /// The typed message mutating this component's state.
    type Msg;

    /// The component-nesting measure of this state.
    spec fn rank(&self) -> nat;

    /// What it means for two states to be equal values.
    spec fn eq_spec(&self, other: &Self) -> bool;

    /// The state that applying `msg` produces.
    spec fn update_spec(&self, msg: Self::Msg) -> Self;

    /// Which widget trees `view` may return for this state.
    spec fn views(&self, w: Widget<Self, Self::Msg>) -> bool;

    /// Equality of states is reflexive: every state equals itself.
    proof fn eq_refl(&self)
        ensures
            self.eq_spec(self),
    ;

    /// Decides `eq_spec`.
    fn equals(&self, other: &Self) -> (r: bool)
        ensures
            r == self.eq_spec(other),
    ;

    /// Makes an exact copy of this state.
    fn dup(&self) -> (c: Self)
        ensures
            c == *self,
    ;

    /// What it means for two messages to be equal values.
    spec fn msg_eq_spec(a: &Self::Msg, b: &Self::Msg) -> bool;

    /// Message equality is reflexive: every message equals itself.
    proof fn msg_eq_refl(m: &Self::Msg)
        ensures
            Self::msg_eq_spec(m, m),
    ;

    /// Decides `msg_eq_spec`.
    fn msg_equals(a: &Self::Msg, b: &Self::Msg) -> (r: bool)
        ensures
            r == Self::msg_eq_spec(a, b),
    ;

    /// Makes an exact copy of a message.
    fn dup_msg(m: &Self::Msg) -> (r: Self::Msg)
        ensures
            r == *m,
    ;

    /// Applies one message to the state, preserving the nesting measure.
    fn update(&mut self, msg: Self::Msg)
        ensures
            *final(self) == old(self).update_spec(msg),
            final(self).rank() == old(self).rank(),
    ;

    /// The desired widget tree for the current state; pure, and embedding
    /// only components of strictly smaller rank.
    fn view(&self) -> (w: Widget<Self, Self::Msg>)
        ensures
            self.views(w),
            rank_bounded(w, self.rank(), |c: Self| c.rank()),
    ;
}

/// A typed event: one message addressed to one component's state.
pub struct Event<M> {
    /// The message to apply.
    pub msg: M,
}

impl<M> Event<M> {
    /// Wraps a message as an event.
    pub fn new(msg: M) -> (e: Event<M>)
        ensures
            e.msg == msg,
    {
        Event { msg }
    }

    /// Applies this event to a component's state.
    pub fn handle<C: Component<Msg = M>>(self, component: &mut C)
        ensures
            *final(component) == old(component).update_spec(self.msg),
            final(component).rank() == old(component).rank(),
    {
        component.update(self.msg)
    }
}

} // verus!
