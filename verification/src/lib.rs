//! A reactive virtual-widget engine.
//!
//! Applications describe their user interface as a tree of immutable widget
//! values. The engine reconciles each new tree against the previously
//! materialized one, driving a native control backend with as few mutations
//! as possible, and routes control events back into typed state updates of
//! the component that owns the affected subtree.
//!
//! The native backend itself is an external collaborator. Inside this crate
//! it is represented by [`backend::Backend`], which owns the modeled control
//! records and an append-only log of every backend call the engine makes; a
//! host adapter replays that log against a concrete widget toolkit.
//!
//! The central guarantees are stated on the functions that carry them:
//! reconciling a widget value equal to the one last rendered touches nothing
//! at all ([`reconcile::reconcile`]); updating a leaf's field is exactly one
//! backend call; a node of a different kind is destroyed and rebuilt and
//! never updated in place; one tick applies at most one pending message per
//! component, exactly as typed ([`engine::Engine::tick`]); and no control is
//! ever destroyed twice or used after destruction
//! ([`engine::lemma_engine_no_double_free`]).

use vstd::prelude::*;

pub mod backend;
pub mod component;
pub mod engine;
pub mod reconcile;
pub mod sample;
pub mod store;
pub mod widgets;

pub use backend::Backend;
pub use component::Component;
pub use component::Event;
pub use engine::Engine;
pub use store::ComponentState;
pub use store::Root;
pub use store::Store;
pub use widgets::Button;
pub use widgets::Clicked;
pub use widgets::ComponentWidget;
pub use widgets::ConnectChildren;
pub use widgets::ConnectSingleChild;
pub use widgets::Group;
pub use widgets::Handler;
pub use widgets::HorizontalBox;
pub use widgets::Widget;
pub use widgets::WidgetList;

verus! {

} // verus!
