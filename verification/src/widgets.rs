//! Widget values: immutable descriptions of the desired user interface.
//!
//! A widget value describes one node of the desired tree. The closed set of
//! node kinds is a sum type: a button leaf, a titled group with at most one
//! child, a horizontal box with an ordered child list, a handler wrapping a
//! child with an event binding, and a component embedding further stateful
//! behaviour behind the [`Component`](crate::component::Component) interface.
//!
//! Widgets are compared with [`widget_eq`]: value equality restricted to the
//! same node kind, where nodes of different kinds are never equal. A handler
//! compares its whole value — the event kind, the bound message and the
//! wrapped child — so a re-render that changes only the binding is a real
//! change and is re-subscribed.

use vstd::prelude::*;

use crate::component::Component;

verus! {

/// A push-button leaf with a text label.
#[derive(Clone, Debug)]
pub struct Button {
    /// The label shown on the button.
    pub text: String,
}

/// The one event kind a button emits.
#[derive(Clone, Copy, Debug)]
pub struct Clicked;

impl Clicked {
    /// The event-kind name under which a click is subscribed.
    pub fn name(&self) -> (s: String)
        ensures
            s@ == "clicked"@,
    {
        String::from_str("clicked")
    }
}

/// A titled group container holding at most one child.
#[derive(Clone, Debug)]
pub struct Group {
    /// The title shown on the group frame.
    pub title: String,
    /// Whether the group draws an inner margin.
    pub margined: bool,
}

/// A horizontal box container holding an ordered list of children.
#[derive(Clone, Copy, Debug)]
pub struct HorizontalBox {
    /// Whether the box pads the gaps between children.
    pub padded: bool,
}

/// A group together with its (optional) child slot.
pub struct ConnectSingleChild<C, M> {
    /// The group's own fields.
    pub parent: Group,
    /// The widget in the group's single child slot, if any.
    pub child: Option<Box<Widget<C, M>>>,
}

/// A horizontal box together with its ordered children.
pub struct ConnectChildren<C, M> {
    /// The box's own fields.
    pub parent: HorizontalBox,
    /// The ordered child widgets, first child first.
    pub children: WidgetList<C, M>,
}

/// A child widget wrapped with an event binding: when the named event fires
/// on the child's control, `handler` is queued as a mutation of the nearest
/// enclosing component.
pub struct Handler<C, M> {
    /// The message queued when the event fires.
    pub handler: M,
    /// The native event kind to subscribe to.
    pub event: String,
    /// The wrapped child widget.
    pub child: Box<Widget<C, M>>,
}

/// A component embedded as a widget, by value.
pub struct ComponentWidget<C>(pub C);

/// One node of the desired widget tree.
pub enum Widget<C, M> {
    /// A button leaf.
    Button(Button),
    /// A group with its child slot.
    Single(ConnectSingleChild<C, M>),
    /// A box with its child list.
    Children(ConnectChildren<C, M>),
    /// A child wrapped with an event binding.
    Handler(Handler<C, M>),
    /// An embedded component.
    Component(ComponentWidget<C>),
}

/// An ordered list of child widgets, first child first.
pub enum WidgetList<C, M> {
    /// No further children.
    Nil,
    /// One child followed by the rest.
    Cons(Box<Widget<C, M>>, Box<WidgetList<C, M>>),
}

/// Value equality of widgets: equal only when of the same node kind with
/// equal fields and (recursively) equal children. A handler compares its
/// event kind, its bound message and its child; an embedded component
/// compares by the component's own equality.
pub open spec fn widget_eq<C: Component<Msg = M>, M>(a: Widget<C, M>, b: Widget<C, M>) -> bool
    decreases a,
{
    match (a, b) {
        (Widget::Button(x), Widget::Button(y)) => x.text@ == y.text@,
        (Widget::Single(x), Widget::Single(y)) => {
            &&& x.parent.title@ == y.parent.title@
            &&& x.parent.margined == y.parent.margined
            &&& match (x.child, y.child) {
                (Some(ca), Some(cb)) => widget_eq(*ca, *cb),
                (None, None) => true,
                _ => false,
            }
        },
        (Widget::Children(x), Widget::Children(y)) => {
            &&& x.parent.padded == y.parent.padded
            &&& list_eq(x.children, y.children)
        },
        (Widget::Handler(x), Widget::Handler(y)) => {
            &&& x.event@ == y.event@
            &&& C::msg_eq_spec(&x.handler, &y.handler)
            &&& widget_eq(*x.child, *y.child)
        },
        (Widget::Component(x), Widget::Component(y)) => x.0.eq_spec(&y.0),
        _ => false,
    }
}

/// Widget equality is reflexive: every widget value equals itself.
pub proof fn lemma_widget_eq_refl<C: Component<Msg = M>, M>(w: Widget<C, M>)
    ensures
        widget_eq(w, w),
    decreases w,
{
    match w {
        Widget::Button(_) => {},
        Widget::Single(x) => {
            if let Some(c) = x.child {
                lemma_widget_eq_refl(*c);
            }
        },
        Widget::Children(x) => {
            lemma_list_eq_refl(x.children);
        },
        Widget::Handler(h) => {
            C::msg_eq_refl(&h.handler);
            lemma_widget_eq_refl(*h.child);
        },
        Widget::Component(cw) => {
            cw.0.eq_refl();
        },
    }
}

/// List form of [`lemma_widget_eq_refl`].
pub proof fn lemma_list_eq_refl<C: Component<Msg = M>, M>(l: WidgetList<C, M>)
    ensures
        list_eq(l, l),
    decreases l,
{
    match l {
        WidgetList::Nil => {},
        WidgetList::Cons(x, xs) => {
            lemma_widget_eq_refl(*x);
            lemma_list_eq_refl(*xs);
        },
    }
}

/// Whether two widgets are of the same node kind. Nodes of different kinds
/// are never equal, and reconciling across kinds always rebuilds.
pub open spec fn same_kind<C, M>(a: Widget<C, M>, b: Widget<C, M>) -> bool {
    match (a, b) {
        (Widget::Button(_), Widget::Button(_)) => true,
        (Widget::Single(_), Widget::Single(_)) => true,
        (Widget::Children(_), Widget::Children(_)) => true,
        (Widget::Handler(_), Widget::Handler(_)) => true,
        (Widget::Component(_), Widget::Component(_)) => true,
        _ => false,
    }
}

/// Pointwise [`widget_eq`] over two child lists of equal length.
pub open spec fn list_eq<C: Component<Msg = M>, M>(a: WidgetList<C, M>, b: WidgetList<C, M>) -> bool
    decreases a,
{
    match (a, b) {
        (WidgetList::Nil, WidgetList::Nil) => true,
        (WidgetList::Cons(x, xs), WidgetList::Cons(y, ys)) => widget_eq(*x, *y) && list_eq(
            *xs,
            *ys,
        ),
        _ => false,
    }
}

/// Every component embedded anywhere in `w` measures strictly below `bound`
/// under the measure `rankf`. The measure makes materialization of view
/// results well-founded: a component's view may embed only components of
/// smaller measure.
pub open spec fn rank_bounded<C, M>(w: Widget<C, M>, bound: nat, rankf: spec_fn(C) -> nat) -> bool
    decreases w,
{
    match w {
        Widget::Button(_) => true,
        Widget::Single(x) => match x.child {
            Some(c) => rank_bounded(*c, bound, rankf),
            None => true,
        },
        Widget::Children(x) => list_rank_bounded(x.children, bound, rankf),
        Widget::Handler(h) => rank_bounded(*h.child, bound, rankf),
        Widget::Component(cw) => rankf(cw.0) < bound,
    }
}

/// [`rank_bounded`] over every widget of a child list.
pub open spec fn list_rank_bounded<C, M>(
    l: WidgetList<C, M>,
    bound: nat,
    rankf: spec_fn(C) -> nat,
) -> bool
    decreases l,
{
    match l {
        WidgetList::Nil => true,
        WidgetList::Cons(x, xs) => rank_bounded(*x, bound, rankf) && list_rank_bounded(
            *xs,
            bound,
            rankf,
        ),
    }
}

/// `l` with `w` appended after its last element.
pub open spec fn list_snoc<C, M>(l: WidgetList<C, M>, w: Widget<C, M>) -> WidgetList<
    C,
    M,
>
    decreases l,
{
    match l {
        WidgetList::Nil => WidgetList::Cons(Box::new(w), Box::new(WidgetList::Nil)),
        WidgetList::Cons(x, xs) => WidgetList::Cons(x, Box::new(list_snoc(*xs, w))),
    }
}

/// Makes an exact copy of a widget value.
pub fn widget_dup<C: Component<Msg = M>, M>(w: &Widget<C, M>) -> (r: Widget<C, M>)
    ensures
        r == *w,
    decreases *w,
{
    match w {
        Widget::Button(b) => Widget::Button(Button { text: b.text.clone() }),
        Widget::Single(s) => Widget::Single(
            ConnectSingleChild {
                parent: Group { title: s.parent.title.clone(), margined: s.parent.margined },
                child: match &s.child {
                    Some(c) => Some(Box::new(widget_dup(c))),
                    None => None,
                },
            },
        ),
        Widget::Children(x) => Widget::Children(
            ConnectChildren {
                parent: HorizontalBox { padded: x.parent.padded },
                children: list_dup(&x.children),
            },
        ),
        Widget::Handler(h) => Widget::Handler(
            Handler {
                handler: C::dup_msg(&h.handler),
                event: h.event.clone(),
                child: Box::new(widget_dup(&h.child)),
            },
        ),
        Widget::Component(cw) => Widget::Component(ComponentWidget(cw.0.dup())),
    }
}

/// Makes an exact copy of a child list.
pub fn list_dup<C: Component<Msg = M>, M>(l: &WidgetList<C, M>) -> (r: WidgetList<C, M>)
    ensures
        r == *l,
    decreases *l,
{
    match l {
        WidgetList::Nil => WidgetList::Nil,
        WidgetList::Cons(x, xs) => WidgetList::Cons(
            Box::new(widget_dup(x)),
            Box::new(list_dup(xs)),
        ),
    }
}

/// Decides [`widget_eq`].
pub fn widget_equals<C: Component<Msg = M>, M>(a: &Widget<C, M>, b: &Widget<C, M>) -> (r: bool)
    ensures
        r == widget_eq(*a, *b),
    decreases *a,
{
    match (a, b) {
        (Widget::Button(x), Widget::Button(y)) => x.text == y.text,
        (Widget::Single(x), Widget::Single(y)) => x.parent.title == y.parent.title
            && x.parent.margined == y.parent.margined && match (&x.child, &y.child) {
            (Some(ca), Some(cb)) => widget_equals(ca, cb),
            (None, None) => true,
            _ => false,
        },
        (Widget::Children(x), Widget::Children(y)) => x.parent.padded == y.parent.padded
            && list_equals(&x.children, &y.children),
        (Widget::Handler(x), Widget::Handler(y)) => x.event == y.event && C::msg_equals(
            &x.handler,
            &y.handler,
        ) && widget_equals(&x.child, &y.child),
        (Widget::Component(x), Widget::Component(y)) => x.0.equals(&y.0),
        _ => false,
    }
}

/// Decides [`list_eq`].
pub fn list_equals<C: Component<Msg = M>, M>(a: &WidgetList<C, M>, b: &WidgetList<C, M>) -> (r: bool)
    ensures
        r == list_eq(*a, *b),
    decreases *a,
{
    match (a, b) {
        (WidgetList::Nil, WidgetList::Nil) => true,
        (WidgetList::Cons(x, xs), WidgetList::Cons(y, ys)) => widget_equals(x, y) && list_equals(
            xs,
            ys,
        ),
        _ => false,
    }
}

impl Button {
    /// Wraps this button with a click binding: when the button is clicked,
    /// `handler` is queued for the nearest enclosing component.
    pub fn on_clicked<C, M>(self, handler: M) -> (r: Handler<C, M>)
        ensures
            r.handler == handler,
            r.event@ == "clicked"@,
            *r.child == Widget::<C, M>::Button(self),
    {
        Handler { handler, event: Clicked.name(), child: Box::new(Widget::Button(self)) }
    }
}

impl Group {
    /// Puts `child` in this group's single child slot.
    pub fn child<C, M>(self, child: Widget<C, M>) -> (r: ConnectSingleChild<C, M>)
        ensures
            r.parent == self,
            r.child matches Some(c) && *c == child,
    {
        ConnectSingleChild { parent: self, child: Some(Box::new(child)) }
    }
}

impl HorizontalBox {
    /// Starts this box's child list with `child` as its only element.
    pub fn child<C, M>(self, child: Widget<C, M>) -> (r: ConnectChildren<C, M>)
        ensures
            r.parent == self,
            r.children == WidgetList::Cons(
                Box::new(child),
                Box::new(WidgetList::<C, M>::Nil),
            ),
    {
        ConnectChildren {
            parent: self,
            children: WidgetList::Cons(Box::new(child), Box::new(WidgetList::Nil)),
        }
    }
}

impl<C, M> ConnectChildren<C, M> {
    /// Appends one more child after the current children.
    pub fn child(self, child: Widget<C, M>) -> (r: ConnectChildren<C, M>)
        ensures
            r.parent == self.parent,
            r.children == list_snoc(self.children, child),
    {
        ConnectChildren { parent: self.parent, children: list_append(self.children, child) }
    }
}

/// Appends `w` after the last element of `l`.
fn list_append<C, M>(l: WidgetList<C, M>, w: Widget<C, M>) -> (r: WidgetList<C, M>)
    ensures
        r == list_snoc(l, w),
    decreases l,
{
    match l {
        WidgetList::Nil => WidgetList::Cons(Box::new(w), Box::new(WidgetList::Nil)),
        WidgetList::Cons(x, xs) => WidgetList::Cons(x, Box::new(list_append(*xs, w))),
    }
}

} // verus!
