//! Sample components: a reference implementation of [`Component`].
//!
//! A widget tree embeds components of one closed type, so an application
//! gathers its component kinds in one enum. [`SampleComponent`] covers a
//! plain toggle button, a titled panel embedding two independent toggles, a
//! staged scene walking through field updates, an emptied slot and a kind
//! change, a fillable child slot, a growing and shrinking child list, a
//! component embedded inside another by value, and an event binding over a
//! kind-changing child. Together they exercise every branch of the engine —
//! leaf updates, container slots, child-list rebuilds, event bindings,
//! re-subscription and nested components — and the tests drive the engine
//! through them.

use vstd::prelude::*;

use crate::component::Component;
use crate::widgets::Button;
use crate::widgets::Clicked;
use crate::widgets::ComponentWidget;
use crate::widgets::Group;
use crate::widgets::HorizontalBox;
use crate::widgets::Widget;
use crate::widgets::WidgetList;

verus! {

/// A button showing a boolean and flipping it on each click.
#[derive(Clone, Copy, Debug)]
pub struct Toggle {
    /// The displayed and toggled value.
    pub value: bool,
}

/// A titled, margined group holding two independent toggles side by side.
/// Its own message flips between two titles, so the panel can be
/// re-rendered without touching the embedded toggles' state.
#[derive(Clone, Copy, Debug)]
pub struct Panel {
    /// Which of the two titles the group shows.
    pub formal: bool,
}

/// A four-stage demonstration scene: a greeting group holding a button,
/// the same group with new button text, a retitled group with an emptied
/// child slot, and finally a bare button in place of the group.
#[derive(Clone, Copy, Debug)]
pub struct Scene {
    /// Where in the sequence the scene stands.
    pub stage: Stage,
}

/// The stages a [`Scene`] advances through.
#[derive(Clone, Copy, Debug, PartialEq, Eq, Structural)]
pub enum Stage {
    /// `Hello` group holding a `world!` button.
    Greet,
    /// `Hello` group holding a `there!` button.
    Retext,
    /// `Bye` group with an empty child slot.
    Farewell,
    /// A bare `plain` button, no group at all.
    Plain,
}

/// The stage after one advance.
pub open spec fn next_stage(s: Stage) -> Stage {
    match s {
        Stage::Greet => Stage::Retext,
        Stage::Retext => Stage::Farewell,
        Stage::Farewell => Stage::Plain,
        Stage::Plain => Stage::Plain,
    }
}

/// A group whose single child slot is alternately filled with a button and
/// emptied; its margin follows the slot.
#[derive(Clone, Copy, Debug)]
pub struct Slot {
    /// Whether the slot holds a button.
    pub filled: bool,
}

/// A box whose child list is alternately empty and two buttons wide; its
/// padding follows the width.
#[derive(Clone, Copy, Debug)]
pub struct Row {
    /// Whether the box holds its two buttons.
    pub wide: bool,
}

/// A component whose whole view is another, embedded component; advancing
/// changes the embedded value, so the embedded component is replaced
/// wholesale.
#[derive(Clone, Copy, Debug)]
pub struct Holder {
    /// The value the embedded toggle is created with.
    pub on: bool,
}

/// A click binding over a child that changes kind when advanced, so the
/// binding must be re-subscribed on the freshly built control.
#[derive(Clone, Copy, Debug)]
pub struct Wrap {
    /// Whether the wrapped child is the bare button (else a titled group).
    pub plain: bool,
}

/// A button whose click binding alternates between two messages while the
/// button itself never changes, so a re-render must re-subscribe the
/// surviving control with the new binding.
#[derive(Clone, Copy, Debug)]
pub struct Rebind {
    /// Whether the alternate message is currently bound.
    pub alt: bool,
}

/// The closed set of sample component kinds.
#[derive(Clone, Copy, Debug)]
pub enum SampleComponent {
    /// A toggle button.
    Toggle(Toggle),
    /// A titled panel of two toggles.
    Panel(Panel),
    /// A staged demonstration scene.
    Scene(Scene),
    /// A group with an optional child.
    Slot(Slot),
    /// A box with a changing child list.
    Row(Row),
    /// A component embedding another component by value.
    Holder(Holder),
    /// A binding over a kind-changing child.
    Wrap(Wrap),
    /// A binding that changes while its control survives.
    Rebind(Rebind),
}

/// The messages the sample components understand. A message addressed to a
/// component of the other kind leaves its state unchanged; the engine only
/// ever routes a binding to the component whose view created it, so that
/// case never arises from the engine itself.
#[derive(Clone, Copy, Debug)]
pub enum SampleMsg {
    /// Flip a toggle's value.
    Flip,
    /// Switch a panel to its other title.
    Retitle,
    /// Move a scene to its next stage.
    Advance,
}

/// The title a panel shows for a given mood.
pub open spec fn panel_title(formal: bool) -> Seq<char> {
    if formal {
        "Hello"@
    } else {
        "Hi"@
    }
}

/// The label a toggle shows for a given value.
pub open spec fn toggle_text(value: bool) -> Seq<char> {
    if value {
        "on"@
    } else {
        "off"@
    }
}

/// Whether `w` is a margined group with the given title, holding either a
/// button with the given label or nothing.
pub open spec fn scene_group_views(
    w: Widget<SampleComponent, SampleMsg>,
    title: Seq<char>,
    label: Option<Seq<char>>,
) -> bool {
    match w {
        Widget::Single(s) => {
            &&& s.parent.title@ == title
            &&& s.parent.margined
            &&& match (s.child, label) {
                (Some(c), Some(text)) => match *c {
                    Widget::Button(x) => x.text@ == text,
                    _ => false,
                },
                (None, None) => true,
                _ => false,
            }
        },
        _ => false,
    }
}

/// The widget value embedding a fresh (off) toggle.
pub open spec fn fresh_toggle() -> Widget<SampleComponent, SampleMsg> {
    Widget::Component(ComponentWidget(SampleComponent::Toggle(Toggle { value: false })))
}

impl Component for SampleComponent {
    type Msg = SampleMsg;

    open spec fn rank(&self) -> nat {
        match *self {
            SampleComponent::Toggle(_) => 0,
            SampleComponent::Panel(_) => 1,
            SampleComponent::Scene(_) => 0,
            SampleComponent::Slot(_) => 0,
            SampleComponent::Row(_) => 0,
            SampleComponent::Holder(_) => 1,
            SampleComponent::Wrap(_) => 0,
            SampleComponent::Rebind(_) => 0,
        }
    }

    open spec fn eq_spec(&self, other: &Self) -> bool {
        match (*self, *other) {
            (SampleComponent::Toggle(a), SampleComponent::Toggle(b)) => a.value == b.value,
            (SampleComponent::Panel(a), SampleComponent::Panel(b)) => a.formal == b.formal,
            (SampleComponent::Scene(a), SampleComponent::Scene(b)) => a.stage == b.stage,
            (SampleComponent::Slot(a), SampleComponent::Slot(b)) => a.filled == b.filled,
            (SampleComponent::Row(a), SampleComponent::Row(b)) => a.wide == b.wide,
            (SampleComponent::Holder(a), SampleComponent::Holder(b)) => a.on == b.on,
            (SampleComponent::Wrap(a), SampleComponent::Wrap(b)) => a.plain == b.plain,
            (SampleComponent::Rebind(a), SampleComponent::Rebind(b)) => a.alt == b.alt,
            _ => false,
        }
    }

    open spec fn update_spec(&self, msg: SampleMsg) -> SampleComponent {
        match (*self, msg) {
            (SampleComponent::Toggle(t), SampleMsg::Flip) => SampleComponent::Toggle(
                Toggle { value: !t.value },
            ),
            (SampleComponent::Panel(p), SampleMsg::Retitle) => SampleComponent::Panel(
                Panel { formal: !p.formal },
            ),
            (SampleComponent::Scene(s), SampleMsg::Advance) => SampleComponent::Scene(
                Scene { stage: next_stage(s.stage) },
            ),
            (SampleComponent::Slot(s), SampleMsg::Advance) => SampleComponent::Slot(
                Slot { filled: !s.filled },
            ),
            (SampleComponent::Row(r), SampleMsg::Advance) => SampleComponent::Row(
                Row { wide: !r.wide },
            ),
            (SampleComponent::Holder(h), SampleMsg::Advance) => SampleComponent::Holder(
                Holder { on: !h.on },
            ),
            (SampleComponent::Wrap(v), SampleMsg::Advance) => SampleComponent::Wrap(
                Wrap { plain: !v.plain },
            ),
            (SampleComponent::Rebind(rb), SampleMsg::Advance) => SampleComponent::Rebind(
                Rebind { alt: !rb.alt },
            ),
            (SampleComponent::Rebind(rb), SampleMsg::Retitle) => SampleComponent::Rebind(
                Rebind { alt: !rb.alt },
            ),
            _ => *self,
        }
    }

    open spec fn views(&self, w: Widget<SampleComponent, SampleMsg>) -> bool {
        match *self {
            SampleComponent::Toggle(t) => match w {
                Widget::Handler(h) => {
                    &&& h.event@ == "clicked"@
                    &&& h.handler is Flip
                    &&& match *h.child {
                        Widget::Button(x) => x.text@ == toggle_text(t.value),
                        _ => false,
                    }
                },
                _ => false,
            },
            SampleComponent::Panel(p) => match w {
                Widget::Single(s) => {
                    &&& s.parent.title@ == panel_title(p.formal)
                    &&& s.parent.margined
                    &&& match s.child {
                        Some(c) => match *c {
                            Widget::Children(x) => {
                                &&& x.parent.padded
                                &&& x.children matches WidgetList::Cons(a, rest)
                                &&& *a == fresh_toggle()
                                &&& *rest matches WidgetList::Cons(d, nil)
                                &&& *d == fresh_toggle()
                                &&& *nil is Nil
                            },
                            _ => false,
                        },
                        None => false,
                    }
                },
                _ => false,
            },
            SampleComponent::Scene(sc) => match sc.stage {
                Stage::Greet => scene_group_views(w, "Hello"@, Some("world!"@)),
                Stage::Retext => scene_group_views(w, "Hello"@, Some("there!"@)),
                Stage::Farewell => scene_group_views(w, "Bye"@, None),
                Stage::Plain => w matches Widget::Button(x) && x.text@ == "plain"@,
            },
            SampleComponent::Slot(sl) => match w {
                Widget::Single(s) => {
                    &&& s.parent.title@ == "slot"@
                    &&& s.parent.margined == sl.filled
                    &&& match s.child {
                        Some(c) => sl.filled && (*c matches Widget::Button(x) && x.text@
                            == "x"@),
                        None => !sl.filled,
                    }
                },
                _ => false,
            },
            SampleComponent::Row(rw) => match w {
                Widget::Children(x) => {
                    &&& x.parent.padded == rw.wide
                    &&& if rw.wide {
                        &&& x.children matches WidgetList::Cons(a, rest)
                        &&& *a matches Widget::Button(ba) && ba.text@ == "a"@
                        &&& *rest matches WidgetList::Cons(d, nil)
                        &&& *d matches Widget::Button(bd) && bd.text@ == "b"@
                        &&& *nil is Nil
                    } else {
                        x.children is Nil
                    }
                },
                _ => false,
            },
            SampleComponent::Holder(h) => match w {
                Widget::Component(cw) => (cw.0 matches SampleComponent::Toggle(t) && t.value
                    == h.on),
                _ => false,
            },
            SampleComponent::Rebind(rb) => match w {
                Widget::Handler(hd) => {
                    &&& hd.event@ == "clicked"@
                    &&& if rb.alt {
                        hd.handler is Retitle
                    } else {
                        hd.handler is Advance
                    }
                    &&& (*hd.child matches Widget::Button(x) && x.text@ == "r"@)
                },
                _ => false,
            },
            SampleComponent::Wrap(v) => match w {
                Widget::Handler(hd) => {
                    &&& hd.event@ == "clicked"@
                    &&& hd.handler is Advance
                    &&& if v.plain {
                        (*hd.child matches Widget::Button(x) && x.text@ == "w"@)
                    } else {
                        match *hd.child {
                            Widget::Single(s) => {
                                &&& s.parent.title@ == "w"@
                                &&& s.parent.margined
                                &&& s.child is None
                            },
                            _ => false,
                        }
                    }
                },
                _ => false,
            },
        }
    }

    proof fn eq_refl(&self) {
    }

    open spec fn msg_eq_spec(a: &SampleMsg, b: &SampleMsg) -> bool {
        match (*a, *b) {
            (SampleMsg::Flip, SampleMsg::Flip) => true,
            (SampleMsg::Retitle, SampleMsg::Retitle) => true,
            (SampleMsg::Advance, SampleMsg::Advance) => true,
            _ => false,
        }
    }

    proof fn msg_eq_refl(m: &SampleMsg) {
    }

    fn msg_equals(a: &SampleMsg, b: &SampleMsg) -> (r: bool) {
        match (a, b) {
            (SampleMsg::Flip, SampleMsg::Flip) => true,
            (SampleMsg::Retitle, SampleMsg::Retitle) => true,
            (SampleMsg::Advance, SampleMsg::Advance) => true,
            _ => false,
        }
    }

    fn equals(&self, other: &Self) -> (r: bool) {
        match (self, other) {
            (SampleComponent::Toggle(a), SampleComponent::Toggle(b)) => a.value == b.value,
            (SampleComponent::Panel(a), SampleComponent::Panel(b)) => a.formal == b.formal,
            (SampleComponent::Scene(a), SampleComponent::Scene(b)) => a.stage == b.stage,
            (SampleComponent::Slot(a), SampleComponent::Slot(b)) => a.filled == b.filled,
            (SampleComponent::Row(a), SampleComponent::Row(b)) => a.wide == b.wide,
            (SampleComponent::Holder(a), SampleComponent::Holder(b)) => a.on == b.on,
            (SampleComponent::Wrap(a), SampleComponent::Wrap(b)) => a.plain == b.plain,
            (SampleComponent::Rebind(a), SampleComponent::Rebind(b)) => a.alt == b.alt,
            _ => false,
        }
    }

    fn dup(&self) -> (c: Self) {
        match self {
            SampleComponent::Toggle(t) => SampleComponent::Toggle(Toggle { value: t.value }),
            SampleComponent::Panel(p) => SampleComponent::Panel(Panel { formal: p.formal }),
            SampleComponent::Scene(s) => SampleComponent::Scene(Scene { stage: s.stage }),
            SampleComponent::Slot(s) => SampleComponent::Slot(Slot { filled: s.filled }),
            SampleComponent::Row(r) => SampleComponent::Row(Row { wide: r.wide }),
            SampleComponent::Holder(h) => SampleComponent::Holder(Holder { on: h.on }),
            SampleComponent::Wrap(v) => SampleComponent::Wrap(Wrap { plain: v.plain }),
            SampleComponent::Rebind(rb) => SampleComponent::Rebind(Rebind { alt: rb.alt }),
        }
    }

    fn dup_msg(m: &SampleMsg) -> (r: SampleMsg) {
        match m {
            SampleMsg::Flip => SampleMsg::Flip,
            SampleMsg::Retitle => SampleMsg::Retitle,
            SampleMsg::Advance => SampleMsg::Advance,
        }
    }

    fn update(&mut self, msg: SampleMsg) {
        match (&*self, msg) {
            (SampleComponent::Toggle(t), SampleMsg::Flip) => {
                *self = SampleComponent::Toggle(Toggle { value: !t.value });
            },
            (SampleComponent::Panel(p), SampleMsg::Retitle) => {
                *self = SampleComponent::Panel(Panel { formal: !p.formal });
            },
            (SampleComponent::Scene(s), SampleMsg::Advance) => {
                let stage = match s.stage {
                    Stage::Greet => Stage::Retext,
                    Stage::Retext => Stage::Farewell,
                    Stage::Farewell => Stage::Plain,
                    Stage::Plain => Stage::Plain,
                };
                *self = SampleComponent::Scene(Scene { stage });
            },
            (SampleComponent::Slot(s), SampleMsg::Advance) => {
                *self = SampleComponent::Slot(Slot { filled: !s.filled });
            },
            (SampleComponent::Row(r), SampleMsg::Advance) => {
                *self = SampleComponent::Row(Row { wide: !r.wide });
            },
            (SampleComponent::Holder(h), SampleMsg::Advance) => {
                *self = SampleComponent::Holder(Holder { on: !h.on });
            },
            (SampleComponent::Wrap(v), SampleMsg::Advance) => {
                *self = SampleComponent::Wrap(Wrap { plain: !v.plain });
            },
            (SampleComponent::Rebind(rb), SampleMsg::Advance) => {
                *self = SampleComponent::Rebind(Rebind { alt: !rb.alt });
            },
            (SampleComponent::Rebind(rb), SampleMsg::Retitle) => {
                *self = SampleComponent::Rebind(Rebind { alt: !rb.alt });
            },
            _ => {},
        }
    }

    fn view(&self) -> (w: Widget<SampleComponent, SampleMsg>) {
        match self {
            SampleComponent::Toggle(t) => {
                let text = if t.value {
                    String::from_str("on")
                } else {
                    String::from_str("off")
                };
                let h = Button { text }.on_clicked(SampleMsg::Flip);
                proof {
                    assert(crate::widgets::rank_bounded(
                        *h.child,
                        0,
                        |c: SampleComponent| c.rank(),
                    ));
                }
                let w = Widget::Handler(h);
                proof {
                    assert(crate::widgets::rank_bounded(w, 0, |c: SampleComponent| c.rank()));
                    assert(self.views(w));
                }
                w
            },
            SampleComponent::Panel(p) => {
                let title = if p.formal {
                    String::from_str("Hello")
                } else {
                    String::from_str("Hi")
                };
                let one = HorizontalBox { padded: true }.child(
                    Widget::Component(
                        ComponentWidget(SampleComponent::Toggle(Toggle { value: false })),
                    ),
                );
                let row = one.child(
                    Widget::Component(
                        ComponentWidget(SampleComponent::Toggle(Toggle { value: false })),
                    ),
                );
                proof {
                    assert(one.children == WidgetList::Cons(
                        Box::new(fresh_toggle()),
                        Box::new(WidgetList::<SampleComponent, SampleMsg>::Nil),
                    ));
                    assert(crate::widgets::list_snoc(
                        WidgetList::<SampleComponent, SampleMsg>::Nil,
                        fresh_toggle(),
                    ) == WidgetList::Cons(
                        Box::new(fresh_toggle()),
                        Box::new(WidgetList::<SampleComponent, SampleMsg>::Nil),
                    ));
                    assert(row.children == WidgetList::Cons(
                        Box::new(fresh_toggle()),
                        Box::new(WidgetList::Cons(
                            Box::new(fresh_toggle()),
                            Box::new(WidgetList::<SampleComponent, SampleMsg>::Nil),
                        )),
                    ));
                    let rankf = |c: SampleComponent| c.rank();
                    assert(crate::widgets::rank_bounded(fresh_toggle(), 1, rankf));
                    assert(crate::widgets::list_rank_bounded(
                        WidgetList::<SampleComponent, SampleMsg>::Nil,
                        1,
                        rankf,
                    ));
                    assert(crate::widgets::list_rank_bounded(
                        WidgetList::Cons(
                            Box::new(fresh_toggle()),
                            Box::new(WidgetList::<SampleComponent, SampleMsg>::Nil),
                        ),
                        1,
                        rankf,
                    ));
                    assert(crate::widgets::list_rank_bounded(row.children, 1, rankf));
                }
                let ghost rowg = row;
                let s = Group { title, margined: true }.child(Widget::Children(row));
                let w = Widget::Single(s);
                proof {
                    let rankf = |c: SampleComponent| c.rank();
                    assert(crate::widgets::rank_bounded(
                        Widget::Children(rowg),
                        1,
                        rankf,
                    ));
                    assert(crate::widgets::rank_bounded(w, 1, rankf));
                    assert(self.views(w));
                }
                w
            },
            SampleComponent::Scene(sc) => {
                let w = match sc.stage {
                    Stage::Greet => Widget::Single(
                        Group { title: String::from_str("Hello"), margined: true }.child(
                            Widget::Button(Button { text: String::from_str("world!") }),
                        ),
                    ),
                    Stage::Retext => Widget::Single(
                        Group { title: String::from_str("Hello"), margined: true }.child(
                            Widget::Button(Button { text: String::from_str("there!") }),
                        ),
                    ),
                    Stage::Farewell => Widget::Single(
                        crate::widgets::ConnectSingleChild {
                            parent: Group { title: String::from_str("Bye"), margined: true },
                            child: None,
                        },
                    ),
                    Stage::Plain => Widget::Button(Button { text: String::from_str("plain") }),
                };
                proof {
                    let rankf = |c: SampleComponent| c.rank();
                    assert(crate::widgets::rank_bounded(w, 0, rankf)) by {
                        reveal_with_fuel(crate::widgets::rank_bounded, 3);
                    }
                    assert(self.views(w));
                }
                w
            },
            SampleComponent::Slot(sl) => {
                let w = if sl.filled {
                    Widget::Single(
                        Group { title: String::from_str("slot"), margined: true }.child(
                            Widget::Button(Button { text: String::from_str("x") }),
                        ),
                    )
                } else {
                    Widget::Single(
                        crate::widgets::ConnectSingleChild {
                            parent: Group { title: String::from_str("slot"), margined: false },
                            child: None,
                        },
                    )
                };
                proof {
                    let rankf = |c: SampleComponent| c.rank();
                    assert(crate::widgets::rank_bounded(w, 0, rankf)) by {
                        reveal_with_fuel(crate::widgets::rank_bounded, 3);
                    }
                    assert(self.views(w));
                }
                w
            },
            SampleComponent::Row(rw) => {
                let children = if rw.wide {
                    WidgetList::Cons(
                        Box::new(Widget::Button(Button { text: String::from_str("a") })),
                        Box::new(
                            WidgetList::Cons(
                                Box::new(Widget::Button(Button { text: String::from_str("b") })),
                                Box::new(WidgetList::Nil),
                            ),
                        ),
                    )
                } else {
                    WidgetList::Nil
                };
                let w = Widget::Children(
                    crate::widgets::ConnectChildren {
                        parent: HorizontalBox { padded: rw.wide },
                        children,
                    },
                );
                proof {
                    let rankf = |c: SampleComponent| c.rank();
                    assert(crate::widgets::rank_bounded(w, 0, rankf)) by {
                        reveal_with_fuel(crate::widgets::rank_bounded, 4);
                        reveal_with_fuel(crate::widgets::list_rank_bounded, 4);
                    }
                    assert(self.views(w));
                }
                w
            },
            SampleComponent::Holder(h) => {
                let w = Widget::Component(
                    ComponentWidget(SampleComponent::Toggle(Toggle { value: h.on })),
                );
                proof {
                    assert(self.views(w));
                }
                w
            },
            SampleComponent::Rebind(rb) => {
                let msg = if rb.alt {
                    SampleMsg::Retitle
                } else {
                    SampleMsg::Advance
                };
                let w = Widget::Handler(
                    crate::widgets::Handler {
                        handler: msg,
                        event: Clicked.name(),
                        child: Box::new(Widget::Button(Button { text: String::from_str("r") })),
                    },
                );
                proof {
                    let rankf = |c: SampleComponent| c.rank();
                    assert(crate::widgets::rank_bounded(w, 0, rankf)) by {
                        reveal_with_fuel(crate::widgets::rank_bounded, 3);
                    }
                    assert(self.views(w));
                }
                w
            },
            SampleComponent::Wrap(v) => {
                let child = if v.plain {
                    Widget::Button(Button { text: String::from_str("w") })
                } else {
                    Widget::Single(
                        crate::widgets::ConnectSingleChild {
                            parent: Group { title: String::from_str("w"), margined: true },
                            child: None,
                        },
                    )
                };
                let w = Widget::Handler(
                    crate::widgets::Handler {
                        handler: SampleMsg::Advance,
                        event: Clicked.name(),
                        child: Box::new(child),
                    },
                );
                proof {
                    let rankf = |c: SampleComponent| c.rank();
                    assert(crate::widgets::rank_bounded(w, 0, rankf)) by {
                        reveal_with_fuel(crate::widgets::rank_bounded, 3);
                    }
                    assert(self.views(w));
                }
                w
            },
        }
    }
}

} // verus!
