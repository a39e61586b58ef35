//! Behavioral tests driving the engine through the sample components and
//! inspecting the backend call log.

use reactive_ui::backend::{ControlKind, Desc, Field, Op};
use reactive_ui::engine::Engine;
use reactive_ui::sample::{Holder, Panel, Rebind, Row, SampleComponent, SampleMsg, Scene, Slot, Stage, Toggle, Wrap};

/// The initial description of a button with the given label.
fn button_desc(text: &str) -> Desc {
    Desc {
        kind: ControlKind::Button,
        text: String::from(text),
        title: String::new(),
        margined: false,
        padded: false,
    }
}

/// Whether an op names control `c` in any position.
fn op_refs(op: &Op, c: usize) -> bool {
    match op {
        Op::Create(x, _) => *x == c,
        Op::UpdateField(x, _) => *x == c,
        Op::SetChild(x, y) => *x == c || *y == c,
        Op::ClearChild(x) => *x == c,
        Op::AppendChild(x, y) => *x == c || *y == c,
        Op::ClearChildren(x) => *x == c,
        Op::Subscribe(x, _) => *x == c,
        Op::Destroy(x) => *x == c,
    }
}

#[test]
fn equality_skip_costs_nothing() {
    let mut engine = Engine::new(SampleComponent::Panel(Panel { formal: true }));
    let ops_before = engine.backend.ops.len();
    let entity = engine.root_entity();
    let control = engine.root_control();
    // A flip message means nothing to a panel: the state is unchanged, the
    // new view equals the old one, and reconciliation must touch nothing.
    engine.send(SampleMsg::Flip);
    let engine = engine.tick();
    assert_eq!(engine.backend.ops.len(), ops_before);
    assert_eq!(engine.root_entity(), entity);
    assert_eq!(engine.root_control(), control);
}

#[test]
fn leaf_field_update_is_one_call() {
    let mut engine = Engine::new(SampleComponent::Toggle(Toggle { value: false }));
    assert_eq!(engine.store.subs.len(), 1);
    assert_eq!(engine.store.subs[0].event, "clicked");
    let ops_before = engine.backend.ops.len();
    assert!(engine.fire(0));
    let engine = engine.tick();
    // exactly one backend call: the text update, no create, no destroy
    assert_eq!(engine.backend.ops.len(), ops_before + 1);
    assert_eq!(
        engine.backend.ops[ops_before],
        Op::UpdateField(0, Field::Text(String::from("on")))
    );
}

#[test]
fn type_change_rebuilds() {
    let mut engine = Engine::new(SampleComponent::Scene(Scene { stage: Stage::Farewell }));
    let group = engine.root_control();
    assert_eq!(engine.backend.controls[group].kind, ControlKind::Group);
    let ops_before = engine.backend.ops.len();
    engine.send(SampleMsg::Advance);
    let engine = engine.tick();
    let tail = &engine.backend.ops[ops_before..];
    // the old group is destroyed, a fresh button is built, nothing is updated
    assert!(tail.iter().any(|op| matches!(op, Op::Destroy(c) if *c == group)));
    assert!(tail
        .iter()
        .any(|op| matches!(op, Op::Create(_, d) if d.kind == ControlKind::Button)));
    assert!(!tail.iter().any(|op| matches!(op, Op::UpdateField(..))));
    let button = engine.root_control();
    assert_ne!(button, group);
    assert_eq!(engine.backend.controls[button].text, "plain");
    assert!(!engine.backend.controls[group].alive);
}

#[test]
fn nested_component_state_is_isolated() {
    let mut engine = Engine::new(SampleComponent::Panel(Panel { formal: true }));
    assert_eq!(engine.store.subs.len(), 2);
    let left = engine.store.subs[0].control;
    assert_eq!(engine.backend.controls[left].text, "off");
    // click the left toggle: its own queue re-renders only its subtree
    assert!(engine.fire(0));
    let mut engine = engine.tick();
    assert_eq!(engine.backend.controls[left].text, "on");
    // re-render the panel with the same embedded values: the toggles'
    // state and controls stay untouched, only the group title changes
    let ops_before = engine.backend.ops.len();
    engine.send(SampleMsg::Retitle);
    let engine = engine.tick();
    assert_eq!(engine.backend.ops.len(), ops_before + 1);
    assert_eq!(
        engine.backend.ops[ops_before],
        Op::UpdateField(0, Field::Title(String::from("Hi")))
    );
    assert_eq!(engine.backend.controls[left].text, "on");
}

#[test]
fn event_round_trip_applies_once() {
    let mut engine = Engine::new(SampleComponent::Toggle(Toggle { value: false }));
    assert!(engine.fire(0));
    let engine = engine.tick();
    // the handler ran exactly once: one update in the whole log
    let updates = engine
        .backend
        .ops
        .iter()
        .filter(|op| matches!(op, Op::UpdateField(..)))
        .count();
    assert_eq!(updates, 1);
    assert_eq!(engine.backend.controls[0].text, "on");
    // nothing left pending: the next tick does nothing
    let ops_before = engine.backend.ops.len();
    let engine = engine.tick();
    assert_eq!(engine.backend.ops.len(), ops_before);
}

#[test]
fn firing_an_unknown_subscription_does_nothing() {
    let mut engine = Engine::new(SampleComponent::Toggle(Toggle { value: false }));
    let ops_before = engine.backend.ops.len();
    assert!(!engine.fire(7));
    let engine = engine.tick();
    assert_eq!(engine.backend.ops.len(), ops_before);
    assert_eq!(engine.backend.controls[0].text, "off");
}

#[test]
fn no_leak_no_double_free() {
    let mut engine = Engine::new(SampleComponent::Scene(Scene { stage: Stage::Greet }));
    for _ in 0..3 {
        engine.send(SampleMsg::Advance);
        engine = engine.tick();
    }
    let ops = &engine.backend.ops;
    // a destroyed handle is destroyed once and never referenced again
    for (i, op) in ops.iter().enumerate() {
        if let Op::Destroy(c) = op {
            for later in &ops[i + 1..] {
                assert!(!op_refs(later, *c));
            }
        }
    }
    // every control record agrees with the log: alive means never
    // destroyed, dead means destroyed exactly once
    for (c, rec) in engine.backend.controls.iter().enumerate() {
        let destroys = ops
            .iter()
            .filter(|op| matches!(op, Op::Destroy(d) if *d == c))
            .count();
        assert_eq!(destroys, if rec.alive { 0 } else { 1 });
    }
}

#[test]
fn concrete_scenario() {
    // build Container{title: "Hello", child: Leaf{text: "world!"}}
    let mut engine = Engine::new(SampleComponent::Scene(Scene { stage: Stage::Greet }));
    let group = engine.root_control();
    assert_eq!(engine.backend.controls[group].title, "Hello");
    assert_eq!(engine.backend.controls[1].text, "world!");
    // reconcile against Container{title: "Hello", child: Leaf{text: "there!"}}:
    // one text update on the leaf, nothing at all on the container
    let ops_before = engine.backend.ops.len();
    engine.send(SampleMsg::Advance);
    let mut engine = engine.tick();
    assert_eq!(engine.backend.ops.len(), ops_before + 1);
    assert_eq!(
        engine.backend.ops[ops_before],
        Op::UpdateField(1, Field::Text(String::from("there!")))
    );
    // reconcile against Container{title: "Bye", child: None}: a title
    // update, the slot cleared, and the old leaf destroyed — never reused
    let ops_before = engine.backend.ops.len();
    engine.send(SampleMsg::Advance);
    let engine = engine.tick();
    let tail = &engine.backend.ops[ops_before..];
    assert_eq!(
        tail,
        &[
            Op::UpdateField(0, Field::Title(String::from("Bye"))),
            Op::ClearChild(0),
            Op::Destroy(1),
        ]
    );
    assert!(!engine.backend.controls[1].alive);
    assert_eq!(engine.backend.controls[0].title, "Bye");
}

#[test]
fn fresh_build_emits_only_builds() {
    let engine = Engine::new(SampleComponent::Panel(Panel { formal: true }));
    // group, box, two buttons with their subscriptions and attachments
    let expected = vec![
        Op::Create(
            0,
            Desc {
                kind: ControlKind::Group,
                text: String::new(),
                title: String::from("Hello"),
                margined: true,
                padded: false,
            },
        ),
        Op::Create(
            1,
            Desc {
                kind: ControlKind::HorizontalBox,
                text: String::new(),
                title: String::new(),
                margined: false,
                padded: true,
            },
        ),
        Op::Create(2, button_desc("off")),
        Op::Subscribe(2, String::from("clicked")),
        Op::AppendChild(1, 2),
        Op::Create(3, button_desc("off")),
        Op::Subscribe(3, String::from("clicked")),
        Op::AppendChild(1, 3),
        Op::SetChild(0, 1),
    ];
    assert_eq!(engine.backend.ops, expected);
    assert_eq!(engine.backend.controls[0].title, "Hello");
    assert!(engine.backend.controls[0].margined);
    assert!(engine.backend.controls[1].padded);
    assert_eq!(engine.backend.controls[2].text, "off");
    assert_eq!(engine.backend.controls[3].text, "off");
}

#[test]
fn toggles_are_independent() {
    let mut engine = Engine::new(SampleComponent::Panel(Panel { formal: false }));
    assert!(engine.fire(1));
    let engine = engine.tick();
    let left = engine.store.subs[0].control;
    let right = engine.store.subs[1].control;
    assert_eq!(engine.backend.controls[left].text, "off");
    assert_eq!(engine.backend.controls[right].text, "on");
}

#[test]
fn slot_fills_and_empties() {
    let mut engine = Engine::new(SampleComponent::Slot(Slot { filled: false }));
    let group = engine.root_control();
    assert_eq!(engine.backend.controls[group].title, "slot");
    assert!(!engine.backend.controls[group].margined);
    // fill the empty slot: margin update, fresh button, one attachment
    let ops_before = engine.backend.ops.len();
    engine.send(SampleMsg::Advance);
    let mut engine = engine.tick();
    assert_eq!(
        &engine.backend.ops[ops_before..],
        &[
            Op::UpdateField(0, Field::Margined(true)),
            Op::Create(1, button_desc("x")),
            Op::SetChild(0, 1),
        ]
    );
    assert_eq!(engine.backend.controls[1].text, "x");
    // empty it again: margin update, slot cleared, button destroyed
    let ops_before = engine.backend.ops.len();
    engine.send(SampleMsg::Advance);
    let engine = engine.tick();
    assert_eq!(
        &engine.backend.ops[ops_before..],
        &[
            Op::UpdateField(0, Field::Margined(false)),
            Op::ClearChild(0),
            Op::Destroy(1),
        ]
    );
    assert!(!engine.backend.controls[1].alive);
}

#[test]
fn changed_child_list_rebuilds_all() {
    let mut engine = Engine::new(SampleComponent::Row(Row { wide: false }));
    // an empty box builds as one create and nothing else
    assert_eq!(
        engine.backend.ops,
        vec![Op::Create(
            0,
            Desc {
                kind: ControlKind::HorizontalBox,
                text: String::new(),
                title: String::new(),
                margined: false,
                padded: false,
            },
        )]
    );
    // any change to the child list clears and rebuilds the whole list
    let ops_before = engine.backend.ops.len();
    engine.send(SampleMsg::Advance);
    let mut engine = engine.tick();
    assert_eq!(
        &engine.backend.ops[ops_before..],
        &[
            Op::UpdateField(0, Field::Padded(true)),
            Op::ClearChildren(0),
            Op::Create(1, button_desc("a")),
            Op::AppendChild(0, 1),
            Op::Create(2, button_desc("b")),
            Op::AppendChild(0, 2),
        ]
    );
    assert_eq!(engine.backend.controls[1].text, "a");
    assert_eq!(engine.backend.controls[2].text, "b");
    // and back: both children destroyed, none reused
    let ops_before = engine.backend.ops.len();
    engine.send(SampleMsg::Advance);
    let engine = engine.tick();
    assert_eq!(
        &engine.backend.ops[ops_before..],
        &[
            Op::UpdateField(0, Field::Padded(false)),
            Op::ClearChildren(0),
            Op::Destroy(1),
            Op::Destroy(2),
        ]
    );
}

#[test]
fn changed_component_value_replaces_subtree() {
    let mut engine = Engine::new(SampleComponent::Holder(Holder { on: false }));
    let button = engine.root_control();
    assert_eq!(engine.backend.controls[button].text, "off");
    // the embedded toggle mutates internally first
    assert!(engine.fire(0));
    let mut engine = engine.tick();
    assert_eq!(engine.backend.controls[button].text, "on");
    // the holder now embeds a different value: the old subtree is replaced
    // wholesale, internal state and all
    engine.send(SampleMsg::Advance);
    let mut engine = engine.tick();
    assert!(!engine.backend.controls[button].alive);
    let fresh = engine.root_control();
    assert_ne!(fresh, button);
    assert_eq!(engine.backend.controls[fresh].text, "on");
    // the old binding is stale; the fresh subtree brought its own
    assert!(!engine.fire(0));
    assert!(engine.fire(1));
    let engine = engine.tick();
    assert_eq!(engine.backend.controls[fresh].text, "off");
}

#[test]
fn handler_resubscribes_after_child_rebuild() {
    let mut engine = Engine::new(SampleComponent::Wrap(Wrap { plain: true }));
    assert_eq!(
        engine.backend.ops,
        vec![
            Op::Create(0, button_desc("w")),
            Op::Subscribe(0, String::from("clicked")),
        ]
    );
    // clicking swaps the child's kind: the old control goes away, and the
    // binding is subscribed afresh on the new one
    assert!(engine.fire(0));
    let mut engine = engine.tick();
    let tail = &engine.backend.ops[2..];
    assert!(tail.iter().any(|op| matches!(op, Op::Destroy(0))));
    assert!(tail
        .iter()
        .any(|op| matches!(op, Op::Create(1, d) if d.kind == ControlKind::Group)));
    assert!(tail
        .iter()
        .any(|op| matches!(op, Op::Subscribe(1, kind) if kind == "clicked")));
    assert!(!engine.fire(0));
    assert!(engine.fire(1));
    let engine = engine.tick();
    let plain = engine.root_control();
    assert_eq!(engine.backend.controls[plain].kind, ControlKind::Button);
    assert_eq!(engine.backend.controls[plain].text, "w");
}

#[test]
fn children_drain_before_their_parent() {
    // queue a message for a nested toggle and one for the root panel in the
    // same tick: the documented order applies the child's first, so the
    // toggle's text update precedes the panel's title update in the log
    let mut engine = Engine::new(SampleComponent::Panel(Panel { formal: true }));
    let left = engine.store.subs[0].control;
    assert!(engine.fire(0));
    engine.send(SampleMsg::Retitle);
    let ops_before = engine.backend.ops.len();
    let engine = engine.tick();
    assert_eq!(
        &engine.backend.ops[ops_before..],
        &[
            Op::UpdateField(left, Field::Text(String::from("on"))),
            Op::UpdateField(0, Field::Title(String::from("Hi"))),
        ]
    );
    // both were applied in the one tick
    assert_eq!(engine.backend.controls[left].text, "on");
    assert_eq!(engine.backend.controls[0].title, "Hi");
}

#[test]
fn changed_binding_resubscribes_surviving_control() {
    let mut engine = Engine::new(SampleComponent::Rebind(Rebind { alt: false }));
    assert_eq!(engine.store.subs.len(), 1);
    let button = engine.root_control();
    // clicking flips the bound message while the button itself is unchanged:
    // the only new backend call is the re-subscription on the same control
    let ops_before = engine.backend.ops.len();
    assert!(engine.fire(0));
    let mut engine = engine.tick();
    assert_eq!(
        &engine.backend.ops[ops_before..],
        &[Op::Subscribe(button, String::from("clicked"))]
    );
    assert_eq!(engine.store.subs.len(), 2);
    assert!(engine.backend.controls[button].alive);
    assert_eq!(engine.backend.controls[button].text, "r");
    // the fresh subscription carries the new message and flips the state back
    assert!(engine.fire(1));
    let engine = engine.tick();
    assert_eq!(engine.store.subs.len(), 3);
}
