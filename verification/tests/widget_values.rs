//! Tests of widget values: builders, equality and copying.

use reactive_ui::component::Event;
use reactive_ui::sample::{SampleComponent, SampleMsg, Toggle};
use reactive_ui::store::{ComponentState, Inst, Root};
use reactive_ui::widgets::{
    Button, Clicked, Group, HorizontalBox, Widget, WidgetList, widget_dup, widget_equals,
};

type W = Widget<SampleComponent, SampleMsg>;

fn leaf(text: &str) -> W {
    Widget::Button(Button { text: String::from(text) })
}

#[test]
fn clicked_event_kind_name() {
    assert_eq!(Clicked.name(), "clicked");
}

#[test]
fn equal_trees_compare_equal() {
    let a: W = Widget::Single(
        Group { title: String::from("Hello"), margined: true }.child(leaf("world!")),
    );
    let b: W = Widget::Single(
        Group { title: String::from("Hello"), margined: true }.child(leaf("world!")),
    );
    assert!(widget_equals(&a, &b));
}

#[test]
fn differing_text_compares_unequal() {
    let a = leaf("world!");
    let b = leaf("there!");
    assert!(!widget_equals(&a, &b));
}

#[test]
fn cross_kind_compares_unequal() {
    let a = leaf("Hello");
    let b: W = Widget::Single(
        Group { title: String::from("Hello"), margined: true }.child(leaf("Hello")),
    );
    assert!(!widget_equals(&a, &b));
    assert!(!widget_equals(&b, &a));
}

#[test]
fn handler_compares_binding_and_child() {
    let a: W = Widget::Handler(
        Button { text: String::from("go") }.on_clicked(SampleMsg::Flip),
    );
    let same: W = Widget::Handler(
        Button { text: String::from("go") }.on_clicked(SampleMsg::Flip),
    );
    assert!(widget_equals(&a, &same));
    // a changed message alone makes the handlers unequal
    let other_msg: W = Widget::Handler(
        Button { text: String::from("go") }.on_clicked(SampleMsg::Retitle),
    );
    assert!(!widget_equals(&a, &other_msg));
    let other_child: W = Widget::Handler(
        Button { text: String::from("stop") }.on_clicked(SampleMsg::Flip),
    );
    assert!(!widget_equals(&a, &other_child));
}

#[test]
fn child_builder_keeps_order() {
    let row = HorizontalBox { padded: false }.child(leaf("a")).child(leaf("b"));
    let mut texts: Vec<String> = Vec::new();
    let mut cur = &row.children;
    loop {
        match cur {
            WidgetList::Cons(x, xs) => {
                match &**x {
                    Widget::Button(btn) => texts.push(btn.text.clone()),
                    _ => panic!("expected a button"),
                }
                cur = xs;
            }
            WidgetList::Nil => break,
        }
    }
    assert_eq!(texts, vec![String::from("a"), String::from("b")]);
}

#[test]
fn duplicated_widget_compares_equal() {
    let a: W = Widget::Single(
        Group { title: String::from("Hello"), margined: false }.child(
            Widget::Handler(Button { text: String::from("go") }.on_clicked(SampleMsg::Flip)),
        ),
    );
    let copy = widget_dup(&a);
    assert!(widget_equals(&a, &copy));
}

#[test]
fn event_applies_its_message() {
    let event = Event::new(SampleMsg::Flip);
    let mut component = SampleComponent::Toggle(Toggle { value: false });
    event.handle(&mut component);
    assert!(matches!(
        component,
        SampleComponent::Toggle(Toggle { value: true })
    ));
}

#[test]
fn component_record_edit_mutates_state() {
    let mut record: ComponentState<SampleComponent, SampleMsg> = ComponentState {
        value: SampleComponent::Toggle(Toggle { value: false }),
        state: SampleComponent::Toggle(Toggle { value: false }),
        queue: 0,
        root: Root(0),
        inst: Box::new(Inst::Button {
            entity: 0,
            control: 0,
            text: String::from("off"),
        }),
    };
    *record.edit() = SampleComponent::Toggle(Toggle { value: true });
    assert!(matches!(
        record.state,
        SampleComponent::Toggle(Toggle { value: true })
    ));
    assert!(matches!(
        record.value,
        SampleComponent::Toggle(Toggle { value: false })
    ));
}
