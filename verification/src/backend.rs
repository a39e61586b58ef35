//! Model of the native control backend.
//!
//! The engine never talks to a widget toolkit directly: it drives this model,
//! which keeps one record per native control (its kind, its displayed fields
//! and whether it is still alive) together with an append-only log of every
//! backend call. A host adapter replays the log against the real toolkit, so
//! the log is exactly the sequence of native calls the engine caused.
//!
//! `destroy` releases the one control it names; it never cascades to
//! children. The reconciler is responsible for destroying every node of an
//! abandoned subtree exactly once, and [`backend_wf`] makes that checkable:
//! a destroyed control is destroyed once and is never named by a later call.

use vstd::prelude::*;

verus! {

/// The kind of native control a record stands for.
#[derive(Clone, Copy, Debug, PartialEq, Eq, Structural)]
pub enum ControlKind {
    /// A push button with a text label.
    Button,
    /// A titled group holding at most one child.
    Group,
    /// A horizontal box holding an ordered list of children.
    HorizontalBox,
}

/// One mutable field of a native control, as named by an update call.
#[derive(Clone, Debug, PartialEq)]
pub enum Field {
    /// A button's label.
    Text(String),
    /// A group's title.
    Title(String),
    /// A group's margin flag.
    Margined(bool),
    /// A box's padding flag.
    Padded(bool),
}

/// The initial description a control is created from.
#[derive(Clone, Debug, PartialEq)]
pub struct Desc {
    /// Which kind of control to allocate.
    pub kind: ControlKind,
    /// Initial button label.
    pub text: String,
    /// Initial group title.
    pub title: String,
    /// Initial group margin flag.
    pub margined: bool,
    /// Initial box padding flag.
    pub padded: bool,
}

/// One call made against the native backend, in the order it was made.
#[derive(Clone, Debug, PartialEq)]
pub enum Op {
    /// A control was allocated from the given initial description.
    Create(usize, Desc),
    /// A single field of a control was changed.
    UpdateField(usize, Field),
    /// A group installed the second control as its one child.
    SetChild(usize, usize),
    /// A group emptied its child slot.
    ClearChild(usize),
    /// A box appended the second control after its current children.
    AppendChild(usize, usize),
    /// A box removed all of its children.
    ClearChildren(usize),
    /// A callback was registered for the named event kind on a control.
    Subscribe(usize, String),
    /// A control's native resources were released.
    Destroy(usize),
}

/// The modeled state of one native control.
#[derive(Clone, Debug)]
pub struct ControlRec {
    /// Which kind of control this is.
    pub kind: ControlKind,
    /// Whether the control still exists on the native side.
    pub alive: bool,
    /// Button label text.
    pub text: String,
    /// Group title.
    pub title: String,
    /// Group margin flag.
    pub margined: bool,
    /// Box padding flag.
    pub padded: bool,
}

/// The modeled backend: all controls ever created plus the call log.
pub struct Backend {
    /// One record per control handle; the handle is the index.
    pub controls: Vec<ControlRec>,
    /// Every backend call made so far, oldest first.
    pub ops: Vec<Op>,
}

/// Whether an op names control `c` in any of its positions.
pub open spec fn op_refs(op: Op, c: usize) -> bool {
    match op {
        Op::Create(x, _) => x == c,
        Op::UpdateField(x, _) => x == c,
        Op::SetChild(x, y) => x == c || y == c,
        Op::ClearChild(x) => x == c,
        Op::AppendChild(x, y) => x == c || y == c,
        Op::ClearChildren(x) => x == c,
        Op::Subscribe(x, _) => x == c,
        Op::Destroy(x) => x == c,
    }
}

/// Whether an op names only controls below `n`.
pub open spec fn op_below(op: Op, n: int) -> bool {
    forall|c: usize| op_refs(op, c) ==> c < n
}

/// Whether `op` is the creation of control `c`.
pub open spec fn is_create_of(op: Op, c: usize) -> bool {
    match op {
        Op::Create(x, _) => x == c,
        _ => false,
    }
}

/// How many times the log creates control `c`.
pub open spec fn create_count(ops: Seq<Op>, c: usize) -> nat
    decreases ops.len(),
{
    if ops.len() == 0 {
        0
    } else {
        create_count(ops.drop_last(), c) + if is_create_of(ops.last(), c) {
            1nat
        } else {
            0nat
        }
    }
}

/// How many times the log destroys control `c`.
pub open spec fn destroy_count(ops: Seq<Op>, c: usize) -> nat
    decreases ops.len(),
{
    if ops.len() == 0 {
        0
    } else {
        destroy_count(ops.drop_last(), c) + if ops.last() == Op::Destroy(c) {
            1nat
        } else {
            0nat
        }
    }
}

/// Well-formedness of the backend model: the log and the control records
/// agree. A control is alive exactly while the log has not destroyed it, a
/// destroyed control was destroyed exactly once, every op names existing
/// controls, and no op comes after the destruction of a control it names.
pub open spec fn backend_wf(b: &Backend) -> bool {
    &&& forall|c: usize|
        #![trigger create_count(b.ops@, c)]
        c < b.controls@.len() ==> create_count(b.ops@, c) == 1
    &&& forall|c: usize|
        #![trigger destroy_count(b.ops@, c)]
        c < b.controls@.len() && b.controls@[c as int].alive ==> destroy_count(b.ops@, c) == 0
    &&& forall|c: usize|
        #![trigger destroy_count(b.ops@, c)]
        c < b.controls@.len() && !b.controls@[c as int].alive ==> destroy_count(b.ops@, c) == 1
    &&& forall|i: int| 0 <= i < b.ops@.len() ==> op_below(#[trigger] b.ops@[i], b.controls@.len() as int)
    &&& forall|i: int, j: int, c: usize|
        #![trigger b.ops@[i], op_refs(b.ops@[j], c)]
        0 <= i < j < b.ops@.len() && b.ops@[i] == Op::Destroy(c) ==> !op_refs(b.ops@[j], c)
}

/// Appending an op extends the creations of `c` by one exactly when the op
/// creates `c`.
proof fn lemma_create_push(ops: Seq<Op>, op: Op, c: usize)
    ensures
        create_count(ops.push(op), c) == create_count(ops, c) + if is_create_of(op, c) {
            1nat
        } else {
            0nat
        },
{
    assert(ops.push(op).drop_last() =~= ops);
}

/// A log none of whose ops creates `c` creates `c` zero times.
proof fn lemma_create_zero(ops: Seq<Op>, c: usize)
    requires
        forall|i: int| 0 <= i < ops.len() ==> !is_create_of(#[trigger] ops[i], c),
    ensures
        create_count(ops, c) == 0,
    decreases ops.len(),
{
    if ops.len() > 0 {
        assert(forall|i: int| 0 <= i < ops.len() - 1 ==> ops.drop_last()[i] == ops[i]);
        lemma_create_zero(ops.drop_last(), c);
    }
}

/// A log that destroys `c` zero times contains no destroy of `c`.
proof fn lemma_count_zero_no_destroy(ops: Seq<Op>, c: usize)
    requires
        destroy_count(ops, c) == 0,
    ensures
        forall|i: int| 0 <= i < ops.len() ==> ops[i] != Op::Destroy(c),
    decreases ops.len(),
{
    if ops.len() > 0 {
        lemma_count_zero_no_destroy(ops.drop_last(), c);
        assert(forall|i: int| 0 <= i < ops.len() - 1 ==> ops[i] == ops.drop_last()[i]);
    }
}

/// Appending an op leaves the destroy count of `c` unchanged unless the op
/// is a destroy of `c` itself.
proof fn lemma_count_push(ops: Seq<Op>, op: Op, c: usize)
    ensures
        destroy_count(ops.push(op), c) == destroy_count(ops, c) + if op == Op::Destroy(c) {
            1nat
        } else {
            0nat
        },
{
    assert(ops.push(op).drop_last() =~= ops);
}

impl Backend {
    /// An empty backend: no controls, no calls yet.
    pub fn new() -> (b: Backend)
        ensures
            backend_wf(&b),
            b.controls@.len() == 0,
            b.ops@.len() == 0,
    {
        Backend { controls: Vec::new(), ops: Vec::new() }
    }

    /// Appends one op that is about to be performed, given that every control
    /// it names is alive. Keeps `backend_wf` without touching the records.
    fn log(&mut self, op: Op)
        requires
            backend_wf(&*old(self)),
            op_below(op, old(self).controls@.len() as int),
            !(op matches Op::Destroy(_)),
            !(op matches Op::Create(..)),
            forall|c: usize| op_refs(op, c) ==> old(self).controls@[c as int].alive,
        ensures
            backend_wf(&*final(self)),
            final(self).controls == old(self).controls,
            final(self).ops@ == old(self).ops@.push(op),
    {
        self.ops.push(op);
        proof {
            let ops_old = old(self).ops@;
            let n = self.controls@.len() as int;
            assert(self.ops@ == ops_old.push(op));
            assert forall|c: usize|
                #![trigger destroy_count(self.ops@, c)]
                c < self.controls@.len() implies destroy_count(self.ops@, c) == destroy_count(
                ops_old,
                c,
            ) by {
                lemma_count_push(ops_old, op, c);
            }
            assert forall|c: usize|
                #![trigger create_count(self.ops@, c)]
                c < self.controls@.len() implies create_count(self.ops@, c) == create_count(
                ops_old,
                c,
            ) by {
                lemma_create_push(ops_old, op, c);
            }
            assert forall|i: int| 0 <= i < self.ops@.len() implies op_below(
                #[trigger] self.ops@[i],
                n,
            ) by {
                if i < ops_old.len() {
                    assert(self.ops@[i] == ops_old[i]);
                    assert(op_below(ops_old[i], n));
                } else {
                    assert(self.ops@[i] == op);
                }
            }
            assert forall|i: int, j: int, c: usize|
                #![trigger self.ops@[i], op_refs(self.ops@[j], c)]
                0 <= i < j < self.ops@.len() && self.ops@[i] == Op::Destroy(c) implies !op_refs(
                self.ops@[j],
                c,
            ) by {
                assert(self.ops@[i] == ops_old[i]);
                if j < ops_old.len() {
                    assert(ops_old[i] == Op::Destroy(c));
                    assert(!op_refs(ops_old[j], c));
                } else {
                    assert(self.ops@[j] == op);
                    assert(op_below(ops_old[i], n));
                    assert(op_refs(Op::Destroy(c), c));
                    assert(c < self.controls@.len());
                    if op_refs(op, c) {
                        assert(self.controls@[c as int].alive);
                        assert(destroy_count(ops_old, c) == 0);
                        lemma_count_zero_no_destroy(ops_old, c);
                    }
                }
            }
        }
    }

    /// Allocates a new native control of the given kind with the given
    /// initial fields, reflecting them immediately; returns its handle.
    pub fn create(
        &mut self,
        kind: ControlKind,
        text: String,
        title: String,
        margined: bool,
        padded: bool,
    ) -> (c: usize)
        requires
            backend_wf(&*old(self)),
        ensures
            backend_wf(&*final(self)),
            c == old(self).controls@.len(),
            final(self).controls@.len() == old(self).controls@.len() + 1,
            forall|d: int|
                0 <= d < old(self).controls@.len() ==> final(self).controls@[d] == old(
                    self,
                ).controls@[d],
            final(self).controls@[c as int].kind == kind,
            final(self).controls@[c as int].alive,
            final(self).controls@[c as int].text == text,
            final(self).controls@[c as int].title == title,
            final(self).controls@[c as int].margined == margined,
            final(self).controls@[c as int].padded == padded,
            final(self).ops@ == old(self).ops@.push(
                Op::Create(c, Desc { kind, text, title, margined, padded }),
            ),
    {
        let c = self.controls.len();
        let desc = Desc {
            kind,
            text: text.clone(),
            title: title.clone(),
            margined,
            padded,
        };
        self.controls.push(ControlRec { kind, alive: true, text, title, margined, padded });
        self.ops.push(Op::Create(c, desc));
        proof {
            let ops_old = old(self).ops@;
            let n = self.controls@.len() as int;
            let op = Op::Create(c, Desc { kind, text, title, margined, padded });
            assert(self.ops@ == ops_old.push(op));
            assert forall|d: usize|
                #![trigger destroy_count(self.ops@, d)]
                d < self.controls@.len() implies destroy_count(self.ops@, d) == destroy_count(
                ops_old,
                d,
            ) by {
                lemma_count_push(ops_old, op, d);
            }
            assert forall|d: usize|
                #![trigger create_count(self.ops@, d)]
                d < self.controls@.len() implies create_count(self.ops@, d) == 1 by {
                lemma_create_push(ops_old, op, d);
                if d == c {
                    assert forall|i: int| 0 <= i < ops_old.len() implies !is_create_of(
                        #[trigger] ops_old[i],
                        d,
                    ) by {
                        assert(op_below(ops_old[i], old(self).controls@.len() as int));
                        if is_create_of(ops_old[i], d) {
                            assert(op_refs(ops_old[i], d));
                        }
                    }
                    lemma_create_zero(ops_old, d);
                } else {
                    assert(create_count(ops_old, d) == 1);
                }
            }
            assert(destroy_count(ops_old, c) == 0) by {
                assert forall|i: int| 0 <= i < ops_old.len() implies ops_old[i]
                    != Op::Destroy(c) by {
                    assert(op_below(ops_old[i], old(self).controls@.len() as int));
                    if ops_old[i] == Op::Destroy(c) {
                        assert(op_refs(ops_old[i], c));
                        assert(c < old(self).controls@.len());
                    }
                }
                lemma_count_sub(ops_old, c);
            }
            assert forall|i: int| 0 <= i < self.ops@.len() implies op_below(
                #[trigger] self.ops@[i],
                n,
            ) by {
                if i < ops_old.len() {
                    assert(self.ops@[i] == ops_old[i]);
                    assert(op_below(ops_old[i], n - 1));
                    assert forall|d: usize| op_refs(ops_old[i], d) implies d < n by {}
                } else {
                    assert(self.ops@[i] == op);
                }
            }
            assert forall|i: int, j: int, d: usize|
                #![trigger self.ops@[i], op_refs(self.ops@[j], d)]
                0 <= i < j < self.ops@.len() && self.ops@[i] == Op::Destroy(d) implies !op_refs(
                self.ops@[j],
                d,
            ) by {
                assert(self.ops@[i] == ops_old[i]);
                if j < ops_old.len() {
                    assert(ops_old[i] == Op::Destroy(d));
                    assert(!op_refs(ops_old[j], d));
                } else {
                    assert(self.ops@[j] == op);
                    assert(op_below(ops_old[i], old(self).controls@.len() as int));
                    assert(op_refs(Op::Destroy(d), d));
                    assert(d < old(self).controls@.len());
                    if op_refs(op, d) {
                        assert(d == c);
                    }
                }
            }
        }
        c
    }

    /// Changes a button's label to `text`.
    pub fn update_text(&mut self, c: usize, text: String)
        requires
            backend_wf(&*old(self)),
            c < old(self).controls@.len(),
            old(self).controls@[c as int].alive,
            old(self).controls@[c as int].kind == ControlKind::Button,
        ensures
            backend_wf(&*final(self)),
            final(self).controls@.len() == old(self).controls@.len(),
            forall|d: int|
                0 <= d < old(self).controls@.len() && d != c ==> final(self).controls@[d] == old(
                    self,
                ).controls@[d],
            final(self).controls@[c as int] == (ControlRec {
                text,
                ..old(self).controls@[c as int]
            }),
            final(self).ops@ == old(self).ops@.push(Op::UpdateField(c, Field::Text(text))),
    {
        let op_text = text.clone();
        let rec = &mut self.controls[c];
        rec.text = text;
        self.log(Op::UpdateField(c, Field::Text(op_text)));
    }

    /// Changes a group's title to `title`.
    pub fn update_title(&mut self, c: usize, title: String)
        requires
            backend_wf(&*old(self)),
            c < old(self).controls@.len(),
            old(self).controls@[c as int].alive,
            old(self).controls@[c as int].kind == ControlKind::Group,
        ensures
            backend_wf(&*final(self)),
            final(self).controls@.len() == old(self).controls@.len(),
            forall|d: int|
                0 <= d < old(self).controls@.len() && d != c ==> final(self).controls@[d] == old(
                    self,
                ).controls@[d],
            final(self).controls@[c as int] == (ControlRec {
                title,
                ..old(self).controls@[c as int]
            }),
            final(self).ops@ == old(self).ops@.push(Op::UpdateField(c, Field::Title(title))),
    {
        let op_title = title.clone();
        let rec = &mut self.controls[c];
        rec.title = title;
        self.log(Op::UpdateField(c, Field::Title(op_title)));
    }

    /// Changes a group's margin flag to `margined`.
    pub fn update_margined(&mut self, c: usize, margined: bool)
        requires
            backend_wf(&*old(self)),
            c < old(self).controls@.len(),
            old(self).controls@[c as int].alive,
            old(self).controls@[c as int].kind == ControlKind::Group,
        ensures
            backend_wf(&*final(self)),
            final(self).controls@.len() == old(self).controls@.len(),
            forall|d: int|
                0 <= d < old(self).controls@.len() && d != c ==> final(self).controls@[d] == old(
                    self,
                ).controls@[d],
            final(self).controls@[c as int] == (ControlRec {
                margined,
                ..old(self).controls@[c as int]
            }),
            final(self).ops@ == old(self).ops@.push(Op::UpdateField(c, Field::Margined(margined))),
    {
        let rec = &mut self.controls[c];
        rec.margined = margined;
        self.log(Op::UpdateField(c, Field::Margined(margined)));
    }

    /// Changes a box's padding flag to `padded`.
    pub fn update_padded(&mut self, c: usize, padded: bool)
        requires
            backend_wf(&*old(self)),
            c < old(self).controls@.len(),
            old(self).controls@[c as int].alive,
            old(self).controls@[c as int].kind == ControlKind::HorizontalBox,
        ensures
            backend_wf(&*final(self)),
            final(self).controls@.len() == old(self).controls@.len(),
            forall|d: int|
                0 <= d < old(self).controls@.len() && d != c ==> final(self).controls@[d] == old(
                    self,
                ).controls@[d],
            final(self).controls@[c as int] == (ControlRec {
                padded,
                ..old(self).controls@[c as int]
            }),
            final(self).ops@ == old(self).ops@.push(Op::UpdateField(c, Field::Padded(padded))),
    {
        let rec = &mut self.controls[c];
        rec.padded = padded;
        self.log(Op::UpdateField(c, Field::Padded(padded)));
    }

    /// Installs `child` as the one child of group `c`.
    pub fn set_child(&mut self, c: usize, child: usize)
        requires
            backend_wf(&*old(self)),
            c < old(self).controls@.len(),
            old(self).controls@[c as int].alive,
            old(self).controls@[c as int].kind == ControlKind::Group,
            child < old(self).controls@.len(),
            old(self).controls@[child as int].alive,
        ensures
            backend_wf(&*final(self)),
            final(self).controls == old(self).controls,
            final(self).ops@ == old(self).ops@.push(Op::SetChild(c, child)),
    {
        self.log(Op::SetChild(c, child));
    }

    /// Empties the child slot of group `c`.
    pub fn clear_child(&mut self, c: usize)
        requires
            backend_wf(&*old(self)),
            c < old(self).controls@.len(),
            old(self).controls@[c as int].alive,
            old(self).controls@[c as int].kind == ControlKind::Group,
        ensures
            backend_wf(&*final(self)),
            final(self).controls == old(self).controls,
            final(self).ops@ == old(self).ops@.push(Op::ClearChild(c)),
    {
        self.log(Op::ClearChild(c));
    }

    /// Appends `child` after the current children of box `c`.
    pub fn append_child(&mut self, c: usize, child: usize)
        requires
            backend_wf(&*old(self)),
            c < old(self).controls@.len(),
            old(self).controls@[c as int].alive,
            old(self).controls@[c as int].kind == ControlKind::HorizontalBox,
            child < old(self).controls@.len(),
            old(self).controls@[child as int].alive,
        ensures
            backend_wf(&*final(self)),
            final(self).controls == old(self).controls,
            final(self).ops@ == old(self).ops@.push(Op::AppendChild(c, child)),
    {
        self.log(Op::AppendChild(c, child));
    }

    /// Removes all children of box `c`.
    pub fn clear_children(&mut self, c: usize)
        requires
            backend_wf(&*old(self)),
            c < old(self).controls@.len(),
            old(self).controls@[c as int].alive,
            old(self).controls@[c as int].kind == ControlKind::HorizontalBox,
        ensures
            backend_wf(&*final(self)),
            final(self).controls == old(self).controls,
            final(self).ops@ == old(self).ops@.push(Op::ClearChildren(c)),
    {
        self.log(Op::ClearChildren(c));
    }

    /// Registers a callback for the named event kind on control `c`.
    pub fn subscribe(&mut self, c: usize, kind: String)
        requires
            backend_wf(&*old(self)),
            c < old(self).controls@.len(),
            old(self).controls@[c as int].alive,
        ensures
            backend_wf(&*final(self)),
            final(self).controls == old(self).controls,
            final(self).ops@ == old(self).ops@.push(Op::Subscribe(c, kind)),
    {
        self.log(Op::Subscribe(c, kind));
    }

    /// Releases the native resources of control `c`, which must still be
    /// alive: the engine never destroys a control twice.
    pub fn destroy(&mut self, c: usize)
        requires
            backend_wf(&*old(self)),
            c < old(self).controls@.len(),
            old(self).controls@[c as int].alive,
        ensures
            backend_wf(&*final(self)),
            final(self).controls@.len() == old(self).controls@.len(),
            forall|d: int|
                0 <= d < old(self).controls@.len() && d != c ==> final(self).controls@[d] == old(
                    self,
                ).controls@[d],
            final(self).controls@[c as int] == (ControlRec {
                alive: false,
                ..old(self).controls@[c as int]
            }),
            final(self).ops@ == old(self).ops@.push(Op::Destroy(c)),
    {
        proof {
            lemma_count_zero_no_destroy(self.ops@, c);
            assert forall|d: usize| d < self.controls@.len() implies destroy_count(
                self.ops@.push(Op::Destroy(c)),
                d,
            ) == destroy_count(self.ops@, d) + if d == c {
                1nat
            } else {
                0nat
            } by {
                lemma_count_push(self.ops@, Op::Destroy(c), d);
            }
            assert forall|d: usize|
                #![trigger create_count(self.ops@.push(Op::Destroy(c)), d)]
                d < self.controls@.len() implies create_count(
                self.ops@.push(Op::Destroy(c)),
                d,
            ) == create_count(self.ops@, d) by {
                lemma_create_push(self.ops@, Op::Destroy(c), d);
            }
            assert forall|i: int, j: int, d: usize|
                0 <= i < j < self.ops@.len() + 1 && self.ops@.push(Op::Destroy(c))[i]
                    == Op::Destroy(d) implies !op_refs(self.ops@.push(Op::Destroy(c))[j], d) by {
                if j == self.ops@.len() {
                    assert(self.ops@[i] == Op::Destroy(d));
                    if op_refs(Op::Destroy(c), d) {
                        assert(d == c);
                    }
                }
            }
        }
        let rec = &mut self.controls[c];
        rec.alive = false;
        self.ops.push(Op::Destroy(c));
    }
}

/// Helper: a log whose elements are all distinct from `Destroy(c)` destroys
/// `c` zero times.
proof fn lemma_count_sub(ops: Seq<Op>, c: usize)
    requires
        forall|i: int| 0 <= i < ops.len() ==> ops[i] != Op::Destroy(c),
    ensures
        destroy_count(ops, c) == 0,
    decreases ops.len(),
{
    if ops.len() > 0 {
        assert(forall|i: int| 0 <= i < ops.len() - 1 ==> ops.drop_last()[i] == ops[i]);
        lemma_count_sub(ops.drop_last(), c);
    }
}

/// No control is ever destroyed more than once: for every handle the log
/// contains at most one destroy call.
pub proof fn lemma_destroy_at_most_once(b: &Backend)
    requires
        backend_wf(b),
    ensures
        forall|c: usize| c < b.controls@.len() ==> destroy_count(b.ops@, c) <= 1,
        forall|c: usize| c >= b.controls@.len() ==> destroy_count(b.ops@, c) == 0,
{
    assert forall|c: usize| c >= b.controls@.len() implies destroy_count(b.ops@, c) == 0 by {
        assert forall|i: int| 0 <= i < b.ops@.len() implies b.ops@[i] != Op::Destroy(c) by {
            assert(op_below(b.ops@[i], b.controls@.len() as int));
            if b.ops@[i] == Op::Destroy(c) {
                assert(op_refs(b.ops@[i], c));
                assert(c < b.controls@.len());
            }
        }
        lemma_count_sub(b.ops@, c);
    }
}

/// Once the log destroys a control, no later call names that control again:
/// a destroyed handle is never used afterwards.
pub proof fn lemma_no_use_after_destroy(b: &Backend)
    requires
        backend_wf(b),
    ensures
        forall|i: int, j: int, c: usize|
            #![trigger b.ops@[i], op_refs(b.ops@[j], c)]
            0 <= i < j < b.ops@.len() && b.ops@[i] == Op::Destroy(c) ==> !op_refs(b.ops@[j], c),
{
}

} // verus!
