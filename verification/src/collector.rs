//! The collector: it reclaims the objects and the scope frames that
//! nothing can reach any more.
//!
//! Objects and frames refer to one another: an object to the objects that
//! its properties and its prototype link hold and to the frame that its
//! function captured, a frame to the objects that it binds, to its
//! function, to its `this` and to the frame around it. What can be reached
//! along such references from a root is kept as it is. The roots are the
//! global object, the active frames, every object that somebody holds, and
//! the objects that the caller names. Everything else is reclaimed,
//! circles of objects that refer to one another included: the cell of such
//! an object then holds an empty object, and such a frame binds nothing.
//! Handles stay what they were, so a handle never comes to name another
//! object than the one it was made for.

use vstd::prelude::*;
use crate::builtins::object::gcobject::{CellView, GcObject};
use crate::builtins::object::{Object, ObjectView};
use crate::builtins::property::{Property, PropertyView};
use crate::builtins::value::{Value, ValueView};
use crate::environment::{
    Binding, BindingView, Environment, FunctionEnvironmentRecord, FunctionEnvironmentView,
    LexicalEnvironmentView,
};
use crate::exec::{Interpreter, InterpreterView};
use crate::keyed::views;

verus! {

/// What a node is to a contract: an object or a frame, by its place.
pub enum NodeView {
    Object(int),
    Frame(int),
}

/// A node of the graph that the collector walks: an object or a frame.
#[derive(Debug, Clone, Copy, PartialEq, Eq)]
pub enum Node {
    Object(GcObject),
    Frame(Environment),
}

impl View for Node {
    type V = NodeView;

    open spec fn view(&self) -> NodeView {
        match self {
            Node::Object(object) => NodeView::Object(object@),
            Node::Frame(frame) => NodeView::Frame(frame@),
        }
    }
}

/// What a list of handles is to a contract.
pub open spec fn handle_views(handles: Seq<GcObject>) -> Seq<int> {
    Seq::new(handles.len(), |i: int| handles[i]@)
}

/// The node is an object of the heap or a frame that was made.
pub open spec fn in_range(ctx: InterpreterView, node: NodeView) -> bool {
    match node {
        NodeView::Object(object) => 0 <= object < ctx.heap.len(),
        NodeView::Frame(frame) => 0 <= frame < ctx.environment.records.len(),
    }
}

/// The value is the object that the node is.
pub open spec fn value_is(value: ValueView, node: NodeView) -> bool {
    match node {
        NodeView::Object(object) => value == ValueView::Object(object),
        NodeView::Frame(_) => false,
    }
}

/// The property holds the node: as its value, its getter or its setter.
pub open spec fn property_refers(property: PropertyView, node: NodeView) -> bool {
    match property {
        PropertyView::Data { value, .. } => value_is(value, node),
        PropertyView::Accessor { get, set, .. } => value_is(get, node) || value_is(set, node),
    }
}

/// Some property of the namespace holds the node.
pub open spec fn entries_refer<A>(entries: Seq<(A, PropertyView)>, node: NodeView) -> bool {
    exists|i: int| 0 <= i < entries.len() && property_refers((#[trigger] entries[i]).1, node)
}

/// The object refers to the node: by its prototype link, by a property, or
/// as the frame that its function captured.
pub open spec fn object_refers(object: ObjectView, node: NodeView) -> bool {
    ||| value_is(object.prototype, node)
    ||| entries_refer(object.indexed, node)
    ||| entries_refer(object.strings, node)
    ||| entries_refer(object.symbols, node)
    ||| match object.function() {
        Some(function) => match function.environment {
            Some(frame) => node == NodeView::Frame(frame),
            None => false,
        },
        None => false,
    }
}

/// The binding holds the node as its value.
pub open spec fn binding_refers(binding: BindingView, node: NodeView) -> bool {
    match binding.value {
        Some(value) => value_is(value, node),
        None => false,
    }
}

/// Some binding of the list holds the node.
pub open spec fn bindings_refer(bindings: Seq<(Seq<char>, BindingView)>, node: NodeView) -> bool {
    exists|i: int| 0 <= i < bindings.len() && binding_refers((#[trigger] bindings[i]).1, node)
}

/// The frame refers to the node: as its function, as its `this`, by a
/// binding, or as the frame around it.
pub open spec fn frame_refers(frame: FunctionEnvironmentView, node: NodeView) -> bool {
    ||| node == NodeView::Object(frame.function)
    ||| value_is(frame.this_value, node)
    ||| bindings_refer(frame.bindings, node)
    ||| match frame.outer_env {
        Some(outer) => node == NodeView::Frame(outer),
        None => false,
    }
}

/// The node `from` refers to the node `to`.
pub open spec fn edge(ctx: InterpreterView, from: NodeView, to: NodeView) -> bool {
    &&& in_range(ctx, from)
    &&& in_range(ctx, to)
    &&& match from {
        NodeView::Object(object) => object_refers(ctx.heap[object].object, to),
        NodeView::Frame(frame) => frame_refers(ctx.environment.records[frame], to),
    }
}

/// The node is a root: the global object, an object that the caller named,
/// an object that somebody holds, or an active frame.
pub open spec fn is_root(ctx: InterpreterView, named: Seq<int>, node: NodeView) -> bool {
    &&& in_range(ctx, node)
    &&& match node {
        NodeView::Object(object) => {
            ||| ctx.global == ValueView::Object(object)
            ||| named.contains(object)
            ||| !ctx.heap[object].unused()
        },
        NodeView::Frame(frame) => ctx.environment.stack.contains(frame),
    }
}

/// The nodes lead from a root on, each referring to the next.
pub open spec fn is_path(ctx: InterpreterView, named: Seq<int>, path: Seq<NodeView>) -> bool {
    &&& path.len() > 0
    &&& is_root(ctx, named, path[0])
    &&& forall|i: int| 0 <= i < path.len() - 1 ==> edge(ctx, #[trigger] path[i], path[i + 1])
}

/// The node can be reached from a root.
pub open spec fn reachable(ctx: InterpreterView, named: Seq<int>, node: NodeView) -> bool {
    exists|path: Seq<NodeView>| #[trigger] is_path(ctx, named, path) && path.last() == node
}

/// The context after a collection: what can be reached is as it was, the
/// cell of any other object holds an empty object, and any other frame is
/// cleared. Nothing else changes.
pub open spec fn collected(ctx: InterpreterView, named: Seq<int>) -> InterpreterView {
    InterpreterView {
        heap: Seq::new(
            ctx.heap.len(),
            |object: int|
                if reachable(ctx, named, NodeView::Object(object)) {
                    ctx.heap[object]
                } else {
                    CellView::fresh(ObjectView::cleared())
                },
        ),
        environment: LexicalEnvironmentView {
            records: Seq::new(
                ctx.environment.records.len(),
                |frame: int|
                    if reachable(ctx, named, NodeView::Frame(frame)) {
                        ctx.environment.records[frame]
                    } else {
                        ctx.environment.records[frame].cleared()
                    },
            ),
            stack: ctx.environment.stack,
        },
        ..ctx
    }
}

/// A root can be reached.
pub proof fn lemma_root_reachable(ctx: InterpreterView, named: Seq<int>, node: NodeView)
    requires
        is_root(ctx, named, node),
    ensures
        reachable(ctx, named, node),
{
    let path = seq![node];
    assert(is_path(ctx, named, path));
    assert(path.last() == node);
}

/// What a node that can be reached refers to can be reached.
pub proof fn lemma_reachable_step(
    ctx: InterpreterView,
    named: Seq<int>,
    from: NodeView,
    to: NodeView,
)
    requires
        reachable(ctx, named, from),
        edge(ctx, from, to),
    ensures
        reachable(ctx, named, to),
{
    let path = choose|path: Seq<NodeView>| #[trigger]
        is_path(ctx, named, path) && path.last() == from;
    let longer = path.push(to);
    assert forall|i: int| 0 <= i < longer.len() - 1 implies edge(
        ctx,
        #[trigger] longer[i],
        longer[i + 1],
    ) by {
        if i < path.len() - 1 {
            assert(edge(ctx, path[i], path[i + 1]));
        }
    }
    assert(is_path(ctx, named, longer));
    assert(longer.last() == to);
}

/// Every node on a path can be reached.
pub proof fn lemma_path_nodes(
    ctx: InterpreterView,
    named: Seq<int>,
    path: Seq<NodeView>,
    i: int,
)
    requires
        is_path(ctx, named, path),
        0 <= i < path.len(),
    ensures
        reachable(ctx, named, path[i]),
{
    let front = path.subrange(0, i + 1);
    assert forall|j: int| 0 <= j < front.len() - 1 implies edge(
        ctx,
        #[trigger] front[j],
        front[j + 1],
    ) by {
        assert(edge(ctx, path[j], path[j + 1]));
    }
    assert(is_path(ctx, named, front));
    assert(front.last() == path[i]);
}

/// A node that can be reached is, after a collection, what it was before.
pub proof fn lemma_collected_keeps(ctx: InterpreterView, named: Seq<int>, node: NodeView)
    requires
        reachable(ctx, named, node),
        in_range(ctx, node),
    ensures
        match node {
            NodeView::Object(object) => collected(ctx, named).heap[object] == ctx.heap[object],
            NodeView::Frame(frame) => collected(ctx, named).environment.records[frame]
                == ctx.environment.records[frame],
        },
{
}

/// A collection does not change what can be reached.
pub proof fn lemma_collected_reachable(ctx: InterpreterView, named: Seq<int>, node: NodeView)
    ensures
        reachable(collected(ctx, named), named, node) == reachable(ctx, named, node),
{
    let after = collected(ctx, named);
    if reachable(ctx, named, node) {
        let path = choose|path: Seq<NodeView>| #[trigger]
            is_path(ctx, named, path) && path.last() == node;
        lemma_path_nodes(ctx, named, path, 0);
        lemma_collected_keeps(ctx, named, path[0]);
        assert(is_root(after, named, path[0]));
        assert forall|i: int| 0 <= i < path.len() - 1 implies edge(
            after,
            #[trigger] path[i],
            path[i + 1],
        ) by {
            assert(edge(ctx, path[i], path[i + 1]));
            lemma_path_nodes(ctx, named, path, i);
            lemma_collected_keeps(ctx, named, path[i]);
        }
        assert(is_path(after, named, path));
    }
    if reachable(after, named, node) {
        let path = choose|path: Seq<NodeView>| #[trigger]
            is_path(after, named, path) && path.last() == node;
        lemma_collected_path(ctx, named, path);
    }
}

/// Whatever a path leads to after a collection could be reached before.
proof fn lemma_collected_path(ctx: InterpreterView, named: Seq<int>, path: Seq<NodeView>)
    requires
        is_path(collected(ctx, named), named, path),
    ensures
        reachable(ctx, named, path.last()),
    decreases path.len(),
{
    let after = collected(ctx, named);
    if path.len() == 1 {
        let root = path[0];
        assert(is_root(after, named, root));
        match root {
            NodeView::Object(object) => {
                if !reachable(ctx, named, root) {
                    assert(after.heap[object].unused());
                    assert(is_root(ctx, named, root));
                    lemma_root_reachable(ctx, named, root);
                }
            },
            NodeView::Frame(_) => {
                assert(is_root(ctx, named, root));
                lemma_root_reachable(ctx, named, root);
            },
        }
    } else {
        let front = path.drop_last();
        assert forall|i: int| 0 <= i < front.len() - 1 implies edge(
            after,
            #[trigger] front[i],
            front[i + 1],
        ) by {
            assert(edge(after, path[i], path[i + 1]));
        }
        assert(is_path(after, named, front));
        lemma_collected_path(ctx, named, front);
        let from = front.last();
        let to = path.last();
        assert(edge(after, path[path.len() - 2], path[path.len() - 2 + 1]));
        lemma_collected_keeps(ctx, named, from);
        assert(edge(ctx, from, to));
        lemma_reachable_step(ctx, named, from, to);
    }
}

/// To collect twice is to collect once: a second collection finds nothing
/// more to reclaim.
pub proof fn lemma_collect_twice(ctx: InterpreterView, named: Seq<int>)
    ensures
        collected(collected(ctx, named), named) == collected(ctx, named),
{
    let once = collected(ctx, named);
    let twice = collected(once, named);
    assert forall|object: int| 0 <= object < ctx.heap.len() implies twice.heap[object]
        == once.heap[object] by {
        lemma_collected_reachable(ctx, named, NodeView::Object(object));
    }
    assert forall|frame: int| 0 <= frame < ctx.environment.records.len() implies twice.environment.records[frame]
        == once.environment.records[frame] by {
        lemma_collected_reachable(ctx, named, NodeView::Frame(frame));
        assert(ctx.environment.records[frame].cleared().cleared()
            == ctx.environment.records[frame].cleared());
    }
    assert(twice.heap =~= once.heap);
    assert(twice.environment.records =~= once.environment.records);
}

/// The number of places of a list of marks that are not marked.
pub open spec fn unmarked(marks: Seq<bool>) -> nat
    decreases marks.len(),
{
    if marks.len() == 0 {
        0
    } else {
        unmarked(marks.drop_last()) + if marks.last() {
            0nat
        } else {
            1nat
        }
    }
}

/// Marking a place that was not marked leaves one place less unmarked.
pub proof fn lemma_mark(marks: Seq<bool>, place: int)
    requires
        0 <= place < marks.len(),
        !marks[place],
    ensures
        unmarked(marks.update(place, true)) + 1 == unmarked(marks),
    decreases marks.len(),
{
    let after = marks.update(place, true);
    if place == marks.len() - 1 {
        assert(after.drop_last() =~= marks.drop_last());
    } else {
        lemma_mark(marks.drop_last(), place);
        assert(after.drop_last() =~= marks.drop_last().update(place, true));
    }
}

/// What the collector has found so far: which objects and which frames it
/// has reached, and which of them it has yet to look into.
struct Marks {
    objects: Vec<bool>,
    frames: Vec<bool>,
    work: Vec<Node>,
}

impl Marks {
    /// The node has been reached.
    spec fn marked(&self, node: NodeView) -> bool {
        match node {
            NodeView::Object(object) => 0 <= object < self.objects@.len() && self.objects@[object],
            NodeView::Frame(frame) => 0 <= frame < self.frames@.len() && self.frames@[frame],
        }
    }

    /// The node has yet to be looked into.
    spec fn pending(&self, node: NodeView) -> bool {
        exists|k: int| 0 <= k < self.work@.len() && (#[trigger] self.work@[k])@ == node
    }

    /// There is a mark for every object and every frame, and what has yet
    /// to be looked into has been reached.
    spec fn fits(&self, ctx: InterpreterView) -> bool {
        &&& self.objects@.len() == ctx.heap.len()
        &&& self.frames@.len() == ctx.environment.records.len()
        &&& forall|k: int|
            0 <= k < self.work@.len() ==> in_range(ctx, (#[trigger] self.work@[k])@) && self.marked(
                self.work@[k]@,
            )
    }

    /// Whatever has been reached can be reached.
    spec fn sound(&self, ctx: InterpreterView, named: Seq<int>) -> bool {
        forall|node: NodeView| #[trigger] self.marked(node) ==> reachable(ctx, named, node)
    }

    /// Whatever the node refers to has been reached.
    spec fn closed_at(&self, ctx: InterpreterView, from: NodeView) -> bool {
        forall|to: NodeView| #[trigger] edge(ctx, from, to) ==> self.marked(to)
    }

    /// Every node that has been reached has been looked into, unless it is
    /// the one at hand or has yet to be looked into.
    spec fn settled(&self, ctx: InterpreterView, current: Option<NodeView>) -> bool {
        forall|node: NodeView| #[trigger]
            self.marked(node) ==> current == Some(node) || self.pending(node) || self.closed_at(
                ctx,
                node,
            )
    }

    /// Every root has been reached.
    spec fn holds_roots(&self, ctx: InterpreterView, named: Seq<int>) -> bool {
        forall|node: NodeView| #[trigger] is_root(ctx, named, node) ==> self.marked(node)
    }

    /// What bounds the work that is left.
    spec fn measure(&self) -> nat {
        2 * (unmarked(self.objects@) + unmarked(self.frames@)) + self.work@.len()
    }

    /// Nothing that was reached or was to be looked into has been lost.
    spec fn extends(&self, before: Marks) -> bool {
        &&& forall|node: NodeView| #[trigger] before.marked(node) ==> self.marked(node)
        &&& forall|node: NodeView| #[trigger] before.pending(node) ==> self.pending(node)
    }

    /// Marks for a context in which nothing has been reached yet.
    fn new(interpreter: &Interpreter) -> (marks: Self)
        ensures
            marks.fits(interpreter@),
            marks.work@.len() == 0,
            forall|node: NodeView| !marks.marked(node),
    {
        let mut objects: Vec<bool> = Vec::new();
        let mut i: usize = 0;
        while i < interpreter.heap.len()
            invariant
                i <= interpreter.heap@.len(),
                objects@.len() == i,
                forall|j: int| 0 <= j < i ==> !objects@[j],
            decreases interpreter.heap@.len() - i,
        {
            objects.push(false);
            i += 1;
        }
        let mut frames: Vec<bool> = Vec::new();
        let mut i: usize = 0;
        while i < interpreter.realm.environment.len()
            invariant
                i <= interpreter.realm.environment@.records.len(),
                frames@.len() == i,
                forall|j: int| 0 <= j < i ==> !frames@[j],
            decreases interpreter.realm.environment@.records.len() - i,
        {
            frames.push(false);
            i += 1;
        }
        Marks { objects, frames, work: Vec::new() }
    }

    /// Reaches a node: marks it and notes that it has to be looked into,
    /// unless it has been reached before or is no node of the context.
    fn visit(
        &mut self,
        node: Node,
        Ghost(ctx): Ghost<InterpreterView>,
        Ghost(named): Ghost<Seq<int>>,
        Ghost(current): Ghost<Option<NodeView>>,
    )
        requires
            old(self).fits(ctx),
            old(self).sound(ctx, named),
            old(self).settled(ctx, current),
            in_range(ctx, node@) ==> reachable(ctx, named, node@),
        ensures
            final(self).fits(ctx),
            final(self).sound(ctx, named),
            final(self).settled(ctx, current),
            final(self).extends(*old(self)),
            in_range(ctx, node@) ==> final(self).marked(node@),
            final(self).measure() <= old(self).measure(),
    {
        match node {
            Node::Object(object) => {
                let place = object.index();
                if place < self.objects.len() && !self.objects[place] {
                    proof {
                        lemma_mark(self.objects@, place as int);
                    }
                    self.objects.set(place, true);
                    self.work.push(node);
                    proof {
                        self.lemma_visited(*old(self), node, ctx, named, current);
                    }
                }
            },
            Node::Frame(frame) => {
                let place = frame.index();
                if place < self.frames.len() && !self.frames[place] {
                    proof {
                        lemma_mark(self.frames@, place as int);
                    }
                    self.frames.set(place, true);
                    self.work.push(node);
                    proof {
                        self.lemma_visited(*old(self), node, ctx, named, current);
                    }
                }
            },
        }
    }

    /// What marking one more node and noting it keeps.
    proof fn lemma_visited(
        &self,
        before: Marks,
        node: Node,
        ctx: InterpreterView,
        named: Seq<int>,
        current: Option<NodeView>,
    )
        requires
            before.fits(ctx),
            before.sound(ctx, named),
            before.settled(ctx, current),
            in_range(ctx, node@),
            reachable(ctx, named, node@),
            !before.marked(node@),
            self.work@ == before.work@.push(node),
            match node@ {
                NodeView::Object(object) => self.objects@ == before.objects@.update(object, true)
                    && self.frames@ == before.frames@,
                NodeView::Frame(frame) => self.frames@ == before.frames@.update(frame, true)
                    && self.objects@ == before.objects@,
            },
        ensures
            self.fits(ctx),
            self.sound(ctx, named),
            self.settled(ctx, current),
            self.extends(before),
            self.marked(node@),
    {
        let last = before.work@.len() as int;
        assert(self.work@[last]@ == node@);
        assert forall|other: NodeView| #[trigger] before.marked(other) implies self.marked(other) by {}
        assert forall|other: NodeView| #[trigger] before.pending(other) implies self.pending(
            other,
        ) by {
            let k = choose|k: int|
                0 <= k < before.work@.len() && (#[trigger] before.work@[k])@ == other;
            assert(self.work@[k]@ == other);
        }
        assert forall|k: int| 0 <= k < self.work@.len() implies in_range(
            ctx,
            (#[trigger] self.work@[k])@,
        ) && self.marked(self.work@[k]@) by {
            if k < last {
                assert(before.marked(before.work@[k]@));
            }
        }
        assert forall|other: NodeView| #[trigger] self.marked(other) implies reachable(
            ctx,
            named,
            other,
        ) by {
            if other != node@ {
                assert(before.marked(other));
            }
        }
        assert forall|other: NodeView| #[trigger] self.marked(other) implies current == Some(other)
            || self.pending(other) || self.closed_at(ctx, other) by {
            if other == node@ {
                assert(self.pending(other));
            } else {
                assert(before.marked(other));
                if before.pending(other) {
                    assert(self.pending(other));
                } else if current != Some(other) {
                    assert(before.closed_at(ctx, other));
                    assert forall|to: NodeView| #[trigger] edge(ctx, other, to) implies self.marked(
                        to,
                    ) by {
                        assert(before.marked(to));
                    }
                }
            }
        }
    }

    /// Reaches the object that a value is, if it is one.
    fn visit_value(
        &mut self,
        value: &Value,
        Ghost(ctx): Ghost<InterpreterView>,
        Ghost(named): Ghost<Seq<int>>,
        Ghost(current): Ghost<Option<NodeView>>,
    )
        requires
            old(self).fits(ctx),
            old(self).sound(ctx, named),
            old(self).settled(ctx, current),
            forall|node: NodeView|
                value_is(value@, node) && in_range(ctx, node) ==> reachable(ctx, named, node),
        ensures
            final(self).fits(ctx),
            final(self).sound(ctx, named),
            final(self).settled(ctx, current),
            final(self).extends(*old(self)),
            forall|node: NodeView|
                value_is(value@, node) && in_range(ctx, node) ==> final(self).marked(node),
            final(self).measure() <= old(self).measure(),
    {
        match value {
            Value::Object(object) => {
                self.visit(Node::Object(*object), Ghost(ctx), Ghost(named), Ghost(current));
            },
            _ => {},
        }
    }

    /// Reaches the objects that the properties of a namespace hold.
    fn visit_properties<K: View>(
        &mut self,
        entries: &Vec<(K, Property)>,
        Ghost(ctx): Ghost<InterpreterView>,
        Ghost(named): Ghost<Seq<int>>,
        Ghost(current): Ghost<Option<NodeView>>,
    )
        requires
            old(self).fits(ctx),
            old(self).sound(ctx, named),
            old(self).settled(ctx, current),
            forall|node: NodeView|
                entries_refer(views(entries@), node) && in_range(ctx, node) ==> reachable(
                    ctx,
                    named,
                    node,
                ),
        ensures
            final(self).fits(ctx),
            final(self).sound(ctx, named),
            final(self).settled(ctx, current),
            final(self).extends(*old(self)),
            forall|node: NodeView|
                entries_refer(views(entries@), node) && in_range(ctx, node) ==> final(self).marked(
                    node,
                ),
            final(self).measure() <= old(self).measure(),
    {
        let ghost list = views(entries@);
        let mut i: usize = 0;
        while i < entries.len()
            invariant
                i <= entries.len(),
                list == views(entries@),
                self.fits(ctx),
                self.sound(ctx, named),
                self.settled(ctx, current),
                self.extends(*old(self)),
                self.measure() <= old(self).measure(),
                forall|node: NodeView|
                    entries_refer(list, node) && in_range(ctx, node) ==> reachable(
                        ctx,
                        named,
                        node,
                    ),
                forall|j: int, node: NodeView|
                    0 <= j < i && property_refers((#[trigger] list[j]).1, node) && in_range(
                        ctx,
                        node,
                    ) ==> #[trigger] self.marked(node),
            decreases entries.len() - i,
        {
            let ghost before = *self;
            assert(list[i as int].1 == entries@[i as int].1@);
            assert forall|node: NodeView|
                property_refers(list[i as int].1, node) && in_range(ctx, node) implies reachable(
                ctx,
                named,
                node,
            ) by {
                assert(entries_refer(list, node));
            }
            match &entries[i].1 {
                Property::Data { value, .. } => {
                    self.visit_value(value, Ghost(ctx), Ghost(named), Ghost(current));
                },
                Property::Accessor { get, set, .. } => {
                    self.visit_value(get, Ghost(ctx), Ghost(named), Ghost(current));
                    self.visit_value(set, Ghost(ctx), Ghost(named), Ghost(current));
                },
            }
            assert forall|j: int, node: NodeView|
                0 <= j < i + 1 && property_refers((#[trigger] list[j]).1, node) && in_range(
                    ctx,
                    node,
                ) implies #[trigger] self.marked(node) by {
                if j < i {
                    assert(before.marked(node));
                }
            }
            i += 1;
        }
    }

    /// Reaches the objects that the bindings of a frame hold.
    fn visit_bindings(
        &mut self,
        bindings: &Vec<(String, Binding)>,
        Ghost(ctx): Ghost<InterpreterView>,
        Ghost(named): Ghost<Seq<int>>,
        Ghost(current): Ghost<Option<NodeView>>,
    )
        requires
            old(self).fits(ctx),
            old(self).sound(ctx, named),
            old(self).settled(ctx, current),
            forall|node: NodeView|
                bindings_refer(views(bindings@), node) && in_range(ctx, node) ==> reachable(
                    ctx,
                    named,
                    node,
                ),
        ensures
            final(self).fits(ctx),
            final(self).sound(ctx, named),
            final(self).settled(ctx, current),
            final(self).extends(*old(self)),
            forall|node: NodeView|
                bindings_refer(views(bindings@), node) && in_range(ctx, node)
                    ==> final(self).marked(node),
            final(self).measure() <= old(self).measure(),
    {
        let ghost list = views(bindings@);
        let mut i: usize = 0;
        while i < bindings.len()
            invariant
                i <= bindings.len(),
                list == views(bindings@),
                self.fits(ctx),
                self.sound(ctx, named),
                self.settled(ctx, current),
                self.extends(*old(self)),
                self.measure() <= old(self).measure(),
                forall|node: NodeView|
                    bindings_refer(list, node) && in_range(ctx, node) ==> reachable(
                        ctx,
                        named,
                        node,
                    ),
                forall|j: int, node: NodeView|
                    0 <= j < i && binding_refers((#[trigger] list[j]).1, node) && in_range(
                        ctx,
                        node,
                    ) ==> #[trigger] self.marked(node),
            decreases bindings.len() - i,
        {
            let ghost before = *self;
            assert(list[i as int].1 == bindings@[i as int].1@);
            assert forall|node: NodeView|
                binding_refers(list[i as int].1, node) && in_range(ctx, node) implies reachable(
                ctx,
                named,
                node,
            ) by {
                assert(bindings_refer(list, node));
            }
            match &bindings[i].1.value {
                Some(value) => {
                    self.visit_value(value, Ghost(ctx), Ghost(named), Ghost(current));
                },
                None => {},
            }
            assert forall|j: int, node: NodeView|
                0 <= j < i + 1 && binding_refers((#[trigger] list[j]).1, node) && in_range(
                    ctx,
                    node,
                ) implies #[trigger] self.marked(node) by {
                if j < i {
                    assert(before.marked(node));
                }
            }
            i += 1;
        }
    }

    /// Looks into an object: reaches whatever it refers to.
    fn scan_object(
        &mut self,
        object: &Object,
        Ghost(place): Ghost<int>,
        Ghost(ctx): Ghost<InterpreterView>,
        Ghost(named): Ghost<Seq<int>>,
    )
        requires
            old(self).fits(ctx),
            old(self).sound(ctx, named),
            old(self).settled(ctx, Some(NodeView::Object(place))),
            0 <= place < ctx.heap.len(),
            object@ == ctx.heap[place].object,
            reachable(ctx, named, NodeView::Object(place)),
        ensures
            final(self).fits(ctx),
            final(self).sound(ctx, named),
            final(self).settled(ctx, Some(NodeView::Object(place))),
            final(self).extends(*old(self)),
            final(self).closed_at(ctx, NodeView::Object(place)),
            final(self).measure() <= old(self).measure(),
    {
        let ghost from = NodeView::Object(place);
        let ghost current = Some(from);
        assert forall|to: NodeView| #[trigger] edge(ctx, from, to) implies reachable(
            ctx,
            named,
            to,
        ) by {
            lemma_reachable_step(ctx, named, from, to);
        }
        assert forall|node: NodeView|
            value_is(object@.prototype, node) && in_range(ctx, node) implies reachable(
            ctx,
            named,
            node,
        ) by {
            assert(edge(ctx, from, node));
        }
        self.visit_value(object.prototype(), Ghost(ctx), Ghost(named), Ghost(current));
        assert forall|node: NodeView|
            entries_refer(object@.indexed, node) && in_range(ctx, node) implies reachable(
            ctx,
            named,
            node,
        ) by {
            assert(edge(ctx, from, node));
        }
        self.visit_properties(object.indexed_entries(), Ghost(ctx), Ghost(named), Ghost(current));
        assert forall|node: NodeView|
            entries_refer(object@.strings, node) && in_range(ctx, node) implies reachable(
            ctx,
            named,
            node,
        ) by {
            assert(edge(ctx, from, node));
        }
        self.visit_properties(object.string_entries(), Ghost(ctx), Ghost(named), Ghost(current));
        assert forall|node: NodeView|
            entries_refer(object@.symbols, node) && in_range(ctx, node) implies reachable(
            ctx,
            named,
            node,
        ) by {
            assert(edge(ctx, from, node));
        }
        self.visit_properties(object.symbol_entries(), Ghost(ctx), Ghost(named), Ghost(current));
        match object.as_function() {
            Some(function) => match function.environment() {
                Some(frame) => {
                    proof {
                        if in_range(ctx, NodeView::Frame(frame@)) {
                            assert(edge(ctx, from, NodeView::Frame(frame@)));
                        }
                    }
                    self.visit(Node::Frame(frame), Ghost(ctx), Ghost(named), Ghost(current));
                },
                None => {},
            },
            None => {},
        }
        assert forall|to: NodeView| #[trigger] edge(ctx, from, to) implies self.marked(to) by {}
    }

    /// Looks into a frame: reaches whatever it refers to.
    fn scan_frame(
        &mut self,
        frame: &FunctionEnvironmentRecord,
        Ghost(place): Ghost<int>,
        Ghost(ctx): Ghost<InterpreterView>,
        Ghost(named): Ghost<Seq<int>>,
    )
        requires
            old(self).fits(ctx),
            old(self).sound(ctx, named),
            old(self).settled(ctx, Some(NodeView::Frame(place))),
            0 <= place < ctx.environment.records.len(),
            frame@ == ctx.environment.records[place],
            reachable(ctx, named, NodeView::Frame(place)),
        ensures
            final(self).fits(ctx),
            final(self).sound(ctx, named),
            final(self).settled(ctx, Some(NodeView::Frame(place))),
            final(self).extends(*old(self)),
            final(self).closed_at(ctx, NodeView::Frame(place)),
            final(self).measure() <= old(self).measure(),
    {
        let ghost from = NodeView::Frame(place);
        let ghost current = Some(from);
        assert forall|to: NodeView| #[trigger] edge(ctx, from, to) implies reachable(
            ctx,
            named,
            to,
        ) by {
            lemma_reachable_step(ctx, named, from, to);
        }
        proof {
            if in_range(ctx, NodeView::Object(frame@.function)) {
                assert(edge(ctx, from, NodeView::Object(frame@.function)));
            }
        }
        self.visit(Node::Object(frame.function()), Ghost(ctx), Ghost(named), Ghost(current));
        assert forall|node: NodeView|
            value_is(frame@.this_value, node) && in_range(ctx, node) implies reachable(
            ctx,
            named,
            node,
        ) by {
            assert(edge(ctx, from, node));
        }
        self.visit_value(frame.this_value(), Ghost(ctx), Ghost(named), Ghost(current));
        assert forall|node: NodeView|
            bindings_refer(frame@.bindings, node) && in_range(ctx, node) implies reachable(
            ctx,
            named,
            node,
        ) by {
            assert(edge(ctx, from, node));
        }
        self.visit_bindings(frame.bindings(), Ghost(ctx), Ghost(named), Ghost(current));
        match frame.outer_env() {
            Some(outer) => {
                proof {
                    if in_range(ctx, NodeView::Frame(outer@)) {
                        assert(edge(ctx, from, NodeView::Frame(outer@)));
                    }
                }
                self.visit(Node::Frame(outer), Ghost(ctx), Ghost(named), Ghost(current));
            },
            None => {},
        }
        assert forall|to: NodeView| #[trigger] edge(ctx, from, to) implies self.marked(to) by {}
    }

    /// Reaches the roots.
    fn visit_roots(
        &mut self,
        interpreter: &Interpreter,
        roots: &[GcObject],
        Ghost(named): Ghost<Seq<int>>,
    )
        requires
            old(self).fits(interpreter@),
            old(self).sound(interpreter@, named),
            old(self).settled(interpreter@, None),
            named == handle_views(roots@),
        ensures
            final(self).fits(interpreter@),
            final(self).sound(interpreter@, named),
            final(self).settled(interpreter@, None),
            final(self).holds_roots(interpreter@, named),
    {
        let ghost ctx = interpreter@;
        assert forall|node: NodeView| #[trigger] is_root(ctx, named, node) implies reachable(
            ctx,
            named,
            node,
        ) by {
            lemma_root_reachable(ctx, named, node);
        }
        assert forall|node: NodeView| value_is(ctx.global, node) && in_range(ctx, node) implies reachable(
            ctx,
            named,
            node,
        ) by {
            assert(is_root(ctx, named, node));
        }
        self.visit_value(interpreter.global(), Ghost(ctx), Ghost(named), Ghost(None));
        let ghost with_global = *self;
        let mut i: usize = 0;
        while i < roots.len()
            invariant
                i <= roots.len(),
                ctx == interpreter@,
                named == handle_views(roots@),
                self.fits(ctx),
                self.sound(ctx, named),
                self.settled(ctx, None),
                self.extends(with_global),
                forall|node: NodeView| #[trigger]
                    is_root(ctx, named, node) ==> reachable(ctx, named, node),
                forall|j: int|
                    0 <= j < i && in_range(ctx, NodeView::Object(#[trigger] named[j]))
                        ==> self.marked(NodeView::Object(named[j])),
            decreases roots.len() - i,
        {
            let ghost before = *self;
            let node = Node::Object(roots[i]);
            proof {
                assert(named[i as int] == roots@[i as int]@);
                if in_range(ctx, node@) {
                    assert(named.contains(named[i as int]));
                    assert(is_root(ctx, named, node@));
                }
            }
            self.visit(node, Ghost(ctx), Ghost(named), Ghost(None));
            assert forall|j: int|
                0 <= j < i + 1 && in_range(
                    ctx,
                    NodeView::Object(#[trigger] named[j]),
                ) implies self.marked(NodeView::Object(named[j])) by {
                if j < i {
                    assert(before.marked(NodeView::Object(named[j])));
                }
            }
            i += 1;
        }
        let ghost with_named = *self;
        let mut i: usize = 0;
        while i < interpreter.heap.len()
            invariant
                i <= interpreter.heap@.len(),
                ctx == interpreter@,
                self.fits(ctx),
                self.sound(ctx, named),
                self.settled(ctx, None),
                self.extends(with_named),
                forall|node: NodeView| #[trigger]
                    is_root(ctx, named, node) ==> reachable(ctx, named, node),
                forall|j: int|
                    0 <= j < i && !(#[trigger] ctx.heap[j]).unused() ==> self.marked(
                        NodeView::Object(j),
                    ),
            decreases interpreter.heap@.len() - i,
        {
            let ghost before = *self;
            match interpreter.heap.handle(i) {
                Some(object) => {
                    if !object.is_unused(&interpreter.heap) {
                        assert(is_root(ctx, named, NodeView::Object(i as int)));
                        self.visit(Node::Object(object), Ghost(ctx), Ghost(named), Ghost(None));
                    }
                },
                None => {},
            }
            assert forall|j: int|
                0 <= j < i + 1 && !(#[trigger] ctx.heap[j]).unused() implies self.marked(
                NodeView::Object(j),
            ) by {
                if j < i {
                    assert(before.marked(NodeView::Object(j)));
                }
            }
            i += 1;
        }
        let ghost with_held = *self;
        let mut depth: usize = 0;
        while depth < interpreter.realm.environment.depth()
            invariant
                depth <= interpreter.realm.environment@.stack.len(),
                ctx == interpreter@,
                self.fits(ctx),
                self.sound(ctx, named),
                self.settled(ctx, None),
                self.extends(with_held),
                forall|node: NodeView| #[trigger]
                    is_root(ctx, named, node) ==> reachable(ctx, named, node),
                forall|j: int|
                    0 <= j < depth && in_range(
                        ctx,
                        NodeView::Frame(#[trigger] ctx.environment.stack[j]),
                    ) ==> self.marked(NodeView::Frame(ctx.environment.stack[j])),
            decreases interpreter.realm.environment@.stack.len() - depth,
        {
            let ghost before = *self;
            match interpreter.realm.environment.active(depth) {
                Some(frame) => {
                    proof {
                        if in_range(ctx, NodeView::Frame(frame@)) {
                            assert(ctx.environment.stack.contains(
                                ctx.environment.stack[depth as int],
                            ));
                            assert(is_root(ctx, named, NodeView::Frame(frame@)));
                        }
                    }
                    self.visit(Node::Frame(frame), Ghost(ctx), Ghost(named), Ghost(None));
                },
                None => {},
            }
            assert forall|j: int|
                0 <= j < depth + 1 && in_range(
                    ctx,
                    NodeView::Frame(#[trigger] ctx.environment.stack[j]),
                ) implies self.marked(NodeView::Frame(ctx.environment.stack[j])) by {
                if j < depth {
                    assert(before.marked(NodeView::Frame(ctx.environment.stack[j])));
                }
            }
            depth += 1;
        }
        assert forall|node: NodeView| #[trigger] is_root(ctx, named, node) implies self.marked(
            node,
        ) by {
            match node {
                NodeView::Object(object) => {
                    if ctx.global == ValueView::Object(object) {
                        assert(value_is(ctx.global, node));
                        assert(with_global.marked(node));
                        assert(with_named.marked(node));
                        assert(with_held.marked(node));
                    } else if named.contains(object) {
                        let j = choose|j: int| 0 <= j < named.len() && named[j] == object;
                        assert(with_named.marked(NodeView::Object(named[j])));
                        assert(with_held.marked(node));
                    } else {
                        assert(!ctx.heap[object].unused());
                        assert(with_held.marked(node));
                    }
                },
                NodeView::Frame(frame) => {
                    let j = choose|j: int|
                        0 <= j < ctx.environment.stack.len() && ctx.environment.stack[j] == frame;
                    assert(self.marked(NodeView::Frame(ctx.environment.stack[j])));
                },
            }
        }
    }

    /// Where every root has been reached and every node that has been
    /// reached has been looked into, every node that can be reached has
    /// been reached.
    proof fn lemma_complete(
        &self,
        ctx: InterpreterView,
        named: Seq<int>,
        path: Seq<NodeView>,
    )
        requires
            self.holds_roots(ctx, named),
            self.settled(ctx, None),
            self.work@.len() == 0,
            is_path(ctx, named, path),
        ensures
            self.marked(path.last()),
        decreases path.len(),
    {
        if path.len() == 1 {
            assert(is_root(ctx, named, path[0]));
        } else {
            let front = path.drop_last();
            assert forall|i: int| 0 <= i < front.len() - 1 implies edge(
                ctx,
                #[trigger] front[i],
                front[i + 1],
            ) by {
                assert(edge(ctx, path[i], path[i + 1]));
            }
            assert(is_path(ctx, named, front));
            self.lemma_complete(ctx, named, front);
            let from = front.last();
            assert(self.marked(from));
            assert(!self.pending(from));
            assert(self.closed_at(ctx, from));
            assert(edge(ctx, path[path.len() - 2], path[path.len() - 2 + 1]));
        }
    }
}

/// Reclaims the objects and the frames that cannot be reached from the
/// roots: the global object, the active frames, every object that somebody
/// holds, and the objects that `roots` names. What can be reached stays as
/// it is. The cell of any other object holds an empty object afterwards,
/// and any other frame binds nothing.
pub fn collect(interpreter: &mut Interpreter, roots: &[GcObject])
    requires
        old(interpreter).wf(),
    ensures
        final(interpreter).wf(),
        final(interpreter)@ == collected(old(interpreter)@, handle_views(roots@)),
{
    let ghost ctx = interpreter@;
    let ghost named = handle_views(roots@);
    let mut marks = Marks::new(interpreter);
    marks.visit_roots(interpreter, roots, Ghost(named));
    while marks.work.len() > 0
        invariant
            ctx == interpreter@,
            interpreter.wf(),
            marks.fits(ctx),
            marks.sound(ctx, named),
            marks.settled(ctx, None),
            marks.holds_roots(ctx, named),
        decreases marks.measure(),
    {
        let ghost before = marks;
        let node = marks.work.pop().unwrap();
        proof {
            let last = before.work@.len() - 1;
            assert(node == before.work@[last]);
            assert(before.marked(node@));
            assert forall|other: NodeView| #[trigger] marks.marked(other) implies Some(node@)
                == Some(other) || marks.pending(other) || marks.closed_at(ctx, other) by {
                assert(before.marked(other));
                if before.pending(other) && other != node@ {
                    let k = choose|k: int|
                        0 <= k < before.work@.len() && (#[trigger] before.work@[k])@ == other;
                    assert(marks.work@[k]@ == other);
                } else if !before.pending(other) {
                    assert(before.closed_at(ctx, other));
                    assert forall|to: NodeView| #[trigger] edge(ctx, other, to) implies marks.marked(
                        to,
                    ) by {
                        assert(before.marked(to));
                    }
                }
            }
            assert forall|k: int| 0 <= k < marks.work@.len() implies in_range(
                ctx,
                (#[trigger] marks.work@[k])@,
            ) && marks.marked(marks.work@[k]@) by {
                assert(before.marked(before.work@[k]@));
            }
        }
        let ghost popped = marks;
        match node {
            Node::Object(object) => {
                marks.scan_object(
                    object.peek(&interpreter.heap),
                    Ghost(object@),
                    Ghost(ctx),
                    Ghost(named),
                );
            },
            Node::Frame(frame) => {
                marks.scan_frame(
                    interpreter.realm.environment.record(frame),
                    Ghost(frame@),
                    Ghost(ctx),
                    Ghost(named),
                );
            },
        }
        proof {
            assert forall|other: NodeView| #[trigger] marks.marked(other) implies marks.pending(
                other,
            ) || marks.closed_at(ctx, other) by {}
            assert forall|root: NodeView| #[trigger] is_root(ctx, named, root) implies marks.marked(
                root,
            ) by {
                assert(before.marked(root));
                assert(popped.marked(root));
            }
        }
    }
    proof {
        assert forall|node: NodeView| reachable(ctx, named, node) implies marks.marked(node) by {
            let path = choose|path: Seq<NodeView>| #[trigger]
                is_path(ctx, named, path) && path.last() == node;
            marks.lemma_complete(ctx, named, path);
        }
    }
    let mut i: usize = 0;
    while i < marks.objects.len()
        invariant
            i <= marks.objects@.len(),
            marks.objects@.len() == ctx.heap.len(),
            interpreter.wf(),
            marks.holds_roots(ctx, named),
            interpreter@ == (InterpreterView {
                heap: Seq::new(
                    ctx.heap.len(),
                    |object: int|
                        if object < i && !marks.objects@[object] {
                            CellView::fresh(ObjectView::cleared())
                        } else {
                            ctx.heap[object]
                        },
                ),
                ..ctx
            }),
        decreases marks.objects@.len() - i,
    {
        if !marks.objects[i] {
            match interpreter.heap.handle(i) {
                Some(object) => {
                    proof {
                        if !ctx.heap[i as int].unused() {
                            assert(is_root(ctx, named, NodeView::Object(i as int)));
                            assert(marks.marked(NodeView::Object(i as int)));
                        }
                    }
                    assert(interpreter.heap.wf()) by {
                        assert forall|j: int| 0 <= j < interpreter.heap@.len() implies (
                        #[trigger] interpreter.heap@[j]).wf() by {
                            assert(interpreter@.heap[j].wf());
                        }
                    }
                    interpreter.heap.reset(object);
                    assert(interpreter.wf()) by {
                        assert forall|j: int| 0 <= j < interpreter@.heap.len() implies (
                        #[trigger] interpreter@.heap[j]).wf() by {
                            assert(interpreter.heap@[j].wf());
                        }
                    }
                },
                None => {},
            }
        }
        i += 1;
    }
    let ghost swept = interpreter@;
    let mut i: usize = 0;
    while i < marks.frames.len()
        invariant
            i <= marks.frames@.len(),
            marks.frames@.len() == ctx.environment.records.len(),
            interpreter.wf(),
            interpreter@ == (InterpreterView {
                environment: LexicalEnvironmentView {
                    records: Seq::new(
                        ctx.environment.records.len(),
                        |frame: int|
                            if frame < i && !marks.frames@[frame] {
                                ctx.environment.records[frame].cleared()
                            } else {
                                ctx.environment.records[frame]
                            },
                    ),
                    stack: ctx.environment.stack,
                },
                ..swept
            }),
        decreases marks.frames@.len() - i,
    {
        if !marks.frames[i] {
            match interpreter.realm.environment.handle(i) {
                Some(frame) => {
                    let ghost before = interpreter@;
                    interpreter.realm.environment.record_mut(frame).clear();
                    assert(interpreter.wf()) by {
                        assert forall|j: int|
                            0 <= j < interpreter@.environment.records.len() implies (
                        #[trigger] interpreter@.environment.records[j]).wf() by {
                            if j != frame@ {
                                assert(before.environment.records[j].wf());
                            }
                        }
                        assert forall|j: int| 0 <= j < interpreter@.heap.len() implies (
                        #[trigger] interpreter@.heap[j]).wf() by {
                            assert(before.heap[j].wf());
                        }
                    }
                },
                None => {},
            }
        }
        i += 1;
    }
    proof {
        let expected = collected(ctx, named);
        assert forall|object: int| 0 <= object < ctx.heap.len() implies (#[trigger] marks.objects@[object])
            == reachable(ctx, named, NodeView::Object(object)) by {
            assert(marks.marked(NodeView::Object(object)) == marks.objects@[object]);
        }
        assert forall|frame: int| 0 <= frame < ctx.environment.records.len() implies (
        #[trigger] marks.frames@[frame]) == reachable(ctx, named, NodeView::Frame(frame)) by {
            assert(marks.marked(NodeView::Frame(frame)) == marks.frames@[frame]);
        }
        assert(interpreter@.heap =~= expected.heap);
        assert(interpreter@.environment.records =~= expected.environment.records);
    }
}

} // verus!
