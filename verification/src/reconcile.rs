//! Reconciliation: what has to be written to the document so that it shows a
//! new virtual DOM in place of the one it shows now.

use crate::path::{Path, PathModel};
use crate::virtual_dom::{
    addressed, child_of, child_path, children_of, lemma_addressed_child, nodes_markup, nodes_model,
    render_nodes, same_kind, share, ElementModel, KindModel, NodeModel, VirtualKind, VirtualNode,
};
use std::sync::Arc;
use vstd::prelude::*;

verus! {

/// A listener to attach: at the element at `locator`, for the event `event`;
/// when it fires, `message` goes to the component at `scope`.
pub struct Callback<M> {
    pub locator: Path,
    pub event: String,
    pub scope: Path,
    pub message: Arc<M>,
}

/// One write of a passover.
pub enum Step<M> {
    /// Put `text` as a text node into the element at `locator`.
    Text { locator: Path, text: String },
    /// Attach a listener.
    Listen(Callback<M>),
}

/// The rewriting of one stale subtree: the content of the element at `locator`
/// is replaced by `markup`, and then the writes of `passover` are made. Where
/// the element is not found, the passover is left out with it.
pub struct Patch<M> {
    pub locator: Path,
    pub markup: String,
    pub passover: Vec<Step<M>>,
}

/// The plain value of a [`Callback`].
pub struct CallbackModel<M> {
    pub locator: PathModel,
    pub event: Seq<char>,
    pub scope: PathModel,
    pub message: M,
}

/// The plain value of a [`Step`].
pub enum StepModel<M> {
    Text { locator: PathModel, text: Seq<char> },
    Listen(CallbackModel<M>),
}

/// The plain value of a [`Patch`].
pub struct PatchModel<M> {
    pub locator: PathModel,
    pub markup: Seq<char>,
    pub passover: Seq<StepModel<M>>,
}

impl<M> View for Callback<M> {
    type V = CallbackModel<M>;

    open spec fn view(&self) -> CallbackModel<M> {
        CallbackModel {
            locator: self.locator@,
            event: self.event@,
            scope: self.scope@,
            message: *self.message,
        }
    }
}

impl<M> View for Step<M> {
    type V = StepModel<M>;

    open spec fn view(&self) -> StepModel<M> {
        match self {
            Step::Text { locator, text } => StepModel::Text { locator: locator@, text: text@ },
            Step::Listen(callback) => StepModel::Listen(callback@),
        }
    }
}

/// The plain values of a list of steps.
pub open spec fn steps_model<M>(steps: Seq<Step<M>>) -> Seq<StepModel<M>> {
    Seq::new(steps.len(), |i: int| steps[i]@)
}

impl<M> View for Patch<M> {
    type V = PatchModel<M>;

    open spec fn view(&self) -> PatchModel<M> {
        PatchModel {
            locator: self.locator@,
            markup: self.markup@,
            passover: steps_model(self.passover@),
        }
    }
}

/// The plain values of a list of patches.
pub open spec fn patches_model<M>(patches: Seq<Patch<M>>) -> Seq<PatchModel<M>> {
    Seq::new(patches.len(), |i: int| patches[i]@)
}

/// The listeners of a node, which stands in the document at `locator`: one for
/// each of its bindings, in their order.
pub open spec fn listeners<M>(node: NodeModel<M>, locator: PathModel) -> Seq<StepModel<M>> {
    Seq::new(
        node.callbacks.len(),
        |k: int|
            StepModel::Listen(
                CallbackModel {
                    locator,
                    event: node.callbacks[k].0,
                    scope: node.scope,
                    message: node.callbacks[k].1,
                },
            ),
    )
}

/// The passover of a subtree that was just written as markup, its root at
/// `path`: a text gets its content; an element has, for each child in order,
/// the child's listeners attached and then the child's own passover made.
pub open spec fn passover<M>(node: NodeModel<M>, path: PathModel) -> Seq<StepModel<M>>
    decreases node, 0nat,
{
    match node.kind {
        KindModel::Template(text) => seq![StepModel::Text { locator: path, text }],
        KindModel::Element(element) => passover_children(
            element.children,
            path,
            element.children.len(),
        ),
    }
}

/// The passover of the first `count` of the children of the element at `path`.
pub open spec fn passover_children<M>(
    children: Seq<NodeModel<M>>,
    path: PathModel,
    count: nat,
) -> Seq<StepModel<M>>
    decreases children, count,
{
    if count == 0 || count > children.len() {
        Seq::empty()
    } else {
        passover_children(children, path, (count - 1) as nat) + listeners(
            children[count - 1],
            child_path(path, count - 1),
        ) + passover(children[count - 1], child_path(path, count - 1))
    }
}

/// The patch that rewrites the content of the node `node` at `path`: the
/// markup of its children, and its passover.
pub open spec fn patch_of<M>(node: NodeModel<M>, path: PathModel) -> PatchModel<M> {
    PatchModel {
        locator: path,
        markup: nodes_markup(children_of(node.kind)),
        passover: passover(node, path),
    }
}

/// The patches that turn the document from showing `old` to showing `new`, both
/// at `path`. Two nodes of different kind (see [`same_kind`]) give one patch,
/// which rewrites the content of the node; two of the same kind give the
/// patches of their children, compared pair by pair in order, as far as both
/// have children.
///
/// The comparison is by position alone. A child without a partner in the
/// other tree is not compared: nothing is written for a child that is new, and
/// nothing is taken away for one that is gone. A patch rewrites what is inside
/// an element; the tag and the attributes of that element itself are written
/// only by a patch of one of its ancestors.
pub open spec fn diff<M>(new: NodeModel<M>, old: NodeModel<M>, path: PathModel) -> Seq<
    PatchModel<M>,
>
    decreases new, 0nat,
{
    if !same_kind(new.kind, old.kind) {
        seq![patch_of(new, path)]
    } else {
        match new.kind {
            KindModel::Template(_) => Seq::empty(),
            KindModel::Element(element) => diff_children(
                element.children,
                children_of(old.kind),
                path,
                shared_count(element.children, children_of(old.kind)),
            ),
        }
    }
}

/// The number of positions at which both lists have a node.
pub open spec fn shared_count<M>(news: Seq<NodeModel<M>>, olds: Seq<NodeModel<M>>) -> nat {
    if news.len() <= olds.len() {
        news.len()
    } else {
        olds.len()
    }
}

/// The patches of the first `count` pairs of children of the element at `path`.
pub open spec fn diff_children<M>(
    news: Seq<NodeModel<M>>,
    olds: Seq<NodeModel<M>>,
    path: PathModel,
    count: nat,
) -> Seq<PatchModel<M>>
    decreases news, count,
{
    if count == 0 || count > news.len() || count > olds.len() {
        Seq::empty()
    } else {
        diff_children(news, olds, path, (count - 1) as nat) + diff(
            news[count - 1],
            olds[count - 1],
            child_path(path, count - 1),
        )
    }
}

fn passover_children_into<M>(children: &Vec<VirtualNode<M>>, path: &Path, out: &mut Vec<Step<M>>)
    ensures
        steps_model(final(out)@) == steps_model(old(out)@) + passover_children(
            nodes_model(children@),
            path@,
            children@.len(),
        ),
    decreases children,
{
    let ghost before = steps_model(out@);
    let ghost models = nodes_model(children@);
    let mut i: usize = 0;
    assert(steps_model(out@) =~= before + passover_children(models, path@, 0));
    while i < children.len()
        invariant
            i <= children@.len(),
            models == nodes_model(children@),
            steps_model(out@) == before + passover_children(models, path@, i as nat),
        decreases children@.len() - i,
    {
        let at = child_of(path, i);
        children[i].listen_into(&at, out);
        children[i].passover_into(&at, out);
        proof {
            assert(models[i as int] == children[i as int]@);
            assert(steps_model(out@) =~= before + passover_children(models, path@, (i + 1) as nat));
        }
        i += 1;
    }
}

fn reconcile_children_into<M>(
    news: &Vec<VirtualNode<M>>,
    olds: &Vec<VirtualNode<M>>,
    path: &Path,
    out: &mut Vec<Patch<M>>,
)
    ensures
        patches_model(final(out)@) == patches_model(old(out)@) + diff_children(
            nodes_model(news@),
            nodes_model(olds@),
            path@,
            shared_count(nodes_model(news@), nodes_model(olds@)),
        ),
    decreases news,
{
    let ghost before = patches_model(out@);
    let ghost new_models = nodes_model(news@);
    let ghost old_models = nodes_model(olds@);
    let count = if news.len() <= olds.len() {
        news.len()
    } else {
        olds.len()
    };
    let mut i: usize = 0;
    assert(patches_model(out@) =~= before + diff_children(new_models, old_models, path@, 0));
    while i < count
        invariant
            i <= count,
            count == shared_count(new_models, old_models),
            new_models == nodes_model(news@),
            old_models == nodes_model(olds@),
            patches_model(out@) == before + diff_children(new_models, old_models, path@, i as nat),
        decreases count - i,
    {
        let at = child_of(path, i);
        news[i].reconcile_into(&olds[i], &at, out);
        proof {
            assert(new_models[i as int] == news[i as int]@);
            assert(old_models[i as int] == olds[i as int]@);
            assert(patches_model(out@) =~= before + diff_children(
                new_models,
                old_models,
                path@,
                (i + 1) as nat,
            ));
        }
        i += 1;
    }
}

impl<M> Callback<M> {
    /// A listener at `locator` for `event` that sends `message` to `scope`.
    pub fn new(locator: Path, event: String, scope: Path, message: Arc<M>) -> (callback: Callback<
        M,
    >)
        ensures
            callback@ == (CallbackModel {
                locator: locator@,
                event: event@,
                scope: scope@,
                message: *message,
            }),
    {
        Callback { locator, event, scope, message }
    }
}

impl<M> VirtualNode<M> {
    /// The listener that binds `event` to `message` on this node, which stands
    /// in the document at `locator`: when it fires, the message goes to the
    /// component that wrote the node.
    pub fn attach_listener(&self, locator: &Path, event: &String, message: &Arc<M>) -> (callback:
        Callback<M>)
        ensures
            callback@ == (CallbackModel {
                locator: locator@,
                event: event@,
                scope: self@.scope,
                message: **message,
            }),
    {
        Callback::new(locator.clone(), event.clone(), self.scope.clone(), share(message))
    }

    fn listen_into(&self, locator: &Path, out: &mut Vec<Step<M>>)
        ensures
            steps_model(final(out)@) == steps_model(old(out)@) + listeners(self@, locator@),
    {
        let ghost before = steps_model(out@);
        let ghost all = listeners(self@, locator@);
        let mut k: usize = 0;
        assert(steps_model(out@) =~= before + all.take(0));
        while k < self.callbacks.len()
            invariant
                k <= self@.callbacks.len(),
                self@.callbacks.len() == self.callbacks@.len(),
                all == listeners(self@, locator@),
                steps_model(out@) == before + all.take(k as int),
            decreases self.callbacks@.len() - k,
        {
            let callback = self.attach_listener(locator, &self.callbacks[k].0, &self.callbacks[k].1);
            let ghost earlier = steps_model(out@);
            out.push(Step::Listen(callback));
            assert(steps_model(out@) =~= earlier.push(all[k as int]));
            assert(all.take(k as int + 1) =~= all.take(k as int).push(all[k as int]));
            assert(steps_model(out@) =~= before + all.take(k as int + 1));
            k += 1;
        }
        assert(all.take(k as int) =~= all);
    }

    fn passover_into(&self, path: &Path, out: &mut Vec<Step<M>>)
        ensures
            steps_model(final(out)@) == steps_model(old(out)@) + passover(self@, path@),
        decreases self,
    {
        let ghost before = steps_model(out@);
        match &self.kind {
            VirtualKind::Template(text) => {
                out.push(Step::Text { locator: path.clone(), text: text.clone() });
                assert(steps_model(out@) =~= before + passover(self@, path@));
            },
            VirtualKind::Element(element) => {
                passover_children_into(&element.children, path, out);
            },
        }
    }

    /// The passover of this node, which was just written as markup at `path`:
    /// see [`passover`].
    pub fn passover(&self, path: &Path) -> (steps: Vec<Step<M>>)
        ensures
            steps_model(steps@) == passover(self@, path@),
    {
        let mut steps: Vec<Step<M>> = Vec::new();
        assert(steps_model(steps@) =~= Seq::<StepModel<M>>::empty());
        self.passover_into(path, &mut steps);
        assert(steps_model(steps@) =~= passover(self@, path@));
        steps
    }

    /// The patch that rewrites the content of this node at `path`: see
    /// [`patch_of`].
    pub fn patch(&self, path: &Path) -> (patch: Patch<M>)
        ensures
            patch@ == patch_of(self@, path@),
    {
        let markup = match &self.kind {
            VirtualKind::Template(_) => String::new(),
            VirtualKind::Element(element) => render_nodes(&element.children),
        };
        proof {
            assert(nodes_markup(Seq::<NodeModel<M>>::empty()) =~= Seq::<char>::empty());
        }
        Patch { locator: path.clone(), markup, passover: self.passover(path) }
    }

    fn reconcile_into(&self, other: &VirtualNode<M>, path: &Path, out: &mut Vec<Patch<M>>)
        ensures
            patches_model(final(out)@) == patches_model(old(out)@) + diff(self@, other@, path@),
        decreases self,
    {
        let ghost before = patches_model(out@);
        if !(self.kind == other.kind) {
            let patch = self.patch(path);
            out.push(patch);
            assert(patches_model(out@) =~= before + diff(self@, other@, path@));
        } else {
            match &self.kind {
                VirtualKind::Template(_) => {
                    assert(patches_model(out@) =~= before + diff(self@, other@, path@));
                },
                VirtualKind::Element(element) => {
                    match &other.kind {
                        VirtualKind::Template(_) => {},
                        VirtualKind::Element(old) => {
                            reconcile_children_into(&element.children, &old.children, path, out);
                        },
                    }
                },
            }
        }
    }

    /// The patches that turn the document from showing `other` to showing this
    /// node, both at `path`: see [`diff`].
    pub fn reconcile(&self, other: &VirtualNode<M>, path: Path) -> (patches: Vec<Patch<M>>)
        ensures
            patches_model(patches@) == diff(self@, other@, path@),
    {
        let mut patches: Vec<Patch<M>> = Vec::new();
        assert(patches_model(patches@) =~= Seq::<PatchModel<M>>::empty());
        self.reconcile_into(other, &path, &mut patches);
        assert(patches_model(patches@) =~= diff(self@, other@, path@));
        patches
    }
}

} // verus!

verus! {

/// Whether two trees are of the same kind at their roots and at every pair of
/// children that reconciliation compares.
pub open spec fn alike<M>(new: NodeModel<M>, old: NodeModel<M>) -> bool
    decreases new, 0nat,
{
    same_kind(new.kind, old.kind) && match new.kind {
        KindModel::Template(_) => true,
        KindModel::Element(element) => alike_children(
            element.children,
            children_of(old.kind),
            shared_count(element.children, children_of(old.kind)),
        ),
    }
}

/// Whether the first `count` pairs of children are alike.
pub open spec fn alike_children<M>(news: Seq<NodeModel<M>>, olds: Seq<NodeModel<M>>, count: nat) -> bool
    decreases news, count,
{
    if count == 0 || count > news.len() || count > olds.len() {
        true
    } else {
        alike_children(news, olds, (count - 1) as nat) && alike(news[count - 1], olds[count - 1])
    }
}

/// Reconciliation writes nothing exactly when the two trees are alike.
pub proof fn lemma_alike_writes_nothing<M>(
    new: NodeModel<M>,
    old: NodeModel<M>,
    path: PathModel,
)
    ensures
        alike(new, old) <==> diff(new, old, path) == Seq::<PatchModel<M>>::empty(),
    decreases new, 0nat,
{
    if same_kind(new.kind, old.kind) {
        match new.kind {
            KindModel::Template(_) => {},
            KindModel::Element(element) => {
                lemma_alike_children_write_nothing(
                    element.children,
                    children_of(old.kind),
                    path,
                    shared_count(element.children, children_of(old.kind)),
                );
            },
        }
    } else {
        assert(diff(new, old, path).len() == 1);
    }
}

/// The first `count` pairs of children give no patch exactly when they are
/// alike.
pub proof fn lemma_alike_children_write_nothing<M>(
    news: Seq<NodeModel<M>>,
    olds: Seq<NodeModel<M>>,
    path: PathModel,
    count: nat,
)
    ensures
        alike_children(news, olds, count) <==> diff_children(news, olds, path, count) == Seq::<
            PatchModel<M>,
        >::empty(),
    decreases news, count,
{
    if !(count == 0 || count > news.len() || count > olds.len()) {
        lemma_alike_children_write_nothing(news, olds, path, (count - 1) as nat);
        lemma_alike_writes_nothing(news[count - 1], olds[count - 1], child_path(path, count - 1));
        let front = diff_children(news, olds, path, (count - 1) as nat);
        let back = diff(news[count - 1], olds[count - 1], child_path(path, count - 1));
        assert(diff_children(news, olds, path, count) == front + back);
        if front + back == Seq::<PatchModel<M>>::empty() {
            assert((front + back).len() == front.len() + back.len());
            assert(front =~= Seq::<PatchModel<M>>::empty());
            assert(back =~= Seq::<PatchModel<M>>::empty());
        }
        if front == Seq::<PatchModel<M>>::empty() && back == Seq::<PatchModel<M>>::empty() {
            assert(front + back =~= Seq::<PatchModel<M>>::empty());
        }
    }
}

/// Every tree is alike to itself.
pub proof fn lemma_alike_reflexive<M>(tree: NodeModel<M>)
    ensures
        alike(tree, tree),
    decreases tree, 0nat,
{
    match tree.kind {
        KindModel::Template(_) => {},
        KindModel::Element(element) => {
            lemma_alike_children_reflexive(element.children, element.children.len());
        },
    }
}

/// Every list of children is alike to itself.
pub proof fn lemma_alike_children_reflexive<M>(children: Seq<NodeModel<M>>, count: nat)
    ensures
        alike_children(children, children, count),
    decreases children, count,
{
    if !(count == 0 || count > children.len()) {
        lemma_alike_children_reflexive(children, (count - 1) as nat);
        lemma_alike_reflexive(children[count - 1]);
    }
}

/// Idempotence: reconciling a tree with itself writes nothing.
pub proof fn lemma_same_tree_writes_nothing<M>(tree: NodeModel<M>, path: PathModel)
    ensures
        diff(tree, tree, path) == Seq::<PatchModel<M>>::empty(),
{
    lemma_alike_reflexive(tree);
    lemma_alike_writes_nothing(tree, tree, path);
}

/// Every patch of a reconciliation at `path` rewrites an element at or below
/// `path`.
pub proof fn lemma_patches_below<M>(
    new: NodeModel<M>,
    old: NodeModel<M>,
    path: PathModel,
)
    ensures
        forall|i: int|
            0 <= i < diff(new, old, path).len() ==> path.is_prefix_of(
                #[trigger] diff(new, old, path)[i].locator,
            ),
    decreases new, 0nat,
{
    if same_kind(new.kind, old.kind) {
        match new.kind {
            KindModel::Template(_) => {
                assert(diff(new, old, path).len() == 0);
            },
            KindModel::Element(element) => {
                lemma_children_patches_below(
                    element.children,
                    children_of(old.kind),
                    path,
                    shared_count(element.children, children_of(old.kind)),
                );
                assert(diff(new, old, path) == diff_children(
                    element.children,
                    children_of(old.kind),
                    path,
                    shared_count(element.children, children_of(old.kind)),
                ));
            },
        }
    } else {
        assert(path.subrange(0, path.len() as int) =~= path);
        assert(path.is_prefix_of(path));
        assert(diff(new, old, path) =~= seq![patch_of(new, path)]);
        assert(diff(new, old, path)[0].locator == path);
    }
}

/// Every patch of the first `count` pairs of children of the element at `path`
/// rewrites an element below `path`.
pub proof fn lemma_children_patches_below<M>(
    news: Seq<NodeModel<M>>,
    olds: Seq<NodeModel<M>>,
    path: PathModel,
    count: nat,
)
    ensures
        forall|i: int|
            0 <= i < diff_children(news, olds, path, count).len() ==> path.is_prefix_of(
                #[trigger] diff_children(news, olds, path, count)[i].locator,
            ),
    decreases news, count,
{
    if !(count == 0 || count > news.len() || count > olds.len()) {
        lemma_children_patches_below(news, olds, path, (count - 1) as nat);
        let below = child_path(path, count - 1);
        lemma_patches_below(news[count - 1], olds[count - 1], below);
        let front = diff_children(news, olds, path, (count - 1) as nat);
        let back = diff(news[count - 1], olds[count - 1], below);
        assert forall|i: int| 0 <= i < (front + back).len() implies path.is_prefix_of(
            #[trigger] (front + back)[i].locator,
        ) by {
            if i >= front.len() {
                let at = back[i - front.len()].locator;
                assert(below.is_prefix_of(at));
                assert(path =~= below.subrange(0, path.len() as int));
                assert(path =~= at.subrange(0, path.len() as int));
            }
        }
    }
}

/// Whether `route`, a list of child positions, leads from the root of `tree`
/// to one of its nodes.
pub open spec fn reaches<M>(tree: NodeModel<M>, route: Seq<int>) -> bool
    decreases route.len(),
{
    if route.len() == 0 {
        true
    } else {
        match tree.kind {
            KindModel::Template(_) => false,
            KindModel::Element(element) => 0 <= route[0] < element.children.len() && reaches(
                element.children[route[0]],
                route.drop_first(),
            ),
        }
    }
}

/// The node of `tree` that `route` leads to.
pub open spec fn node_at<M>(tree: NodeModel<M>, route: Seq<int>) -> NodeModel<M>
    decreases route.len(),
{
    if route.len() == 0 {
        tree
    } else {
        node_at(children_of(tree.kind)[route[0]], route.drop_first())
    }
}

/// The tree `tree` with `subtree` in the place of the node that `route` leads
/// to.
pub open spec fn replaced<M>(
    tree: NodeModel<M>,
    route: Seq<int>,
    subtree: NodeModel<M>,
) -> NodeModel<M>
    decreases route.len(),
{
    if route.len() == 0 {
        subtree
    } else {
        match tree.kind {
            KindModel::Template(_) => tree,
            KindModel::Element(element) => NodeModel {
                kind: KindModel::Element(
                    ElementModel {
                        children: element.children.update(
                            route[0],
                            replaced(element.children[route[0]], route.drop_first(), subtree),
                        ),
                        ..element
                    },
                ),
                ..tree
            },
        }
    }
}

/// The path of the node that `route` leads to from the node at `path`.
pub open spec fn route_path(path: PathModel, route: Seq<int>) -> PathModel
    decreases route.len(),
{
    if route.len() == 0 {
        path
    } else {
        route_path(child_path(path, route[0]), route.drop_first())
    }
}

proof fn lemma_children_one_changed<M>(
    children: Seq<NodeModel<M>>,
    at: int,
    subtree: NodeModel<M>,
    path: PathModel,
    count: nat,
)
    requires
        0 <= at < children.len(),
        count <= children.len(),
    ensures
        diff_children(children.update(at, subtree), children, path, count) == (if count > at {
            diff(subtree, children[at], child_path(path, at))
        } else {
            Seq::<PatchModel<M>>::empty()
        }),
    decreases count,
{
    let news = children.update(at, subtree);
    if count > 0 {
        lemma_children_one_changed(children, at, subtree, path, (count - 1) as nat);
        let front = diff_children(news, children, path, (count - 1) as nat);
        let back = diff(news[count - 1], children[count - 1], child_path(path, count - 1));
        if count - 1 != at {
            lemma_same_tree_writes_nothing(children[count - 1], child_path(path, count - 1));
            assert(front + back =~= front);
        } else {
            assert(front + back =~= back);
        }
    }
}

/// Locality: where two trees differ only in the subtree that `route` leads
/// to, their reconciliation is that of the two subtrees, at the subtree's
/// path. Nothing outside the subtree is written.
pub proof fn lemma_change_stays_local<M>(
    tree: NodeModel<M>,
    route: Seq<int>,
    subtree: NodeModel<M>,
    path: PathModel,
)
    requires
        reaches(tree, route),
    ensures
        diff(replaced(tree, route, subtree), tree, path) == diff(
            subtree,
            node_at(tree, route),
            route_path(path, route),
        ),
    decreases route.len(),
{
    if route.len() > 0 {
        match tree.kind {
            KindModel::Template(_) => {},
            KindModel::Element(element) => {
                let at = route[0];
                let inner = replaced(element.children[at], route.drop_first(), subtree);
                lemma_change_stays_local(
                    element.children[at],
                    route.drop_first(),
                    subtree,
                    child_path(path, at),
                );
                lemma_children_one_changed(
                    element.children,
                    at,
                    inner,
                    path,
                    element.children.len(),
                );
            },
        }
    }
}

/// Minimal patch: where the new tree differs from the old one in the content
/// of one text only, reconciliation gives one patch. It empties the element of
/// that text and puts the new content there, and writes nowhere else. That
/// element is a child of the element around the text: nothing outside that
/// element is touched.
pub proof fn lemma_minimal_patch<M>(
    tree: NodeModel<M>,
    route: Seq<int>,
    content: Seq<char>,
    path: PathModel,
)
    requires
        reaches(tree, route),
        node_at(tree, route).kind is Template,
        node_at(tree, route).kind != KindModel::<M>::Template(content),
    ensures
        diff(
            replaced(
                tree,
                route,
                NodeModel { kind: KindModel::Template(content), ..node_at(tree, route) },
            ),
            tree,
            path,
        ) == seq![
            PatchModel::<M> {
                locator: route_path(path, route),
                markup: Seq::empty(),
                passover: seq![
                    StepModel::Text { locator: route_path(path, route), text: content },
                ],
            },
        ],
        route.len() > 0 ==> route_path(path, route) == child_path(
            route_path(path, route.drop_last()),
            route.last(),
        ),
{
    let leaf = NodeModel { kind: KindModel::Template(content), ..node_at(tree, route) };
    lemma_change_stays_local(tree, route, leaf, path);
    assert(nodes_markup(Seq::<NodeModel<M>>::empty()) =~= Seq::<char>::empty());
    if route.len() > 0 {
        lemma_route_path(path, route);
        lemma_route_path(path, route.drop_last());
        assert(path + route_steps(route) =~= child_path(
            path + route_steps(route.drop_last()),
            route.last(),
        ));
    }
}

/// The steps that `route` takes below a node: one for each position.
pub open spec fn route_steps(route: Seq<int>) -> PathModel {
    Seq::new(route.len(), |i: int| (route[i] as usize, "virtual_node"@))
}

/// Whether every position of `route` is one that a list of children can have.
pub open spec fn positional(route: Seq<int>) -> bool {
    forall|i: int| 0 <= i < route.len() ==> 0 <= #[trigger] route[i] <= usize::MAX
}

/// The path that a route leads to is the path it starts from, followed by the
/// route's steps.
pub proof fn lemma_route_path(path: PathModel, route: Seq<int>)
    ensures
        route_path(path, route) == path + route_steps(route),
    decreases route.len(),
{
    if route.len() == 0 {
        assert(path + route_steps(route) =~= path);
    } else {
        lemma_route_path(child_path(path, route[0]), route.drop_first());
        assert(child_path(path, route[0]) + route_steps(route.drop_first()) =~= path + route_steps(
            route,
        ));
    }
}

/// In a tree that carries its places, the node that a route leads to carries
/// the path that the route leads to.
pub proof fn lemma_node_path<M>(tree: NodeModel<M>, path: PathModel, route: Seq<int>)
    requires
        addressed(tree, path),
        reaches(tree, route),
    ensures
        node_at(tree, route).path == route_path(path, route),
        addressed(node_at(tree, route), route_path(path, route)),
    decreases route.len(),
{
    if route.len() > 0 {
        match tree.kind {
            KindModel::Template(_) => {},
            KindModel::Element(element) => {
                lemma_addressed_child(
                    element.children,
                    path,
                    element.children.len(),
                    route[0],
                );
                lemma_node_path(
                    element.children[route[0]],
                    child_path(path, route[0]),
                    route.drop_first(),
                );
            },
        }
    }
}

/// Path uniqueness: in a tree that carries its places, two routes lead to
/// nodes with the same path exactly when they are the same route.
pub proof fn lemma_node_paths_unique<M>(
    tree: NodeModel<M>,
    path: PathModel,
    first: Seq<int>,
    second: Seq<int>,
)
    requires
        addressed(tree, path),
        reaches(tree, first),
        reaches(tree, second),
        positional(first),
        positional(second),
    ensures
        node_at(tree, first).path == node_at(tree, second).path <==> first == second,
{
    lemma_node_path(tree, path, first);
    lemma_node_path(tree, path, second);
    lemma_route_path(path, first);
    lemma_route_path(path, second);
    let a = path + route_steps(first);
    let b = path + route_steps(second);
    if a == b {
        assert(a.len() == path.len() + first.len());
        assert(b.len() == path.len() + second.len());
        assert forall|i: int| 0 <= i < first.len() implies first[i] == second[i] by {
            assert(a[path.len() + i] == route_steps(first)[i]);
            assert(b[path.len() + i] == route_steps(second)[i]);
            assert(first[i] as usize == second[i] as usize);
        }
        assert(first =~= second);
    }
}

proof fn lemma_alike_where_equal<M>(news: Seq<NodeModel<M>>, olds: Seq<NodeModel<M>>, count: nat)
    requires
        forall|i: int| 0 <= i < count && i < news.len() && i < olds.len() ==> news[i] == olds[i],
    ensures
        alike_children(news, olds, count),
    decreases count,
{
    if !(count == 0 || count > news.len() || count > olds.len()) {
        lemma_alike_where_equal(news, olds, (count - 1) as nat);
        lemma_alike_reflexive(news[count - 1]);
    }
}

/// Growth and shrinkage: where an element has gained children behind the ones
/// it had, or lost its last children, and nothing else has changed,
/// reconciliation writes nothing. The children that stay keep their places and
/// are left alone; the ones that came are not shown, and the ones that went
/// stay in the document.
pub proof fn lemma_children_at_the_end_write_nothing<M>(
    new: NodeModel<M>,
    old: NodeModel<M>,
    path: PathModel,
)
    requires
        same_kind(new.kind, old.kind),
        children_of(new.kind).is_prefix_of(children_of(old.kind)) || children_of(
            old.kind,
        ).is_prefix_of(children_of(new.kind)),
    ensures
        diff(new, old, path) == Seq::<PatchModel<M>>::empty(),
{
    let news = children_of(new.kind);
    let olds = children_of(old.kind);
    lemma_alike_where_equal(news, olds, shared_count(news, olds));
    lemma_alike_writes_nothing(new, old, path);
}

} // verus!
