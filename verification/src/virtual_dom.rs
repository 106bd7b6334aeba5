//! The virtual DOM: the expanded tree that is compared from one render pass to
//! the next, and its markup.

use crate::path::{Path, PathModel, PathNode};
use std::sync::Arc;
use vstd::prelude::*;
use vstd::std_specs::cmp::PartialEqSpecImpl;
use vstd::string::StringExecFns;

verus! {

/// The plain value of a [`VirtualElement`].
pub struct ElementModel<M> {
    pub name: Seq<char>,
    pub attributes: Seq<char>,
    pub children: Seq<NodeModel<M>>,
}

/// The plain value of a [`VirtualKind`].
pub enum KindModel<M> {
    Template(Seq<char>),
    Element(ElementModel<M>),
}

/// The plain value of a [`VirtualNode`].
pub struct NodeModel<M> {
    pub callbacks: Seq<(Seq<char>, M)>,
    pub kind: KindModel<M>,
    pub path: PathModel,
    pub scope: PathModel,
}

/// An element of the virtual DOM: its tag, its attributes as markup, and its
/// children in the order of the document.
pub struct VirtualElement<M> {
    pub name: String,
    pub attributes: String,
    pub children: Vec<VirtualNode<M>>,
}

/// What a node of the virtual DOM is: a text, or an element.
pub enum VirtualKind<M> {
    Template(String),
    Element(VirtualElement<M>),
}

/// A node of the virtual DOM: the events it listens to, each with the message
/// it sends; what it is; its path, which is its place in the document; and its
/// scope, the path of the component that wrote it and receives its messages.
pub struct VirtualNode<M> {
    pub callbacks: Arc<Vec<(String, Arc<M>)>>,
    pub kind: VirtualKind<M>,
    pub path: Path,
    pub scope: Path,
}

/// `Arc::clone`: a second handle to the value that `handle` holds. The contract
/// claims that the new handle is equal to the one it was made from.
#[verifier::external_body]
pub(crate) fn share<T>(handle: &Arc<T>) -> (shared: Arc<T>)
    ensures
        shared == *handle,
{
    Arc::clone(handle)
}

/// The plain values of a list of bindings of an event to a message.
pub open spec fn bindings_model<M>(callbacks: Seq<(String, Arc<M>)>) -> Seq<(Seq<char>, M)> {
    Seq::new(callbacks.len(), |i: int| (callbacks[i].0@, *callbacks[i].1))
}

/// The plain value of a node.
pub open spec fn node_model<M>(node: VirtualNode<M>) -> NodeModel<M>
    decreases node,
{
    NodeModel {
        callbacks: bindings_model(node.callbacks@),
        kind: kind_model(node.kind),
        path: node.path@,
        scope: node.scope@,
    }
}

/// The plain value of a kind.
pub open spec fn kind_model<M>(kind: VirtualKind<M>) -> KindModel<M>
    decreases kind,
{
    match kind {
        VirtualKind::Template(text) => KindModel::Template(text@),
        VirtualKind::Element(element) => KindModel::Element(element_model(element)),
    }
}

/// The plain value of an element.
pub open spec fn element_model<M>(element: VirtualElement<M>) -> ElementModel<M>
    decreases element,
{
    ElementModel {
        name: element.name@,
        attributes: element.attributes@,
        children: nodes_model(element.children@),
    }
}

/// The plain values of a list of nodes.
pub open spec fn nodes_model<M>(nodes: Seq<VirtualNode<M>>) -> Seq<NodeModel<M>>
    decreases nodes,
{
    Seq::new(
        nodes.len(),
        |i: int|
            if 0 <= i < nodes.len() {
                node_model(nodes[i])
            } else {
                arbitrary()
            },
    )
}

impl<M> View for VirtualElement<M> {
    type V = ElementModel<M>;

    open spec fn view(&self) -> ElementModel<M> {
        element_model(*self)
    }
}

impl<M> View for VirtualKind<M> {
    type V = KindModel<M>;

    open spec fn view(&self) -> KindModel<M> {
        kind_model(*self)
    }
}

impl<M> View for VirtualNode<M> {
    type V = NodeModel<M>;

    open spec fn view(&self) -> NodeModel<M> {
        node_model(*self)
    }
}

/// The path of the child at position `index` of the element at `path`.
pub open spec fn child_path(path: PathModel, index: int) -> PathModel {
    path.push((index as usize, "virtual_node"@))
}

/// The path of the child at position `index` of the element at `path`.
pub fn child_of(path: &Path, index: usize) -> (child: Path)
    ensures
        child@ == child_path(path@, index as int),
{
    path.clone().concat(PathNode::new(index, String::from_str("virtual_node")))
}

/// The children of a node: those of an element, none for a text.
pub open spec fn children_of<M>(kind: KindModel<M>) -> Seq<NodeModel<M>> {
    match kind {
        KindModel::Template(_) => Seq::empty(),
        KindModel::Element(element) => element.children,
    }
}

/// The equality by which two nodes are compared: two texts with the same
/// content, or two elements with the same tag and the same attributes. The
/// children and the bindings take no part in it.
pub open spec fn same_kind<M>(a: KindModel<M>, b: KindModel<M>) -> bool {
    match (a, b) {
        (KindModel::Template(x), KindModel::Template(y)) => x == y,
        (KindModel::Element(x), KindModel::Element(y)) => x.name == y.name && x.attributes
            == y.attributes,
        _ => false,
    }
}

/// The markup of a node. A text is an empty `span`, which is filled with the
/// text once it is part of the document; an element is its opening tag with the
/// attributes, the markup of its children and its closing tag.
pub open spec fn kind_markup<M>(kind: KindModel<M>) -> Seq<char>
    decreases kind,
{
    match kind {
        KindModel::Template(_) => seq!['<', 's', 'p', 'a', 'n', '>', '<', '/', 's', 'p', 'a', 'n', '>'],
        KindModel::Element(element) => seq!['<'] + element.name + seq![' '] + element.attributes
            + seq!['>'] + nodes_markup(element.children) + seq!['<', '/'] + element.name + seq![
            '>',
        ],
    }
}

/// The markup of a list of nodes: that of each, in order.
pub open spec fn nodes_markup<M>(nodes: Seq<NodeModel<M>>) -> Seq<char>
    decreases nodes,
{
    if nodes.len() == 0 {
        Seq::empty()
    } else {
        nodes_markup(nodes.drop_last()) + kind_markup(nodes.last().kind)
    }
}

impl<M> VirtualElement<M> {
    /// An element with the tag `name`, the attributes `attributes` and the
    /// children `children`.
    pub fn new(name: String, attributes: String, children: Vec<VirtualNode<M>>) -> (element:
        VirtualElement<M>)
        ensures
            element@ == (ElementModel {
                name: name@,
                attributes: attributes@,
                children: nodes_model(children@),
            }),
    {
        VirtualElement { name, attributes, children }
    }

    /// The markup of the element: see [`kind_markup`].
    pub fn render(&self) -> (out: String)
        ensures
            out@ == kind_markup(KindModel::Element(self@)),
        decreases self,
    {
        let mut out = String::from_str("<");
        out.append(self.name.as_str());
        out.append(" ");
        out.append(self.attributes.as_str());
        out.append(">");
        let inner = render_nodes(&self.children);
        out.append(inner.as_str());
        out.append("</");
        out.append(self.name.as_str());
        out.append(">");
        proof {
            reveal_strlit("<");
            reveal_strlit(" ");
            reveal_strlit(">");
            reveal_strlit("</");
            assert("<"@ =~= seq!['<']);
            assert(" "@ =~= seq![' ']);
            assert(">"@ =~= seq!['>']);
            assert("</"@ =~= seq!['<', '/']);
            assert(out@ =~= kind_markup(KindModel::Element(self@)));
        }
        out
    }
}

/// The markup of the nodes `nodes`, one after the other: see [`nodes_markup`].
pub fn render_nodes<M>(nodes: &Vec<VirtualNode<M>>) -> (out: String)
    ensures
        out@ == nodes_markup(nodes_model(nodes@)),
    decreases nodes,
{
    let mut out = String::new();
    let mut i: usize = 0;
    let ghost all = nodes_model(nodes@);
    assert(all.take(0) =~= Seq::<NodeModel<M>>::empty());
    while i < nodes.len()
        invariant
            i <= nodes@.len(),
            all == nodes_model(nodes@),
            out@ == nodes_markup(all.take(i as int)),
        decreases nodes@.len() - i,
    {
        let ghost before = out@;
        let child = nodes[i].kind.render();
        out.append(child.as_str());
        proof {
            let next = all.take(i as int + 1);
            assert(next.drop_last() =~= all.take(i as int));
            assert(next.last() == all[i as int]);
        }
        i += 1;
    }
    assert(all.take(i as int) =~= all);
    out
}

impl<M> VirtualKind<M> {
    /// The markup of the node: see [`kind_markup`].
    pub fn render(&self) -> (out: String)
        ensures
            out@ == kind_markup(self@),
        decreases self,
    {
        match self {
            VirtualKind::Template(_) => {
                proof {
                    reveal_strlit("<span></span>");
                    assert("<span></span>"@ =~= kind_markup(self@));
                }
                String::from_str("<span></span>")
            },
            VirtualKind::Element(element) => element.render(),
        }
    }

    /// The number of children: that of an element, none for a text.
    pub fn child_count(&self) -> (count: usize)
        ensures
            count == children_of(self@).len(),
    {
        match self {
            VirtualKind::Template(_) => 0,
            VirtualKind::Element(element) => element.children.len(),
        }
    }
}

impl<M> VirtualNode<M> {
    /// A node that is `kind`, listens as `callbacks` say, stands at `path` and
    /// belongs to the component at `scope`.
    pub fn new(
        callbacks: Arc<Vec<(String, Arc<M>)>>,
        kind: VirtualKind<M>,
        path: Path,
        scope: Path,
    ) -> (node: VirtualNode<M>)
        ensures
            node@ == (NodeModel {
                callbacks: bindings_model(callbacks@),
                kind: kind@,
                path: path@,
                scope: scope@,
            }),
    {
        VirtualNode { callbacks, kind, path, scope }
    }
}

impl<M> Default for VirtualNode<M> {
    /// The empty text at the root, which listens to nothing: the tree before
    /// anything was rendered.
    fn default() -> (node: VirtualNode<M>)
        ensures
            node@ == (NodeModel::<M> {
                callbacks: Seq::empty(),
                kind: KindModel::Template(Seq::empty()),
                path: Seq::empty(),
                scope: Seq::empty(),
            }),
    {
        let callbacks: Vec<(String, Arc<M>)> = Vec::new();
        assert(bindings_model(callbacks@) =~= Seq::<(Seq<char>, M)>::empty());
        VirtualNode {
            callbacks: Arc::new(callbacks),
            kind: VirtualKind::Template(String::new()),
            path: Path::new(),
            scope: Path::new(),
        }
    }
}

impl<M> PartialEq for VirtualElement<M> {
    fn eq(&self, other: &VirtualElement<M>) -> (equal: bool) {
        self.name == other.name && self.attributes == other.attributes
    }
}

impl<M> PartialEqSpecImpl for VirtualElement<M> {
    open spec fn obeys_eq_spec() -> bool {
        true
    }

    open spec fn eq_spec(&self, other: &VirtualElement<M>) -> bool {
        same_kind(KindModel::Element(self@), KindModel::Element(other@))
    }
}

impl<M> PartialEq for VirtualKind<M> {
    fn eq(&self, other: &VirtualKind<M>) -> (equal: bool) {
        match self {
            VirtualKind::Template(a) => match other {
                VirtualKind::Template(b) => *a == *b,
                VirtualKind::Element(_) => false,
            },
            VirtualKind::Element(a) => match other {
                VirtualKind::Template(_) => false,
                VirtualKind::Element(b) => a.name == b.name && a.attributes == b.attributes,
            },
        }
    }
}

impl<M> PartialEqSpecImpl for VirtualKind<M> {
    open spec fn obeys_eq_spec() -> bool {
        true
    }

    open spec fn eq_spec(&self, other: &VirtualKind<M>) -> bool {
        same_kind(self@, other@)
    }
}

impl<M> PartialEq for VirtualNode<M> {
    fn eq(&self, other: &VirtualNode<M>) -> (equal: bool) {
        self.kind == other.kind
    }
}

impl<M> PartialEqSpecImpl for VirtualNode<M> {
    open spec fn obeys_eq_spec() -> bool {
        true
    }

    open spec fn eq_spec(&self, other: &VirtualNode<M>) -> bool {
        same_kind(self@.kind, other@.kind)
    }
}

/// Whether the tree `node` stands at `path` and carries its places: its own
/// path is `path`, and each child is such a tree at its position below.
pub open spec fn addressed<M>(node: NodeModel<M>, path: PathModel) -> bool
    decreases node, 0nat,
{
    node.path == path && match node.kind {
        KindModel::Template(_) => true,
        KindModel::Element(element) => addressed_children(
            element.children,
            path,
            element.children.len(),
        ),
    }
}

/// Whether the first `count` of the children of the element at `path` carry
/// their places.
pub open spec fn addressed_children<M>(children: Seq<NodeModel<M>>, path: PathModel, count: nat) -> bool
    decreases children, count,
{
    if count == 0 || count > children.len() {
        true
    } else {
        addressed_children(children, path, (count - 1) as nat) && addressed(
            children[count - 1],
            child_path(path, count - 1),
        )
    }
}

/// Whether the nodes `nodes` carry their places as the children of the element
/// at `path` from position `offset` on.
pub open spec fn addressed_from<M>(nodes: Seq<NodeModel<M>>, path: PathModel, offset: nat) -> bool {
    forall|i: int| 0 <= i < nodes.len() ==> addressed(#[trigger] nodes[i], child_path(path, offset + i))
}

/// Children that carry their places one by one carry them as a list.
pub proof fn lemma_addressed_children<M>(children: Seq<NodeModel<M>>, path: PathModel, count: nat)
    requires
        addressed_from(children, path, 0),
    ensures
        addressed_children(children, path, count),
    decreases count,
{
    if !(count == 0 || count > children.len()) {
        lemma_addressed_children(children, path, (count - 1) as nat);
        assert(addressed(children[count - 1], child_path(path, 0 + (count - 1))));
    }
}

/// The children of a tree that carries its places carry theirs.
pub proof fn lemma_addressed_child<M>(children: Seq<NodeModel<M>>, path: PathModel, count: nat, at: int)
    requires
        addressed_children(children, path, count),
        0 <= at < count <= children.len(),
    ensures
        addressed(children[at], child_path(path, at)),
    decreases count,
{
    if at < count - 1 {
        lemma_addressed_child(children, path, (count - 1) as nat, at);
    }
}

} // verus!
