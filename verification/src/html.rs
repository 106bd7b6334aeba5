//! The render tree: what a component's view returns. It is a list of nodes and
//! a layout that nests them, and holds no address: a node gets its path when the
//! tree is expanded.

use crate::attributes::{pairs_view, AttrMap, AttrValue, PairsModel};
use crate::path::{Path, PathModel};
use std::rc::Rc;
use std::sync::Arc;
use vstd::prelude::*;

verus! {

/// The plain value of a [`NodeRef`].
pub struct RefModel {
    pub index: usize,
    pub refs: Seq<RefModel>,
}

/// The plain value of a [`Template`].
pub enum TemplateModel<M> {
    Text(Seq<char>),
    Html(HtmlModel<M>),
    Children(ChildrenModel<M>),
}

/// The plain value of an [`HtmlKind`].
pub enum HtmlKindModel<M> {
    Component { name: Seq<char> },
    Template(TemplateModel<M>),
    Element { name: Seq<char>, attributes: PairsModel },
}

/// The plain value of an [`HtmlNode`].
pub struct HtmlNodeModel<M> {
    pub kind: HtmlKindModel<M>,
    pub callbacks: Seq<(Seq<char>, M)>,
    pub attributes: PairsModel,
}

/// The plain value of an [`Html`].
pub struct HtmlModel<M> {
    pub nodes: Seq<HtmlNodeModel<M>>,
    pub refs: Seq<RefModel>,
}

/// The plain value of a [`Children`].
pub struct ChildrenModel<M> {
    pub nodes: Seq<HtmlNodeModel<M>>,
    pub refs: Seq<RefModel>,
    pub scope: PathModel,
}

/// A place in the layout: the node at `index` of the tree's list, with the
/// places of its children.
pub struct NodeRef {
    pub index: usize,
    pub refs: Rc<Vec<NodeRef>>,
}

/// An element as a view writes it: the tag and the attributes.
pub struct HtmlElement {
    pub name: String,
    pub attributes: AttrMap,
}

/// The children that were written inside a component's tag, together with the
/// path of the component whose view wrote them. The component that receives
/// them places them in its own view as a template; their messages still go to
/// the component that wrote them.
pub struct Children<M> {
    pub nodes: Rc<Vec<HtmlNode<M>>>,
    pub refs: Rc<Vec<NodeRef>>,
    pub scope: Path,
}

/// A value placed in a view: a text, or the nodes of another tree, which take
/// the template's place one beside the other.
pub enum Template<M> {
    Text(String),
    Html(Html<M>),
    Children(Children<M>),
}

/// What a node of the render tree is.
pub enum HtmlKind<M> {
    /// A reference to the component with the declared name `name`.
    Component { name: String },
    Template(Template<M>),
    Element(HtmlElement),
}

/// A node of the render tree: what it is, the events it listens to with the
/// message each sends, and the properties handed to it where it is a component.
pub struct HtmlNode<M> {
    pub kind: HtmlKind<M>,
    pub callbacks: Arc<Vec<(String, Arc<M>)>>,
    pub attributes: AttrMap,
}

/// A render tree: the nodes, and the layout of the places they take.
pub struct Html<M> {
    pub nodes: Rc<Vec<HtmlNode<M>>>,
    pub refs: Rc<Vec<NodeRef>>,
}

/// The plain value of a place.
pub open spec fn ref_model(place: NodeRef) -> RefModel
    decreases place,
{
    RefModel { index: place.index, refs: refs_model(place.refs@) }
}

/// The plain values of a list of places.
pub open spec fn refs_model(refs: Seq<NodeRef>) -> Seq<RefModel>
    decreases refs,
{
    Seq::new(
        refs.len(),
        |i: int|
            if 0 <= i < refs.len() {
                ref_model(refs[i])
            } else {
                arbitrary()
            },
    )
}

/// The plain value of a tree.
pub open spec fn html_model<M>(html: Html<M>) -> HtmlModel<M>
    decreases html,
{
    HtmlModel { nodes: html_nodes_model(html.nodes@), refs: refs_model(html.refs@) }
}

/// The plain value of the children handed to a component.
pub open spec fn children_model<M>(children: Children<M>) -> ChildrenModel<M>
    decreases children,
{
    ChildrenModel {
        nodes: html_nodes_model(children.nodes@),
        refs: refs_model(children.refs@),
        scope: children.scope@,
    }
}

/// The plain values of a list of nodes.
pub open spec fn html_nodes_model<M>(nodes: Seq<HtmlNode<M>>) -> Seq<HtmlNodeModel<M>>
    decreases nodes,
{
    Seq::new(
        nodes.len(),
        |i: int|
            if 0 <= i < nodes.len() {
                html_node_model(nodes[i])
            } else {
                arbitrary()
            },
    )
}

/// The plain value of a node.
pub open spec fn html_node_model<M>(node: HtmlNode<M>) -> HtmlNodeModel<M>
    decreases node,
{
    HtmlNodeModel {
        kind: html_kind_model(node.kind),
        callbacks: crate::virtual_dom::bindings_model(node.callbacks@),
        attributes: node.attributes@,
    }
}

/// The plain value of a kind.
pub open spec fn html_kind_model<M>(kind: HtmlKind<M>) -> HtmlKindModel<M>
    decreases kind,
{
    match kind {
        HtmlKind::Component { name } => HtmlKindModel::Component { name: name@ },
        HtmlKind::Template(template) => HtmlKindModel::Template(template_model(template)),
        HtmlKind::Element(element) => HtmlKindModel::Element {
            name: element.name@,
            attributes: element.attributes@,
        },
    }
}

/// The plain value of a template.
pub open spec fn template_model<M>(template: Template<M>) -> TemplateModel<M>
    decreases template,
{
    match template {
        Template::Text(text) => TemplateModel::Text(text@),
        Template::Html(html) => TemplateModel::Html(html_model(html)),
        Template::Children(children) => TemplateModel::Children(children_model(children)),
    }
}

impl View for NodeRef {
    type V = RefModel;

    open spec fn view(&self) -> RefModel {
        ref_model(*self)
    }
}

impl<M> View for Template<M> {
    type V = TemplateModel<M>;

    open spec fn view(&self) -> TemplateModel<M> {
        template_model(*self)
    }
}

impl<M> View for HtmlKind<M> {
    type V = HtmlKindModel<M>;

    open spec fn view(&self) -> HtmlKindModel<M> {
        html_kind_model(*self)
    }
}

impl<M> View for HtmlNode<M> {
    type V = HtmlNodeModel<M>;

    open spec fn view(&self) -> HtmlNodeModel<M> {
        html_node_model(*self)
    }
}

impl<M> View for Html<M> {
    type V = HtmlModel<M>;

    open spec fn view(&self) -> HtmlModel<M> {
        html_model(*self)
    }
}

impl<M> View for Children<M> {
    type V = ChildrenModel<M>;

    open spec fn view(&self) -> ChildrenModel<M> {
        children_model(*self)
    }
}

/// `Rc::clone`: a second handle to the value that `handle` holds. The contract
/// claims that the new handle is equal to the one it was made from.
#[verifier::external_body]
pub(crate) fn share_local<T>(handle: &Rc<T>) -> (shared: Rc<T>)
    ensures
        shared == *handle,
{
    Rc::clone(handle)
}

impl NodeRef {
    /// The place of the node at `index`, with the places `refs` of its children.
    pub fn new(index: usize, refs: Rc<Vec<NodeRef>>) -> (place: NodeRef)
        ensures
            place@ == (RefModel { index, refs: refs_model(refs@) }),
    {
        NodeRef { index, refs }
    }
}

impl HtmlElement {
    /// The element with the tag `name` and the attributes `attributes` as a
    /// map, in which a key that is written twice keeps its later value.
    pub fn new(name: String, attributes: Vec<(String, String)>) -> (element: HtmlElement)
        ensures
            element.name@ == name@,
            element.attributes@ == crate::attributes::collected(pairs_view(attributes@)),
            crate::attributes::sorted_keys(element.attributes@),
    {
        HtmlElement { name, attributes: AttrMap::new(attributes) }
    }
}

impl<M> Template<M> {
    /// The text of `value`.
    pub fn text<V: AttrValue>(value: &V) -> (template: Template<M>)
        ensures
            template@ == TemplateModel::<M>::Text(value.text()),
    {
        Template::Text(value.render())
    }
}

impl<M> HtmlKind<M> {
    /// A reference to the component with the declared name `name`.
    pub fn create_component(name: String) -> (kind: HtmlKind<M>)
        ensures
            kind@ == (HtmlKindModel::<M>::Component { name: name@ }),
    {
        HtmlKind::Component { name }
    }
}

impl<M> HtmlNode<M> {
    /// A node that is `kind`, listens as `callbacks` say and hands on the
    /// properties `attributes`.
    pub fn new(kind: HtmlKind<M>, callbacks: Arc<Vec<(String, Arc<M>)>>, attributes: AttrMap) -> (node:
        HtmlNode<M>)
        ensures
            node@ == (HtmlNodeModel {
                kind: kind@,
                callbacks: crate::virtual_dom::bindings_model(callbacks@),
                attributes: attributes@,
            }),
    {
        HtmlNode { kind, callbacks, attributes }
    }
}

impl<M> Html<M> {
    /// The tree of the nodes `nodes` laid out as `refs` say.
    pub fn new(nodes: Rc<Vec<HtmlNode<M>>>, refs: Rc<Vec<NodeRef>>) -> (html: Html<M>)
        ensures
            html@ == (HtmlModel { nodes: html_nodes_model(nodes@), refs: refs_model(refs@) }),
    {
        Html { nodes, refs }
    }
}

impl<M> Children<M> {
    /// The children at the places `refs` among the nodes `nodes`, written by
    /// the component at `scope`.
    pub fn new(nodes: Rc<Vec<HtmlNode<M>>>, refs: Rc<Vec<NodeRef>>, scope: Path) -> (children:
        Children<M>)
        ensures
            children@ == (ChildrenModel {
                nodes: html_nodes_model(nodes@),
                refs: refs_model(refs@),
                scope: scope@,
            }),
    {
        Children { nodes, refs, scope }
    }
}

} // verus!
