//! Expansion: a render tree is turned into virtual DOM nodes, and every
//! reference to a component is replaced by what the view of its instance
//! writes.
//!
//! Two paths go down the tree with the expansion. The address takes a step at
//! every node of the render tree; under it the instance of a component is
//! kept. The place in the document takes a step at every element of the
//! virtual DOM only, since components and templates add no element of their
//! own; it is the path that a node of the virtual DOM carries.

use crate::attributes::pairs_markup;
use crate::component::{Component, Properties};
use crate::error::Error;
use crate::html::{
    html_nodes_model, refs_model, share_local, Children, ChildrenModel, Html, HtmlKind,
    HtmlKindModel, HtmlNode, HtmlNodeModel, NodeRef, RefModel, Template, TemplateModel,
};
use crate::path::{Path, PathModel, PathNode};
use crate::registry::{kept_or_inserted, Registry};
use crate::virtual_dom::{
    addressed, addressed_from, child_of, child_path, lemma_addressed_children, nodes_model, share,
    ElementModel, KindModel, NodeModel, VirtualElement, VirtualKind, VirtualNode,
};
use std::rc::Rc;
use std::sync::Arc;
use vstd::prelude::*;
use vstd::string::StringExecFns;

verus! {

/// What an expansion gives: the registry as it leaves it, the nodes it made,
/// and the first failure it met, if any. A part that fails gives no nodes, and
/// the expansion goes on behind it.
pub struct Expanded<C, M> {
    pub registry: Map<PathModel, C>,
    pub nodes: Seq<NodeModel<M>>,
    pub failure: Option<Error>,
}

/// The nodes of an expansion with the first failure it met, if any.
pub struct Expansion<M> {
    pub nodes: Vec<VirtualNode<M>>,
    pub failure: Option<Error>,
}

/// The earlier of two failures.
pub open spec fn first_failure(earlier: Option<Error>, later: Option<Error>) -> Option<Error> {
    if earlier.is_some() {
        earlier
    } else {
        later
    }
}

/// The path of the child at position `index` with the discriminator `name`,
/// below `path`.
pub open spec fn stepped(path: PathModel, index: nat, name: Seq<char>) -> PathModel {
    path.push((index as usize, name))
}

/// The expansion of the nodes at the first `count` places of `refs`, which are
/// children of the node at `path`; `nodes` holds the nodes that the places
/// refer to, and `scope` is the path of the component that wrote them. The
/// child at position `i` is expanded with the sibling index `i`, and the nodes
/// of all children stand side by side in the result. In the document they
/// become children of the element at `dom`, behind the `offset` children that
/// it already has.
pub open spec fn expanded_refs<C: Component>(
    registry: Map<PathModel, C>,
    fuel: nat,
    nodes: Seq<HtmlNodeModel<C::Message>>,
    refs: Seq<RefModel>,
    count: nat,
    scope: PathModel,
    path: PathModel,
    dom: PathModel,
    offset: nat,
) -> Expanded<C, C::Message>
    decreases fuel, nodes, refs, count,
{
    if count == 0 || count > refs.len() {
        Expanded { registry, nodes: Seq::empty(), failure: None }
    } else {
        let before = expanded_refs::<C>(
            registry,
            fuel,
            nodes,
            refs,
            (count - 1) as nat,
            scope,
            path,
            dom,
            offset,
        );
        let this = expanded_node::<C>(
            before.registry,
            fuel,
            nodes,
            refs[count - 1],
            scope,
            path,
            (count - 1) as nat,
            dom,
            offset + before.nodes.len(),
        );
        Expanded {
            registry: this.registry,
            nodes: before.nodes + this.nodes,
            failure: first_failure(before.failure, this.failure),
        }
    }
}

/// The expansion of the node at the place `place`, which is the child at
/// position `index` of the node at `path`. In the document its nodes become
/// children of the element at `dom`, starting at position `offset`.
///
/// The node's own address is `path` with one more step: `index` and, for a
/// component, its declared name, for a template `template`, for an element
/// `element`. A node of the virtual DOM gets as its path its place in the
/// document.
/// - A place that refers to no node fails with [`Error::InvalidId`].
/// - A component: its instance is taken from the registry under the node's
///   path, or created there; it is handed the properties read from the node's
///   attributes and, as children, the places below `place`; the tree that its
///   view writes is expanded with the node's path as path and as scope. A
///   reference without bindings adds no node of its own: the nodes of the view
///   take its place. A reference with bindings gives one `span` element that
///   carries the bindings, in the scope of the reference, around the nodes of
///   the view. With no `fuel` left the component fails with
///   [`Error::TooDeep`] and is not created; each component that is entered
///   takes one unit of fuel for what is inside it.
/// - A text gives one text node without listeners. A tree placed as a template
///   is expanded below the node's path in the current scope; children placed
///   as a template are expanded there in the scope that they were written in.
/// - An element gives one element node with the node's bindings, whose children
///   are the expansion of the places below `place`.
pub open spec fn expanded_node<C: Component>(
    registry: Map<PathModel, C>,
    fuel: nat,
    nodes: Seq<HtmlNodeModel<C::Message>>,
    place: RefModel,
    scope: PathModel,
    path: PathModel,
    index: nat,
    dom: PathModel,
    offset: nat,
) -> Expanded<C, C::Message>
    decreases fuel, nodes, place, 0nat,
{
    if place.index >= nodes.len() {
        Expanded { registry, nodes: Seq::empty(), failure: Some(Error::InvalidId) }
    } else {
        let node = nodes[place.index as int];
        match node.kind {
            HtmlKindModel::Component { name } => {
                let at = stepped(path, index, name);
                if fuel == 0 {
                    Expanded { registry, nodes: Seq::empty(), failure: Some(Error::TooDeep) }
                } else {
                    let kept = kept_or_inserted(registry, at, C::created(name));
                    let children = ChildrenModel { nodes, refs: place.refs, scope };
                    let html = kept[at].rendered(C::Properties::built(node.attributes), children);
                    if node.callbacks.len() == 0 {
                        expanded_refs::<C>(
                            kept,
                            (fuel - 1) as nat,
                            html.nodes,
                            html.refs,
                            html.refs.len(),
                            at,
                            at,
                            dom,
                            offset,
                        )
                    } else {
                        let own = child_path(dom, offset as int);
                        let inner = expanded_refs::<C>(
                            kept,
                            (fuel - 1) as nat,
                            html.nodes,
                            html.refs,
                            html.refs.len(),
                            at,
                            at,
                            own,
                            0,
                        );
                        Expanded {
                            registry: inner.registry,
                            nodes: seq![
                                NodeModel {
                                    callbacks: node.callbacks,
                                    kind: KindModel::Element(
                                        ElementModel {
                                            name: "span"@,
                                            attributes: Seq::empty(),
                                            children: inner.nodes,
                                        },
                                    ),
                                    path: own,
                                    scope,
                                },
                            ],
                            failure: inner.failure,
                        }
                    }
                }
            },
            HtmlKindModel::Template(template) => {
                let at = stepped(path, index, "template"@);
                match template {
                    TemplateModel::Text(text) => Expanded {
                        registry,
                        nodes: seq![
                            NodeModel {
                                callbacks: Seq::empty(),
                                kind: KindModel::Template(text),
                                path: child_path(dom, offset as int),
                                scope,
                            },
                        ],
                        failure: None,
                    },
                    TemplateModel::Html(html) => expanded_refs::<C>(
                        registry,
                        fuel,
                        html.nodes,
                        html.refs,
                        html.refs.len(),
                        scope,
                        at,
                        dom,
                        offset,
                    ),
                    TemplateModel::Children(children) => expanded_refs::<C>(
                        registry,
                        fuel,
                        children.nodes,
                        children.refs,
                        children.refs.len(),
                        children.scope,
                        at,
                        dom,
                        offset,
                    ),
                }
            },
            HtmlKindModel::Element { name, attributes } => {
                let at = stepped(path, index, "element"@);
                let own = child_path(dom, offset as int);
                let inner = expanded_refs::<C>(
                    registry,
                    fuel,
                    nodes,
                    place.refs,
                    place.refs.len(),
                    scope,
                    at,
                    own,
                    0,
                );
                Expanded {
                    registry: inner.registry,
                    nodes: seq![
                        NodeModel {
                            callbacks: node.callbacks,
                            kind: KindModel::Element(
                                ElementModel {
                                    name,
                                    attributes: pairs_markup(attributes),
                                    children: inner.nodes,
                                },
                            ),
                            path: own,
                            scope,
                        },
                    ],
                    failure: inner.failure,
                }
            },
        }
    }
}

/// The expansion of a whole tree that the component at `path` wrote: its top
/// places, below `path` and in the scope `path`. In the document the nodes
/// become the children of the element at `dom`.
pub open spec fn expanded_html<C: Component>(
    registry: Map<PathModel, C>,
    fuel: nat,
    html: crate::html::HtmlModel<C::Message>,
    path: PathModel,
    dom: PathModel,
) -> Expanded<C, C::Message> {
    expanded_refs::<C>(registry, fuel, html.nodes, html.refs, html.refs.len(), path, path, dom, 0)
}

fn earlier(first: Option<Error>, later: Option<Error>) -> (failure: Option<Error>)
    ensures
        failure == first_failure(first, later),
{
    match first {
        Some(error) => Some(error),
        None => later,
    }
}

fn expand_refs<C: Component>(
    registry: &mut Registry<C>,
    fuel: usize,
    nodes: &Rc<Vec<HtmlNode<C::Message>>>,
    refs: &Rc<Vec<NodeRef>>,
    scope: &Path,
    path: &Path,
    dom: &Path,
    out: &mut Vec<VirtualNode<C::Message>>,
) -> (failure: Option<Error>)
    ensures
        ({
            let expanded = expanded_refs::<C>(
                old(registry)@,
                fuel as nat,
                html_nodes_model(nodes@),
                refs_model(refs@),
                refs@.len(),
                scope@,
                path@,
                dom@,
                old(out)@.len(),
            );
            &&& final(registry)@ == expanded.registry
            &&& nodes_model(final(out)@) == nodes_model(old(out)@) + expanded.nodes
            &&& failure == expanded.failure
        }),
    decreases fuel, nodes, refs,
{
    let ghost start = registry@;
    let ghost before = nodes_model(out@);
    let ghost offset = out@.len();
    let ghost node_models = html_nodes_model(nodes@);
    let ghost ref_models = refs_model(refs@);
    let mut failure: Option<Error> = None;
    let mut i: usize = 0;
    assert(nodes_model(out@) =~= before + Seq::<NodeModel<C::Message>>::empty());
    while i < refs.len()
        invariant
            i <= refs@.len(),
            node_models == html_nodes_model(nodes@),
            ref_models == refs_model(refs@),
            before.len() == offset,
            ({
                let expanded = expanded_refs::<C>(
                    start,
                    fuel as nat,
                    node_models,
                    ref_models,
                    i as nat,
                    scope@,
                    path@,
                    dom@,
                    offset,
                );
                &&& registry@ == expanded.registry
                &&& nodes_model(out@) == before + expanded.nodes
                &&& failure == expanded.failure
            }),
        decreases refs@.len() - i,
    {
        let ghost so_far = expanded_refs::<C>(
            start,
            fuel as nat,
            node_models,
            ref_models,
            i as nat,
            scope@,
            path@,
            dom@,
            offset,
        );
        assert(out@.len() == offset + so_far.nodes.len()) by {
            assert(nodes_model(out@).len() == out@.len());
        }
        let this = expand_node::<C>(registry, fuel, nodes, &refs[i], scope, path, i, dom, out);
        failure = earlier(failure, this);
        proof {
            assert(ref_models[i as int] == refs@[i as int]@);
            let step = expanded_node::<C>(
                so_far.registry,
                fuel as nat,
                node_models,
                ref_models[i as int],
                scope@,
                path@,
                i as nat,
                dom@,
                offset + so_far.nodes.len(),
            );
            assert(nodes_model(out@) =~= before + (so_far.nodes + step.nodes));
        }
        i += 1;
    }
    failure
}

fn expand_node<C: Component>(
    registry: &mut Registry<C>,
    fuel: usize,
    nodes: &Rc<Vec<HtmlNode<C::Message>>>,
    place: &NodeRef,
    scope: &Path,
    path: &Path,
    index: usize,
    dom: &Path,
    out: &mut Vec<VirtualNode<C::Message>>,
) -> (failure: Option<Error>)
    ensures
        ({
            let expanded = expanded_node::<C>(
                old(registry)@,
                fuel as nat,
                html_nodes_model(nodes@),
                place@,
                scope@,
                path@,
                index as nat,
                dom@,
                old(out)@.len(),
            );
            &&& final(registry)@ == expanded.registry
            &&& nodes_model(final(out)@) == nodes_model(old(out)@) + expanded.nodes
            &&& failure == expanded.failure
        }),
    decreases fuel, nodes, place,
{
    let ghost before = nodes_model(out@);
    if place.index >= nodes.len() {
        assert(nodes_model(out@) =~= before + Seq::<NodeModel<C::Message>>::empty());
        return Some(Error::InvalidId);
    }
    let node = &nodes[place.index];
    assert(html_nodes_model(nodes@)[place.index as int] == node@);
    match &node.kind {
        HtmlKind::Component { name } => {
            let at = path.clone().concat(PathNode::new(index, name.clone()));
            if fuel == 0 {
                assert(nodes_model(out@) =~= before + Seq::<NodeModel<C::Message>>::empty());
                return Some(Error::TooDeep);
            }
            let children = Children::new(
                share_local(nodes),
                share_local(&place.refs),
                scope.clone(),
            );
            let properties = C::Properties::create(node.attributes.clone());
            let make = || -> (made: C)
                ensures
                    made == C::created(name@),
                { C::create(name.as_str()) };
            let html = registry.get_or_insert(&at, make).view(properties, children);
            if node.callbacks.len() == 0 {
                expand_refs::<C>(registry, fuel - 1, &html.nodes, &html.refs, &at, &at, dom, out)
            } else {
                let own = child_of(dom, out.len());
                let mut inner: Vec<VirtualNode<C::Message>> = Vec::new();
                assert(nodes_model(inner@) =~= Seq::<NodeModel<C::Message>>::empty());
                let failure = expand_refs::<C>(
                    registry,
                    fuel - 1,
                    &html.nodes,
                    &html.refs,
                    &at,
                    &at,
                    &own,
                    &mut inner,
                );
                let made = VirtualNode::new(
                    share(&node.callbacks),
                    VirtualKind::Element(
                        VirtualElement::new(String::from_str("span"), String::new(), inner),
                    ),
                    own,
                    scope.clone(),
                );
                out.push(made);
                proof {
                    assert(nodes_model(out@) =~= before + seq![made@]);
                }
                failure
            }
        },
        HtmlKind::Template(template) => {
            let at = path.clone().concat(PathNode::new(index, String::from_str("template")));
            match template {
                Template::Text(text) => {
                    let callbacks: Vec<(String, Arc<C::Message>)> = Vec::new();
                    let made = VirtualNode::new(
                        Arc::new(callbacks),
                        VirtualKind::Template(text.clone()),
                        child_of(dom, out.len()),
                        scope.clone(),
                    );
                    out.push(made);
                    proof {
                        assert(made@.callbacks =~= Seq::<(Seq<char>, C::Message)>::empty());
                        assert(nodes_model(out@) =~= before + seq![made@]);
                    }
                    None
                },
                Template::Html(html) => expand_refs::<C>(
                    registry,
                    fuel,
                    &html.nodes,
                    &html.refs,
                    scope,
                    &at,
                    dom,
                    out,
                ),
                Template::Children(children) => expand_refs::<C>(
                    registry,
                    fuel,
                    &children.nodes,
                    &children.refs,
                    &children.scope,
                    &at,
                    dom,
                    out,
                ),
            }
        },
        HtmlKind::Element(element) => {
            let at = path.clone().concat(PathNode::new(index, String::from_str("element")));
            let own = child_of(dom, out.len());
            let mut inner: Vec<VirtualNode<C::Message>> = Vec::new();
            assert(nodes_model(inner@) =~= Seq::<NodeModel<C::Message>>::empty());
            let failure = expand_refs::<C>(
                registry,
                fuel,
                nodes,
                &place.refs,
                scope,
                &at,
                &own,
                &mut inner,
            );
            let made = VirtualNode::new(
                share(&node.callbacks),
                VirtualKind::Element(
                    VirtualElement::new(element.name.clone(), element.attributes.render(), inner),
                ),
                own,
                scope.clone(),
            );
            out.push(made);
            proof {
                assert(nodes_model(out@) =~= before + seq![made@]);
            }
            failure
        },
    }
}

impl<M> Expansion<M> {
    /// Whether the expansion met no failure.
    pub fn is_complete(&self) -> (complete: bool)
        ensures
            complete == self.failure.is_none(),
    {
        self.failure.is_none()
    }
}

/// Expands the tree `html`, which the component at `path` wrote, into the
/// children of the element that stands in the document at `dom`: see
/// [`expanded_html`]. Components may nest `fuel` deep.
pub fn expand<C: Component>(
    html: &Html<C::Message>,
    registry: &mut Registry<C>,
    path: &Path,
    dom: &Path,
    fuel: usize,
) -> (expansion: Expansion<C::Message>)
    ensures
        ({
            let expanded = expanded_html::<C>(old(registry)@, fuel as nat, html@, path@, dom@);
            &&& final(registry)@ == expanded.registry
            &&& nodes_model(expansion.nodes@) == expanded.nodes
            &&& expansion.failure == expanded.failure
        }),
{
    let mut nodes: Vec<VirtualNode<C::Message>> = Vec::new();
    assert(nodes_model(nodes@) =~= Seq::<NodeModel<C::Message>>::empty());
    let failure = expand_refs::<C>(
        registry,
        fuel,
        &html.nodes,
        &html.refs,
        path,
        path,
        dom,
        &mut nodes,
    );
    proof {
        let expanded = expanded_html::<C>(old(registry)@, fuel as nat, html@, path@, dom@);
        assert(nodes_model(nodes@) =~= expanded.nodes);
    }
    Expansion { nodes, failure }
}

} // verus!

verus! {

proof fn lemma_submap_chain<C>(
    first: Map<PathModel, C>,
    second: Map<PathModel, C>,
    third: Map<PathModel, C>,
)
    requires
        first.submap_of(second),
        second.submap_of(third),
    ensures
        first.submap_of(third),
{
    assert forall|k: PathModel| #[trigger] first.dom().contains(k) implies third.dom().contains(k)
        && first[k] == third[k] by {
        assert(second.dom().contains(k));
        assert(third.dom().contains(k));
    }
}

proof fn lemma_kept_grows<C>(registry: Map<PathModel, C>, at: PathModel, fresh: C)
    ensures
        registry.submap_of(kept_or_inserted(registry, at, fresh)),
        kept_or_inserted(registry, at, fresh).dom().contains(at),
{
}

/// An expansion only adds to the registry: every instance that was there is
/// there afterwards, unchanged.
pub proof fn lemma_expanded_refs_grows<C: Component>(
    registry: Map<PathModel, C>,
    fuel: nat,
    nodes: Seq<HtmlNodeModel<C::Message>>,
    refs: Seq<RefModel>,
    count: nat,
    scope: PathModel,
    path: PathModel,
    dom: PathModel,
    offset: nat,
)
    ensures
        registry.submap_of(
            expanded_refs::<C>(registry, fuel, nodes, refs, count, scope, path, dom, offset).registry,
        ),
    decreases fuel, nodes, refs, count,
{
    if !(count == 0 || count > refs.len()) {
        let less = (count - 1) as nat;
        let before = expanded_refs::<C>(registry, fuel, nodes, refs, less, scope, path, dom, offset);
        let behind = offset + before.nodes.len();
        lemma_expanded_refs_grows::<C>(registry, fuel, nodes, refs, less, scope, path, dom, offset);
        lemma_expanded_node_grows::<C>(
            before.registry,
            fuel,
            nodes,
            refs[count - 1],
            scope,
            path,
            less,
            dom,
            behind,
        );
        lemma_submap_chain(
            registry,
            before.registry,
            expanded_refs::<C>(registry, fuel, nodes, refs, count, scope, path, dom, offset).registry,
        );
    }
}

/// The expansion of one node only adds to the registry.
pub proof fn lemma_expanded_node_grows<C: Component>(
    registry: Map<PathModel, C>,
    fuel: nat,
    nodes: Seq<HtmlNodeModel<C::Message>>,
    place: RefModel,
    scope: PathModel,
    path: PathModel,
    index: nat,
    dom: PathModel,
    offset: nat,
)
    ensures
        registry.submap_of(
            expanded_node::<C>(registry, fuel, nodes, place, scope, path, index, dom, offset).registry,
        ),
    decreases fuel, nodes, place, 0nat,
{
    if place.index < nodes.len() {
        let node = nodes[place.index as int];
        match node.kind {
            HtmlKindModel::Component { name } => {
                let at = stepped(path, index, name);
                if fuel > 0 {
                    let kept = kept_or_inserted(registry, at, C::created(name));
                    let children = ChildrenModel { nodes, refs: place.refs, scope };
                    let html = kept[at].rendered(C::Properties::built(node.attributes), children);
                    let less = (fuel - 1) as nat;
                    let count = html.refs.len();
                    lemma_expanded_refs_grows::<C>(
                        kept,
                        less,
                        html.nodes,
                        html.refs,
                        count,
                        at,
                        at,
                        dom,
                        offset,
                    );
                    lemma_expanded_refs_grows::<C>(
                        kept,
                        less,
                        html.nodes,
                        html.refs,
                        count,
                        at,
                        at,
                        child_path(dom, offset as int),
                        0,
                    );
                    lemma_kept_grows(registry, at, C::created(name));
                    lemma_submap_chain(
                        registry,
                        kept,
                        expanded_node::<C>(
                            registry,
                            fuel,
                            nodes,
                            place,
                            scope,
                            path,
                            index,
                            dom,
                            offset,
                        ).registry,
                    );
                }
            },
            HtmlKindModel::Template(template) => {
                let at = stepped(path, index, "template"@);
                match template {
                    TemplateModel::Text(text) => {},
                    TemplateModel::Html(html) => {
                        let count = html.refs.len();
                        lemma_expanded_refs_grows::<C>(
                            registry,
                            fuel,
                            html.nodes,
                            html.refs,
                            count,
                            scope,
                            at,
                            dom,
                            offset,
                        );
                    },
                    TemplateModel::Children(children) => {
                        let count = children.refs.len();
                        lemma_expanded_refs_grows::<C>(
                            registry,
                            fuel,
                            children.nodes,
                            children.refs,
                            count,
                            children.scope,
                            at,
                            dom,
                            offset,
                        );
                    },
                }
            },
            HtmlKindModel::Element { name, attributes } => {
                let at = stepped(path, index, "element"@);
                let own = child_path(dom, offset as int);
                let count = place.refs.len();
                lemma_expanded_refs_grows::<C>(
                    registry,
                    fuel,
                    nodes,
                    place.refs,
                    count,
                    scope,
                    at,
                    own,
                    0,
                );
            },
        }
    }
}

/// An expansion made again, on a registry that holds what the first one left,
/// gives the same nodes and the same failure, and leaves that registry as it
/// is: every component that it meets is already there.
pub proof fn lemma_expanded_refs_stable<C: Component>(
    registry: Map<PathModel, C>,
    later: Map<PathModel, C>,
    fuel: nat,
    nodes: Seq<HtmlNodeModel<C::Message>>,
    refs: Seq<RefModel>,
    count: nat,
    scope: PathModel,
    path: PathModel,
    dom: PathModel,
    offset: nat,
)
    requires
        expanded_refs::<C>(
            registry,
            fuel,
            nodes,
            refs,
            count,
            scope,
            path,
            dom,
            offset,
        ).registry.submap_of(later),
    ensures
        expanded_refs::<C>(later, fuel, nodes, refs, count, scope, path, dom, offset) == (Expanded {
            registry: later,
            nodes: expanded_refs::<C>(
                registry,
                fuel,
                nodes,
                refs,
                count,
                scope,
                path,
                dom,
                offset,
            ).nodes,
            failure: expanded_refs::<C>(
                registry,
                fuel,
                nodes,
                refs,
                count,
                scope,
                path,
                dom,
                offset,
            ).failure,
        }),
    decreases fuel, nodes, refs, count,
{
    if !(count == 0 || count > refs.len()) {
        let less = (count - 1) as nat;
        let before = expanded_refs::<C>(registry, fuel, nodes, refs, less, scope, path, dom, offset);
        let behind = offset + before.nodes.len();
        let this = expanded_node::<C>(
            before.registry,
            fuel,
            nodes,
            refs[count - 1],
            scope,
            path,
            less,
            dom,
            behind,
        );
        lemma_expanded_node_grows::<C>(
            before.registry,
            fuel,
            nodes,
            refs[count - 1],
            scope,
            path,
            less,
            dom,
            behind,
        );
        lemma_submap_chain(before.registry, this.registry, later);
        lemma_expanded_refs_stable::<C>(
            registry,
            later,
            fuel,
            nodes,
            refs,
            less,
            scope,
            path,
            dom,
            offset,
        );
        lemma_expanded_node_stable::<C>(
            before.registry,
            later,
            fuel,
            nodes,
            refs[count - 1],
            scope,
            path,
            less,
            dom,
            behind,
        );
    }
}

/// The expansion of one node made again, on a registry that holds what the
/// first one left, gives the same nodes and the same failure and leaves that
/// registry as it is.
pub proof fn lemma_expanded_node_stable<C: Component>(
    registry: Map<PathModel, C>,
    later: Map<PathModel, C>,
    fuel: nat,
    nodes: Seq<HtmlNodeModel<C::Message>>,
    place: RefModel,
    scope: PathModel,
    path: PathModel,
    index: nat,
    dom: PathModel,
    offset: nat,
)
    requires
        expanded_node::<C>(
            registry,
            fuel,
            nodes,
            place,
            scope,
            path,
            index,
            dom,
            offset,
        ).registry.submap_of(later),
    ensures
        expanded_node::<C>(later, fuel, nodes, place, scope, path, index, dom, offset) == (Expanded {
            registry: later,
            nodes: expanded_node::<C>(
                registry,
                fuel,
                nodes,
                place,
                scope,
                path,
                index,
                dom,
                offset,
            ).nodes,
            failure: expanded_node::<C>(
                registry,
                fuel,
                nodes,
                place,
                scope,
                path,
                index,
                dom,
                offset,
            ).failure,
        }),
    decreases fuel, nodes, place, 0nat,
{
    if place.index < nodes.len() {
        let node = nodes[place.index as int];
        match node.kind {
            HtmlKindModel::Component { name } => {
                let at = stepped(path, index, name);
                if fuel > 0 {
                    let kept = kept_or_inserted(registry, at, C::created(name));
                    let children = ChildrenModel { nodes, refs: place.refs, scope };
                    let html = kept[at].rendered(C::Properties::built(node.attributes), children);
                    let less = (fuel - 1) as nat;
                    let count = html.refs.len();
                    lemma_expanded_refs_grows::<C>(
                        kept,
                        less,
                        html.nodes,
                        html.refs,
                        count,
                        at,
                        at,
                        dom,
                        offset,
                    );
                    lemma_expanded_refs_grows::<C>(
                        kept,
                        less,
                        html.nodes,
                        html.refs,
                        count,
                        at,
                        at,
                        child_path(dom, offset as int),
                        0,
                    );
                    lemma_kept_grows(registry, at, C::created(name));
                    lemma_submap_chain(
                        kept,
                        expanded_node::<C>(
                            registry,
                            fuel,
                            nodes,
                            place,
                            scope,
                            path,
                            index,
                            dom,
                            offset,
                        ).registry,
                        later,
                    );
                    assert(kept.dom().contains(at));
                    assert(later.dom().contains(at) && later[at] == kept[at]);
                    assert(kept_or_inserted(later, at, C::created(name)) == later);
                    if node.callbacks.len() == 0 {
                        lemma_expanded_refs_stable::<C>(
                            kept,
                            later,
                            less,
                            html.nodes,
                            html.refs,
                            count,
                            at,
                            at,
                            dom,
                            offset,
                        );
                    } else {
                        lemma_expanded_refs_stable::<C>(
                            kept,
                            later,
                            less,
                            html.nodes,
                            html.refs,
                            count,
                            at,
                            at,
                            child_path(dom, offset as int),
                            0,
                        );
                    }
                }
            },
            HtmlKindModel::Template(template) => {
                let at = stepped(path, index, "template"@);
                match template {
                    TemplateModel::Text(text) => {},
                    TemplateModel::Html(html) => {
                        let count = html.refs.len();
                        lemma_expanded_refs_stable::<C>(
                            registry,
                            later,
                            fuel,
                            html.nodes,
                            html.refs,
                            count,
                            scope,
                            at,
                            dom,
                            offset,
                        );
                    },
                    TemplateModel::Children(children) => {
                        let count = children.refs.len();
                        lemma_expanded_refs_stable::<C>(
                            registry,
                            later,
                            fuel,
                            children.nodes,
                            children.refs,
                            count,
                            children.scope,
                            at,
                            dom,
                            offset,
                        );
                    },
                }
            },
            HtmlKindModel::Element { name, attributes } => {
                let at = stepped(path, index, "element"@);
                let own = child_path(dom, offset as int);
                let count = place.refs.len();
                lemma_expanded_refs_stable::<C>(
                    registry,
                    later,
                    fuel,
                    nodes,
                    place.refs,
                    count,
                    scope,
                    at,
                    own,
                    0,
                );
            },
        }
    }
}

/// Every node that an expansion makes carries its place in the document: the
/// node at position `i` of the result stands at position `offset + i` below
/// `dom`, and so on down the tree.
pub proof fn lemma_expanded_refs_addressed<C: Component>(
    registry: Map<PathModel, C>,
    fuel: nat,
    nodes: Seq<HtmlNodeModel<C::Message>>,
    refs: Seq<RefModel>,
    count: nat,
    scope: PathModel,
    path: PathModel,
    dom: PathModel,
    offset: nat,
)
    ensures
        addressed_from(
            expanded_refs::<C>(registry, fuel, nodes, refs, count, scope, path, dom, offset).nodes,
            dom,
            offset,
        ),
    decreases fuel, nodes, refs, count,
{
    if !(count == 0 || count > refs.len()) {
        let less = (count - 1) as nat;
        let before = expanded_refs::<C>(registry, fuel, nodes, refs, less, scope, path, dom, offset);
        let behind = offset + before.nodes.len();
        let this = expanded_node::<C>(
            before.registry,
            fuel,
            nodes,
            refs[count - 1],
            scope,
            path,
            less,
            dom,
            behind,
        );
        lemma_expanded_refs_addressed::<C>(registry, fuel, nodes, refs, less, scope, path, dom, offset);
        lemma_expanded_node_addressed::<C>(
            before.registry,
            fuel,
            nodes,
            refs[count - 1],
            scope,
            path,
            less,
            dom,
            behind,
        );
        let all = before.nodes + this.nodes;
        assert forall|i: int| 0 <= i < all.len() implies addressed(
            #[trigger] all[i],
            child_path(dom, offset + i),
        ) by {
            if i >= before.nodes.len() {
                assert(all[i] == this.nodes[i - before.nodes.len()]);
            }
        }
    }
}

/// Every node that the expansion of one node makes carries its place in the
/// document.
pub proof fn lemma_expanded_node_addressed<C: Component>(
    registry: Map<PathModel, C>,
    fuel: nat,
    nodes: Seq<HtmlNodeModel<C::Message>>,
    place: RefModel,
    scope: PathModel,
    path: PathModel,
    index: nat,
    dom: PathModel,
    offset: nat,
)
    ensures
        addressed_from(
            expanded_node::<C>(registry, fuel, nodes, place, scope, path, index, dom, offset).nodes,
            dom,
            offset,
        ),
    decreases fuel, nodes, place, 0nat,
{
    if place.index < nodes.len() {
        let node = nodes[place.index as int];
        match node.kind {
            HtmlKindModel::Component { name } => {
                let at = stepped(path, index, name);
                if fuel > 0 {
                    let kept = kept_or_inserted(registry, at, C::created(name));
                    let children = ChildrenModel { nodes, refs: place.refs, scope };
                    let html = kept[at].rendered(C::Properties::built(node.attributes), children);
                    let less = (fuel - 1) as nat;
                    let count = html.refs.len();
                    if node.callbacks.len() == 0 {
                        lemma_expanded_refs_addressed::<C>(
                            kept,
                            less,
                            html.nodes,
                            html.refs,
                            count,
                            at,
                            at,
                            dom,
                            offset,
                        );
                    } else {
                        let own = child_path(dom, offset as int);
                        let inner = expanded_refs::<C>(
                            kept,
                            less,
                            html.nodes,
                            html.refs,
                            count,
                            at,
                            at,
                            own,
                            0,
                        );
                        lemma_expanded_refs_addressed::<C>(
                            kept,
                            less,
                            html.nodes,
                            html.refs,
                            count,
                            at,
                            at,
                            own,
                            0,
                        );
                        lemma_addressed_children(inner.nodes, own, inner.nodes.len());
                    }
                }
            },
            HtmlKindModel::Template(template) => {
                let at = stepped(path, index, "template"@);
                match template {
                    TemplateModel::Text(text) => {},
                    TemplateModel::Html(html) => {
                        let count = html.refs.len();
                        lemma_expanded_refs_addressed::<C>(
                            registry,
                            fuel,
                            html.nodes,
                            html.refs,
                            count,
                            scope,
                            at,
                            dom,
                            offset,
                        );
                    },
                    TemplateModel::Children(children) => {
                        let count = children.refs.len();
                        lemma_expanded_refs_addressed::<C>(
                            registry,
                            fuel,
                            children.nodes,
                            children.refs,
                            count,
                            children.scope,
                            at,
                            dom,
                            offset,
                        );
                    },
                }
            },
            HtmlKindModel::Element { name, attributes } => {
                let at = stepped(path, index, "element"@);
                let own = child_path(dom, offset as int);
                let count = place.refs.len();
                let inner = expanded_refs::<C>(
                    registry,
                    fuel,
                    nodes,
                    place.refs,
                    count,
                    scope,
                    at,
                    own,
                    0,
                );
                lemma_expanded_refs_addressed::<C>(
                    registry,
                    fuel,
                    nodes,
                    place.refs,
                    count,
                    scope,
                    at,
                    own,
                    0,
                );
                lemma_addressed_children(inner.nodes, own, inner.nodes.len());
            },
        }
    }
}

} // verus!
