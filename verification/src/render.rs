//! The renderer: the state of one application, and the cycle of event, render
//! pass and commit that it goes through.

use crate::attributes::{AttrMap, PairsModel};
use crate::component::{Component, Properties};
use crate::error::Error;
use crate::expand::{
    expand, expanded_html, lemma_expanded_refs_addressed, lemma_expanded_refs_grows,
    lemma_expanded_refs_stable, Expanded,
};
use crate::html::{Children, ChildrenModel, HtmlNode, NodeRef};
use crate::path::{locator, Path, PathModel};
use crate::reconcile::{diff, lemma_same_tree_writes_nothing, patches_model, Patch, PatchModel};
use crate::registry::Registry;
use crate::virtual_dom::{
    addressed, lemma_addressed_children, ElementModel, KindModel, NodeModel, VirtualElement,
    VirtualKind, VirtualNode,
};
use std::rc::Rc;
use std::sync::Arc;
use vstd::prelude::*;
use vstd::string::StringExecFns;

verus! {

/// Where a renderer stands in its cycle.
#[derive(Debug, Clone, Copy, PartialEq, Eq, Structural)]
pub enum Phase {
    /// Waiting for an event.
    Idle,
    /// A component is handling the message of an event.
    Dispatching,
    /// A render pass has given out its patches and waits to hear how the
    /// document took them.
    Rendering,
}

/// The element of the document below which an application is shown, as the
/// locator expression that finds it.
pub struct RenderRoot {
    xpath: String,
}

impl View for RenderRoot {
    type V = Seq<char>;

    closed spec fn view(&self) -> Seq<char> {
        self.xpath@
    }
}

impl RenderRoot {
    /// The root that `xpath` finds.
    pub fn new(xpath: String) -> (root: RenderRoot)
        ensures
            root@ == xpath@,
    {
        RenderRoot { xpath }
    }

    /// The body of the document.
    pub fn body() -> (root: RenderRoot)
        ensures
            root@ == "/html/body"@,
    {
        RenderRoot { xpath: String::from_str("/html/body") }
    }
}

/// The plain value of a [`Renderer`].
pub struct RendererModel<C, M> {
    /// The instances of the components.
    pub components: Map<PathModel, C>,
    /// The virtual DOM that the document shows: that of the last pass that was
    /// committed.
    pub previous: NodeModel<M>,
    /// The virtual DOM of the open pass.
    pub pending: Option<NodeModel<M>>,
    /// The number of patches that the open pass gave out.
    pub issued: nat,
    pub phase: Phase,
    /// How deep components may nest.
    pub limit: nat,
    /// The locator of the root element.
    pub root: Seq<char>,
}

/// The state of one application: its components, the virtual DOM that the
/// document shows, and the phase of the cycle.
pub struct Renderer<C: Component> {
    components: Registry<C>,
    previous: VirtualNode<C::Message>,
    pending: Option<VirtualNode<C::Message>>,
    issued: usize,
    phase: Phase,
    limit: usize,
    root: RenderRoot,
}

/// How deep components may nest where nothing else is asked for.
pub const DEFAULT_LIMIT: usize = 256;

/// The children of the root component: none.
pub open spec fn no_children<M>() -> ChildrenModel<M> {
    ChildrenModel { nodes: Seq::empty(), refs: Seq::empty(), scope: Seq::empty() }
}

/// The expansion of the root component's view: the component at the empty
/// path is shown without properties and without children.
pub open spec fn expanded_root<C: Component>(
    components: Map<PathModel, C>,
    limit: nat,
) -> Expanded<C, C::Message> {
    expanded_html::<C>(
        components,
        limit,
        components[Seq::empty()].rendered(C::Properties::built(Seq::empty()), no_children()),
        Seq::empty(),
        Seq::empty(),
    )
}

/// The node that stands for the root element: an element `root` without
/// attributes, whose children are the nodes of the application.
pub open spec fn root_node<M>(children: Seq<NodeModel<M>>) -> NodeModel<M> {
    NodeModel {
        callbacks: Seq::empty(),
        kind: KindModel::Element(
            ElementModel { name: "root"@, attributes: Seq::empty(), children },
        ),
        path: Seq::empty(),
        scope: Seq::empty(),
    }
}

/// A render pass. Only an idle renderer starts one; otherwise the pass fails
/// with [`Error::LockFailed`] and nothing changes. Without a root component it
/// fails with [`Error::InvalidId`]. The root component's view is expanded,
/// which may create components; where the expansion fails, so does the pass,
/// and the renderer stays idle. Otherwise the pass is open: its virtual DOM is
/// pending, and the patches that lead to it from the one the document shows
/// are given out.
pub open spec fn rendered<C: Component>(state: RendererModel<C, C::Message>) -> (
    RendererModel<C, C::Message>,
    Result<Seq<PatchModel<C::Message>>, Error>,
) {
    if state.phase != Phase::Idle {
        (state, Err(Error::LockFailed))
    } else if !state.components.contains_key(Seq::empty()) {
        (state, Err(Error::InvalidId))
    } else {
        let expanded = expanded_root::<C>(state.components, state.limit);
        match expanded.failure {
            Some(error) => (
                RendererModel { components: expanded.registry, ..state },
                Err(error),
            ),
            None => {
                let next = root_node(expanded.nodes);
                let patches = diff(next, state.previous, Seq::empty());
                (
                    RendererModel {
                        components: expanded.registry,
                        pending: Some(next),
                        issued: patches.len(),
                        phase: Phase::Rendering,
                        ..state
                    },
                    Ok(patches),
                )
            },
        }
    }
}

/// The end of a render pass, of whose patches `applied` were written. An open
/// pass is closed and the renderer is idle again; its virtual DOM becomes the
/// one that the document shows if every patch was written, and is dropped
/// otherwise. The flag tells which. A renderer without an open pass stays as
/// it is.
pub open spec fn committed<C, M>(state: RendererModel<C, M>, applied: nat) -> (
    RendererModel<C, M>,
    bool,
) {
    if state.phase == Phase::Rendering && state.pending.is_some() {
        if applied == state.issued {
            (
                RendererModel {
                    previous: state.pending.unwrap(),
                    pending: None,
                    issued: 0,
                    phase: Phase::Idle,
                    ..state
                },
                true,
            )
        } else {
            (RendererModel { pending: None, issued: 0, phase: Phase::Idle, ..state }, false)
        }
    } else {
        (state, false)
    }
}

/// The delivery of `message` to the component at `scope`, followed by a render
/// pass. Only an idle renderer takes an event; otherwise the delivery fails
/// with [`Error::LockFailed`]. Without a component at `scope` it fails with
/// [`Error::InvalidId`]. In both cases nothing changes. Otherwise the
/// component handles the message and a render pass follows at once.
pub open spec fn dispatched<C: Component>(
    state: RendererModel<C, C::Message>,
    scope: PathModel,
    message: C::Message,
) -> (RendererModel<C, C::Message>, Result<Seq<PatchModel<C::Message>>, Error>) {
    if state.phase != Phase::Idle {
        (state, Err(Error::LockFailed))
    } else if !state.components.contains_key(scope) {
        (state, Err(Error::InvalidId))
    } else {
        rendered::<C>(
            RendererModel {
                components: state.components.insert(
                    scope,
                    state.components[scope].handled(message),
                ),
                ..state
            },
        )
    }
}

/// Whether what a call returned is what the contract names.
pub open spec fn outcome_is<M>(
    outcome: Result<Vec<Patch<M>>, Error>,
    expected: Result<Seq<PatchModel<M>>, Error>,
) -> bool {
    match outcome {
        Ok(patches) => expected == Ok::<Seq<PatchModel<M>>, Error>(patches_model(patches@)),
        Err(error) => expected == Err::<Seq<PatchModel<M>>, Error>(error),
    }
}

impl<C: Component> View for Renderer<C> {
    type V = RendererModel<C, C::Message>;

    closed spec fn view(&self) -> RendererModel<C, C::Message> {
        RendererModel {
            components: self.components@,
            previous: self.previous@,
            pending: match self.pending {
                Some(node) => Some(node@),
                None => None,
            },
            issued: self.issued as nat,
            phase: self.phase,
            limit: self.limit as nat,
            root: self.root@,
        }
    }
}

impl<C: Component> Renderer<C> {
    /// The renderer of the application whose root component has the declared
    /// name `name`, shown in the body of the document. The root component is
    /// created and kept under the empty path; nothing is shown yet.
    pub fn new(name: &str) -> (renderer: Renderer<C>)
        ensures
            renderer@ == Self::initial(name@, "/html/body"@, DEFAULT_LIMIT as nat),
    {
        Self::new_with_root(name, RenderRoot::body())
    }

    /// The state of a renderer that was just made.
    pub open spec fn initial(name: Seq<char>, root: Seq<char>, limit: nat) -> RendererModel<
        C,
        C::Message,
    > {
        RendererModel {
            components: Map::<PathModel, C>::empty().insert(
                Seq::empty(),
                C::created(name),
            ),
            previous: NodeModel {
                callbacks: Seq::empty(),
                kind: KindModel::Template(Seq::empty()),
                path: Seq::empty(),
                scope: Seq::empty(),
            },
            pending: None,
            issued: 0,
            phase: Phase::Idle,
            limit,
            root,
        }
    }

    /// As [`Renderer::new`], shown below the element `root`.
    pub fn new_with_root(name: &str, root: RenderRoot) -> (renderer: Renderer<C>)
        ensures
            renderer@ == Self::initial(name@, root@, DEFAULT_LIMIT as nat),
    {
        let mut components: Registry<C> = Registry::new();
        let at = Path::new();
        let make = || -> (made: C)
            ensures
                made == C::created(name@),
            { C::create(name) };
        components.get_or_insert(&at, make);
        Renderer {
            components,
            previous: VirtualNode::default(),
            pending: None,
            issued: 0,
            phase: Phase::Idle,
            limit: DEFAULT_LIMIT,
            root,
        }
    }

    /// Sets how deep components may nest.
    pub fn set_limit(&mut self, limit: usize)
        ensures
            final(self)@ == (RendererModel { limit: limit as nat, ..old(self)@ }),
    {
        self.limit = limit;
    }

    /// Where the renderer stands in its cycle.
    pub fn phase(&self) -> (phase: Phase)
        ensures
            phase == self@.phase,
    {
        self.phase
    }

    /// The instances of the components.
    pub fn components(&self) -> (components: &Registry<C>)
        ensures
            components@ == self@.components,
    {
        &self.components
    }

    /// The virtual DOM that the document shows.
    pub fn previous(&self) -> (previous: &VirtualNode<C::Message>)
        ensures
            previous@ == self@.previous,
    {
        &self.previous
    }

    /// The locator expression that finds, in the document, the element at
    /// `path` of the virtual DOM: the root's locator followed by the path's.
    pub fn locator(&self, path: &Path) -> (expression: String)
        ensures
            expression@ == self@.root + locator(path@),
    {
        let mut expression = self.root.xpath.clone();
        let below = path.render();
        expression.append(below.as_str());
        expression
    }

    /// The instance kept under `path`. Only a path that has one may be asked
    /// for.
    pub fn get(&self, path: &Path) -> (component: &C)
        requires
            self@.components.contains_key(path@),
        ensures
            *component == self@.components[path@],
    {
        self.components.get(path)
    }

    fn pass(&mut self) -> (outcome: Result<Vec<Patch<C::Message>>, Error>)
        requires
            old(self)@.phase != Phase::Rendering,
        ensures
            final(self)@ == rendered::<C>(
                RendererModel { phase: Phase::Idle, ..old(self)@ },
            ).0,
            outcome_is(
                outcome,
                rendered::<C>(RendererModel { phase: Phase::Idle, ..old(self)@ }).1,
            ),
            old(self)@.phase == Phase::Idle ==> final(self)@ == rendered::<C>(old(self)@).0
                && outcome_is(outcome, rendered::<C>(old(self)@).1),
    {
        let at = Path::new();
        self.phase = Phase::Idle;
        if !self.components.contains(&at) {
            return Err(Error::InvalidId);
        }
        let nodes: Vec<HtmlNode<C::Message>> = Vec::new();
        let refs: Vec<NodeRef> = Vec::new();
        let children = Children::new(Rc::new(nodes), Rc::new(refs), Path::new());
        let properties = C::Properties::create(AttrMap::new(Vec::new()));
        proof {
            assert(children@.nodes =~= Seq::<crate::html::HtmlNodeModel<C::Message>>::empty());
            assert(children@.refs =~= Seq::<crate::html::RefModel>::empty());
            assert(children@ == no_children::<C::Message>());
            assert(crate::attributes::pairs_view(Seq::<(String, String)>::empty())
                =~= PairsModel::empty());
        }
        let html = self.components.get(&at).view(properties, children);
        let expansion = expand::<C>(&html, &mut self.components, &at, &at, self.limit);
        match expansion.failure {
            Some(error) => Err(error),
            None => {
                let callbacks: Vec<(String, Arc<C::Message>)> = Vec::new();
                let next = VirtualNode::new(
                    Arc::new(callbacks),
                    VirtualKind::Element(
                        VirtualElement::new(
                            String::from_str("root"),
                            String::new(),
                            expansion.nodes,
                        ),
                    ),
                    Path::new(),
                    Path::new(),
                );
                proof {
                    assert(next@.callbacks =~= Seq::<(Seq<char>, C::Message)>::empty());
                    assert(next@ == root_node(
                        expanded_root::<C>(old(self)@.components, old(self)@.limit).nodes,
                    ));
                }
                let patches = next.reconcile(&self.previous, at);
                self.issued = patches.len();
                self.pending = Some(next);
                self.phase = Phase::Rendering;
                Ok(patches)
            },
        }
    }

    /// Makes a render pass: see [`rendered`].
    pub fn render(&mut self) -> (outcome: Result<Vec<Patch<C::Message>>, Error>)
        ensures
            final(self)@ == rendered::<C>(old(self)@).0,
            outcome_is(outcome, rendered::<C>(old(self)@).1),
    {
        match self.phase {
            Phase::Idle => self.pass(),
            _ => Err(Error::LockFailed),
        }
    }

    /// Ends the open render pass, of whose patches `applied` were written: see
    /// [`committed`].
    pub fn commit(&mut self, applied: usize) -> (kept: bool)
        ensures
            final(self)@ == committed(old(self)@, applied as nat).0,
            kept == committed(old(self)@, applied as nat).1,
    {
        match self.phase {
            Phase::Rendering => {
                let pending = self.pending.take();
                match pending {
                    Some(next) => {
                        let kept = applied == self.issued;
                        if kept {
                            self.previous = next;
                        }
                        self.issued = 0;
                        self.phase = Phase::Idle;
                        kept
                    },
                    None => false,
                }
            },
            _ => false,
        }
    }

    /// Delivers `message` to the component at `scope` and makes a render pass:
    /// see [`dispatched`].
    pub fn dispatch(&mut self, scope: &Path, message: &C::Message) -> (outcome: Result<
        Vec<Patch<C::Message>>,
        Error,
    >)
        ensures
            final(self)@ == dispatched::<C>(old(self)@, scope@, *message).0,
            outcome_is(outcome, dispatched::<C>(old(self)@, scope@, *message).1),
    {
        match self.phase {
            Phase::Idle => {
                if !self.components.contains(scope) {
                    return Err(Error::InvalidId);
                }
                self.phase = Phase::Dispatching;
                match self.components.dispatch(scope, message) {
                    Ok(()) => self.pass(),
                    Err(error) => {
                        self.phase = Phase::Idle;
                        Err(error)
                    },
                }
            },
            _ => Err(Error::LockFailed),
        }
    }
}

/// A handle to one component, by which a message can be sent to it from
/// anywhere: from a listener, or from the end of some work that was started
/// earlier.
pub struct Link {
    scope: Path,
}

impl View for Link {
    type V = PathModel;

    closed spec fn view(&self) -> PathModel {
        self.scope@
    }
}

impl Link {
    /// A link to the component at `scope`.
    pub fn new(scope: Path) -> (link: Link)
        ensures
            link@ == scope@,
    {
        Link { scope }
    }

    /// The path of the component.
    pub fn scope(&self) -> (scope: &Path)
        ensures
            scope@ == self@,
    {
        &self.scope
    }

    /// Delivers `message` to the component and makes a render pass: see
    /// [`dispatched`].
    pub fn callback<C: Component>(&self, renderer: &mut Renderer<C>, message: &C::Message) -> (outcome:
        Result<Vec<Patch<C::Message>>, Error>)
        ensures
            final(renderer)@ == dispatched::<C>(old(renderer)@, self@, *message).0,
            outcome_is(outcome, dispatched::<C>(old(renderer)@, self@, *message).1),
    {
        renderer.dispatch(&self.scope, message)
    }
}

impl Clone for Link {
    fn clone(&self) -> (link: Link)
        ensures
            link@ == self@,
    {
        Link { scope: self.scope.clone() }
    }
}

/// The virtual DOM of a render pass carries the places that its nodes take in
/// the document below the root element.
pub proof fn lemma_rendered_addressed<C: Component>(state: RendererModel<C, C::Message>)
    requires
        rendered::<C>(state).1.is_ok(),
    ensures
        rendered::<C>(state).0.pending.is_some(),
        addressed(rendered::<C>(state).0.pending.unwrap(), Seq::empty()),
{
    let root = PathModel::empty();
    let html = state.components[root].rendered(C::Properties::built(Seq::empty()), no_children());
    let expanded = expanded_root::<C>(state.components, state.limit);
    lemma_expanded_refs_addressed::<C>(
        state.components,
        state.limit,
        html.nodes,
        html.refs,
        html.refs.len(),
        root,
        root,
        root,
        0,
    );
    lemma_addressed_children(expanded.nodes, root, expanded.nodes.len());
}

/// Idempotent re-render: when a render pass is committed and the next one is
/// made with no event in between, the second pass arrives at the same virtual
/// DOM, creates no component and gives out no patch.
pub proof fn lemma_render_again_writes_nothing<C: Component>(state: RendererModel<C, C::Message>)
    requires
        rendered::<C>(state).1.is_ok(),
    ensures
        ({
            let first = rendered::<C>(state).0;
            let shown = committed(first, first.issued);
            let second = rendered::<C>(shown.0);
            &&& shown.1
            &&& shown.0.previous == first.pending.unwrap()
            &&& second.1 == Ok::<Seq<PatchModel<C::Message>>, Error>(Seq::empty())
            &&& second.0.pending == Some(shown.0.previous)
            &&& second.0.components == shown.0.components
        }),
{
    let root = PathModel::empty();
    let html = state.components[root].rendered(C::Properties::built(Seq::empty()), no_children());
    let expanded = expanded_root::<C>(state.components, state.limit);
    lemma_expanded_refs_grows::<C>(
        state.components,
        state.limit,
        html.nodes,
        html.refs,
        html.refs.len(),
        root,
        root,
        root,
        0,
    );
    assert(state.components.dom().contains(root));
    assert(expanded.registry.dom().contains(root));
    assert(expanded.registry[root] == state.components[root]);
    assert(expanded.registry.submap_of(expanded.registry));
    lemma_expanded_refs_stable::<C>(
        state.components,
        expanded.registry,
        state.limit,
        html.nodes,
        html.refs,
        html.refs.len(),
        root,
        root,
        root,
        0,
    );
    lemma_same_tree_writes_nothing(root_node(expanded.nodes), root);
}

} // verus!
