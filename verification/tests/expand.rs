use std::rc::Rc;
use std::sync::Arc;

use stunt::attributes::AttrMap;
use stunt::component::{Component, Properties};
use stunt::error::Error;
use stunt::expand::expand;
use stunt::html::{Children, Html, HtmlElement, HtmlKind, HtmlNode, NodeRef, Template};
use stunt::path::{Path, PathNode};
use stunt::registry::Registry;
use stunt::virtual_dom::{render_nodes, VirtualKind, VirtualNode};

#[derive(Debug, PartialEq)]
enum Msg {
    Add,
    Pick(u32),
}

#[derive(Debug, PartialEq)]
enum Widget {
    Page,
    Counter(u32),
    Frame,
    Loop,
    Broken,
    Empty,
    Label,
}

#[derive(Debug, Clone, PartialEq)]
struct Labelled {
    label: String,
}

impl Properties for Labelled {
    fn create(attributes: AttrMap) -> Labelled {
        Labelled { label: attributes.get("label").unwrap_or_default() }
    }
}

fn attributes(pairs: &[(&str, &str)]) -> Vec<(String, String)> {
    pairs.iter().map(|(key, value)| (key.to_string(), value.to_string())).collect()
}

fn element(name: &str, pairs: &[(&str, &str)], bindings: Vec<(&str, Msg)>) -> HtmlNode<Msg> {
    let callbacks =
        bindings.into_iter().map(|(event, message)| (event.to_string(), Arc::new(message))).collect();
    HtmlNode::new(
        HtmlKind::Element(HtmlElement::new(name.to_string(), attributes(pairs))),
        Arc::new(callbacks),
        AttrMap::new(Vec::new()),
    )
}

fn text(content: &str) -> HtmlNode<Msg> {
    HtmlNode::new(
        HtmlKind::Template(Template::Text(content.to_string())),
        Arc::new(Vec::new()),
        AttrMap::new(Vec::new()),
    )
}

fn template(value: Template<Msg>) -> HtmlNode<Msg> {
    HtmlNode::new(HtmlKind::Template(value), Arc::new(Vec::new()), AttrMap::new(Vec::new()))
}

fn component(name: &str, pairs: &[(&str, &str)]) -> HtmlNode<Msg> {
    HtmlNode::new(
        HtmlKind::create_component(name.to_string()),
        Arc::new(Vec::new()),
        AttrMap::new(attributes(pairs)),
    )
}

fn place(index: usize, refs: Vec<NodeRef>) -> NodeRef {
    NodeRef::new(index, Rc::new(refs))
}

fn leaf(index: usize) -> NodeRef {
    place(index, Vec::new())
}

fn html(nodes: Vec<HtmlNode<Msg>>, refs: Vec<NodeRef>) -> Html<Msg> {
    Html::new(Rc::new(nodes), Rc::new(refs))
}

impl Component for Widget {
    type Message = Msg;
    type Properties = Labelled;

    fn create(name: &str) -> Widget {
        match name {
            "Page" => Widget::Page,
            "Counter" => Widget::Counter(0),
            "Frame" => Widget::Frame,
            "Loop" => Widget::Loop,
            "Broken" => Widget::Broken,
            "Label" => Widget::Label,
            _ => Widget::Empty,
        }
    }

    fn callback(&mut self, message: &Msg) {
        match (self, message) {
            (Widget::Counter(count), Msg::Add) => *count += 1,
            (Widget::Counter(count), Msg::Pick(value)) => *count = *value,
            _ => {},
        }
    }

    fn view(&self, properties: Labelled, children: Children<Msg>) -> Html<Msg> {
        match self {
            Widget::Page => html(
                vec![
                    element("main", &[("class", "page")], Vec::new()),
                    component("Counter", &[]),
                    component("Frame", &[]),
                    element("b", &[], vec![("click", Msg::Pick(7))]),
                    component("Counter", &[]),
                ],
                vec![place(0, vec![leaf(1), place(2, vec![leaf(3)]), leaf(4)])],
            ),
            Widget::Counter(count) => html(
                vec![
                    element("button", &[], vec![("click", Msg::Add)]),
                    text(&format!("count: {}", count)),
                ],
                vec![place(0, vec![leaf(1)])],
            ),
            Widget::Frame => html(
                vec![element("section", &[], Vec::new()), template(Template::Children(children))],
                vec![place(0, vec![leaf(1)])],
            ),
            Widget::Loop => html(vec![component("Loop", &[])], vec![leaf(0)]),
            Widget::Broken => html(
                vec![element("p", &[], Vec::new()), text("kept")],
                vec![place(0, vec![leaf(5), leaf(1)])],
            ),
            Widget::Empty => html(Vec::new(), Vec::new()),
            Widget::Label => html(vec![text(&properties.label)], vec![leaf(0)]),
        }
    }
}

fn step(path: Path, index: usize, name: &str) -> Path {
    path.concat(PathNode::new(index, name.to_string()))
}

fn text_of(node: &VirtualNode<Msg>) -> Option<String> {
    match &node.kind {
        VirtualKind::Template(content) => Some(content.clone()),
        VirtualKind::Element(_) => None,
    }
}

fn child(node: &VirtualNode<Msg>, index: usize) -> &VirtualNode<Msg> {
    match &node.kind {
        VirtualKind::Element(element) => &element.children[index],
        VirtualKind::Template(_) => panic!("a text has no children"),
    }
}

fn run(tree: &Html<Msg>, registry: &mut Registry<Widget>, fuel: usize) -> (Vec<VirtualNode<Msg>>, Option<Error>) {
    let expansion = expand::<Widget>(tree, registry, &Path::new(), &Path::new(), fuel);
    let complete = expansion.is_complete();
    assert_eq!(complete, expansion.failure.is_none());
    (expansion.nodes, expansion.failure)
}

#[test]
fn an_empty_tree_expands_to_nothing() {
    let mut registry = Registry::new();
    let (nodes, failure) = run(&html(Vec::new(), Vec::new()), &mut registry, 8);
    assert!(nodes.is_empty());
    assert_eq!(failure, None);
    assert_eq!(registry.len(), 0);
}

#[test]
fn elements_nest_as_the_layout_says() {
    let tree = html(
        vec![element("ul", &[("id", "l")], Vec::new()), element("li", &[], Vec::new()), text("a"), text("b")],
        vec![place(0, vec![place(1, vec![leaf(2)]), place(1, vec![leaf(3)])]), leaf(3)],
    );
    let mut registry = Registry::new();
    let (nodes, failure) = run(&tree, &mut registry, 0);
    assert_eq!(failure, None);
    assert_eq!(nodes.len(), 2);
    assert_eq!(
        render_nodes(&nodes),
        "<ul id=\"l\"><li ><span></span></li><li ><span></span></li></ul><span></span>"
    );
    assert_eq!(text_of(child(child(&nodes[0], 0), 0)), Some("a".to_string()));
    assert_eq!(text_of(child(child(&nodes[0], 1), 0)), Some("b".to_string()));
    assert_eq!(text_of(&nodes[1]), Some("b".to_string()));
    assert_eq!(registry.len(), 0);
}

#[test]
fn a_node_may_stand_at_several_places() {
    let tree = html(vec![text("x")], vec![leaf(0), leaf(0), leaf(0)]);
    let mut registry = Registry::new();
    let (nodes, _) = run(&tree, &mut registry, 0);
    assert_eq!(nodes.len(), 3);
}

#[test]
fn an_element_keeps_its_bindings_and_a_text_has_none() {
    let tree = html(
        vec![
            element("a", &[], vec![("click", Msg::Pick(1)), ("focus", Msg::Add)]),
            HtmlNode::new(
                HtmlKind::Template(Template::Text("t".to_string())),
                Arc::new(vec![("click".to_string(), Arc::new(Msg::Add))]),
                AttrMap::new(Vec::new()),
            ),
        ],
        vec![place(0, vec![leaf(1)])],
    );
    let mut registry = Registry::new();
    let scope = step(Path::new(), 3, "Owner");
    let expansion = expand::<Widget>(&tree, &mut registry, &scope, &Path::new(), 0);
    let link = &expansion.nodes[0];
    assert_eq!(link.callbacks.len(), 2);
    assert_eq!(link.callbacks[0].0, "click");
    assert_eq!(*link.callbacks[0].1, Msg::Pick(1));
    assert_eq!(link.callbacks[1].0, "focus");
    assert_eq!(*link.callbacks[1].1, Msg::Add);
    assert_eq!(link.scope, scope);
    assert!(child(link, 0).callbacks.is_empty());
    assert_eq!(child(link, 0).scope, scope);
}

#[test]
fn a_component_is_created_under_its_own_path() {
    let tree = html(vec![element("div", &[], Vec::new()), component("Counter", &[])], vec![place(0, vec![leaf(1)])]);
    let mut registry = Registry::new();
    let (nodes, failure) = run(&tree, &mut registry, 4);
    assert_eq!(failure, None);
    assert_eq!(render_nodes(&nodes), "<div ><button ><span></span></button></div>");
    let at = step(step(Path::new(), 0, "element"), 0, "Counter");
    assert_eq!(registry.len(), 1);
    assert!(registry.contains(&at));
    assert_eq!(*registry.get(&at), Widget::Counter(0));
    let button = child(&nodes[0], 0);
    assert_eq!(button.scope, at);
    assert_eq!(nodes[0].scope, Path::new());
    assert_eq!(text_of(child(button, 0)), Some("count: 0".to_string()));
}

#[test]
fn a_component_that_is_there_is_shown_in_its_state() {
    let tree = html(vec![component("Counter", &[])], vec![leaf(0)]);
    let at = step(Path::new(), 0, "Counter");
    let mut registry = Registry::new();
    registry.get_or_insert(&at, || Widget::Counter(41));
    let (nodes, _) = run(&tree, &mut registry, 4);
    assert_eq!(text_of(child(&nodes[0], 0)), Some("count: 41".to_string()));
    assert_eq!(registry.len(), 1);
    assert_eq!(*registry.get(&at), Widget::Counter(41));
}

#[test]
fn the_components_of_a_page_keep_their_places() {
    let tree = html(vec![component("Page", &[])], vec![leaf(0)]);
    let mut registry = Registry::new();
    let (nodes, failure) = run(&tree, &mut registry, 8);
    assert_eq!(failure, None);
    assert_eq!(
        render_nodes(&nodes),
        "<main class=\"page\"><button ><span></span></button><section ><b ></b></section><button ><span></span></button></main>"
    );
    let page = step(Path::new(), 0, "Page");
    let main = step(page.clone(), 0, "element");
    let first = step(main.clone(), 0, "Counter");
    let frame = step(main.clone(), 1, "Frame");
    let second = step(main.clone(), 2, "Counter");
    assert_eq!(registry.len(), 4);
    for path in [&page, &first, &frame, &second] {
        assert!(registry.contains(path));
    }
    assert_eq!(child(&nodes[0], 0).scope, first);
    assert_eq!(child(&nodes[0], 1).scope, frame);
    assert_eq!(child(&nodes[0], 2).scope, second);
}

#[test]
fn children_keep_the_scope_of_the_component_that_wrote_them() {
    let tree = html(vec![component("Page", &[])], vec![leaf(0)]);
    let mut registry = Registry::new();
    let (nodes, _) = run(&tree, &mut registry, 8);
    let page = step(Path::new(), 0, "Page");
    let section = child(&nodes[0], 1);
    let bold = child(section, 0);
    assert_eq!(bold.scope, page);
    assert_eq!(bold.callbacks.len(), 1);
    assert_eq!(*bold.callbacks[0].1, Msg::Pick(7));
}

#[test]
fn a_component_without_nodes_still_takes_its_index() {
    let tree = html(
        vec![component("Nothing", &[]), component("Counter", &[])],
        vec![leaf(0), leaf(1)],
    );
    let mut registry = Registry::new();
    let (nodes, failure) = run(&tree, &mut registry, 4);
    assert_eq!(failure, None);
    assert_eq!(nodes.len(), 1);
    assert!(registry.contains(&step(Path::new(), 0, "Nothing")));
    assert!(registry.contains(&step(Path::new(), 1, "Counter")));
    assert!(!registry.contains(&step(Path::new(), 0, "Counter")));
    assert_eq!(nodes[0].scope, step(Path::new(), 1, "Counter"));
}

#[test]
fn properties_are_read_from_the_attributes_of_the_reference() {
    let tree = html(vec![component("Label", &[("label", "hello"), ("other", "x")])], vec![leaf(0)]);
    let mut registry = Registry::new();
    let (nodes, _) = run(&tree, &mut registry, 4);
    assert_eq!(text_of(&nodes[0]), Some("hello".to_string()));
}

#[test]
fn a_tree_placed_as_a_template_is_spliced_in() {
    let inner = html(vec![element("i", &[], Vec::new()), text("t"), component("Counter", &[])], vec![leaf(0), leaf(1), leaf(2)]);
    let tree = html(
        vec![element("p", &[], Vec::new()), template(Template::Html(inner)), text("end")],
        vec![place(0, vec![leaf(1), leaf(2)])],
    );
    let mut registry = Registry::new();
    let (nodes, failure) = run(&tree, &mut registry, 4);
    assert_eq!(failure, None);
    assert_eq!(
        render_nodes(&nodes),
        "<p ><i ></i><span></span><button ><span></span></button><span></span></p>"
    );
    let at = step(step(step(Path::new(), 0, "element"), 0, "template"), 2, "Counter");
    assert!(registry.contains(&at));
    assert_eq!(registry.len(), 1);
}

#[test]
fn a_place_without_a_node_fails_and_the_rest_is_expanded() {
    let tree = html(vec![component("Broken", &[])], vec![leaf(0)]);
    let mut registry = Registry::new();
    let (nodes, failure) = run(&tree, &mut registry, 4);
    assert_eq!(failure, Some(Error::InvalidId));
    assert_eq!(render_nodes(&nodes), "<p ><span></span></p>");
    assert_eq!(text_of(child(&nodes[0], 0)), Some("kept".to_string()));
}

#[test]
fn a_top_place_without_a_node_fails() {
    let tree = html(vec![text("a")], vec![leaf(1), leaf(0)]);
    let mut registry = Registry::new();
    let (nodes, failure) = run(&tree, &mut registry, 0);
    assert_eq!(failure, Some(Error::InvalidId));
    assert_eq!(nodes.len(), 1);
}

#[test]
fn components_that_nest_without_end_stop_at_the_limit() {
    let tree = html(vec![component("Loop", &[])], vec![leaf(0)]);
    let mut registry = Registry::new();
    let (nodes, failure) = run(&tree, &mut registry, 3);
    assert_eq!(failure, Some(Error::TooDeep));
    assert!(nodes.is_empty());
    assert_eq!(registry.len(), 3);
    let mut at = Path::new();
    for _ in 0..3 {
        at = step(at, 0, "Loop");
        assert!(registry.contains(&at));
    }
    assert!(!registry.contains(&step(at, 0, "Loop")));
}

#[test]
fn without_fuel_no_component_is_entered() {
    let tree = html(vec![text("a"), component("Counter", &[]), text("b")], vec![leaf(0), leaf(1), leaf(2)]);
    let mut registry = Registry::new();
    let (nodes, failure) = run(&tree, &mut registry, 0);
    assert_eq!(failure, Some(Error::TooDeep));
    assert_eq!(nodes.len(), 2);
    assert_eq!(registry.len(), 0);
}

#[test]
fn the_first_failure_is_the_one_reported() {
    let tree = html(vec![component("Loop", &[])], vec![leaf(4), leaf(0)]);
    let mut registry = Registry::new();
    let (_, failure) = run(&tree, &mut registry, 1);
    assert_eq!(failure, Some(Error::InvalidId));
    let other = html(vec![component("Loop", &[])], vec![leaf(0), leaf(4)]);
    let mut registry = Registry::new();
    let (_, failure) = run(&other, &mut registry, 1);
    assert_eq!(failure, Some(Error::TooDeep));
}

#[test]
fn expanding_again_gives_the_same_nodes_and_creates_nothing() {
    let tree = html(vec![component("Page", &[])], vec![leaf(0)]);
    let mut registry = Registry::new();
    let (first, _) = run(&tree, &mut registry, 8);
    let created = registry.len();
    let (second, failure) = run(&tree, &mut registry, 8);
    assert_eq!(failure, None);
    assert_eq!(registry.len(), created);
    assert_eq!(render_nodes(&first), render_nodes(&second));
}

#[test]
fn get_or_insert_creates_an_instance_once() {
    let mut registry: Registry<Widget> = Registry::new();
    let at = step(Path::new(), 0, "Counter");
    let mut calls = 0;
    let first = registry.get_or_insert(&at, || {
        calls += 1;
        Widget::Counter(1)
    });
    assert_eq!(*first, Widget::Counter(1));
    let second = registry.get_or_insert(&at, || {
        calls += 1;
        Widget::Counter(2)
    });
    assert_eq!(*second, Widget::Counter(1));
    assert_eq!(calls, 1);
    assert_eq!(registry.len(), 1);
}

#[test]
fn get_or_insert_keeps_paths_apart() {
    let mut registry: Registry<Widget> = Registry::new();
    let a = step(Path::new(), 0, "Counter");
    let b = step(Path::new(), 1, "Counter");
    let c = step(Path::new(), 0, "Frame");
    registry.get_or_insert(&a, || Widget::Counter(1));
    registry.get_or_insert(&b, || Widget::Counter(2));
    registry.get_or_insert(&c, || Widget::Frame);
    assert_eq!(registry.len(), 3);
    assert_eq!(*registry.get(&a), Widget::Counter(1));
    assert_eq!(*registry.get(&b), Widget::Counter(2));
    assert_eq!(*registry.get(&c), Widget::Frame);
    assert!(!registry.contains(&Path::new()));
}

#[test]
fn a_message_reaches_the_instance_under_its_path() {
    let mut registry: Registry<Widget> = Registry::new();
    let a = step(Path::new(), 0, "Counter");
    let b = step(Path::new(), 1, "Counter");
    registry.get_or_insert(&a, || Widget::Counter(0));
    registry.get_or_insert(&b, || Widget::Counter(0));
    assert_eq!(registry.dispatch(&b, &Msg::Add), Ok(()));
    assert_eq!(registry.dispatch(&b, &Msg::Add), Ok(()));
    assert_eq!(registry.dispatch(&a, &Msg::Pick(9)), Ok(()));
    assert_eq!(*registry.get(&a), Widget::Counter(9));
    assert_eq!(*registry.get(&b), Widget::Counter(2));
    assert_eq!(registry.len(), 2);
}

#[test]
fn a_message_for_an_unknown_path_changes_nothing() {
    let mut registry: Registry<Widget> = Registry::new();
    let a = step(Path::new(), 0, "Counter");
    registry.get_or_insert(&a, || Widget::Counter(3));
    assert_eq!(registry.dispatch(&Path::new(), &Msg::Add), Err(Error::InvalidId));
    assert_eq!(*registry.get(&a), Widget::Counter(3));
    assert_eq!(registry.len(), 1);
}

fn dom(positions: &[usize]) -> Path {
    positions.iter().fold(Path::new(), |path, index| step(path, *index, "virtual_node"))
}

#[test]
fn every_node_carries_its_place_in_the_document() {
    let tree = html(vec![component("Page", &[])], vec![leaf(0)]);
    let mut registry = Registry::new();
    let (nodes, _) = run(&tree, &mut registry, 8);
    let main = &nodes[0];
    assert_eq!(main.path, dom(&[0]));
    assert_eq!(child(main, 0).path, dom(&[0, 0]));
    assert_eq!(child(child(main, 0), 0).path, dom(&[0, 0, 0]));
    assert_eq!(child(main, 1).path, dom(&[0, 1]));
    assert_eq!(child(child(main, 1), 0).path, dom(&[0, 1, 0]));
    assert_eq!(child(main, 2).path, dom(&[0, 2]));
    assert_eq!(child(child(main, 2), 0).path, dom(&[0, 2, 0]));
}

#[test]
fn spliced_nodes_are_counted_in_the_places_of_their_siblings() {
    let inner = html(vec![text("a"), text("b")], vec![leaf(0), leaf(1)]);
    let tree = html(
        vec![
            element("p", &[], Vec::new()),
            component("Nothing", &[]),
            template(Template::Html(inner)),
            component("Counter", &[]),
            text("end"),
        ],
        vec![place(0, vec![leaf(1), leaf(2), leaf(3), leaf(4)])],
    );
    let mut registry = Registry::new();
    let below = dom(&[6]);
    let expansion = expand::<Widget>(&tree, &mut registry, &Path::new(), &below, 4);
    assert_eq!(expansion.failure, None);
    let p = &expansion.nodes[0];
    assert_eq!(p.path, dom(&[6, 0]));
    assert_eq!(p.kind.child_count(), 4);
    for position in 0..4 {
        assert_eq!(child(p, position).path, dom(&[6, 0, position]));
    }
    assert_eq!(text_of(child(p, 0)), Some("a".to_string()));
    assert_eq!(text_of(child(p, 1)), Some("b".to_string()));
    assert_eq!(child(p, 2).scope, step(step(Path::new(), 0, "element"), 2, "Counter"));
    assert_eq!(text_of(child(p, 3)), Some("end".to_string()));
}

fn paths_of(node: &VirtualNode<Msg>, found: &mut Vec<Path>) {
    found.push(node.path.clone());
    if let VirtualKind::Element(element) = &node.kind {
        for child in element.children.iter() {
            paths_of(child, found);
        }
    }
}

#[test]
fn the_paths_of_the_nodes_are_where_reconciliation_writes() {
    let tree = html(vec![component("Page", &[])], vec![leaf(0)]);
    let mut registry = Registry::new();
    let (nodes, _) = run(&tree, &mut registry, 8);
    let new = VirtualNode::new(
        Arc::new(Vec::new()),
        VirtualKind::Element(stunt::virtual_dom::VirtualElement::new("root".to_string(), String::new(), nodes)),
        Path::new(),
        Path::new(),
    );
    let mut known = Vec::new();
    paths_of(&new, &mut known);
    assert_eq!(known.len(), 8);
    for i in 0..known.len() {
        for k in 0..known.len() {
            assert_eq!(known[i] == known[k], i == k);
        }
    }
    let patches = new.reconcile(&VirtualNode::default(), Path::new());
    assert_eq!(patches[0].locator, new.path);
    let mut written = Vec::new();
    for step in patches[0].passover.iter() {
        match step {
            stunt::reconcile::Step::Text { locator, .. } => written.push(locator.clone()),
            stunt::reconcile::Step::Listen(callback) => written.push(callback.locator.clone()),
        }
    }
    assert_eq!(written.len(), 5);
    for locator in written.iter() {
        assert!(known.contains(locator));
    }
}

#[test]
fn the_bindings_of_a_reference_are_kept_on_a_wrapper() {
    let reference = HtmlNode::new(
        HtmlKind::create_component("Counter".to_string()),
        Arc::new(vec![("click".to_string(), Arc::new(Msg::Pick(3)))]),
        AttrMap::new(Vec::new()),
    );
    let tree = html(vec![text("before"), reference, text("after")], vec![leaf(0), leaf(1), leaf(2)]);
    let mut registry = Registry::new();
    let owner = step(Path::new(), 5, "Owner");
    let expansion = expand::<Widget>(&tree, &mut registry, &owner, &Path::new(), 4);
    assert_eq!(expansion.failure, None);
    assert_eq!(
        render_nodes(&expansion.nodes),
        "<span></span><span ><button ><span></span></button></span><span></span>"
    );
    let wrapper = &expansion.nodes[1];
    assert_eq!(wrapper.callbacks.len(), 1);
    assert_eq!(wrapper.callbacks[0].0, "click");
    assert_eq!(*wrapper.callbacks[0].1, Msg::Pick(3));
    assert_eq!(wrapper.scope, owner);
    assert_eq!(wrapper.path, dom(&[1]));
    let button = child(wrapper, 0);
    assert_eq!(button.scope, step(owner.clone(), 1, "Counter"));
    assert_eq!(button.path, dom(&[1, 0]));
    assert_eq!(*button.callbacks[0].1, Msg::Add);
    assert_eq!(expansion.nodes[2].path, dom(&[2]));
}

#[test]
fn a_reference_without_bindings_adds_no_node() {
    let tree = html(vec![text("before"), component("Counter", &[]), text("after")], vec![leaf(0), leaf(1), leaf(2)]);
    let mut registry = Registry::new();
    let (nodes, _) = run(&tree, &mut registry, 4);
    assert_eq!(render_nodes(&nodes), "<span></span><button ><span></span></button><span></span>");
    assert_eq!(nodes[1].path, dom(&[1]));
    assert_eq!(nodes[2].path, dom(&[2]));
}
