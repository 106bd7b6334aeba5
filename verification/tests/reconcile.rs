use std::sync::Arc;

use stunt::path::{Path, PathNode};
use stunt::reconcile::{Callback, Patch, Step};
use stunt::virtual_dom::{render_nodes, VirtualElement, VirtualKind, VirtualNode};

type Node = VirtualNode<u32>;

fn scope(index: usize) -> Path {
    Path::new().concat(PathNode::new(index, "App".to_string()))
}

fn text(content: &str) -> Node {
    VirtualNode::new(
        Arc::new(Vec::new()),
        VirtualKind::Template(content.to_string()),
        Path::new(),
        Path::new(),
    )
}

fn tag(name: &str, attributes: &str, children: Vec<Node>) -> Node {
    VirtualNode::new(
        Arc::new(Vec::new()),
        VirtualKind::Element(VirtualElement::new(name.to_string(), attributes.to_string(), children)),
        Path::new(),
        Path::new(),
    )
}

fn listening(name: &str, bindings: Vec<(&str, u32)>, owner: Path, children: Vec<Node>) -> Node {
    let callbacks = bindings
        .into_iter()
        .map(|(event, message)| (event.to_string(), Arc::new(message)))
        .collect();
    VirtualNode::new(
        Arc::new(callbacks),
        VirtualKind::Element(VirtualElement::new(name.to_string(), String::new(), children)),
        Path::new(),
        owner,
    )
}

fn shown(step: &Step<u32>) -> String {
    match step {
        Step::Text { locator, text } => format!("text {} {}", locator.render(), text),
        Step::Listen(callback) => format!(
            "listen {} {} -> {} {}",
            callback.locator.render(),
            callback.event,
            callback.scope.render(),
            *callback.message
        ),
    }
}

fn steps(patch: &Patch<u32>) -> Vec<String> {
    patch.passover.iter().map(shown).collect()
}

fn summary(patches: &Vec<Patch<u32>>) -> Vec<(String, String)> {
    patches.iter().map(|patch| (patch.locator.render(), patch.markup.clone())).collect()
}

fn page(count: &str) -> Node {
    tag(
        "root",
        "",
        vec![tag(
            "div",
            "",
            vec![
                listening("button", vec![("click", 1)], scope(0), vec![text("increment")]),
                tag("h1", "", vec![text(count)]),
            ],
        )],
    )
}

#[test]
fn a_text_is_written_as_an_empty_span() {
    assert_eq!(text("hello").kind.render(), "<span></span>");
    assert_eq!(text("").kind.render(), "<span></span>");
}

#[test]
fn an_element_is_written_with_its_attributes_and_children() {
    let node = tag("div", "class=\"a\"", vec![tag("p", "", vec![text("x")]), text("y")]);
    assert_eq!(node.kind.render(), "<div class=\"a\"><p ><span></span></p><span></span></div>");
}

#[test]
fn an_element_without_children_is_written_with_both_tags() {
    assert_eq!(tag("br", "", Vec::new()).kind.render(), "<br ></br>");
}

#[test]
fn nodes_are_written_one_after_the_other() {
    let nodes = vec![tag("a", "", Vec::new()), text("t"), tag("b", "x=\"1\"", Vec::new())];
    assert_eq!(render_nodes(&nodes), "<a ></a><span></span><b x=\"1\"></b>");
    assert_eq!(render_nodes(&Vec::<Node>::new()), "");
}

#[test]
fn the_element_renders_like_its_kind() {
    let element = VirtualElement::new("p".to_string(), "a=\"b\"".to_string(), vec![text("x")]);
    assert_eq!(element.render(), "<p a=\"b\"><span></span></p>");
}

#[test]
fn child_count_is_that_of_an_element_and_none_for_a_text() {
    assert_eq!(text("x").kind.child_count(), 0);
    assert_eq!(tag("p", "", vec![text("x"), text("y")]).kind.child_count(), 2);
}

#[test]
fn nodes_are_equal_by_tag_and_attributes_not_by_children() {
    assert!(tag("p", "a", vec![text("x")]) == tag("p", "a", Vec::new()));
    assert!(tag("p", "a", Vec::new()) != tag("p", "b", Vec::new()));
    assert!(tag("p", "a", Vec::new()) != tag("q", "a", Vec::new()));
    assert!(text("x") == text("x"));
    assert!(text("x") != text("y"));
    assert!(text("p") != tag("p", "", Vec::new()));
    assert!(tag("p", "", Vec::new()) != text("p"));
}

#[test]
fn nodes_are_equal_whatever_they_listen_to() {
    let plain = tag("button", "", Vec::new());
    let bound = listening("button", vec![("click", 1)], scope(0), Vec::new());
    assert!(plain == bound);
    assert!(plain.kind == bound.kind);
}

#[test]
fn the_default_node_is_an_empty_text_at_the_root() {
    let node: Node = VirtualNode::default();
    assert!(node == text(""));
    assert_eq!(node.path, Path::new());
    assert_eq!(node.scope, Path::new());
    assert!(node.callbacks.is_empty());
}

#[test]
fn the_same_tree_needs_no_patch() {
    let patches = page("0").reconcile(&page("0"), Path::new());
    assert!(patches.is_empty());
}

#[test]
fn a_changed_text_is_the_only_thing_patched() {
    let patches = page("1").reconcile(&page("0"), Path::new());
    assert_eq!(summary(&patches), vec![("/*[1]/*[2]/*[1]".to_string(), String::new())]);
    assert_eq!(steps(&patches[0]), vec!["text /*[1]/*[2]/*[1] 1"]);
}

#[test]
fn a_patch_is_located_below_the_given_path() {
    let at = Path::new().concat(PathNode::new(4, "virtual_node".to_string()));
    let patches = page("1").reconcile(&page("0"), at);
    assert_eq!(patches.len(), 1);
    assert_eq!(patches[0].locator.render(), "/*[5]/*[1]/*[2]/*[1]");
}

#[test]
fn the_first_render_replaces_the_content_of_the_root() {
    let patches = page("0").reconcile(&VirtualNode::default(), Path::new());
    assert_eq!(
        summary(&patches),
        vec![(
            String::new(),
            "<div ><button ><span></span></button><h1 ><span></span></h1></div>".to_string()
        )]
    );
    assert_eq!(
        steps(&patches[0]),
        vec![
            "listen /*[1]/*[1] click -> /*[1] 1",
            "text /*[1]/*[1]/*[1] increment",
            "text /*[1]/*[2]/*[1] 0",
        ]
    );
}

#[test]
fn a_changed_element_has_its_content_rewritten() {
    let old = tag("root", "", vec![tag("p", "", vec![text("a")]), tag("q", "", vec![text("b")])]);
    let new = tag(
        "root",
        "",
        vec![
            tag("p", "", vec![text("a")]),
            tag("q", "class=\"x\"", vec![listening("i", vec![("click", 5)], scope(2), Vec::new()), text("c")]),
        ],
    );
    let patches = new.reconcile(&old, Path::new());
    assert_eq!(summary(&patches), vec![("/*[2]".to_string(), "<i ></i><span></span>".to_string())]);
    assert_eq!(
        steps(&patches[0]),
        vec!["listen /*[2]/*[1] click -> /*[3] 5", "text /*[2]/*[2] c"]
    );
}

#[test]
fn a_text_that_becomes_an_element_is_rewritten_in_place() {
    let old = tag("root", "", vec![text("a")]);
    let new = tag("root", "", vec![tag("b", "", vec![text("a")])]);
    let patches = new.reconcile(&old, Path::new());
    assert_eq!(summary(&patches), vec![("/*[1]".to_string(), "<span></span>".to_string())]);
    assert_eq!(steps(&patches[0]), vec!["text /*[1]/*[1] a"]);
}

#[test]
fn two_changes_give_two_patches_in_document_order() {
    let old = tag("root", "", vec![tag("p", "", vec![text("a")]), tag("p", "", vec![text("b")])]);
    let new = tag("root", "", vec![tag("p", "", vec![text("x")]), tag("p", "", vec![text("y")])]);
    let patches = new.reconcile(&old, Path::new());
    assert_eq!(
        summary(&patches),
        vec![("/*[1]/*[1]".to_string(), String::new()), ("/*[2]/*[1]".to_string(), String::new())]
    );
    assert_eq!(steps(&patches[0]), vec!["text /*[1]/*[1] x"]);
    assert_eq!(steps(&patches[1]), vec!["text /*[2]/*[1] y"]);
}

#[test]
fn a_change_below_a_changed_node_is_part_of_its_patch() {
    let old = tag("root", "", vec![tag("p", "a", vec![text("a")])]);
    let new = tag("root", "", vec![tag("p", "b", vec![text("x")])]);
    let patches = new.reconcile(&old, Path::new());
    assert_eq!(summary(&patches), vec![("/*[1]".to_string(), "<span></span>".to_string())]);
}

fn list(items: &[&str]) -> Node {
    tag(
        "root",
        "",
        vec![tag("ul", "", items.iter().map(|item| tag("li", "", vec![text(item)])).collect())],
    )
}

#[test]
fn a_list_that_grows_leaves_its_old_items_alone() {
    let patches = list(&["a", "b", "c"]).reconcile(&list(&["a", "b"]), Path::new());
    assert!(patches.is_empty());
}

#[test]
fn a_list_that_grows_patches_a_changed_item_at_its_own_index() {
    let patches = list(&["a", "x", "c"]).reconcile(&list(&["a", "b"]), Path::new());
    assert_eq!(summary(&patches), vec![("/*[1]/*[2]/*[1]".to_string(), String::new())]);
    assert_eq!(steps(&patches[0]), vec!["text /*[1]/*[2]/*[1] x"]);
}

#[test]
fn a_list_that_shrinks_is_compared_as_far_as_it_goes() {
    let unchanged = list(&["a"]).reconcile(&list(&["a", "b", "c"]), Path::new());
    assert!(unchanged.is_empty());
    let changed = list(&["x"]).reconcile(&list(&["a", "b", "c"]), Path::new());
    assert_eq!(summary(&changed), vec![("/*[1]/*[1]/*[1]".to_string(), String::new())]);
}

#[test]
fn a_list_that_becomes_empty_needs_no_patch() {
    let patches = list(&[]).reconcile(&list(&["a", "b"]), Path::new());
    assert!(patches.is_empty());
}

#[test]
fn passover_fills_texts_and_attaches_listeners_in_document_order() {
    let tree = tag(
        "root",
        "",
        vec![
            listening(
                "form",
                vec![("submit", 1), ("reset", 2)],
                scope(0),
                vec![listening("input", vec![("input", 3)], scope(1), Vec::new()), text("go")],
            ),
            text("tail"),
        ],
    );
    let found: Vec<String> = tree.passover(&Path::new()).iter().map(shown).collect();
    assert_eq!(
        found,
        vec![
            "listen /*[1] submit -> /*[1] 1",
            "listen /*[1] reset -> /*[1] 2",
            "listen /*[1]/*[1] input -> /*[2] 3",
            "text /*[1]/*[2] go",
            "text /*[2] tail",
        ]
    );
}

#[test]
fn passover_of_a_text_puts_its_content() {
    let at = Path::new().concat(PathNode::new(3, "virtual_node".to_string()));
    let found: Vec<String> = text("hello").passover(&at).iter().map(shown).collect();
    assert_eq!(found, vec!["text /*[4] hello"]);
}

#[test]
fn passover_leaves_out_the_listeners_of_the_node_itself() {
    let node = listening("button", vec![("click", 1)], scope(0), Vec::new());
    assert!(node.passover(&Path::new()).is_empty());
}

#[test]
fn a_listener_carries_the_scope_and_the_message_of_its_binding() {
    let node = listening("button", vec![("click", 10), ("focus", 20)], scope(6), Vec::new());
    let at = Path::new().concat(PathNode::new(1, "virtual_node".to_string()));
    let second = node.attach_listener(&at, &node.callbacks[1].0, &node.callbacks[1].1);
    assert_eq!(second.locator, at);
    assert_eq!(second.event, "focus");
    assert_eq!(second.scope, scope(6));
    assert_eq!(*second.message, 20);
    assert!(Arc::ptr_eq(&second.message, &node.callbacks[1].1));
    let first = node.attach_listener(&at, &"click".to_string(), &Arc::new(10));
    assert_eq!(first.event, "click");
    assert_eq!(*first.message, 10);
}

#[test]
fn a_callback_is_made_of_its_four_parts() {
    let callback = Callback::new(scope(1), "click".to_string(), scope(2), Arc::new(7u32));
    assert_eq!(callback.locator, scope(1));
    assert_eq!(callback.event, "click");
    assert_eq!(callback.scope, scope(2));
    assert_eq!(*callback.message, 7);
}

#[test]
fn the_patch_of_a_node_rewrites_its_content() {
    let node = tag("p", "", vec![tag("b", "", Vec::new()), text("t")]);
    let at = Path::new().concat(PathNode::new(0, "virtual_node".to_string()));
    let patch = node.patch(&at);
    assert_eq!(patch.locator, at);
    assert_eq!(patch.markup, "<b ></b><span></span>");
    assert_eq!(steps(&patch), vec!["text /*[1]/*[2] t"]);
}

#[test]
fn a_node_is_made_of_its_four_parts() {
    let at = Path::new().concat(PathNode::new(2, "virtual_node".to_string()));
    let node: Node = VirtualNode::new(
        Arc::new(vec![("click".to_string(), Arc::new(4))]),
        VirtualKind::Template("t".to_string()),
        at.clone(),
        scope(1),
    );
    assert_eq!(node.path, at);
    assert_eq!(node.scope, scope(1));
    assert_eq!(node.callbacks.len(), 1);
    assert!(node == text("t"));
}

#[test]
fn the_child_of_a_path_is_one_step_below() {
    let at = Path::new().concat(PathNode::new(2, "virtual_node".to_string()));
    let child = stunt::virtual_dom::child_of(&at, 5);
    assert_eq!(child, at.clone().concat(PathNode::new(5, "virtual_node".to_string())));
    assert_eq!(child.render(), "/*[3]/*[6]");
}
