use std::rc::Rc;
use std::sync::Arc;

use stunt::attributes::AttrMap;
use stunt::component::Component;
use stunt::error::Error;
use stunt::html::{Children, Html, HtmlElement, HtmlKind, HtmlNode, NodeRef, Template};
use stunt::path::Path;
use stunt::reconcile::{Patch, Step};
use stunt::render::{Phase, Renderer};

#[derive(Debug, PartialEq)]
enum Message {
    Add,
}

struct App {
    count: usize,
}

fn element(name: &str, callbacks: Vec<(String, Arc<Message>)>) -> HtmlNode<Message> {
    HtmlNode::new(
        HtmlKind::Element(HtmlElement::new(name.to_string(), Vec::new())),
        Arc::new(callbacks),
        AttrMap::new(Vec::new()),
    )
}

fn text(content: String) -> HtmlNode<Message> {
    HtmlNode::new(
        HtmlKind::Template(Template::Text(content)),
        Arc::new(Vec::new()),
        AttrMap::new(Vec::new()),
    )
}

fn place(index: usize, refs: Vec<NodeRef>) -> NodeRef {
    NodeRef::new(index, Rc::new(refs))
}

impl Component for App {
    type Message = Message;
    type Properties = ();

    fn create(_name: &str) -> App {
        App { count: 0 }
    }

    fn callback(&mut self, message: &Message) {
        match message {
            Message::Add => self.count += 1,
        }
    }

    fn view(&self, _properties: (), _children: Children<Message>) -> Html<Message> {
        let nodes = vec![
            element("div", Vec::new()),
            element("button", vec![("click".to_string(), Arc::new(Message::Add))]),
            text("increment".to_string()),
            element("h1", Vec::new()),
            text(format!("count: {}", self.count)),
        ];
        let refs = vec![place(
            0,
            vec![place(1, vec![place(2, Vec::new())]), place(3, vec![place(4, Vec::new())])],
        )];
        Html::new(Rc::new(nodes), Rc::new(refs))
    }
}

fn texts(patch: &Patch<Message>) -> Vec<(String, String)> {
    let mut found = Vec::new();
    for step in patch.passover.iter() {
        if let Step::Text { locator, text } = step {
            found.push((locator.render(), text.clone()));
        }
    }
    found
}

fn listeners(patch: &Patch<Message>) -> Vec<(String, String, String)> {
    let mut found = Vec::new();
    for step in patch.passover.iter() {
        if let Step::Listen(callback) = step {
            found.push((callback.locator.render(), callback.event.clone(), callback.scope.render()));
        }
    }
    found
}

#[test]
fn first_render_writes_the_whole_application() {
    let mut renderer: Renderer<App> = Renderer::new("App");
    assert_eq!(renderer.phase(), Phase::Idle);
    let patches = renderer.render().unwrap();
    assert_eq!(renderer.phase(), Phase::Rendering);
    assert_eq!(patches.len(), 1);
    assert_eq!(patches[0].locator.render(), "");
    assert_eq!(
        patches[0].markup,
        "<div ><button ><span></span></button><h1 ><span></span></h1></div>"
    );
    assert_eq!(
        texts(&patches[0]),
        vec![
            ("/*[1]/*[1]/*[1]".to_string(), "increment".to_string()),
            ("/*[1]/*[2]/*[1]".to_string(), "count: 0".to_string()),
        ]
    );
    assert_eq!(
        listeners(&patches[0]),
        vec![("/*[1]/*[1]".to_string(), "click".to_string(), "".to_string())]
    );
    assert!(renderer.commit(1));
    assert_eq!(renderer.phase(), Phase::Idle);
}

#[test]
fn dispatch_round_trip_shows_the_new_count() {
    let mut renderer: Renderer<App> = Renderer::new("App");
    let first = renderer.render().unwrap();
    assert!(renderer.commit(first.len()));
    let patches = renderer.dispatch(&Path::new(), &Message::Add).unwrap();
    assert_eq!(renderer.get(&Path::new()).count, 1);
    let mut leaves = Vec::new();
    for patch in patches.iter() {
        leaves.extend(texts(patch));
    }
    assert_eq!(leaves, vec![("/*[1]/*[2]/*[1]".to_string(), "count: 1".to_string())]);
}

#[test]
fn counter_app_touches_only_the_text() {
    let mut renderer: Renderer<App> = Renderer::new("App");
    let first = renderer.render().unwrap();
    assert_eq!(texts(&first[0])[1].1, "count: 0");
    assert!(renderer.commit(first.len()));
    let patches = renderer.dispatch(&Path::new(), &Message::Add).unwrap();
    assert_eq!(patches.len(), 1);
    assert_eq!(patches[0].locator.render(), "/*[1]/*[2]/*[1]");
    assert_eq!(patches[0].markup, "");
    assert_eq!(
        texts(&patches[0]),
        vec![("/*[1]/*[2]/*[1]".to_string(), "count: 1".to_string())]
    );
    assert!(listeners(&patches[0]).is_empty());
    assert!(renderer.commit(1));
}

#[test]
fn rendering_twice_writes_nothing() {
    let mut renderer: Renderer<App> = Renderer::new("App");
    let first = renderer.render().unwrap();
    assert!(renderer.commit(first.len()));
    let second = renderer.render().unwrap();
    assert!(second.is_empty());
    assert!(renderer.commit(0));
}

#[test]
fn an_event_during_a_pass_is_refused() {
    let mut renderer: Renderer<App> = Renderer::new("App");
    let _open = renderer.render().unwrap();
    assert_eq!(renderer.dispatch(&Path::new(), &Message::Add).err(), Some(Error::LockFailed));
    assert_eq!(renderer.render().err(), Some(Error::LockFailed));
    assert_eq!(renderer.get(&Path::new()).count, 0);
}

#[test]
fn an_event_for_an_unknown_component_is_refused() {
    let mut renderer: Renderer<App> = Renderer::new("App");
    let nowhere = Path::new().concat(stunt::path::PathNode::new(3, "Missing".to_string()));
    assert_eq!(renderer.dispatch(&nowhere, &Message::Add).err(), Some(Error::InvalidId));
    assert_eq!(renderer.phase(), Phase::Idle);
}

#[test]
fn a_pass_that_was_not_written_is_not_kept() {
    let mut renderer: Renderer<App> = Renderer::new("App");
    let first = renderer.render().unwrap();
    assert_eq!(first.len(), 1);
    assert!(!renderer.commit(0));
    assert_eq!(renderer.phase(), Phase::Idle);
    let again = renderer.render().unwrap();
    assert_eq!(again.len(), 1);
    assert_eq!(again[0].markup, first[0].markup);
}

struct Flat {
    count: usize,
}

impl Component for Flat {
    type Message = Message;
    type Properties = ();

    fn create(_name: &str) -> Flat {
        Flat { count: 0 }
    }

    fn callback(&mut self, message: &Message) {
        match message {
            Message::Add => self.count += 1,
        }
    }

    fn view(&self, _properties: (), _children: Children<Message>) -> Html<Message> {
        let nodes = vec![
            element("button", vec![("click".to_string(), Arc::new(Message::Add))]),
            text(format!("count: {}", self.count)),
        ];
        Html::new(Rc::new(nodes), Rc::new(vec![place(0, Vec::new()), place(1, Vec::new())]))
    }
}

#[test]
fn a_text_beside_the_button_is_patched_alone() {
    let mut renderer: Renderer<Flat> = Renderer::new("Flat");
    let first = renderer.render().unwrap();
    assert_eq!(first[0].markup, "<button ></button><span></span>");
    assert_eq!(texts(&first[0]), vec![("/*[2]".to_string(), "count: 0".to_string())]);
    assert_eq!(listeners(&first[0]), vec![("/*[1]".to_string(), "click".to_string(), "".to_string())]);
    assert!(renderer.commit(1));
    let patches = renderer.dispatch(&Path::new(), &Message::Add).unwrap();
    assert_eq!(patches.len(), 1);
    assert_eq!(patches[0].locator.render(), "/*[2]");
    assert_eq!(patches[0].markup, "");
    assert_eq!(texts(&patches[0]), vec![("/*[2]".to_string(), "count: 1".to_string())]);
    assert!(listeners(&patches[0]).is_empty());
}
