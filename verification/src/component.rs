//! Components: the units of state that write render trees.

use crate::attributes::{AttrMap, PairsModel};
use crate::html::{Children, ChildrenModel, Html, HtmlModel};
use vstd::prelude::*;

verus! {

/// The properties that a parent hands to a component. They travel as a map of
/// attributes and are read into the component's own type on arrival.
///
/// `create` must be a function of the attributes alone: [`Properties::built`]
/// stands for it in contracts.
pub trait Properties: Sized {
    /// The properties that `create` reads out of `attributes`.
    open spec fn built(attributes: PairsModel) -> Self {
        arbitrary()
    }

    /// Reads the properties out of the attributes of the reference.
    fn create(attributes: AttrMap) -> (properties: Self)
        ensures
            properties == Self::built(attributes@),
    ;
}

impl Properties for () {
    open spec fn built(attributes: PairsModel) -> () {
        ()
    }

    fn create(attributes: AttrMap) -> (properties: ()) {
        ()
    }
}

/// Builds the properties of a component that takes none.
#[derive(Debug, Clone, Copy)]
pub struct EmptyBuilder;

impl EmptyBuilder {
    /// Accepts the one value that a component without properties can be
    /// handed.
    pub fn typecheck(&self, token: ()) {
    }

    /// The properties: nothing.
    pub fn build(self) -> (properties: ())
        ensures
            properties == (),
    {
        ()
    }
}

/// A component: it is created once for each path at which a render tree refers
/// to it, changes its state when it is sent a message, and writes the render
/// tree that shows its state.
///
/// The three methods must be functions of their arguments: whatever a view
/// depends on besides the component's state reaches it as a property. The spec
/// functions [`Component::created`], [`Component::handled`] and
/// [`Component::rendered`] stand for them in contracts.
pub trait Component: Sized {
    /// What the component is sent when one of its listeners fires.
    type Message;

    /// What its parent hands to its view.
    type Properties: Properties;

    /// The component that `create` makes for the declared name `name`.
    open spec fn created(name: Seq<char>) -> Self {
        arbitrary()
    }

    /// The component in its first state. `name` is the declared name that the
    /// reference carries, by which one type can stand for a family of
    /// components.
    fn create(name: &str) -> (component: Self)
        ensures
            component == Self::created(name@),
    ;

    /// The component after it was sent `message`.
    open spec fn handled(self, message: Self::Message) -> Self {
        arbitrary()
    }

    /// Takes a message, which may change the state.
    fn callback(&mut self, message: &Self::Message)
        ensures
            *final(self) == old(self).handled(*message),
    ;

    /// The render tree that `view` writes.
    open spec fn rendered(
        &self,
        properties: Self::Properties,
        children: ChildrenModel<Self::Message>,
    ) -> HtmlModel<Self::Message> {
        arbitrary()
    }

    /// The render tree that shows the component. `children` are the nodes that
    /// the parent wrote inside the reference.
    fn view(&self, properties: Self::Properties, children: Children<Self::Message>) -> (html: Html<
        Self::Message,
    >)
        ensures
            html@ == self.rendered(properties, children@),
    ;
}

} // verus!
