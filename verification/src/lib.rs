//! The core of a component-based user interface.
//!
//! A [`component::Component`] holds state and writes a render tree
//! ([`html::Html`]) that shows it. The tree is expanded ([`expand`]) into a
//! virtual DOM ([`virtual_dom::VirtualNode`]): references to components are
//! replaced by what their views write, and the instances of the components
//! are kept in a [`registry::Registry`] under their paths ([`path::Path`]).
//! Reconciliation ([`reconcile`]) compares the new virtual DOM with the one
//! that the document shows and gives the patches that the host has to write.
//! A [`render::Renderer`] holds the state of one application and takes it
//! through the cycle of event, render pass and commit;
//! [`shared::SharedRenderer`] puts it behind a lock.
//!
//! Nothing here touches a document: the patches say what is to be written,
//! and the host says how many of them it wrote.

pub mod attributes;
pub mod component;
pub mod error;
pub mod expand;
pub mod html;
pub mod identity;
pub mod path;
pub mod reconcile;
pub mod registry;
pub mod render;
pub mod shared;
pub mod text;
pub mod virtual_dom;
