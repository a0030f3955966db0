//! A small document-rendering front end: HTML text is parsed into a DOM
//! tree, CSS text into a stylesheet object model, and the two are combined
//! by style resolution and layout-box construction into a tree of typed
//! layout boxes ready for a later measurement/paint stage.

pub mod text;
pub mod dom;
pub mod html;
pub mod cssom;
pub mod css;
pub mod style;
pub mod layout;
