//! What a loaded page exposes: its links and meta tags.

use vstd::prelude::*;

verus! {

/// A hyperlink: its target and its text.
#[derive(Debug, Clone)]
pub struct Link {
    pub href: String,
    pub text: String,
}

/// A `<meta>` tag's `name`, `property` and `content` attributes.
#[derive(Debug, Clone)]
pub struct MetaTag {
    pub name: String,
    pub property: String,
    pub content: String,
}

} // verus!
