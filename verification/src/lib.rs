//! A style resolution engine for a minimal web-rendering pipeline.
//!
//! Given a parsed document tree ([`dom::Node`]) and a parsed style sheet
//! ([`css::Stylesheet`]), the resolver produces a styled tree
//! ([`style::StyledNode`]) in which every visible node carries its final,
//! cascaded set of CSS properties: later rules override earlier ones for the
//! same property, unset `display` and `font-weight` receive their CSS initial
//! values, and nodes whose resolved `display` is `none` are pruned together
//! with their subtrees.

mod assoc;
pub mod css;
pub mod dom;
pub mod style;
