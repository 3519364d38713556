//! The document tree: an immutable structural representation of parsed markup.

pub mod element;
pub mod node;
pub mod text;

pub use element::AttrMap;
pub use element::Element;
pub use element::SpecElement;
pub use node::Node;
pub use node::NodeType;
pub use node::SpecNode;
pub use node::SpecNodeType;
pub use node::nodes_view;
pub use text::Text;
