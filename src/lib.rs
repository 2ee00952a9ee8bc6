pub mod content;
pub mod list;
pub mod nav;
pub mod tree;
