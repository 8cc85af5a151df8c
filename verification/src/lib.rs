//! Navigation over a tree-shaped document by fuzzy filtering.
//!
//! A caller narrows the children of the node in focus by typing filter
//! text, moves a cursor over the children that remain, and descends into
//! the selected child. Every descent is recorded, so that the way back to
//! the root stays open and the path taken can be shown as a breadcrumb.
//!
//! The parts, leaves first:
//!
//! - [`node`] and [`key`]: the document and the names of its children;
//! - [`matcher`] and [`filter`]: which children a filter text keeps;
//! - [`zipper`]: the cursor over the children that are kept;
//! - [`selection`]: one level of navigation, a node with its filter text
//!   and its cursor;
//! - [`history`]: the levels left behind on the way down;
//! - [`state`]: the navigator, which holds the level in focus and the
//!   history;
//! - [`edit`], [`session`] and [`layout`]: what a keystroke does to the
//!   navigator, and where the cursor stands on the input line;
//! - [`item`]: a child together with its key;
//! - [`indent_tree`]: trees written as indented lines.

pub mod edit;
pub mod filter;
pub mod history;
pub mod indent_tree;
pub mod item;
pub mod key;
pub mod layout;
pub mod matcher;
pub mod node;
pub mod selection;
pub mod session;
pub mod state;
pub mod zipper;
