//! Shortens a URL into a display label that keeps chosen names visible.
//!
//! The label is the URL's host and decoded path, without scheme, without a
//! leading `www.` label and without a trailing slash. When that label is longer
//! than a given budget, the path is cut into components, the components that
//! match an important name are kept, the others are collapsed to `...`, and
//! whatever follows the last matched name is dropped.

pub mod text;
pub mod components;
pub mod abbreviate;
pub mod label;

pub use abbreviate::{abbreviate_path, remove_trailing_slash, replace_with_abbreviation};
pub use components::{rebuild_path, split_path, PathComponent};
pub use label::{abbreviate_max, abbreviate_parsed};
pub use text::{count_name_chars, normalise};
