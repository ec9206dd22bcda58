//! Checks the targets of links found in Markdown documents: whether the
//! document behind a link is there, and whether it offers the anchor that
//! the fragment of the link names.
//!
//! The crate decides and computes; it neither reads files nor talks to the
//! network. Whoever drives it reports what the disk and the network said
//! (see [`fetch`]), and gets back what to do next and what to print.

use vstd::prelude::*;

pub mod anchor;
pub mod charset;
pub mod error;
pub mod errors;
pub mod fetch;
pub mod groups;
pub mod html;
pub mod link;
pub mod linky;
pub mod markdown;
pub mod orderer;
pub mod pattern;
pub mod record;
pub mod report;
pub mod slug;
pub mod text;

pub use crate::charset::read_chars;
pub use crate::charset::ContentType;
pub use crate::error::Error;
pub use crate::error::MsgError;
pub use crate::error::Tag;
pub use crate::fetch::Fetch;
pub use crate::groups::group_fragments;
pub use crate::link::Link;
pub use crate::linky::Document;
pub use crate::linky::FragResolver;
pub use crate::markdown::md_records;
pub use crate::markdown::MdLinkParser;
pub use crate::orderer::Item;
pub use crate::orderer::Orderer;
pub use crate::record::Record;
pub use crate::report::print_result;
pub use crate::slug::GithubId;
pub use crate::slug::Headers;

verus! {

} // verus!
