//! Mirrors the fankit catalog of Princess Connect Re:Dive: URL codecs for
//! items and listing pages, extraction from parsed pages, the discovery
//! traversal over listing pages and the planning of downloads.

use vstd::prelude::*;

pub mod discovery;
pub mod download;
pub mod id;
pub mod info;
pub mod list_page_index;
pub mod node;
pub mod text;

pub use discovery::Discovery;
pub use id::{FankitId, FankitIdParseError};
pub use info::{FankitInfo, FankitInfoError};
pub use list_page_index::{FankitListPageIndex, FankitListPageIndexParseError};

verus! {

/// Common URL prefix for fankit-related pages; also the first listing page.
pub const URL_FANKIT_TOP: &'static str = "https://priconne-redive.jp/fankit02/";

/// URL prefix for fankit items.
pub const URL_FANKIT_ITEM_BASE: &'static str = "https://priconne-redive.jp/fankit02/";

/// URL prefix for fankit list pages.
pub const URL_FANKIT_LIST_BASE: &'static str = "https://priconne-redive.jp/fankit02/page/";

} // verus!
