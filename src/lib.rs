//! Classification of HTTP User-Agent strings against an ordered catalogue of
//! glob patterns (`*` for any run of characters, `?` for exactly one), in the
//! manner of the Browser Capabilities Project.
//!
//! Catalogue rows become rules: each pattern is taken apart into an anchored
//! start, literals that float in between, and an anchored end. Rules are put
//! in a global order (longer patterns first), a catch-all rule closes the
//! list, and a pre-filter of probes rules out most rules for a given input
//! before any of them is tried. An input gets the capability record of the
//! first rule that accepts it.
use vstd::prelude::*;

pub mod bits;
pub mod capabilities;
pub mod error;
pub mod field;
pub mod filter;
pub mod laws;
pub mod literal;
pub mod order;
pub mod parser;
pub mod rule;
pub mod searchable;
pub mod text;

pub use crate::capabilities::{CapaCache, Capabilities, Mapper, get_capabilities, init_default_capa, init_mapper, init_wild_card_capa, pool_str};
pub use crate::error::ParseError;
pub use crate::field::{BrowsCapField, FIELD_COUNT, default_fields, merge_fields, IS_MASTER_PARENT, IS_LITE_MODE, PARENT, COMMENT, BROWSER, BROWSER_TYPE, BROWSER_BITS, BROWSER_MAKER, BROWSER_MODUS, BROWSER_VERSION, BROWSER_MAJOR_VERSION, BROWSER_MINOR_VERSION, PLATFORM, PLATFORM_VERSION, PLATFORM_DESCRIPTION, PLATFORM_BITS, PLATFORM_MAKER, IS_ALPHA, IS_BETA, IS_WIN16, IS_WIN32, IS_WIN64, IS_IFRAMES, IS_FRAMES, IS_TABLES, IS_COOKIES, IS_BACKGROUND_SOUNDS, IS_JAVASCRIPT, IS_VBSCRIPT, IS_JAVA_APPLETS, IS_ACTIVEX_CONTROLS, IS_MOBILE_DEVICE, IS_TABLET, IS_SYNDICATION_READER, IS_CRAWLER, IS_FAKE, IS_ANONYMIZED, IS_MODIFIED, CSS_VERSION, AOL_VERSION, DEVICE_NAME, DEVICE_MAKER, DEVICE_TYPE, DEVICE_POINTING_METHOD, DEVICE_CODE_NAME, DEVICE_BRAND_NAME, RENDERING_ENGINE_NAME, RENDERING_ENGINE_VERSION, RENDERING_ENGINE_DESCRIPTION, RENDERING_ENGINE_MAKER};
pub use crate::filter::{Filter, FilterType, create_contains_masker, create_prefix_masker};
pub use crate::literal::{Literal, LiteralPool};
pub use crate::parser::{FileParser, UserAgentParser, create_agent_parser, get_wild_card_rule};
pub use crate::rule::{Rule, create_rule};
pub use crate::searchable::{Cache, SearchableString};

verus! {

/// A test on values of `T`.
pub trait Predicate<T> {
    fn test(&self, value: &T) -> bool;
}

/// A searchable view of `contents` whose tables cover every literal that
/// `pool` has interned.
pub fn get_searchable_string(contents: String, pool: &LiteralPool) -> (r: SearchableString)
    ensures
        r.wf(),
        r.text() == contents@,
        r.capacity() == pool@.len(),
        r.seen() == Map::<nat, Seq<char>>::empty(),
{
    SearchableString::new(contents, pool.len())
}

} // verus!
