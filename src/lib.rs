//! Language negotiation, fallback chains and message lookup over Fluent catalogs.
use vstd::prelude::*;

pub mod catalog;
pub mod error;
pub mod fallbacks;
pub mod helper;
pub mod languages;
pub mod loader;
pub mod scan;

pub use catalog::{ArgValue, Args, Bundle, Catalog};
pub use error::{LoaderError, LookupError};
pub use helper::FluentHelper;
pub use languages::LanguageTag;
pub use loader::{AnyLoader, ArcLoader, ArcLoaderBuilder, FluentLoader, Loader, MultiLoader, StaticLoader};

verus! {

} // verus!
