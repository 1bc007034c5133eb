//! A memoizing cache for rasterized font resources.
//!
//! A [`FontRepository`] resolves `(folder, name, size)` requests to cached
//! [`Font`] entries. Lookups are keyed by the canonical path under the fixed
//! `fonts` asset root joined with the pixel size; a hit returns the cached
//! entry without touching the outside world, a miss leaves the caller to
//! load the canonical path ([`font_path`]) through the engine, and
//! [`FontRepository::complete_load`] records the outcome:
//! a success enters the cache, a failure leaves it untouched, so a later
//! request retries the load.
//!
//! Loading and rasterizing itself is the business of an outside engine that
//! owns the file reads and the texture uploads; this crate holds the cache
//! rules and the key construction, stated and proved over a map model.

mod fonts;
mod paths;

pub use fonts::Font;
pub use fonts::FontError;
pub use fonts::FontRepository;
pub use fonts::lemma_key_sensitivity;
pub use fonts::lemma_memoization;
pub use fonts::lemma_no_negative_caching;
pub use paths::font_path;
pub use paths::font_path_spec;
