//! The crawl-state engine of a scoped web crawler: address normalisation, the link filter,
//! redirect policy, per-domain rate limiting and the discovery cycle.
//!
//! The engine fetches nothing itself. A driver asks it for the address whose turn it is,
//! fetches that address, and hands the engine what the fetch brought; the engine then decides
//! what goes to the frontier.
//!
//! URLs are read by the `url` crate, pages by `scraper`, and the blocklist pattern by `regex`.
//! Each call into them stands in a small trusted function, which names what the call returns
//! and says what is believed of it; everything else is proved.
//!
//! What is proved of the library as a whole:
//! - an address in normal form is a fixed point of the normaliser
//!   (`address::lemma_normal_form_is_fixed`), and what the normaliser returns is in normal form
//!   (`address::into_mit`);
//! - the filter turns away hosts outside the scope, `mailto` addresses, and paths that end in a
//!   resource marker (`filter::lemma_filter_excludes`), and accepts nothing without a domain
//!   (`filter::lemma_accepted_has_domain`);
//! - no run of cycles pushes an address onto the frontier twice (`state::lemma_pushed_once`);
//! - no run of cycles pushes more addresses under one domain than the limiter has let through,
//!   which is at most one more than `limiter::DOMAIN_LIMIT` (`state::lemma_rate_limit`);
//! - a cycle loses nothing but the address that it takes off the frontier
//!   (`state::lemma_cycle_grows`), and fails neither for want of a domain nor for a pattern
//!   or a selector (`state::lemma_cycle_failures`).

pub mod address;
pub mod engine;
pub mod error;
pub mod filter;
pub mod limiter;
pub mod page;
pub mod redirect;
pub mod state;
pub mod text;

pub use crate::address::{into_mit, Address};
pub use crate::engine::{CycleReport, Page, Seeker};
pub use crate::error::CrawlError;
pub use crate::filter::filter;
pub use crate::redirect::Redirect;
