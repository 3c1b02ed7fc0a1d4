//! Release metadata resolution for a release-notification feed.
//!
//! A listener's fresh releases are enriched with cover-art and external-link
//! metadata and written as a syndication feed. The metadata comes from a
//! rate-limited service; what was fetched once is kept in a store.
//!
//! - [`links`]: the flat text encoding in which a record's links are stored.
//! - [`musicbrainz`]: the metadata service's answer and the cached record.
//! - [`resolver`]: the resolver's decisions, as a state machine that its
//!   driver feeds with the outcome of each store, network and clock action.
//! - [`laws`] and [`runs`]: what holds of every step and of whole batches.
//! - [`listenbrainz`] and [`markup`]: the releases and their feed entries.
//! - [`feed`]: the feed document.

pub mod feed;
pub mod laws;
pub mod links;
pub mod listenbrainz;
pub mod markup;
pub mod musicbrainz;
pub mod resolver;
pub mod runs;
