//! An edge-deployed catalog-browsing site with anonymous favorites.
//!
//! The core is the favorites-session subsystem: a visitor's favorite-item
//! list is keyed by an opaque session token held in a cookie, and every
//! mutation of the list rotates to a brand-new token, retiring the old
//! one. Around it: the session resolver that reads the token out of the
//! cookie header, the store model the manager is verified against, the
//! catalog merge that builds view rows, and the router that dispatches
//! requests onto these flows.

pub mod auth;
pub mod codec;
pub mod favorites;
pub mod models;
pub mod router;
pub mod scan;
pub mod store;
pub mod views;
