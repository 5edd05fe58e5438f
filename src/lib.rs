//! The hook subsystem of a source-control server: user-defined rules that are
//! evaluated against incoming changesets before they land on a server-side
//! bookmark, together with the small command receiver of the commit-cloud
//! subscriber.

pub mod bypass;
pub mod cache;
pub mod hook;
pub mod laws;
pub mod manager;
pub mod receiver;
pub mod stores;
pub mod text;
pub mod types;
