//! Engine of a mod manager for a single game: it models mod manifests,
//! resolves dependency and conflict relationships among a selected set of
//! mods, orders the set into an application chain, and plans the
//! backup/restore/apply steps that an unverified shell carries out on disk.

pub mod apply;
pub mod config;
pub mod manifest;
pub mod mod_data;
pub mod mod_order;
pub mod mod_validation;
pub mod origin;
pub mod text;
pub mod versions;
