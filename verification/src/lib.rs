//! Indexing, caching and ranking engine of an interactive launcher.
//!
//! As the user types, the engine selects the candidates that a query shows,
//! ranks them and hands back the order in which to show them. Behind that
//! it keeps the set of candidates: it reads the desktop entries of the
//! installed applications, keeps a cache of the records fresh, and counts
//! how often each candidate is used.
//!
//! Every function carries a contract over a mathematical model of its data,
//! and the contract is proved. What the engine asks of other crates is
//! named where it is used, with what is taken on trust of it.
//!
//! - [`search`]: the bounded-window fuzzy matcher.
//! - [`priority`]: ranking keys and their order.
//! - [`usage`]: the usage counters and their compression to ranks.
//! - [`pipeline`]: which candidates a query shows, and their ranking.
//! - [`session`]: the state of a query session, with its modes.
//! - [`manifest`]: desktop entries and the ignore list.
//! - [`appdata`]: candidate records and the alias overlay.
//! - [`desktop_files`]: where desktop entries are looked for.
//! - [`indexer`]: full scans and incremental refreshes of the records.
//! - [`cache`]: the binary cache and its recovery from corrupt files.
//! - [`codec`]: the binary format of the cache files.
//! - [`launcher`]: launchers, their candidates, and what running one means.
//! - [`command`], [`websearch`]: command lines and web searches.
//! - [`config`], [`icons`], [`assets`], [`ui`]: what the surrounding program
//!   configures and shows.
//! - [`table`], [`text`], [`paths`], [`errors`]: common ground.

pub mod appdata;
pub mod assets;
pub mod cache;
pub mod codec;
pub mod command;
pub mod config;
pub mod desktop_files;
pub mod errors;
pub mod icons;
pub mod indexer;
pub mod launcher;
pub mod manifest;
pub mod paths;
pub mod pipeline;
pub mod priority;
pub mod search;
pub mod session;
pub mod table;
pub mod text;
pub mod ui;
pub mod usage;
pub mod websearch;
