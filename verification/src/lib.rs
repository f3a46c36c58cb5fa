//! dupfinder: duplicate files, empty files and folders, and broken symbolic
//! links, with safe cleanup planning.

pub mod cache;
pub mod clean;
pub mod cli;
pub mod dedup;
pub mod empty;
pub mod errors;
pub mod filter;
pub mod globs;
pub mod grouping;
pub mod hasher;
pub mod ignore;
pub mod images;
pub mod messages;
pub mod numtext;
pub mod paths;
pub mod pipeline;
pub mod progress;
pub mod report;
pub mod safety;
pub mod scanner;
pub mod strmap;
pub mod symlinks;
pub mod text;
pub mod tui;
pub mod types;
