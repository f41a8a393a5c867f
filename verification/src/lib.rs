pub mod assoc;
pub mod audit;
pub mod cache;
pub mod manager;
pub mod outcome;
pub mod manifest;
pub mod path;
pub mod picker;
pub mod ranking;
pub mod paths;
pub mod safety;
pub mod scanner;
pub mod scanning;
pub mod selection;
pub mod session;
pub mod source;
pub mod stats;
pub mod text;
pub mod types;
pub mod drill;
pub mod filter;
pub mod exec;
pub mod handlers;
pub mod xcode;
pub mod widgets;
pub mod cleaner;
pub mod config;
pub mod confirm;
pub mod keybindings;
pub mod marks;
pub mod mouse;
pub mod irreversible;
pub mod info;
pub mod detail;
