//! Command-line logic: configuration, argument checks, filters and plans for the commands.

pub mod aggregate;
pub mod args;
pub mod check;
pub mod complete;
pub mod config;
pub mod date_filter;
pub mod export;
pub mod index;
pub mod link_cmd;
pub mod links;
pub mod list;
pub mod mv;
pub mod new;
pub mod output;
pub mod prime;
pub mod resolve;
pub mod show_edit;
pub mod tagging;
