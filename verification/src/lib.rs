//! The clearing half of a stock-market game server: who is who, who owns
//! what, what an order may do, what a fill costs, what is written down and
//! what comes back after a restart.
//!
//! Prices, the order books and the currency ledger are kept outside. What
//! passes between them and the market are plain values: a view of the ledger
//! and a draft of what it is to post ([`ledger`]), what a symbol says of an
//! order and what its book did with it ([`placing`], [`clearing`]), and what a
//! command comes to ([`commands`]). Every decision is a function of those
//! values; nothing here waits, reads a clock or touches a disk.
//!
//! Numbers with a fraction are carried by their bits and looked at no further
//! than their size ([`events`]). Times are milliseconds, money is whole cents.

pub mod account;
pub mod actor;
pub mod api;
pub mod auth;
pub mod catalog;
pub mod clearing;
pub mod commands;
pub mod events;
pub mod jobs;
pub mod journal;
pub mod ledger;
pub mod limit;
pub mod listings;
pub mod market;
pub mod metrics;
pub mod num;
pub mod options;
pub mod orders;
pub mod payouts;
pub mod placing;
pub mod reconcile;
pub mod reports;
pub mod restore;
pub mod save;
pub mod service;
pub mod stream;
pub mod table;
pub mod text;
pub mod tickers;
pub mod trading;
