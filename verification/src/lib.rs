//! The verified core of credchain, a headless launcher that keeps secrets in
//! user-scoped `systemd-creds` credentials and hands them to a command through its
//! environment.
//!
//! The library performs no input or output. Each procedure that does is a state
//! machine: a state is named after the operation that is due, the caller performs
//! it and hands its outcome back to `step`. What a step does is a spec function
//! (`*_next`) over the views of state and event; what holds of whole runs is proved
//! over sequences of events, in sections or modules named laws. An event that does
//! not answer what is due leaves the state as it is.
//!
//! - names and paths: [`store`], [`path`], [`dirs`], [`store_laws`]
//! - listings: [`listing`], [`order`]
//! - encryption and installation: [`encrypt`], [`install`]
//! - decryption: [`creds`], [`retry`], [`slots`], [`decrypt`]
//! - the terminal: [`input`]
//! - commands: [`cli`], [`set`], [`list`], [`unset`], [`exec`], [`report`], and the
//!   promises of whole runs in [`set_laws`], [`unset_laws`], [`exec_laws`] and, from
//!   the arguments of the program on, [`cli_laws`]
//! - groundwork: [`text`], [`failure`], [`outside`], and what ties the values that the
//!   procedures work on to those that the laws speak of: [`handover`], [`views`]

pub mod cli;
pub mod cli_laws;
pub mod creds;
pub mod decrypt;
pub mod dirs;
pub mod encrypt;
pub mod exec;
pub mod exec_laws;
pub mod failure;
pub mod handover;
pub mod input;
pub mod install;
pub mod list;
pub mod listing;
pub mod order;
pub mod outside;
pub mod path;
pub mod report;
pub mod retry;
mod runs;
pub mod set;
pub mod set_laws;
pub mod slots;
pub mod store;
pub mod store_laws;
pub mod text;
pub mod unset;
pub mod unset_laws;
pub mod views;
