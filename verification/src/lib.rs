//! Verified core of Mousehole.

#![allow(unused_imports)]

pub mod api;
pub mod assets;
pub mod boundary;
mod call;
pub mod config;
pub mod error;
pub mod json;
pub mod logger;
pub mod mam;
pub mod number;
pub mod numeral;
pub mod scheduler;
pub mod session;
pub mod sse;
pub mod startup;
pub mod state;
pub mod text;
pub mod timefmt;
