//! Changed-block tracking for block devices, and the tools that test it.

pub mod bytes;
pub mod text;
pub mod number;
pub mod crc;
pub mod rng;
pub mod era;
pub mod stamp;
pub mod meta;
pub mod cbt;
pub mod sys;
pub mod json;
pub mod ublk;
pub mod target;
pub mod passthrough;
pub mod manager;
pub mod history;
pub mod ctl;
pub mod registry;
pub mod client;
pub mod chaos;
pub mod episode;
pub mod trial;
pub mod model;
pub mod durability;
pub mod pattern;
pub mod scenario;
pub mod runner;
pub mod steps;
pub mod fault;
pub mod injection;
pub mod dio;
