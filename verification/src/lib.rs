//! Core logic of a container orchestration daemon: object keys and process
//! names, store filters with JSON containment, spec history and object
//! lifecycle, the event bus, cargo instance planning, the zero-downtime
//! update protocol, the job run loop and the typed resource validator.

pub mod bus;
pub mod cargo;
pub mod cli;
pub mod engine;
pub mod errors;
pub mod event;
pub mod filter;
pub mod job;
pub mod json;
pub mod json_text;
pub mod keys;
pub mod lifecycle;
pub mod math;
pub mod process;
pub mod proxy;
pub mod resource;
pub mod secret;
pub mod text;
pub mod update;
pub mod vm_image;

pub use json::Json;
