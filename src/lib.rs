//! Session layer of an embedded scripting bridge: value tags and index rules,
//! value marshalling, the coroutine scheduler, the execution limiter, the
//! session registry and the caches that tie script values to host objects.
pub mod text;
pub mod types;
pub mod value;
pub mod threads;
pub mod exec_limit;
pub mod usr;
pub mod userdata;
pub mod wrappers;
pub mod registry;
pub mod conversion;
pub mod session;
pub mod library;
pub mod traceback;
pub mod to_table;
pub mod round_trip;
