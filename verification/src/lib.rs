//! Agent bridge and dispatch core of a distributed job-execution platform:
//! addressing, the bridge protocol, the relay's connection and correlation
//! bookkeeping, the trigger scheduler and the tunnel manager, all as verified
//! state machines over plain values.

pub mod address;
pub mod bridge;
pub mod bus;
pub mod context;
pub mod frame;
pub mod ident;
pub mod job;
pub mod protocol;
pub mod relay;
pub mod scheduler;
pub mod table;
pub mod text;
pub mod tunnel;
