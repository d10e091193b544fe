//! Verified core of the foxprox network broker: policy evaluation over
//! normalized events, packet parsing and synthesis, proxy frontend framing,
//! bridge tables with resource limits, and the setup helper's privilege
//! bookkeeping.

pub mod adapter;
pub mod helper;
pub mod bridge;
pub mod broker_step;
pub mod checksum;
pub mod device_step;
pub mod flows;
pub mod limits;
pub mod model;
pub mod net;
pub mod policy;
pub mod packet;
pub mod proxy;
pub mod runtime;
pub mod setup;
pub mod stack;
pub mod tcp;
pub mod text;
pub mod tun_bridge;
