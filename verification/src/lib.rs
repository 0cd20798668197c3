//! The decisions behind remote endpoints and their benchmarks: when to connect,
//! whom to hear, what to type, what to measure. Callers do the I/O.
pub mod bench;
pub mod clock;
pub mod connect;
pub mod failure;
pub mod flap;
pub mod idle;
pub mod measure;
pub mod measure_laws;
pub mod metrics;
pub mod network;
pub mod network_laws;
pub mod outage;
pub mod outage_laws;
pub mod profile;
pub mod reconnect_laws;
pub mod relay;
pub mod relay_laws;
pub mod scenario_laws;
pub mod screen;
pub mod screen_laws;
pub mod script;
pub mod sockets;
pub mod supervised;
pub mod supervisor;
pub mod supervisor_laws;
pub mod table;
pub mod text;
