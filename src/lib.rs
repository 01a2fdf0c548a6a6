//! Room codes, the controller state machine and the side-band protocol of a
//! LAN bridge for Minecraft over a peer-to-peer overlay network.

pub mod api;
pub mod beacon;
pub mod experimental;
pub mod legacy;
pub mod machine;
pub mod overlay;
pub mod pcl2ce;
pub mod ports;
pub mod protocol;
pub mod profile;
pub mod random;
pub mod room;
pub mod roster;
pub mod states;
pub mod supervise;
pub mod symbols;
pub mod text;
