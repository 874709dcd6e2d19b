//! Streaming and reconstruction library for a robot-mounted RGB-D sensor rig:
//! a byte-stuffed CRC-protected serial framer, binary wire messages, pinhole
//! camera projection over fixed-point coordinates, an incremental spatial-grid
//! point cloud, clock-offset estimation, and the lossy broadcast policy of the
//! streaming server.

pub mod bag;
pub mod bytes;
pub mod channel;
pub mod checksum;
pub mod client_core;
pub mod clock;
pub mod cobs;
pub mod control;
pub mod framer;
pub mod geom;
pub mod num;
pub mod pointcloud;
pub mod server_core;
pub mod wire;
