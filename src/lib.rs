//! Host side of the Corsair Link USB HID protocol: the packet codec that
//! batches register reads and writes into one 64-byte report, the
//! correlation of the echoed response, and the H110i cooler's registers.

pub mod errors;
pub mod protocol;
pub mod exchange;
pub mod h110i;
