//! Packet-oriented file transfer for a bulletin-board server: the
//! CRC-16/XMODEM checksum, the packet codec, the sender and receiver
//! engines for single-file and batch transfer, and the guard that keeps
//! received files inside the upload directory.

pub mod checksum;
pub mod guard;
pub mod header;
pub mod packet;
pub mod receiver;
pub mod sender;
pub mod session;
pub mod transfer;
