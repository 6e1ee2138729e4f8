pub mod bytes;
pub mod cbor;
pub mod link;
pub mod crc;
