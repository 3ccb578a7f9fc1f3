//! Identifier and hash primitives: a streaming MD5 digest engine, a
//! monotonic snowflake-style ID generator, a 12-byte object identifier,
//! a UUID composer, a seeded xorshift pseudorandom generator, and a
//! one-time-initialization cell, together with a few small codecs.

pub mod array;
pub mod base64;
pub mod hex;
pub mod http;
pub mod id;
pub mod lazy;
pub mod mac;
pub mod md5;
pub mod random;
pub mod timestamp;
pub mod uuid;
