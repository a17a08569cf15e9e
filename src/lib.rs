//! Chunked file encryption: a fixed chunk header, AES-256-CBC over a framed
//! plaintext that embeds each chunk's metadata record, sequence labels and the
//! chunk file name grammar, and the decisions of the pack and unpack pipelines.

pub mod bytes;
pub mod chunk;
pub mod error;
pub mod framer;
pub mod hasher;
pub mod header;
pub mod hex;
pub mod keygen;
pub mod naming;
pub mod order;
pub mod plan;
pub mod seq;
pub mod stream;
pub mod unpack;
