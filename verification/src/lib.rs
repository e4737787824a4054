//! Chunked authenticated encryption of byte streams.
//!
//! A plaintext is cut into chunks, each chunk is sealed with AES-GCM under a
//! fresh nonce, and every sealed chunk is written as one length-prefixed frame.
//! Decryption reads the frames back, authenticates each of them and restores
//! the plaintext in order.

pub mod cipher;
pub mod context;
pub mod error;
pub mod frame;
pub mod pipeline;
pub mod proxy;
pub mod wait_group;

pub use cipher::{new_aes128gcm_cipher, new_aes256gcm_cipher, Cipher, CipherKind};
pub use context::ContextDoneReason;
pub use error::{collect_outcomes, StageError};
pub use frame::CipherText;
pub use pipeline::{decrypt, encrypt, CHUNK_SIZE};
pub use proxy::ProxyOption;
