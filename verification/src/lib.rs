//! Wire messages, authentication handshakes and encrypted framing for a
//! remote shell.
pub mod auth;
pub mod cbor;
pub mod client;
pub mod crypto;
pub mod encrypt;
pub mod msg;
pub mod server;
pub mod sig;

pub use crypto::PqKeyAlgorithm;
pub use encrypt::KeyValidate;
pub use msg::{ConMsg, MsgError, LEN_WIDTH};
pub use sig::SigPublicKey;
