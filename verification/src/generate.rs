//! Generation of domain parameters, key pairs and nonces from a source of
//! randomness.

pub mod components;
pub mod keypair;
pub mod secret_number;
