//! Chaum-Pedersen zero-knowledge authentication: the sigma-protocol
//! arithmetic over a prime-order subgroup and the server-side protocol
//! state machine (registration, challenge, verification).

pub mod auth;
pub mod bignum;
pub mod group;
pub mod zkp;

pub use auth::{AuthError, AuthImpl, UserInfo};
pub use bignum::BigNum;
pub use zkp::{Exponentiation, ZKP};
