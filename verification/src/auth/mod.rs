//! Authentication: sign-in, verification, refresh, logout and account recovery.

pub mod errors;
pub mod flows;
pub mod recovery;
pub mod tokens;
pub mod validation;

pub use errors::AuthError;
pub use flows::{AuthService, LoginResult, Session, Verifier};
pub use recovery::{
    RecoveryRequest, RecoveryResult, RecoveryService, RecoveryStatus, RecoveryToken,
};
pub use tokens::{AccessToken, RefreshToken, TokenId, TokenPair, TokenStore, VerifyResult};
