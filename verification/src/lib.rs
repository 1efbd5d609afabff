//! Meridian API: exact monetary amounts, authentication flows and cursor
//! pagination.

pub mod amount;
pub mod auth;
pub(crate) mod clock;
pub mod decimal;
pub mod pagination;
pub(crate) mod text;
