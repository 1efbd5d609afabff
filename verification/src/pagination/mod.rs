//! Deterministic, scope-safe cursor pagination.

pub mod base64;
pub mod cursor;
pub mod errors;
pub mod listing;
pub mod page;

pub use base64::{base64_decode, base64_encode};
pub use cursor::{decode_cursor_string, encode_cursor_string, fletcher16, Cursor};
pub use errors::PaginationError;
pub use listing::PaginatedCollection;
pub use page::{
    compute_page, normalize_page_size, Page, DEFAULT_PAGE_SIZE, MAX_PAGE_SIZE, MIN_PAGE_SIZE,
};
