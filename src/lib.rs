//! Determines the locale of the system or application and reports it as a
//! canonical `language-REGION` tag.
//!
//! The library itself reads nothing from the platform: the values of the
//! locale sources (environment variables, native queries) are handed in, and
//! the library decides which of them count, in which order, and in which form.
pub mod resolve;
pub mod tag;
pub mod unix;
pub mod windows;

pub use resolve::{resolve_all, resolve_best, split_list};
pub use tag::posix_to_bcp47;
pub use unix::{get_locale, LocaleEnv};
