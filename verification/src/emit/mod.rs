//! What the generator derives from the tokens.

pub mod i18n;
