//! Project Colony's shared design system: colours, design tokens, the
//! `colony.json` manifest contract, display strings, the theme catalog and
//! the filesystem layout, with their rules proved.

pub mod color;
pub mod text;
pub mod manifest;
pub mod strmap;
pub mod model;
pub mod emit;
pub mod i18n;
pub mod theme;
pub mod paths;
pub mod generate;
