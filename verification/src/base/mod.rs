//! Text helpers for HTML pages: tag-block slicing, tag stripping, entity
//! and whitespace normalisation, a visible-character scanner, and request
//! path building.

pub mod html;
pub mod sanitize;
pub mod vischars;
pub mod paths;
pub mod net;
