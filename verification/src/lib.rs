//! Reading-order text extraction for PDF pages.
//!
//! The crate resolves indirect objects out of a document's object table,
//! decides a decoding strategy for every font a page declares, walks a
//! page's content-stream operators while tracking the text state, decodes
//! the bytes of show-text operators into Unicode, and joins the positioned
//! fragments into lines and words by geometric thresholds.

pub mod encoding;
pub mod fonts;
pub mod layout;
pub mod object;
pub mod state;
pub mod text;
