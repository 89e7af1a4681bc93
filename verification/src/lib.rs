//! Page selection, output naming and markup post-processing for a converter
//! that turns the pages of a PDF document into PNG or SVG files.
//!
//! A run loads a document ([`document`]), checks the requested pages against
//! it ([`pages`]), resolves the prefix of the output files' names
//! ([`prefix`]) and plans one file per chosen page ([`plan`]). SVG markup is
//! resized by rewriting its `width` and `height` ([`markup`]). The files are
//! written in order, and the run's progress is kept in [`driver`]. Errors
//! and what is reported to the user are in [`error`] and [`report`].

pub mod document;
pub mod driver;
pub mod error;
pub mod markup;
pub mod pages;
pub mod plan;
pub mod prefix;
pub mod report;
pub mod text;

pub use crate::document::{check_file_type, load_pdf_and_pages, plan_document};
pub use crate::driver::Conversion;
pub use crate::error::{AppError, ErrorKind, FileOperation};
pub use crate::pages::{validate_requested_pages, Selection};
pub use crate::plan::{plan_outputs, Format, RenderJob};
pub use crate::prefix::{resolve_prefix, sanitize_prefix_raw};
