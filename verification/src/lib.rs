//! A verified engine that fills a PDF page template with positioned
//! text, handwritten-style signatures, images and verification links.
//!
//! The document lives in an owned object arena addressed by (id,
//! generation) handles; geometry and font sizes are integer milli-points.
//! Text is measured with full shaping, wrapped greedily, and fitted by
//! binary search; every content-stream operator the engine emits is
//! pinned down by its contract. Loading, serialization and compression
//! of the byte-level PDF format belong to the surrounding layer.

pub mod acroform;
pub mod charwrap;
pub mod color;
pub mod document;
pub mod error;
pub mod font_embed;
pub mod fonts;
pub mod fontsize;
pub mod image;
pub mod link;
pub mod object;
pub mod pipeline;
pub mod strutil;
pub mod text;
pub mod util;
pub mod vars;
pub mod wrap;
