//! Extraction of hex-encoded JPEG images from zlib-compressed row payloads.
//!
//! Each payload inflates to a byte buffer in which an image record is a
//! fixed twelve-byte marker, a run of hex text and a carriage return. The
//! library finds the records, decodes them and names the files they go to;
//! the caller writes the files.
pub mod extract;
pub mod hexcodec;
pub mod inflate;
pub mod laws;
pub mod naming;
pub mod scan;

pub use extract::{extract_images, Outcome};
pub use hexcodec::HexError;
pub use inflate::{process, RowReport};
pub use naming::{artifact_path, decimal_string, output_dir_for, sanitize_title};
pub use scan::{find_terminator, has_marker_at};
