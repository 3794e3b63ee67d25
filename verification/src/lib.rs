//! Verified core of a media sorter: file classification and the tally of a
//! directory walk, capture-date selection (EXIF, ISO-BMFF boxes, ffprobe
//! tags, file times), date formatting, grouping by day, collision-free
//! naming and the tally of the copy phase, and the figures and layout of
//! the progress display and the end-of-run report.

pub mod text;
pub mod paths;
pub mod types;
pub mod extensions;
pub mod clock;
pub mod date_format;
pub mod mp4_meta;
pub mod probe;
pub mod metadata;
pub mod exif_image;
pub mod grouper;
pub mod copier;
pub mod scanner;
pub mod progress;
pub mod report;
