//! Sorts photos and videos into a `YYYY/MM/DD` tree, dating each file by a
//! camera-style file name or by the capture date stored in its metadata.
//!
//! The walk over the directories and the copying are left to the caller:
//! `MediaConfig::visit_entry` and `MediaConfig::add_from_metadata` take what
//! the walk finds, `MediaConfig::copy_media_files` lists the copy jobs, and
//! `copy_action` with `CopyTally` decide and count each job.

pub mod camera;
pub mod copying;
pub mod metadata;
pub mod organizer;
pub mod pathname;

pub use camera::smartphone_file;
pub use copying::{copy_action, CopyAction, CopyOutcome, CopyTally};
pub use metadata::{exif_destination, is_photo_file, read_jpg_exif, MediaError};
pub use organizer::{join_path, pictures_dir, Args, EntryKind, MediaConfig, Visit};
pub use pathname::{base_name_of, is_media_file};
