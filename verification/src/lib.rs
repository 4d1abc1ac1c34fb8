//! Kaifuku: data recovery and file repair logic.
//!
//! `filetypes` classifies file extensions into recovery categories; `ntfs`
//! parses NTFS on-disk structures and rebuilds deleted files, `volume` walks
//! an opened NTFS volume and `recovery` recovers its files; `scan` holds the
//! options, commands and decisions of the carving scan, `session` what the
//! application keeps between the scan worker's events, and `system` the
//! settings and block devices. `formats` detects file types, `analysis`
//! describes a damaged file, `metadata` lists its color and geometry facts,
//! and `jpeg`, `png`, `containers` and `salvage` rebuild damaged or carved
//! files, which `deep` finds anywhere in the data and `repair` chooses
//! among; `reference` rebuilds a JPEG whose headers are lost from a photo
//! of the same camera.
//!
//! The tools: `hexedit` (the hex editor), `scanreport` (the signature
//! scanner's report), `templates` (header templates), `usbwriter` (writing
//! an image to a USB drive), `recoverylog` (the log viewer), `chooser`
//! (file-chooser filters) and `privileges` (device access and elevation).
//! `bytes` and `text` hold the byte and character helpers.

pub mod analysis;
pub mod bytes;
pub mod chooser;
pub mod containers;
pub mod deep;
pub mod filetypes;
pub mod formats;
pub mod hexedit;
pub mod jpeg;
pub mod metadata;
pub mod ntfs;
pub mod png;
pub mod privileges;
pub mod recovery;
pub mod recoverylog;
pub mod reference;
pub mod repair;
pub mod salvage;
pub mod scan;
pub mod scanreport;
pub mod session;
pub mod system;
pub mod templates;
pub mod text;
pub mod usbwriter;
pub mod volume;
