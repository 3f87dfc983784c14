//! Scanning engine that decides which files lack an up-to-date cached
//! thumbnail, and what media type each of them has.
pub mod png;
pub mod uri;
pub mod key;
pub mod mode;
pub mod xdg;
pub mod scan;
pub mod notify;
