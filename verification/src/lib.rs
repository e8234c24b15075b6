//! Stream-playlist model of an HLS/DASH downloader: describing, ordering and
//! choosing the media streams of a master playlist, and naming their files.

pub mod text;
pub mod url;
pub mod order;
pub mod playlist;
pub mod selection;
pub mod sorting;
