//! Decision logic of a small installer that puts uBlock into Chrome (through a
//! force-install policy value in the Windows registry) and Firefox (through the
//! add-on page), and takes it out again.

pub mod browsers;
pub mod forcelist;
pub mod installer;
pub mod listing;
pub mod session;
pub mod strings;
pub mod text;
