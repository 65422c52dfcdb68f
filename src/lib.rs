//! Startup decisions of a desktop document viewer: which command-line
//! argument names a document to open, and what to tell the frontend about it.
pub mod launch;
