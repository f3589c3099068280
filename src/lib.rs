//! Turns the rendered HTML of a blog post into a self-contained page: finds
//! the `img` tags, decides where each locally hosted image goes, rewrites the
//! tags to point at the relocated copies and lists the copies to make.
pub mod folder;
pub mod plan;
pub mod relocate;
pub mod rewrite;
pub mod scan;
pub mod text;
