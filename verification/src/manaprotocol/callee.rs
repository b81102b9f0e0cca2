//! The three-verb contract every in-process handler implements: does the
//! resource exist, what content mirrors it into the shadow tree, and what
//! action pushes the shadow content back onto the real world. Each verb is
//! a function from plain values to plain values; the caller performs the
//! decided filesystem or process work.

use vstd::prelude::*;

verus! {

/// What `affect` decided for one path.
pub enum AffectAction {
    /// The shadow-side file is gone: remove the real-world resource behind
    /// the carried app URL.
    RemoveApp { url: String },
    /// Install or update the real-world resource at the carried app URL
    /// from the shadow-side content.
    ImportApp { url: String },
}

/// One namespace of resource paths: a handler answers whether a resource
/// exists, hands out the content that mirrors it, and decides how shadow
/// content is pushed back. Errors are carried as messages.
pub trait Handler {
    /// Whether the resource at `path` exists in the real world.
    fn detect(&mut self, path: &str) -> Result<bool, String>;

    /// The content that mirrors the resource at `path` into the shadow
    /// tree.
    fn gather(&mut self, path: &str) -> Result<String, String>;

    /// How the shadow-side content (or its absence) is pushed back onto
    /// the resource at `path`.
    fn affect(&mut self, path: &str, shadow_content: Option<&String>) -> Result<
        AffectAction,
        String,
    >;
}

} // verus!
