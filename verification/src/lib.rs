//! Schema-driven generation of human-readable diffs between two instances of a
//! record type.
//!
//! A record type is described as an ordered list of named fields, each with an
//! optional annotation block (`rename = "..."`, `display = path`, `ignore`).
//! From that description the library builds a [`fields::RecordPlan`]: the final
//! display name, display strategy and skip decision for every field.  The plan
//! drives a comparison routine that walks the fields in declaration order and
//! emits one formatted message per differing field.
//!
//! An empty result means "no change": the cached value keyed by the record may
//! be retained.  A non-empty result lists, in declaration order, the reasons to
//! invalidate it.

pub mod attributes;
pub mod fields;
pub mod laws;
pub mod routine;
pub mod text;

use vstd::prelude::*;

verus! {

/// Centralized cache invalidation logic with human readable differences.
///
/// When a struct is used to represent values in a cache, this trait can be
/// implemented to determine whether or not that cache needs to be invalidated.
/// Implementors typically describe their fields as [`fields::FieldDecl`]
/// values, build a plan with [`fields::create_cache_diff`], and run it with
/// [`routine::diff`] or [`routine::diff_with`].
pub trait CacheDiff {
    /// Given another cache object, returns a list of differences between the two.
    ///
    /// If no differences, return an empty list. An empty list should indicate
    /// that the cache should be retained (not invalidated). One or more items
    /// would indicate that the cached value should be invalidated.
    fn diff(&self, old: &Self) -> Vec<String>;

    /// How values are displayed in the diff output; the default wraps them in
    /// backticks.
    fn fmt_value(&self, value: &String) -> String {
        crate::routine::fmt_value(value)
    }
}

} // verus!
