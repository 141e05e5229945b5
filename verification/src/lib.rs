//! A verified interactive-fiction engine.
//!
//! A story is plain text split into named passages; a passage's content may
//! embed choice links written `[[Label->Target]]` (or `[[Target]]` as
//! shorthand). The library parses story text into an immutable passage
//! graph, renders a passage's display text together with its ordered links,
//! and drives a per-reader navigation state machine whose progress is kept
//! in an insert-or-update store keyed by reader id.

use vstd::prelude::*;

pub mod config;
pub mod laws;
pub mod progress;
pub mod render;
pub mod session;
pub mod story;
pub mod text;

verus! {

/// Raw story text, loaded once and shared read-only for the process lifetime.
pub struct StoryText(String);

impl View for StoryText {
    type V = Seq<char>;

    closed spec fn view(&self) -> Seq<char> {
        self.0@
    }
}

impl StoryText {
    pub fn new(text: String) -> (s: Self)
        ensures
            s@ == text@,
    {
        Self(text)
    }

    pub fn get(&self) -> (r: &str)
        ensures
            r@ == self@,
    {
        self.0.as_str()
    }
}

} // verus!
