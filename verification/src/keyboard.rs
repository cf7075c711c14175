//! What the compose screen reads of the on-screen keyboard.
use vstd::prelude::*;
use crate::layout::{DRAFT_TOP, LINE_H};
use crate::text::utf8_len;

verus! {

/// A snapshot of the twin-pad keyboard state, as the compose screen reads it.
pub struct KeyboardView {
    /// The draft typed so far.
    pub text: String,
    /// Caps lock.
    pub caps: bool,
    /// The action layer is up (after holding L).
    pub action_armed: bool,
    /// The letters of the group picked in step 1, while a letter is pending.
    pub active_group: Option<String>,
    /// Predicted words, best first.
    pub candidates: Vec<String>,
    /// The not-yet-typed tail of the top suggestion.
    pub completion_suffix: Option<String>,
    /// The word that L (space) would accept, when the current word is
    /// incomplete.
    pub space_completion: Option<String>,
}

impl KeyboardView {
    /// The texts whose length enters pixel arithmetic keep every pixel
    /// position within `i32`: the draft moves down at most one line per
    /// character, with one more line for the completion drawn after it, and
    /// the suggestion strip advances 6px per byte of each word.
    pub open spec fn wf(&self) -> bool {
        &&& DRAFT_TOP + 3 + LINE_H * (self.text@.len() + 1) <= i32::MAX
        &&& (self.space_completion matches Some(w) ==> {
            &&& 24 + 6 * utf8_len(w@) <= i32::MAX
            &&& forall|i: int| 0 <= i < self.candidates@.len()
                ==> strip_reach(w@) + 6 * utf8_len((#[trigger] self.candidates@[i])@) <= i32::MAX
        })
    }
}

/// How far right the suggestion strip's pen can be before a word is placed:
/// just past the word L accepts, or past the right edge by one gap.
pub open spec fn strip_reach(word: Seq<char>) -> int {
    let after: int = 24 + 6 * utf8_len(word) as int;
    if after > 166 { after } else { 166 }
}

} // verus!
