//! When a polled clipboard text is forwarded to the peer, and when it is
//! held back: unchanged text, a change right after the last one, a
//! concealed pasteboard, or a frontmost app on the suppression list.
use vstd::prelude::*;

use crate::text::str_eq;

verus! {

/// The pasteboard type that password managers set so that clipboard
/// tools skip their contents.
pub const CONCEALED_TYPE: &'static str = "org.nspasteboard.ConcealedType";

/// Whether the pasteboard's types include the concealed type.
pub fn is_concealed_clipboard(types: &[String]) -> (r: bool)
    ensures
        r == exists|i: int| 0 <= i < types@.len() && (#[trigger] types@[i])@ == CONCEALED_TYPE@,
{
    let mut i: usize = 0;
    while i < types.len()
        invariant
            0 <= i <= types@.len(),
            forall|j: int| 0 <= j < i ==> (#[trigger] types@[j])@ != CONCEALED_TYPE@,
        decreases types.len() - i,
    {
        if str_eq(types[i].as_str(), CONCEALED_TYPE) {
            return true;
        }
        i += 1;
    }
    false
}

/// What a poll of the clipboard finds.
#[derive(Clone, Copy, Debug, PartialEq, Eq, Structural)]
pub enum ClipboardCheck {
    /// the text is the one last seen
    Unchanged,
    /// the text changed, but too soon after the last change to be taken;
    /// this keeps two peers from echoing a change back and forth
    Debounced,
    /// the text changed and is to be decided on
    Changed,
}

/// What becomes of a changed clipboard text.
#[derive(Clone, Copy, Debug, PartialEq, Eq, Structural)]
pub enum ClipboardOutcome {
    /// the pasteboard is marked concealed: dropped
    Concealed,
    /// the frontmost app is on the suppression list: dropped
    Suppressed,
    /// forwarded to the peer
    Emit,
}

/// The clipboard text last seen, and whether watching is on.
#[derive(Debug)]
pub struct ClipboardWatch {
    last_content: Option<String>,
    enabled: bool,
}

pub open spec fn opt_text(o: Option<String>) -> Option<Seq<char>> {
    match o {
        Some(s) => Some(s@),
        None => None,
    }
}

impl ClipboardWatch {
    /// The text last seen.
    pub closed spec fn last(self) -> Option<Seq<char>> {
        opt_text(self.last_content)
    }

    pub closed spec fn is_on(self) -> bool {
        self.enabled
    }

    /// Watching, with no text seen yet.
    pub fn new() -> (r: ClipboardWatch)
        ensures
            r.last() is None,
            r.is_on(),
    {
        ClipboardWatch { last_content: None, enabled: true }
    }

    pub fn enable(&mut self)
        ensures
            final(self).is_on(),
            final(self).last() == old(self).last(),
    {
        self.enabled = true;
    }

    pub fn disable(&mut self)
        ensures
            !final(self).is_on(),
            final(self).last() == old(self).last(),
    {
        self.enabled = false;
    }

    pub fn is_enabled(&self) -> (r: bool)
        ensures
            r == self.is_on(),
    {
        self.enabled
    }

    /// How a poll that finds `current` is classified.
    pub open spec fn spec_check(self, current: Seq<char>, recently_changed: bool) -> ClipboardCheck {
        if self.last() == Some(current) {
            ClipboardCheck::Unchanged
        } else if recently_changed {
            ClipboardCheck::Debounced
        } else {
            ClipboardCheck::Changed
        }
    }

    /// Classify the polled text `current`; `recently_changed` tells whether
    /// the last change was taken within the debounce interval.
    pub fn check(&self, current: &str, recently_changed: bool) -> (r: ClipboardCheck)
        ensures
            r == self.spec_check(current@, recently_changed),
    {
        let changed = match &self.last_content {
            None => true,
            Some(last) => !str_eq(last.as_str(), current),
        };
        if !changed {
            ClipboardCheck::Unchanged
        } else if recently_changed {
            ClipboardCheck::Debounced
        } else {
            ClipboardCheck::Changed
        }
    }

    /// Decide on a changed text: it becomes the text last seen whatever the
    /// outcome, so a dropped text is not decided on again at the next poll,
    /// when another app may be in front. A concealed pasteboard is checked
    /// before the suppression list.
    pub fn settle(&mut self, current: String, concealed: bool, suppressed: bool) -> (r: ClipboardOutcome)
        ensures
            final(self).last() == Some(current@),
            final(self).is_on() == old(self).is_on(),
            r == if concealed {
                ClipboardOutcome::Concealed
            } else if suppressed {
                ClipboardOutcome::Suppressed
            } else {
                ClipboardOutcome::Emit
            },
    {
        self.last_content = Some(current);
        if concealed {
            ClipboardOutcome::Concealed
        } else if suppressed {
            ClipboardOutcome::Suppressed
        } else {
            ClipboardOutcome::Emit
        }
    }

    /// Record a text this side has set itself, so that it is not taken for
    /// an outside change.
    pub fn update_last_content(&mut self, content: String)
        ensures
            final(self).last() == Some(content@),
            final(self).is_on() == old(self).is_on(),
    {
        self.last_content = Some(content);
    }
}

/// A text once settled is not decided on again: after `settle` or
/// `update_last_content` with a text, polling that same text finds it
/// unchanged, however recent the last change.
pub proof fn lemma_settled_text_is_unchanged(after: ClipboardWatch, text: Seq<char>, recently_changed: bool)
    requires
        after.last() == Some(text),
    ensures
        after.spec_check(text, recently_changed) == ClipboardCheck::Unchanged,
{
}

/// Whether the pasteboard changed since the last look: the first look
/// always reports a change.
#[derive(Debug)]
pub struct ChangeCounter {
    last: i64,
}

impl ChangeCounter {
    pub closed spec fn seen(self) -> i64 {
        self.last
    }

    pub fn new() -> (r: ChangeCounter)
        ensures
            r.seen() == i64::MIN,
    {
        ChangeCounter { last: i64::MIN }
    }

    /// Record the pasteboard's change count `now` and report whether it
    /// differs from the one recorded before.
    pub fn advanced(&mut self, now: i64) -> (r: bool)
        ensures
            r == (old(self).seen() != now),
            final(self).seen() == now,
    {
        let prev = self.last;
        self.last = now;
        prev != now
    }
}

} // verus!
