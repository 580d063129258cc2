//! The list of past transcriptions, newest first and capped in length.
use vstd::prelude::*;

use crate::paths::{has_verbatim_prefix, join_path, path_joined};

verus! {

/// The most entries the history keeps.
pub const MAX_ENTRIES: usize = 50;

/// One past transcription.
#[derive(Debug, Clone)]
pub struct HistoryEntry {
    pub text: String,
    pub timestamp: u64,
    pub engine: String,
}

/// Past transcriptions, newest first.
#[derive(Debug)]
pub struct History {
    entries: Vec<HistoryEntry>,
}

impl View for History {
    type V = Seq<HistoryEntry>;

    closed spec fn view(&self) -> Seq<HistoryEntry> {
        self.entries@
    }
}

/// `s` cut down to its first `MAX_ENTRIES` entries when it is longer.
pub open spec fn capped(s: Seq<HistoryEntry>) -> Seq<HistoryEntry> {
    if s.len() > MAX_ENTRIES {
        s.take(MAX_ENTRIES as int)
    } else {
        s
    }
}

impl Default for History {
    fn default() -> (h: Self)
        ensures
            h@ == Seq::<HistoryEntry>::empty(),
    {
        History { entries: Vec::new() }
    }
}

impl History {
    /// Where the history of the app directory `app_dir` is stored.
    pub fn path(app_dir: &str) -> (r: String)
        ensures
            !has_verbatim_prefix(app_dir@) ==> path_joined(r@, app_dir@, "history.json"@),
    {
        proof {
            reveal_strlit("history.json");
        }
        join_path(app_dir, "history.json")
    }

    /// An empty history.
    pub fn new() -> (h: Self)
        ensures
            h@ == Seq::<HistoryEntry>::empty(),
    {
        History { entries: Vec::new() }
    }

    /// A history holding `entries` as they are (as read back from storage).
    pub fn from_entries(entries: Vec<HistoryEntry>) -> (h: Self)
        ensures
            h@ == entries@,
    {
        History { entries }
    }

    /// Adds `entry` as the newest one, dropping the oldest beyond the cap.
    pub fn push(&mut self, entry: HistoryEntry)
        ensures
            final(self)@ == capped(seq![entry] + old(self)@),
    {
        self.entries.insert(0, entry);
        if self.entries.len() > MAX_ENTRIES {
            self.entries.truncate(MAX_ENTRIES);
        }
        assert(old(self)@.insert(0, entry) =~= seq![entry] + old(self)@);
    }

    /// Removes every entry.
    pub fn clear(&mut self)
        ensures
            final(self)@ == Seq::<HistoryEntry>::empty(),
    {
        self.entries.clear();
    }

    /// The entries, newest first.
    pub fn list(&self) -> (r: &[HistoryEntry])
        ensures
            r@ == self@,
    {
        self.entries.as_slice()
    }

    /// Records a finished transcription: a non-empty `text` becomes the newest
    /// entry and `true` is returned; an empty one is not recorded.
    pub fn record_transcription(&mut self, text: &str, timestamp: u64, engine: &str) -> (r: bool)
        ensures
            r == (text@.len() > 0),
            r ==> final(self)@ == capped(seq![final(self)@[0]] + old(self)@),
            r ==> final(self)@[0].text@ == text@ && final(self)@[0].engine@ == engine@
                && final(self)@[0].timestamp == timestamp,
            !r ==> final(self)@ == old(self)@,
    {
        if text.unicode_len() == 0 {
            return false;
        }
        let entry = HistoryEntry {
            text: text.to_owned(),
            timestamp,
            engine: engine.to_owned(),
        };
        self.push(entry);
        true
    }
}

/// Pushing keeps the history within the cap and puts the new entry first; the
/// older entries follow in their order, the oldest dropped when the cap is
/// reached.
pub proof fn lemma_push_newest_first(old_entries: Seq<HistoryEntry>, entry: HistoryEntry)
    requires
        old_entries.len() <= MAX_ENTRIES,
    ensures
        capped(seq![entry] + old_entries).len() <= MAX_ENTRIES,
        capped(seq![entry] + old_entries)[0] == entry,
        forall|i: int|
            0 < i < capped(seq![entry] + old_entries).len() ==> #[trigger] capped(
                seq![entry] + old_entries,
            )[i] == old_entries[i - 1],
        old_entries.len() < MAX_ENTRIES ==> capped(seq![entry] + old_entries).len()
            == old_entries.len() + 1,
{
}

} // verus!
