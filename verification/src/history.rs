//! Request history: the most recent requests, newest first, capped.

use vstd::prelude::*;
use std::collections::VecDeque;
use crate::http_types::HttpMethod;

verus! {

/// Maximum number of history entries to retain.
pub const MAX_HISTORY_ENTRIES: usize = 100;

/// A single history entry recording a past request and its outcome.
pub struct HistoryEntry {
    pub timestamp: u64,
    pub method: HttpMethod,
    pub url: String,
    pub status: Option<String>,
    pub duration_ms: Option<u128>,
}

/// Manages the request history list, most recent first.
pub struct History {
    entries: VecDeque<HistoryEntry>,
}

impl History {
    /// The entries, most recent first.
    pub closed spec fn view(&self) -> Seq<HistoryEntry> {
        self.entries@
    }

    pub fn new() -> (r: Self)
        ensures
            r@.len() == 0,
    {
        History { entries: VecDeque::new() }
    }

    /// Wrap an already-loaded entry list.
    pub fn from_entries(entries: VecDeque<HistoryEntry>) -> (r: Self)
        ensures
            r@ == entries@,
    {
        History { entries }
    }

    /// Add an entry to the front of the history list, evicting the oldest
    /// entry when the list is full.
    pub fn push(&mut self, entry: HistoryEntry)
        ensures
            final(self)@ == seq![entry] + (if old(self)@.len() >= MAX_HISTORY_ENTRIES {
                old(self)@.drop_last()
            } else {
                old(self)@
            }),
    {
        if self.entries.len() >= MAX_HISTORY_ENTRIES {
            let _ = self.entries.pop_back();
        }
        self.entries.push_front(entry);
        proof {
            if old(self)@.len() >= MAX_HISTORY_ENTRIES {
                assert(self.entries@ =~= seq![entry] + old(self)@.drop_last());
            } else {
                assert(self.entries@ =~= seq![entry] + old(self)@);
            }
        }
    }

    /// All history entries, most recent first.
    pub fn entries(&self) -> (r: &VecDeque<HistoryEntry>)
        ensures
            r@ == self@,
    {
        &self.entries
    }

    /// Clear all history entries.
    pub fn clear(&mut self)
        ensures
            final(self)@.len() == 0,
    {
        self.entries.clear();
    }
}

} // verus!
