//! The cancellation registry: maps a run identifier to a broadcast
//! cancellation signal. The surrounding application guards a registry with
//! its own lock; every operation here is sequential.

use vstd::prelude::*;
use crate::text::str_eq;

verus! {

#[verifier::external_type_specification]
#[verifier::external_body]
#[verifier::reject_recursive_types(T)]
pub struct ExBroadcastSender<T>(tokio::sync::broadcast::Sender<T>);

#[verifier::external_type_specification]
#[verifier::external_body]
#[verifier::reject_recursive_types(T)]
pub struct ExBroadcastReceiver<T>(tokio::sync::broadcast::Receiver<T>);

/// Relies on `tokio::sync::broadcast::channel`: creates a connected
/// sender/receiver pair (the capacity of one suffices for a one-shot
/// cancellation signal; the call panics only with a capacity of zero).
#[verifier::external_body]
fn new_cancel_channel() -> (tokio::sync::broadcast::Sender<()>, tokio::sync::broadcast::Receiver<
    (),
>) {
    tokio::sync::broadcast::channel(1)
}

/// Relies on `tokio::sync::broadcast::Sender::send`: wakes every
/// subscribed receiver; the error for a channel with no receivers is
/// discarded, as a cancelled run with no live workers needs no signal.
#[verifier::external_body]
fn fire_cancel(tx: &tokio::sync::broadcast::Sender<()>) {
    let _ = tx.send(());
}

/// The identifiers an entry list holds.
pub open spec fn entry_ids(s: Seq<(String, tokio::sync::broadcast::Sender<()>)>) -> Set<
    Seq<char>,
> {
    Set::new(|id: Seq<char>| exists|i: int| 0 <= i < s.len() && (#[trigger] s[i]).0@ == id)
}

/// Maps a run identifier to the broadcast sender that cancels the run.
pub struct CancelRegistry {
    entries: Vec<(String, tokio::sync::broadcast::Sender<()>)>,
}

impl CancelRegistry {
    /// The identifiers with a registered signal.
    pub closed spec fn ids(&self) -> Set<Seq<char>> {
        entry_ids(self.entries@)
    }

    /// At most one signal per identifier.
    pub closed spec fn wf(&self) -> bool {
        forall|i: int, j: int|
            0 <= i < j < self.entries@.len() ==> (#[trigger] self.entries@[i]).0@ != (
            #[trigger] self.entries@[j]).0@
    }

    pub fn new() -> (r: CancelRegistry)
        ensures
            r.wf(),
            r.ids() == Set::<Seq<char>>::empty(),
    {
        let r = CancelRegistry { entries: Vec::new() };
        proof {
            assert(r.ids() =~= Set::<Seq<char>>::empty());
        }
        r
    }

    /// Create a fresh cancellation signal for the run, replacing any
    /// existing one for that identifier, and hand back a receiver end.
    pub fn register(&mut self, id: &str) -> (rx: tokio::sync::broadcast::Receiver<()>)
        requires
            old(self).wf(),
        ensures
            final(self).wf(),
            final(self).ids() == old(self).ids().insert(id@),
    {
        let _ = self.take(id);
        let (tx, rx) = new_cancel_channel();
        let ghost olde = self.entries@;
        proof {
            assert forall|i: int| 0 <= i < olde.len() implies (#[trigger] olde[i]).0@ != id@ by {
                if olde[i].0@ == id@ {
                    assert(entry_ids(olde).contains(id@));
                }
            };
        }
        self.entries.push((id.to_owned(), tx));
        proof {
            assert(forall|i: int| 0 <= i < olde.len() ==> self.entries@[i] == olde[i]);
            assert(self.entries@[self.entries@.len() - 1].0@ == id@);
            assert forall|x: Seq<char>| #[trigger]
                self.ids().contains(x) <==> entry_ids(olde).insert(id@).contains(x) by {
                if x != id@ {
                    if entry_ids(olde).contains(x) {
                        let i = choose|i: int| 0 <= i < olde.len() && (#[trigger] olde[i]).0@ == x;
                        assert(self.entries@[i].0@ == x);
                    } else if self.ids().contains(x) {
                        let i = choose|i: int|
                            0 <= i < self.entries@.len() && (#[trigger] self.entries@[i]).0@ == x;
                        assert(olde[i].0@ == x);
                    }
                }
            };
            assert(self.ids() =~= entry_ids(olde).insert(id@));
            assert(old(self).ids().remove(id@).insert(id@) =~= old(self).ids().insert(id@));
        }
        rx
    }

    /// Remove the run's signal, without firing it. Used on normal
    /// completion to free resources.
    pub fn remove(&mut self, id: &str)
        requires
            old(self).wf(),
        ensures
            final(self).wf(),
            final(self).ids() == old(self).ids().remove(id@),
    {
        let _ = self.take(id);
    }

    /// Remove and fire the run's signal, if one is present; say whether a
    /// run was found. A second call for the same identifier finds nothing
    /// and returns false.
    pub fn cancel(&mut self, id: &str) -> (r: bool)
        requires
            old(self).wf(),
        ensures
            final(self).wf(),
            r == old(self).ids().contains(id@),
            final(self).ids() == old(self).ids().remove(id@),
    {
        match self.take(id) {
            Some(tx) => {
                fire_cancel(&tx);
                true
            },
            None => false,
        }
    }

    /// Remove and return the run's signal, if present.
    fn take(&mut self, id: &str) -> (r: Option<tokio::sync::broadcast::Sender<()>>)
        requires
            old(self).wf(),
        ensures
            final(self).wf(),
            r is Some <==> old(self).ids().contains(id@),
            final(self).ids() == old(self).ids().remove(id@),
    {
        let n = self.entries.len();
        let mut i: usize = 0;
        while i < n
            invariant
                0 <= i <= n,
                n == self.entries@.len(),
                self.wf(),
                self.entries@ == old(self).entries@,
                forall|j: int| 0 <= j < i ==> (#[trigger] self.entries@[j]).0@ != id@,
            decreases n - i,
        {
            if str_eq(self.entries[i].0.as_str(), id) {
                let ghost olde = self.entries@;
                let (_, tx) = self.entries.remove(i);
                proof {
                    assert(self.entries@ =~= olde.remove(i as int));
                    assert(forall|j: int| 0 <= j < i ==> self.entries@[j] == olde[j]);
                    assert(forall|j: int|
                        i <= j < self.entries@.len() ==> self.entries@[j] == olde[j + 1]);
                    assert(entry_ids(olde).contains(id@));
                    assert forall|x: Seq<char>| #[trigger]
                        entry_ids(self.entries@).contains(x) <==> entry_ids(olde).remove(
                            id@,
                        ).contains(x) by {
                        if entry_ids(self.entries@).contains(x) {
                            let j = choose|j: int|
                                0 <= j < self.entries@.len() && (#[trigger] self.entries@[j]).0@
                                    == x;
                            if j < i {
                                assert(olde[j].0@ == x);
                            } else {
                                assert(olde[j + 1].0@ == x);
                            }
                        } else if entry_ids(olde).remove(id@).contains(x) {
                            let j = choose|j: int|
                                0 <= j < olde.len() && (#[trigger] olde[j]).0@ == x;
                            if j < i {
                                assert(self.entries@[j].0@ == x);
                            } else {
                                assert(olde[i as int].0@ == id@);
                                assert(j != i);
                                assert(self.entries@[j - 1].0@ == x);
                            }
                        }
                    };
                    assert(entry_ids(self.entries@) =~= entry_ids(olde).remove(id@));
                }
                return Some(tx);
            }
            i += 1;
        }
        proof {
            assert(!self.ids().contains(id@)) by {
                if self.ids().contains(id@) {
                    let j = choose|j: int|
                        0 <= j < self.entries@.len() && (#[trigger] self.entries@[j]).0@ == id@;
                    assert(false);
                }
            };
            assert(self.ids() =~= self.ids().remove(id@));
        }
        None
    }
}

} // verus!
