use vstd::prelude::*;

verus! {

/// Names a logged state. Later states have larger ids.
#[derive(Clone, Copy, Hash, PartialEq, Eq, Debug, Structural)]
pub struct HistoryID(pub u64);

/// What a history is: the logged states, oldest first, each with its id, and
/// the state that is current.
pub struct HistoryView<T> {
    pub history: Seq<(T, HistoryID)>,
    pub current_data: Option<T>,
}

impl<T> HistoryView<T> {
    /// Ids start at 1 and rise along the log.
    pub open spec fn wf(self) -> bool {
        ids_rise(self.history)
    }

    /// The id of the newest logged state, or 0 where nothing is logged.
    pub open spec fn last_id(self) -> u64 {
        if self.history.len() > 0 {
            self.history.last().1.0
        } else {
            0
        }
    }

    /// How many logged states have an id below `target`.
    pub open spec fn count_below(self, target: u64) -> int {
        count_below(self.history, target)
    }

    /// Whether logging a state does anything: not while the state equals the
    /// current one.
    pub open spec fn logs(self, same: bool) -> bool {
        !(self.current_data.is_some() && same)
    }

    /// Whether logging a state puts the current one on the log: where there is
    /// a current one, and an id is left for it.
    pub open spec fn issues(self, same: bool) -> bool {
        self.logs(same) && self.current_data.is_some() && self.last_id() < u64::MAX
    }
}

/// Ids start at 1 and rise along the log.
pub open spec fn ids_rise<T>(history: Seq<(T, HistoryID)>) -> bool {
    &&& forall|i: int| 0 <= i < history.len() ==> (#[trigger] history[i]).1.0 >= 1
    &&& forall|i: int, j: int|
        0 <= i < j < history.len() ==> (#[trigger] history[i]).1.0 < (#[trigger] history[j]).1.0
}

/// How many states of a log have an id below `target`: all up to the newest
/// one that has.
pub open spec fn count_below<T>(history: Seq<(T, HistoryID)>, target: u64) -> int
    decreases history.len(),
{
    if history.len() == 0 {
        0
    } else if history.last().1.0 < target {
        history.len() as int
    } else {
        count_below(history.drop_last(), target)
    }
}

/// A log without its newest state still has rising ids, all below that of
/// the state that went.
proof fn lemma_drop_last_keeps_order<T>(history: Seq<(T, HistoryID)>)
    requires
        ids_rise(history),
        history.len() > 0,
    ensures
        ids_rise(history.drop_last()),
        forall|i: int| 0 <= i < history.len() - 1 ==> (#[trigger] history[i]).1.0 < history.last().1.0,
{
    let rest = history.drop_last();
    assert(rest.len() == history.len() - 1);
    assert forall|i: int| 0 <= i < rest.len() implies (#[trigger] rest[i]).1.0 >= 1 by {
        assert(rest[i] == history[i]);
    }
    assert forall|i: int, j: int| 0 <= i < j < rest.len() implies (#[trigger] rest[i]).1.0 < (
    #[trigger] rest[j]).1.0 by {
        assert(rest[i] == history[i]);
        assert(rest[j] == history[j]);
    }
}

/// A log of earlier states to go back to, and the state that is current.
pub struct History<T> {
    history: Vec<(T, HistoryID)>,
    current_data: Option<T>,
}

impl<T> View for History<T> {
    type V = HistoryView<T>;

    closed spec fn view(&self) -> HistoryView<T> {
        HistoryView { history: self.history@, current_data: self.current_data }
    }
}

impl<T: Clone> History<T> {
    pub open spec fn wf(&self) -> bool {
        self@.wf()
    }

    /// A history with nothing logged and no current state.
    pub fn new() -> (r: Self)
        ensures
            r.wf(),
            r@.history.len() == 0,
            r@.current_data.is_none(),
    {
        History { history: Vec::new(), current_data: None }
    }

    /// The state that is current, if there is one.
    pub fn current(&self) -> (r: Option<&T>)
        ensures
            match r {
                Some(data) => self@.current_data == Some(*data),
                None => self@.current_data.is_none(),
            },
    {
        self.current_data.as_ref()
    }

    /// How many states are logged.
    pub fn len(&self) -> (r: usize)
        ensures
            r == self@.history.len(),
    {
        self.history.len()
    }

    /// Makes a copy of `data` the current state, unless there is a current
    /// state already.
    pub fn update_current_data(&mut self, data: &T)
        requires
            old(self).wf(),
        ensures
            final(self).wf(),
            final(self)@.history == old(self)@.history,
            old(self)@.current_data.is_some() ==> final(self)@ == old(self)@,
            old(self)@.current_data.is_none() ==> final(self)@.current_data.is_some() && cloned(
                *data,
                final(self)@.current_data.unwrap(),
            ),
    {
        if self.current_data.is_none() {
            self.current_data = Some(data.clone());
        }
        assert(self@.history == old(self)@.history);
    }

    /// Makes a copy of `data` the current state and puts the state that was
    /// current on the log, under the id after the newest one, which it
    /// returns. `same` says whether `data` equals the current state: then
    /// nothing happens. Nothing is logged either where there was no current
    /// state, or no id is left.
    pub fn log_history(&mut self, data: &T, same: bool) -> (r: Option<HistoryID>)
        requires
            old(self).wf(),
        ensures
            final(self).wf(),
            !old(self)@.logs(same) ==> final(self)@ == old(self)@,
            old(self)@.logs(same) ==> final(self)@.current_data.is_some() && cloned(
                *data,
                final(self)@.current_data.unwrap(),
            ),
            r.is_some() == old(self)@.issues(same),
            old(self)@.issues(same) ==> r == Some(HistoryID((old(self)@.last_id() + 1) as u64))
                && final(self)@.history == old(self)@.history.push(
                (old(self)@.current_data.unwrap(), r.unwrap()),
            ),
            !old(self)@.issues(same) ==> final(self)@.history == old(self)@.history,
    {
        if self.current_data.is_some() && same {
            return None;
        }
        let last: u64 = if self.history.len() > 0 {
            self.history[self.history.len() - 1].1.0
        } else {
            0
        };
        let before = self.current_data.take();
        self.current_data = Some(data.clone());
        match before {
            Some(current_data) => {
                if last < u64::MAX {
                    let id = HistoryID(last + 1);
                    self.history.push((current_data, id));
                    proof {
                        let log = self@.history;
                        assert forall|i: int, j: int| 0 <= i < j < log.len() implies (#[trigger] log[i]).1.0 < (
                        #[trigger] log[j]).1.0 by {
                            if j == log.len() - 1 {
                                assert(log[i] == old(self)@.history[i]);
                                if i < j - 1 {
                                    assert(old(self)@.history[i].1.0 < old(self)@.history[j - 1].1.0);
                                }
                            } else {
                                assert(log[i] == old(self)@.history[i]);
                                assert(log[j] == old(self)@.history[j]);
                            }
                        }
                        assert forall|i: int| 0 <= i < log.len() implies (#[trigger] log[i]).1.0 >= 1 by {
                            if i < log.len() - 1 {
                                assert(log[i] == old(self)@.history[i]);
                            }
                        }
                    }
                    Some(id)
                } else {
                    assert(self@.history == old(self)@.history);
                    None
                }
            },
            None => {
                assert(self@.history == old(self)@.history);
                None
            },
        }
    }

    /// Empties the log and makes a copy of `data` the current state.
    pub fn clear(&mut self, data: &T)
        requires
            old(self).wf(),
        ensures
            final(self).wf(),
            final(self)@.history.len() == 0,
            final(self)@.current_data.is_some() && cloned(*data, final(self)@.current_data.unwrap()),
    {
        self.history.clear();
        self.current_data = Some(data.clone());
    }

    /// Goes back to the logged state with the id `target_history_id`: takes
    /// it and every newer state off the log and returns it. Where no state has
    /// that id, every state with a larger id still goes, and nothing is
    /// returned.
    pub fn revert_to(&mut self, target_history_id: HistoryID) -> (r: Option<T>)
        requires
            old(self).wf(),
        ensures
            final(self).wf(),
            final(self)@.current_data == old(self)@.current_data,
            final(self)@.history == old(self)@.history.take(old(self)@.count_below(target_history_id.0)),
            r.is_some() == (old(self)@.count_below(target_history_id.0) < old(self)@.history.len()
                && old(self)@.history[old(self)@.count_below(target_history_id.0)].1 == target_history_id),
            r.is_some() ==> r.unwrap() == old(self)@.history[old(self)@.count_below(target_history_id.0)].0,
    {
        let target: u64 = target_history_id.0;
        assert(self.history@.take(self.history@.len() as int) =~= self.history@);
        while self.history.len() > 0
            invariant
                self.wf(),
                target == target_history_id.0,
                self.current_data == old(self).current_data,
                self.history@.len() <= old(self).history@.len(),
                self.history@ == old(self).history@.take(self.history@.len() as int),
                count_below(self.history@, target) == count_below(old(self).history@, target),
                forall|i: int|
                    self.history@.len() <= i < old(self).history@.len() ==> (#[trigger] old(
                        self,
                    ).history@[i]).1.0 > target,
            decreases self.history.len(),
        {
            let ghost before = self.history@;
            assert(self@.history == before);
            let last: u64 = self.history[self.history.len() - 1].1.0;
            if last > target {
                self.history.pop();
                proof {
                    lemma_drop_last_keeps_order(before);
                }
                assert(self.history@ =~= old(self).history@.take(self.history@.len() as int));
            } else if last < target {
                assert(count_below(self.history@, target) == self.history@.len());
                return None;
            } else {
                let state = self.history.pop();
                proof {
                    lemma_drop_last_keeps_order(before);
                    let rest = self.history@;
                    assert(rest =~= old(self).history@.take(rest.len() as int));
                    assert(rest == before.drop_last());
                    if rest.len() > 0 {
                        assert(rest.last() == before[rest.len() - 1]);
                    }
                    assert(count_below(rest, target) == rest.len());
                    assert(old(self).history@[rest.len() as int] == before.last());
                }
                return match state {
                    Some(state) => Some(state.0),
                    None => None,
                };
            }
        }
        None
    }

    /// Goes back to the newest logged state: takes it off the log, makes a
    /// copy of it current, and returns it with its id.
    pub fn revert(&mut self) -> (r: Option<(T, HistoryID)>)
        requires
            old(self).wf(),
        ensures
            final(self).wf(),
            r.is_some() == (old(self)@.history.len() > 0),
            r.is_some() ==> r.unwrap() == old(self)@.history.last(),
            r.is_some() ==> final(self)@.history == old(self)@.history.drop_last(),
            r.is_some() ==> final(self)@.current_data.is_some() && cloned(
                r.unwrap().0,
                final(self)@.current_data.unwrap(),
            ),
            r.is_none() ==> final(self)@ == old(self)@,
    {
        match self.history.pop() {
            Some(state) => {
                self.current_data = Some(state.0.clone());
                Some(state)
            },
            None => None,
        }
    }
}

} // verus!
