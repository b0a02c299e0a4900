//! The batch façade: one query per target, each over a fresh frame that
//! re-enumerates the whole collection, results collected in target order.

use vstd::prelude::*;

use crate::frame::{frame_text, is_delimiter};
use crate::protocol::{literal_encs, literal_prompt};
use crate::query::{positions_from_reply, spec_positions, ReplyOutcome};

verus! {

/// The results a batch owes for the outcomes seen so far, one per target
/// already queried, in target order.
pub open spec fn batch_positions(outcomes: Seq<ReplyOutcome>) -> Seq<Seq<u64>> {
    outcomes.map(|i: int, o: ReplyOutcome| spec_positions(o))
}

/// One batch in progress over a restartable collection: the elements that
/// every frame enumerates afresh, the targets still to be queried, and the
/// results gathered so far.
pub struct BatchRun {
    elements: Vec<String>,
    targets: Vec<String>,
    results: Vec<Vec<u64>>,
    outcomes: Ghost<Seq<ReplyOutcome>>,
}

impl BatchRun {
    /// The elements every frame of this batch enumerates, in order.
    pub closed spec fn spec_elements(self) -> Seq<Seq<char>> {
        self.elements.deep_view()
    }

    /// The targets this batch queries, in order.
    pub closed spec fn spec_targets(self) -> Seq<Seq<char>> {
        self.targets.deep_view()
    }

    /// The results gathered so far, one per answered target.
    pub closed spec fn spec_results(self) -> Seq<Seq<u64>> {
        self.results.deep_view()
    }

    /// The outcomes recorded so far, in the order they were recorded.
    pub closed spec fn spec_outcomes(self) -> Seq<ReplyOutcome> {
        self.outcomes@
    }

    /// Batch law: at every point, the results are exactly the positions of
    /// the recorded outcomes, one per outcome, in order.
    pub open spec fn wf(self) -> bool {
        &&& self.spec_results() == batch_positions(self.spec_outcomes())
        &&& self.spec_outcomes().len() <= self.spec_targets().len()
    }

    /// Starts a batch with nothing answered yet.
    pub fn new(elements: Vec<String>, targets: Vec<String>) -> (r: Self)
        ensures
            r.wf(),
            r.spec_elements() == elements.deep_view(),
            r.spec_targets() == targets.deep_view(),
            r.spec_outcomes() == Seq::<ReplyOutcome>::empty(),
    {
        let r = BatchRun {
            elements,
            targets,
            results: Vec::new(),
            outcomes: Ghost(Seq::<ReplyOutcome>::empty()),
        };
        proof {
            assert(r.results.deep_view() =~= batch_positions(r.outcomes@));
        }
        r
    }

    /// Whether every target has been answered.
    pub fn finished(&self) -> (r: bool)
        requires
            self.wf(),
        ensures
            r == (self.spec_outcomes().len() == self.spec_targets().len()),
    {
        proof {
            assert(self.results.deep_view().len() == self.results@.len());
        }
        self.results.len() == self.targets.len()
    }

    /// The frame for the next unanswered target: the whole collection is
    /// enumerated afresh around a freshly minted delimiter.
    pub fn next_frame(&self) -> (r: Option<String>)
        requires
            self.wf(),
        ensures
            r is Some <==> self.spec_outcomes().len() < self.spec_targets().len(),
            r matches Some(f) ==> exists|d: Seq<char>|
                is_delimiter(d) && f@ == frame_text(
                    d,
                    self.spec_targets()[self.spec_outcomes().len() as int],
                    literal_encs(self.spec_elements()),
                ),
    {
        proof {
            assert(self.results.deep_view().len() == self.results@.len());
            assert(self.targets.deep_view().len() == self.targets@.len());
        }
        if self.results.len() < self.targets.len() {
            let f = literal_prompt(&self.elements, &self.targets[self.results.len()]);
            proof {
                assert(self.targets.deep_view()[self.results@.len() as int] == self.targets@[
                    self.results@.len() as int
                ]@);
            }
            Some(f)
        } else {
            None
        }
    }

    /// Records the outcome of the query for the next target: its positions
    /// are appended behind all earlier results, in order.
    pub fn record(&mut self, outcome: &ReplyOutcome)
        requires
            old(self).wf(),
            old(self).spec_outcomes().len() < old(self).spec_targets().len(),
        ensures
            final(self).wf(),
            final(self).spec_elements() == old(self).spec_elements(),
            final(self).spec_targets() == old(self).spec_targets(),
            final(self).spec_outcomes() == old(self).spec_outcomes().push(*outcome),
            final(self).spec_results() == old(self).spec_results().push(spec_positions(*outcome)),
    {
        let v = positions_from_reply(outcome);
        self.results.push(v);
        proof {
            self.outcomes@ = self.outcomes@.push(*outcome);
        }
        proof {
            let pushed = old(self).results.deep_view().push(spec_positions(*outcome));
            assert forall|j: int| 0 <= j < self.results@.len() implies self.results.deep_view()[j]
                == pushed[j] by {
                assert(self.results.deep_view()[j] == self.results@[j].deep_view());
                assert(self.results@[j].deep_view() =~= self.results@[j]@);
                if j < old(self).results@.len() {
                    assert(old(self).results.deep_view()[j] == old(self).results@[j].deep_view());
                    assert(old(self).results@[j].deep_view() =~= old(self).results@[j]@);
                }
            }
            assert(self.results.deep_view() =~= pushed);
            assert(batch_positions(self.spec_outcomes()) =~= batch_positions(
                old(self).spec_outcomes(),
            ).push(spec_positions(*outcome)));
        }
    }

    /// Gives up the collected results, one list per answered target.
    pub fn into_results(self) -> (r: Vec<Vec<u64>>)
        ensures
            r.deep_view() == self.spec_results(),
    {
        self.results
    }
}

} // verus!
