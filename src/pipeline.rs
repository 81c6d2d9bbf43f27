//! The decisions of a search: a state machine that the task runner drives. The
//! runner performs the outside work (seeking the source, pulling batches,
//! running filter plugins, cancelling its tasks) and reports each event here.
use vstd::prelude::*;
use crate::ast::{Filter, FromOffset};
use crate::buffer::{pushed, RecordsBuffer, Stats, bumped};
use crate::eval::query_holds;
use crate::filters::ValidSearchQuery;
use crate::offset::query_start;
use crate::record::KafkaRecord;

verus! {

#[derive(Debug, Clone, Copy, PartialEq, Eq, Structural)]
pub enum PipelineState {
    Idle,
    /// The start position is being resolved and the source assigned.
    Resolving,
    /// Records are pulled, evaluated and buffered.
    Streaming,
    /// The source has no more records.
    Completed,
    /// Stopped: by the user, by a source failure, or because the limit was reached.
    Cancelled,
}

/// What the runner does when a new search is asked for.
#[derive(Debug, Clone, Copy, PartialEq, Eq, Structural)]
pub enum StartAction {
    /// No topic is selected: the search stops at once and no task is started.
    Stop,
    /// Seek the source to this position (`None`: its own default) and start
    /// the tasks.
    Consume(Option<FromOffset>),
}

/// What the runner does with one record it pulled.
#[derive(Debug, Clone, Copy, PartialEq, Eq, Structural)]
pub enum RecordAction {
    /// The search is not streaming: the record is dropped, not counted.
    Discard,
    /// The record was counted as read and did not match.
    Skipped,
    /// The record matched and was buffered.
    Buffered,
    /// The record matched and was buffered, and it reached the limit: the
    /// runner cancels its tasks.
    BufferedLast,
}

/// The state of one search, and how many matches it has buffered.
pub struct Pipeline {
    state: PipelineState,
    limit: Option<usize>,
    matched: usize,
}

impl Pipeline {
    pub closed spec fn phase(&self) -> PipelineState {
        self.state
    }

    pub closed spec fn limit_of(&self) -> Option<usize> {
        self.limit
    }

    /// How many records the search has buffered.
    pub closed spec fn matched_count(&self) -> usize {
        self.matched
    }

    /// A limit is positive; never more matches than the limit, and none left
    /// to take once it is reached; nothing matched before records flow.
    #[verifier::type_invariant]
    pub closed spec fn within_limit(self) -> bool {
        &&& (self.limit matches Some(l) ==> 0 < l && self.matched <= l)
        &&& (self.limit == Some(self.matched) ==> self.state != PipelineState::Streaming)
        &&& (self.state == PipelineState::Resolving ==> self.matched == 0)
    }

    pub fn new() -> (r: Pipeline)
        ensures
            r.phase() == PipelineState::Idle,
            r.matched_count() == 0,
            r.limit_of() is None,
    {
        Pipeline { state: PipelineState::Idle, limit: None, matched: 0 }
    }

    pub fn state(&self) -> (r: PipelineState)
        ensures
            r == self.phase(),
    {
        self.state
    }

    pub fn matched(&self) -> (r: usize)
        ensures
            r == self.matched_count(),
    {
        self.matched
    }

    /// A new search: whatever ran before is cancelled and the buffer emptied.
    /// Without a selected topic the search stops at once; otherwise it
    /// resolves where the source is to start.
    pub fn start(&mut self, query: &ValidSearchQuery, buffer: &mut RecordsBuffer, topics: usize) -> (r: StartAction)
        ensures
            final(buffer).items() == Seq::<KafkaRecord>::empty(),
            final(buffer).counters() == (Stats { matched: 0, read: 0, total_to_read: 0, buffer_size: 0 }),
            final(self).matched_count() == 0,
            final(self).limit_of() == query.inner().limit,
            topics == 0 ==> r == StartAction::Stop && final(self).phase() == PipelineState::Cancelled,
            topics > 0 ==> r == StartAction::Consume(query_start(query.inner())) && final(self).phase()
                == PipelineState::Resolving,
    {
        buffer.reset();
        let limit = query.limit();
        if topics == 0 {
            *self = Pipeline { state: PipelineState::Cancelled, limit, matched: 0 };
            return StartAction::Stop;
        }
        *self = Pipeline { state: PipelineState::Resolving, limit, matched: 0 };
        StartAction::Consume(query.offset())
    }

    /// The source has been assigned: records start to flow.
    pub fn assigned(&mut self)
        ensures
            final(self).limit_of() == old(self).limit_of(),
            final(self).matched_count() == old(self).matched_count(),
            old(self).phase() == PipelineState::Resolving ==> final(self).phase() == PipelineState::Streaming,
            old(self).phase() != PipelineState::Resolving ==> final(self).phase() == old(self).phase(),
    {
        proof {
            use_type_invariant(&*self);
        }
        if self.state == PipelineState::Resolving {
            *self = Pipeline { state: PipelineState::Streaming, limit: self.limit, matched: self.matched };
        }
    }

    /// Counts, evaluates and, when it matches, buffers one record pulled from
    /// the source. `outcomes` holds what each filter plugin answered for it.
    /// The matches never exceed the limit: the one that reaches it cancels.
    pub fn on_record(
        &mut self,
        query: &ValidSearchQuery,
        buffer: &mut RecordsBuffer,
        record: KafkaRecord,
        outcomes: &Vec<(Filter, bool)>,
    ) -> (r: RecordAction)
        ensures
            final(self).limit_of() == old(self).limit_of(),
            final(self).limit_of() matches Some(l) ==> final(self).matched_count() <= l,
            old(buffer).wf() ==> final(buffer).wf(),
            old(self).phase() != PipelineState::Streaming ==> r == RecordAction::Discard && final(self).phase()
                == old(self).phase() && final(self).matched_count() == old(self).matched_count()
                && final(buffer).items() == old(buffer).items() && final(buffer).counters()
                == old(buffer).counters(),
            old(self).phase() == PipelineState::Streaming ==> {
                &&& final(buffer).counters() == (Stats {
                    read: bumped(old(buffer).counters().read),
                    matched: if query_holds(query.inner(), record, outcomes@) {
                        bumped(old(buffer).counters().matched)
                    } else {
                        old(buffer).counters().matched
                    },
                    ..old(buffer).counters()
                })
                &&& if query_holds(query.inner(), record, outcomes@) {
                    &&& final(buffer).items() == pushed(old(buffer).items(), record)
                    &&& final(self).matched_count() == bumped(old(self).matched_count())
                    &&& (final(self).limit_of() == Some(final(self).matched_count()) ==> r
                        == RecordAction::BufferedLast && final(self).phase() == PipelineState::Cancelled)
                    &&& (final(self).limit_of() != Some(final(self).matched_count()) ==> r
                        == RecordAction::Buffered && final(self).phase() == PipelineState::Streaming)
                } else {
                    &&& r == RecordAction::Skipped
                    &&& final(buffer).items() == old(buffer).items()
                    &&& final(self).matched_count() == old(self).matched_count()
                    &&& final(self).phase() == PipelineState::Streaming
                }
            },
    {
        proof {
            use_type_invariant(&*self);
        }
        if self.state != PipelineState::Streaming {
            return RecordAction::Discard;
        }
        buffer.new_record_read();
        if !query.matches(&record, outcomes) {
            return RecordAction::Skipped;
        }
        let ghost before = self.matched;
        assert(self.limit matches Some(l) ==> before < l);
        buffer.push(record);
        let matched = if self.matched < usize::MAX { self.matched + 1 } else { self.matched };
        if self.limit == Some(matched) {
            *self = Pipeline { state: PipelineState::Cancelled, limit: self.limit, matched };
            RecordAction::BufferedLast
        } else {
            *self = Pipeline { state: PipelineState::Streaming, limit: self.limit, matched };
            RecordAction::Buffered
        }
    }

    /// The source has no more records.
    pub fn on_exhausted(&mut self)
        ensures
            final(self).limit_of() == old(self).limit_of(),
            final(self).matched_count() == old(self).matched_count(),
            old(self).phase() == PipelineState::Streaming ==> final(self).phase() == PipelineState::Completed,
            old(self).phase() != PipelineState::Streaming ==> final(self).phase() == old(self).phase(),
    {
        proof {
            use_type_invariant(&*self);
        }
        if self.state == PipelineState::Streaming {
            *self = Pipeline { state: PipelineState::Completed, limit: self.limit, matched: self.matched };
        }
    }

    /// The user stopped the search, or the source failed.
    pub fn stop(&mut self)
        ensures
            final(self).limit_of() == old(self).limit_of(),
            final(self).matched_count() == old(self).matched_count(),
            old(self).phase() == PipelineState::Resolving || old(self).phase() == PipelineState::Streaming
                ==> final(self).phase() == PipelineState::Cancelled,
            !(old(self).phase() == PipelineState::Resolving || old(self).phase() == PipelineState::Streaming)
                ==> final(self).phase() == old(self).phase(),
    {
        proof {
            use_type_invariant(&*self);
        }
        if self.state == PipelineState::Resolving || self.state == PipelineState::Streaming {
            *self = Pipeline { state: PipelineState::Cancelled, limit: self.limit, matched: self.matched };
        }
    }

    /// Whether the runner's tasks are to keep going.
    pub fn is_running(&self) -> (r: bool)
        ensures
            r == (self.phase() == PipelineState::Resolving || self.phase() == PipelineState::Streaming),
    {
        self.state == PipelineState::Resolving || self.state == PipelineState::Streaming
    }
}

} // verus!
