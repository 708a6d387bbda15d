//! The execution store: the record of every execution, keyed by id. The
//! host serializes finalized records for the optional append-only log;
//! the store itself only ever grows records forward along their
//! lifecycle.

use vstd::prelude::*;

use crate::engine_models::{
    ExecutionEvent, ExecutionLimits, ExecutionOutput, ExecutionRecord, ExecutionRequest,
    ExecutionStatus,
};
use crate::keyed::{
    find_index, keyed_view, keys_unique, lemma_view_push, lemma_view_remove, lemma_view_update,
};
use crate::sys::now_ms;

verus! {

/// The keyed table of execution records, and where finalized records are
/// to be persisted (the host owns the file itself).
pub struct ExecutionStore {
    pub records: Vec<(String, ExecutionRecord)>,
    pub persistence_path: Option<String>,
}

impl View for ExecutionStore {
    type V = Map<Seq<char>, ExecutionRecord>;

    open spec fn view(&self) -> Map<Seq<char>, ExecutionRecord> {
        keyed_view(self.records@)
    }
}

impl ExecutionStore {
    /// At most one record per id.
    pub open spec fn wf(&self) -> bool {
        keys_unique(self.records@)
    }

    /// An empty store.
    pub fn new(persistence_path: Option<String>) -> (r: ExecutionStore)
        ensures
            r.wf(),
            r@ == Map::<Seq<char>, ExecutionRecord>::empty(),
            r.persistence_path == persistence_path,
    {
        ExecutionStore { records: Vec::new(), persistence_path }
    }

    /// A fresh record for an accepted request: queued, stamped now, with
    /// the single `queued` event.
    pub fn create_record(
        &self,
        id: String,
        tenant_id: String,
        request: ExecutionRequest,
        limits: ExecutionLimits,
    ) -> (r: ExecutionRecord)
        ensures
            r.id == id,
            r.tenant_id == tenant_id,
            r.status is Queued,
            r.request == request,
            r.limits == limits,
            r.output is None,
            r.error is None,
            r.events@.len() == 1,
            r.events@[0].stage@ == "queued"@,
            r.events@[0].message@ == "execution accepted and queued"@,
            r.events@[0].ts_ms == r.created_at_ms,
            r.started_at_ms is None,
            r.finished_at_ms is None,
    {
        let now = now_ms();
        let mut events: Vec<ExecutionEvent> = Vec::new();
        events.push(
            ExecutionEvent {
                ts_ms: now,
                stage: String::from_str("queued"),
                message: String::from_str("execution accepted and queued"),
            },
        );
        ExecutionRecord {
            id,
            tenant_id,
            status: ExecutionStatus::Queued,
            request,
            limits,
            output: None,
            error: None,
            events,
            created_at_ms: now,
            started_at_ms: None,
            finished_at_ms: None,
        }
    }

    /// Stores a record under its id, replacing any earlier record there.
    pub fn insert(&mut self, record: ExecutionRecord)
        requires
            old(self).wf(),
        ensures
            final(self).wf(),
            final(self)@ == old(self)@.insert(record.id@, record),
            final(self).persistence_path == old(self).persistence_path,
    {
        let key = record.id.clone();
        let ghost pre = self.records@;
        match find_index(&self.records, key.as_str()) {
            Some(j) => {
                proof {
                    lemma_view_update(self.records@, j as int, record);
                }
                let slot_key = self.records[j].0.clone();
                self.records.set(j, (slot_key, record));
                proof {
                    assert(self.records@ =~= pre.update(j as int, (pre[j as int].0, record)));
                }
            },
            None => {
                proof {
                    lemma_view_push(self.records@, key, record);
                }
                self.records.push((key, record));
            },
        }
    }

    /// The record of an id, if one is stored.
    pub fn get(&self, id: &str) -> (r: Option<&ExecutionRecord>)
        requires
            self.wf(),
        ensures
            match r {
                Some(rec) => self@.contains_key(id@) && *rec == self@.index(id@),
                None => !self@.contains_key(id@),
            },
    {
        match find_index(&self.records, id) {
            Some(j) => Some(&self.records[j].1),
            None => None,
        }
    }

    /// Drops the record of an id, if one is stored.
    pub fn remove(&mut self, id: &str)
        requires
            old(self).wf(),
        ensures
            final(self).wf(),
            final(self)@ == old(self)@.remove(id@),
            final(self).persistence_path == old(self).persistence_path,
    {
        match find_index(&self.records, id) {
            Some(j) => {
                proof {
                    lemma_view_remove(self.records@, j as int);
                }
                let ghost pre = self.records@;
                self.records.remove(j);
                proof {
                    assert(self.records@ =~= pre.remove(j as int));
                }
            },
            None => {
                proof {
                    assert(old(self)@.remove(id@) =~= old(self)@);
                }
            },
        }
    }

    /// Marks a stored record running: status, start stamp, and the
    /// `running` event, all at one clock reading. An unknown id, or a
    /// record already past the queued stage, changes nothing: status
    /// transitions only move forward and the start stamp is set once.
    pub fn mark_running(&mut self, id: &str)
        requires
            old(self).wf(),
        ensures
            final(self).wf(),
            final(self).persistence_path == old(self).persistence_path,
            if old(self)@.contains_key(id@) && old(self)@.index(id@).status is Queued {
                let r0 = old(self)@.index(id@);
                let r1 = final(self)@.index(id@);
                &&& final(self)@ == old(self)@.insert(id@, r1)
                &&& r1.started_at_ms is Some
                &&& r1 == (ExecutionRecord {
                    status: ExecutionStatus::Running,
                    started_at_ms: r1.started_at_ms,
                    events: r1.events,
                    ..r0
                })
                &&& r1.events@ == r0.events@.push(r1.events@.last())
                &&& r1.events@.last().ts_ms == r1.started_at_ms->0
                &&& r1.events@.last().stage@ == "running"@
                &&& r1.events@.last().message@ == "worker started execution"@
            } else {
                final(self)@ == old(self)@
            },
    {
        let j = match find_index(&self.records, id) {
            Some(j) => j,
            None => {
                return ;
            },
        };
        proof {
            crate::keyed::lemma_view_find(self.records@, j as int);
        }
        match self.records[j].1.status {
            ExecutionStatus::Queued => {
            },
            _ => {
                return ;
            },
        }
        let now = now_ms();
        let event = ExecutionEvent {
            ts_ms: now,
            stage: String::from_str("running"),
            message: String::from_str("worker started execution"),
        };
        let ghost pre = self.records@;
        let slot_key = self.records[j].0.clone();
        let mut record = self.records.remove(j).1;
        record.status = ExecutionStatus::Running;
        record.started_at_ms = Some(now);
        record.events.push(event);
        proof {
            lemma_view_remove(pre, j as int);
        }
        self.restore(slot_key, record, Ghost(pre), Ghost(j as int));
    }

    /// Appends a timeline event to a stored record; an unknown id changes
    /// nothing.
    pub fn append_event(&mut self, id: &str, stage: &str, message: String)
        requires
            old(self).wf(),
        ensures
            final(self).wf(),
            final(self).persistence_path == old(self).persistence_path,
            if old(self)@.contains_key(id@) {
                let r0 = old(self)@.index(id@);
                let r1 = final(self)@.index(id@);
                &&& final(self)@ == old(self)@.insert(id@, r1)
                &&& r1 == (ExecutionRecord { events: r1.events, ..r0 })
                &&& r1.events@ == r0.events@.push(r1.events@.last())
                &&& r1.events@.last().stage@ == stage@
                &&& r1.events@.last().message == message
            } else {
                final(self)@ == old(self)@
            },
    {
        let j = match find_index(&self.records, id) {
            Some(j) => j,
            None => {
                return ;
            },
        };
        let now = now_ms();
        let event = ExecutionEvent { ts_ms: now, stage: String::from_str(stage), message };
        let ghost pre = self.records@;
        proof {
            crate::keyed::lemma_view_find(self.records@, j as int);
        }
        let slot_key = self.records[j].0.clone();
        let mut record = self.records.remove(j).1;
        record.events.push(event);
        proof {
            lemma_view_remove(pre, j as int);
        }
        self.restore(slot_key, record, Ghost(pre), Ghost(j as int));
    }

    /// Finalizes a stored record: terminal status, output or error, the
    /// finish stamp, and the `finished` event, all at one clock reading.
    /// An unknown id, or a status step the lifecycle does not allow,
    /// changes nothing: transitions only move forward and the finish
    /// stamp is set once. Reports whether the record was finalized, so
    /// the host knows to persist the snapshot.
    pub fn mark_finished(
        &mut self,
        id: &str,
        status: ExecutionStatus,
        output: Option<ExecutionOutput>,
        error: Option<String>,
    ) -> (found: bool)
        requires
            old(self).wf(),
        ensures
            final(self).wf(),
            final(self).persistence_path == old(self).persistence_path,
            found == (old(self)@.contains_key(id@)
                && crate::engine_models::status_can_advance(
                old(self)@.index(id@).status,
                status,
            )),
            if old(self)@.contains_key(id@) && crate::engine_models::status_can_advance(
                old(self)@.index(id@).status,
                status,
            ) {
                let r0 = old(self)@.index(id@);
                let r1 = final(self)@.index(id@);
                &&& final(self)@ == old(self)@.insert(id@, r1)
                &&& r1.finished_at_ms is Some
                &&& r1 == (ExecutionRecord {
                    status: status,
                    output: output,
                    error: error,
                    finished_at_ms: r1.finished_at_ms,
                    events: r1.events,
                    ..r0
                })
                &&& r1.events@ == r0.events@.push(r1.events@.last())
                &&& r1.events@.last().ts_ms == r1.finished_at_ms->0
                &&& r1.events@.last().stage@ == "finished"@
                &&& r1.events@.last().message@ == "execution finalized"@
            } else {
                final(self)@ == old(self)@
            },
    {
        let j = match find_index(&self.records, id) {
            Some(j) => j,
            None => {
                return false;
            },
        };
        proof {
            crate::keyed::lemma_view_find(self.records@, j as int);
        }
        if !crate::engine_models::status_advances(self.records[j].1.status, status) {
            return false;
        }
        let now = now_ms();
        let event = ExecutionEvent {
            ts_ms: now,
            stage: String::from_str("finished"),
            message: String::from_str("execution finalized"),
        };
        let ghost pre = self.records@;
        let slot_key = self.records[j].0.clone();
        let mut record = self.records.remove(j).1;
        record.status = status;
        record.output = output;
        record.error = error;
        record.finished_at_ms = Some(now);
        record.events.push(event);
        proof {
            lemma_view_remove(pre, j as int);
        }
        self.restore(slot_key, record, Ghost(pre), Ghost(j as int));
        true
    }

    /// Puts a record taken out for update back under its original key.
    fn restore(
        &mut self,
        key: String,
        record: ExecutionRecord,
        Ghost(pre): Ghost<Seq<(String, ExecutionRecord)>>,
        Ghost(j): Ghost<int>,
    )
        requires
            0 <= j < pre.len(),
            keys_unique(pre),
            pre[j].0 == key,
            old(self).records@ == pre.remove(j),
            old(self).wf(),
        ensures
            final(self).wf(),
            final(self)@ == keyed_view(pre).insert(key@, record),
            final(self).persistence_path == old(self).persistence_path,
    {
        proof {
            lemma_view_remove(pre, j);
            assert(forall|i: int|
                0 <= i < old(self).records@.len() ==> (#[trigger] old(self).records@[i]).0@
                    != key@) by {
                assert(forall|a: int| 0 <= a < j ==> pre.remove(j)[a] == pre[a]);
                assert(forall|a: int|
                    j <= a < pre.remove(j).len() ==> pre.remove(j)[a] == pre[a + 1]);
            }
            lemma_view_push(self.records@, key, record);
        }
        self.records.push((key, record));
        proof {
            assert(keyed_view(pre).remove(key@).insert(key@, record) =~= keyed_view(pre).insert(
                key@,
                record,
            ));
        }
    }
}

} // verus!
