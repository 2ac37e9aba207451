//! The audit log: one record per proxied exchange, created before the
//! outbound call and completed exactly once when the exchange ends.
//! Identifiers are assigned on insert, unique and strictly increasing.

use vstd::prelude::*;

verus! {

/// One proxied exchange.
pub struct AuditRecord {
    /// Assigned by the store on insert; unique and strictly increasing.
    pub id: i64,
    pub provider_id: String,
    /// Chat-completions route, as opposed to completions.
    pub chat: bool,
    /// The serialized outbound body, after the preset merge.
    pub request: String,
    pub model: String,
    pub request_time: String,
    /// The serialized response; for streamed exchanges, the ordered list of
    /// decoded chunks. Absent until the exchange completes.
    pub response: Option<String>,
    /// Absent until the exchange completes.
    pub response_time: Option<String>,
    pub prompt_tokens: Option<u64>,
    pub completion_tokens: Option<u64>,
    /// Tokens per second, derived at completion.
    pub speed: Option<u64>,
}

impl AuditRecord {
    /// A record is completed once its response timestamp is set.
    pub open spec fn completed(&self) -> bool {
        self.response_time is Some
    }
}

/// The audit log: records ordered by insertion, with sequential ids.
pub struct AuditLog {
    records: Vec<AuditRecord>,
    next_id: i64,
}

impl AuditLog {
    pub closed spec fn records(&self) -> Seq<AuditRecord> {
        self.records@
    }

    pub closed spec fn next_id(&self) -> i64 {
        self.next_id
    }

    /// The id the first stored record holds.
    pub open spec fn first_id(&self) -> int {
        self.next_id() - self.records().len()
    }

    pub open spec fn wf(&self) -> bool {
        &&& 0 <= self.first_id()
        &&& self.next_id() <= i64::MAX
        &&& forall|i: int| 0 <= i < self.records().len() ==> (#[trigger] self.records()[i]).id
            == self.first_id() + i
    }

    /// Every stored id is unique: it names one index.
    pub proof fn lemma_ids_unique(&self, i: int, j: int)
        requires
            self.wf(),
            0 <= i < self.records().len(),
            0 <= j < self.records().len(),
            self.records()[i].id == self.records()[j].id,
        ensures
            i == j,
    {
    }

    pub fn new(start_id: i64) -> (log: AuditLog)
        requires
            start_id >= 0,
        ensures
            log.wf(),
            log.records() == Seq::<AuditRecord>::empty(),
            log.next_id() == start_id,
    {
        let log = AuditLog { records: Vec::new(), next_id: start_id };
        proof {
            assert(log.records() =~= Seq::<AuditRecord>::empty());
        }
        log
    }

    pub fn count(&self) -> (n: usize)
        ensures
            n == self.records().len(),
    {
        self.records.len()
    }

    /// The id the next insert will assign.
    pub fn peek_next_id(&self) -> (id: i64)
        ensures
            id == self.next_id(),
    {
        self.next_id
    }

    /// Persist a new record with all completion fields absent, and return
    /// its id: fresh, and larger than every id handed out before.
    pub fn insert(
        &mut self,
        provider_id: String,
        chat: bool,
        request: String,
        model: String,
        request_time: String,
    ) -> (id: i64)
        requires
            old(self).wf(),
            old(self).next_id() < i64::MAX,
        ensures
            final(self).wf(),
            id == old(self).next_id(),
            final(self).next_id() == old(self).next_id() + 1,
            final(self).records() == old(self).records().push(
                (AuditRecord {
                    id,
                    provider_id,
                    chat,
                    request,
                    model,
                    request_time,
                    response: None,
                    response_time: None,
                    prompt_tokens: None,
                    completion_tokens: None,
                    speed: None,
                }),
            ),
            forall|i: int| 0 <= i < old(self).records().len()
                ==> (#[trigger] old(self).records()[i]).id < id,
    {
        let id = self.next_id;
        let rec = AuditRecord {
            id,
            provider_id,
            chat,
            request,
            model,
            request_time,
            response: None,
            response_time: None,
            prompt_tokens: None,
            completion_tokens: None,
            speed: None,
        };
        self.records.push(rec);
        self.next_id = self.next_id + 1;
        id
    }

    /// Whether the log holds a record under this id.
    pub open spec fn holds_id(&self, id: i64) -> bool {
        self.first_id() <= id < self.next_id()
    }

    /// The index of the record under an id the log holds.
    pub open spec fn index_of(&self, id: i64) -> int {
        id - self.first_id()
    }

    pub fn get(&self, id: i64) -> (r: Option<&AuditRecord>)
        requires
            self.wf(),
        ensures
            match r {
                Some(rec) => self.holds_id(id) && *rec == self.records()[self.index_of(id)],
                None => !self.holds_id(id),
            },
    {
        let n = self.records.len();
        if n == 0 {
            return None;
        }
        let first = self.records[0].id;
        if id >= first && id < self.next_id {
            let off = (id - first) as usize;
            Some(&self.records[off])
        } else {
            None
        }
    }

    /// Set the completion fields of the record under `id`, exactly that
    /// record, and leave every other record alone. Answers whether the id
    /// was found.
    pub fn complete(
        &mut self,
        id: i64,
        response: String,
        prompt_tokens: Option<u64>,
        completion_tokens: Option<u64>,
        speed: Option<u64>,
        response_time: String,
    ) -> (found: bool)
        requires
            old(self).wf(),
        ensures
            final(self).wf(),
            final(self).next_id() == old(self).next_id(),
            found == old(self).holds_id(id),
            found ==> final(self).records() == old(self).records().update(
                old(self).index_of(id),
                (AuditRecord {
                    id,
                    provider_id: old(self).records()[old(self).index_of(id)].provider_id,
                    chat: old(self).records()[old(self).index_of(id)].chat,
                    request: old(self).records()[old(self).index_of(id)].request,
                    model: old(self).records()[old(self).index_of(id)].model,
                    request_time: old(self).records()[old(self).index_of(id)].request_time,
                    response: Some(response),
                    response_time: Some(response_time),
                    prompt_tokens,
                    completion_tokens,
                    speed,
                }),
            ),
            !found ==> final(self).records() == old(self).records(),
    {
        let n = self.records.len();
        if n == 0 {
            return false;
        }
        let first = self.records[0].id;
        if id >= first && id < self.next_id {
            let off = (id - first) as usize;
            let old_rec = &self.records[off];
            let rec = AuditRecord {
                id,
                provider_id: old_rec.provider_id.clone(),
                chat: old_rec.chat,
                request: old_rec.request.clone(),
                model: old_rec.model.clone(),
                request_time: old_rec.request_time.clone(),
                response: Some(response),
                response_time: Some(response_time),
                prompt_tokens,
                completion_tokens,
                speed,
            };
            self.records.set(off, rec);
            true
        } else {
            false
        }
    }
}

} // verus!
