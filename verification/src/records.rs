//! The record store: resume records with lookup by identity and by content
//! hash, filtered and paginated listing ordered newest-upload-first, single
//! row status updates, full analysis-result writes, bulk status updates and
//! deletion. The store is an explicit in-memory value; a persistence engine
//! behind it is the caller's concern. A missed lookup is a not-found error,
//! distinct from a storage failure.

use vstd::prelude::*;
use vstd::string::StrSliceExecFns;
use vstd::string::StringExecFns;

use crate::analysis::Analysis;
use crate::error::AppError;
use crate::resume::{clone_opt_string, opt_str_view, Model, ModelV, ResumeStatus};
use crate::text::{
    char_vecs_equal, chars_of, contains_string, find_sub, has_sub, lemma_find_from, seq_contains,
    strs_view,
};

verus! {

/// What a listing is narrowed by, and which window of it is returned.
pub struct ListFilters {
    pub status: Option<String>,
    pub job_key: Option<String>,
    pub search: Option<String>,
    pub page: u64,
    pub page_size: u64,
}

/// Mathematical value of the filters.
pub struct FiltersV {
    pub status: Option<Seq<char>>,
    pub job_key: Option<Seq<char>>,
    pub search: Option<Seq<char>>,
    pub page: u64,
    pub page_size: u64,
}

impl View for ListFilters {
    type V = FiltersV;

    open spec fn view(&self) -> FiltersV {
        FiltersV {
            status: opt_str_view(self.status),
            job_key: opt_str_view(self.job_key),
            search: opt_str_view(self.search),
            page: self.page,
            page_size: self.page_size,
        }
    }
}

impl Default for ListFilters {
    /// No narrowing, first page of twenty.
    fn default() -> (r: ListFilters)
        ensures
            r@.status is None,
            r@.job_key is None,
            r@.search is None,
            r@.page == 1,
            r@.page_size == 20,
    {
        ListFilters { status: None, job_key: None, search: None, page: 1, page_size: 20 }
    }
}

/// The views of a sequence of records.
pub open spec fn recs_view(s: Seq<Model>) -> Seq<ModelV> {
    Seq::new(s.len(), |i: int| s[i]@)
}

/// Index of the first record with the given id, at or after `i`.
pub open spec fn id_index(s: Seq<ModelV>, id: Seq<char>, i: int) -> Option<int>
    recommends
        0 <= i,
    decreases s.len() - i,
        when 0 <= i
{
    if i >= s.len() {
        None
    } else if s[i].id == id {
        Some(i)
    } else {
        id_index(s, id, i + 1)
    }
}

/// Index of the first record with the given content hash, at or after `i`.
pub open spec fn hash_index(s: Seq<ModelV>, hash: Seq<char>, i: int) -> Option<int>
    recommends
        0 <= i,
    decreases s.len() - i,
        when 0 <= i
{
    if i >= s.len() {
        None
    } else if s[i].file_hash == hash {
        Some(i)
    } else {
        hash_index(s, hash, i + 1)
    }
}

/// Whether one record passes the listing filters: status equality, job-key
/// equality, and a substring match over the candidate name or the file name.
pub open spec fn matches_filters(m: ModelV, f: FiltersV) -> bool {
    &&& (match f.status {
        Some(s) => m.status.str_view() == s,
        None => true,
    })
    &&& (match f.job_key {
        Some(k) => m.job_key == Some(k),
        None => true,
    })
    &&& (match f.search {
        Some(q) => (match m.name {
            Some(n) => has_sub(n, q),
            None => false,
        }) || has_sub(m.filename, q),
        None => true,
    })
}

/// The records that pass the filters, in store order.
pub open spec fn filtered(s: Seq<ModelV>, f: FiltersV) -> Seq<ModelV>
    decreases s.len(),
{
    if s.len() == 0 {
        Seq::empty()
    } else {
        filtered(s.drop_last(), f) + (if matches_filters(s.last(), f) {
            seq![s.last()]
        } else {
            Seq::empty()
        })
    }
}

/// `m` placed into `s` (already ordered newest-first) before the first record
/// uploaded strictly earlier, so that records of one upload instant keep
/// their relative order.
pub open spec fn insert_desc(m: ModelV, s: Seq<ModelV>) -> Seq<ModelV>
    decreases s.len(),
{
    if s.len() == 0 {
        seq![m]
    } else if m.uploaded_at > s[0].uploaded_at {
        seq![m] + s
    } else {
        seq![s[0]] + insert_desc(m, s.drop_first())
    }
}

/// `s` ordered newest-upload-first, stably.
pub open spec fn sort_desc(s: Seq<ModelV>) -> Seq<ModelV>
    decreases s.len(),
{
    if s.len() == 0 {
        Seq::empty()
    } else {
        insert_desc(s.last(), sort_desc(s.drop_last()))
    }
}

/// The window of `s` that one page shows.
pub open spec fn page_of(s: Seq<ModelV>, page: u64, page_size: u64) -> Seq<ModelV>
    recommends
        page >= 1,
{
    let skip = (page - 1) * page_size;
    if skip >= s.len() {
        Seq::empty()
    } else if skip + page_size >= s.len() {
        s.subrange(skip as int, s.len() as int)
    } else {
        s.subrange(skip as int, (skip + page_size) as int)
    }
}

/// The record store.
pub struct ResumeRepository {
    pub records: Vec<Model>,
}

impl ResumeRepository {
    /// The mathematical value of the store: its records in order.
    pub open spec fn recs(&self) -> Seq<ModelV> {
        recs_view(self.records@)
    }

    /// Store well-formedness: every record well-formed, ids unique, content
    /// hashes unique.
    pub open spec fn wf(&self) -> bool {
        &&& (forall|i: int| 0 <= i < self.recs().len() ==> (#[trigger] self.recs()[i]).wf())
        &&& (forall|i: int, j: int|
            0 <= i < j < self.recs().len() ==> self.recs()[i].id != self.recs()[j].id)
        &&& (forall|i: int, j: int|
            0 <= i < j < self.recs().len()
                ==> self.recs()[i].file_hash != self.recs()[j].file_hash)
    }

    /// An empty store.
    pub fn new() -> (r: ResumeRepository)
        ensures
            r.recs().len() == 0,
            r.wf(),
    {
        let r = ResumeRepository { records: Vec::new() };
        proof {
            assert(r.recs() =~= Seq::<ModelV>::empty());
        }
        r
    }

    /// Index of the record with this id, if any.
    fn find_index(&self, id: &str) -> (r: Option<usize>)
        ensures
            match r {
                Some(i) => id_index(self.recs(), id@, 0) == Some(i as int)
                    && i < self.records@.len(),
                None => id_index(self.recs(), id@, 0) is None,
            },
    {
        let idc = chars_of(id);
        let mut i: usize = 0;
        while i < self.records.len()
            invariant
                idc@ == id@,
                i <= self.records@.len(),
                id_index(self.recs(), id@, 0) == id_index(self.recs(), id@, i as int),
            decreases self.records@.len() - i,
        {
            let ec = chars_of(self.records[i].id.as_str());
            if char_vecs_equal(&ec, &idc) {
                proof {
                    assert(self.recs()[i as int].id == id@);
                }
                return Some(i);
            }
            proof {
                assert(self.recs()[i as int].id == self.records@[i as int].id@);
            }
            i += 1;
        }
        None
    }

    /// Creates a record. Fails with a storage error when its id or content
    /// hash is already taken, as the unique indexes of a persistence engine
    /// would refuse it; otherwise appends it unchanged.
    pub fn create(&mut self, model: Model) -> (r: Result<(), AppError>)
        requires
            old(self).wf(),
            model@.wf(),
        ensures
            final(self).wf(),
            match r {
                Ok(_) => id_index(old(self).recs(), model@.id, 0) is None
                    && hash_index(old(self).recs(), model@.file_hash, 0) is None
                    && final(self).recs() == old(self).recs().push(model@),
                Err(e) => (id_index(old(self).recs(), model@.id, 0) is Some
                    || hash_index(old(self).recs(), model@.file_hash, 0) is Some)
                    && *final(self) == *old(self) && e is StorageError,
            },
    {
        let id_taken = self.find_index(model.id.as_str());
        let hash_taken = self.find_by_hash_index(model.file_hash.as_str());
        if id_taken.is_some() || hash_taken.is_some() {
            return Err(
                AppError::StorageError(String::from_str("duplicate id or content hash")),
            );
        }
        proof {
            lemma_id_index_none(self.recs(), model@.id, 0);
            lemma_hash_index_none(self.recs(), model@.file_hash, 0);
        }
        let ghost pre = self.records@;
        self.records.push(model);
        proof {
            assert(self.recs() =~= recs_view(pre).push(self.records@[pre.len() as int]@));
            assert forall|i: int, j: int|
                0 <= i < j < self.recs().len() implies self.recs()[i].id != self.recs()[j].id by {
                if j < pre.len() {
                } else {
                    assert(self.recs()[j] == recs_view(pre).push(
                        self.records@[pre.len() as int]@,
                    )[j]);
                }
            }
        }
        Ok(())
    }

    /// Index of the record with this content hash, if any.
    fn find_by_hash_index(&self, hash: &str) -> (r: Option<usize>)
        ensures
            match r {
                Some(i) => hash_index(self.recs(), hash@, 0) == Some(i as int)
                    && i < self.records@.len(),
                None => hash_index(self.recs(), hash@, 0) is None,
            },
    {
        let hc = chars_of(hash);
        let mut i: usize = 0;
        while i < self.records.len()
            invariant
                hc@ == hash@,
                i <= self.records@.len(),
                hash_index(self.recs(), hash@, 0) == hash_index(self.recs(), hash@, i as int),
            decreases self.records@.len() - i,
        {
            let ec = chars_of(self.records[i].file_hash.as_str());
            if char_vecs_equal(&ec, &hc) {
                proof {
                    assert(self.recs()[i as int].file_hash == hash@);
                }
                return Some(i);
            }
            proof {
                assert(self.recs()[i as int].file_hash == self.records@[i as int].file_hash@);
            }
            i += 1;
        }
        None
    }

    /// The record with this id, as a copy.
    pub fn find_by_id(&self, id: &str) -> (r: Option<Model>)
        ensures
            match id_index(self.recs(), id@, 0) {
                Some(i) => r matches Some(m) && m@ == self.recs()[i],
                None => r is None,
            },
    {
        match self.find_index(id) {
            Some(i) => Some(self.records[i].duplicate()),
            None => None,
        }
    }

    /// The record with this content hash, as a copy; this is the dedup
    /// lookup of uploads.
    pub fn find_by_hash(&self, hash: &str) -> (r: Option<Model>)
        ensures
            match hash_index(self.recs(), hash@, 0) {
                Some(i) => r matches Some(m) && m@ == self.recs()[i],
                None => r is None,
            },
    {
        match self.find_by_hash_index(hash) {
            Some(i) => Some(self.records[i].duplicate()),
            None => None,
        }
    }
}

impl ResumeRepository {
    /// The filtered, ordered, paginated listing, and the total number of
    /// records that pass the filters regardless of the pagination window.
    pub fn list(&self, filters: &ListFilters) -> (r: (Vec<Model>, u64))
        requires
            filters@.page >= 1,
            filters@.page_size >= 1,
        ensures
            r.1 == filtered(self.recs(), filters@).len(),
            recs_view(r.0@) == page_of(
                sort_desc(filtered(self.recs(), filters@)),
                filters@.page,
                filters@.page_size,
            ),
    {
        let ghost all = self.recs();
        // Narrow to the records that pass the filters, in store order.
        let mut fl: Vec<Model> = Vec::new();
        let mut i: usize = 0;
        proof {
            assert(recs_view(fl@) =~= filtered(all.subrange(0, 0), filters@));
        }
        while i < self.records.len()
            invariant
                all == self.recs(),
                i <= self.records@.len(),
                recs_view(fl@) == filtered(all.subrange(0, i as int), filters@),
            decreases self.records@.len() - i,
        {
            let ghost prev = fl@;
            if model_matches(&self.records[i], filters) {
                fl.push(self.records[i].duplicate());
                proof {
                    assert(recs_view(fl@) =~= recs_view(prev).push(all[i as int]));
                }
            }
            proof {
                let pre1 = all.subrange(0, i + 1);
                assert(pre1.drop_last() =~= all.subrange(0, i as int));
                assert(pre1.last() == all[i as int]);
                assert(recs_view(fl@) =~= filtered(pre1, filters@));
            }
            i += 1;
        }
        proof {
            assert(all.subrange(0, all.len() as int) =~= all);
        }
        let total: u64 = fl.len() as u64;
        let ghost fseq = recs_view(fl@);

        // Order newest-upload-first, stably, by insertion.
        let mut sorted: Vec<Model> = Vec::new();
        let mut i: usize = 0;
        proof {
            assert(recs_view(sorted@) =~= sort_desc(fseq.subrange(0, 0)));
        }
        while i < fl.len()
            invariant
                fseq == recs_view(fl@),
                i <= fl@.len(),
                recs_view(sorted@) == sort_desc(fseq.subrange(0, i as int)),
                sorted@.len() == i,
            decreases fl@.len() - i,
        {
            let m = fl[i].duplicate();
            let ghost mv = m@;
            let ghost sv = recs_view(sorted@);
            let mut pos: usize = 0;
            while pos < sorted.len() && !(m.uploaded_at > sorted[pos].uploaded_at)
                invariant
                    sv == recs_view(sorted@),
                    mv == m@,
                    pos <= sorted@.len(),
                    forall|k: int| 0 <= k < pos ==> !(mv.uploaded_at
                        > (#[trigger] sv[k]).uploaded_at),
                decreases sorted@.len() - pos,
            {
                proof {
                    assert(sv[pos as int].uploaded_at == sorted@[pos as int]@.uploaded_at);
                }
                pos += 1;
            }
            proof {
                lemma_insert_desc_at(mv, sv, pos as int);
            }
            sorted.insert(pos, m);
            proof {
                assert(recs_view(sorted@) =~= sv.subrange(0, pos as int) + seq![mv] + sv.subrange(
                    pos as int,
                    sv.len() as int,
                ));
                let pre1 = fseq.subrange(0, i + 1);
                assert(pre1.drop_last() =~= fseq.subrange(0, i as int));
                assert(pre1.last() == fseq[i as int]);
                assert(fseq[i as int] == mv);
                assert(recs_view(sorted@) =~= sort_desc(pre1));
            }
            i += 1;
        }
        proof {
            assert(fseq.subrange(0, fseq.len() as int) =~= fseq);
        }
        let ghost sseq = recs_view(sorted@);

        // Cut the requested window out of the ordered listing.
        proof {
            assert(filters.page == filters@.page);
        }
        let a128: u128 = (filters.page - 1) as u128;
        let b128: u128 = filters.page_size as u128;
        proof {
            assert(a128 * b128 <= u128::MAX) by (nonlinear_arith)
                requires
                    a128 < 0x10000000000000000,
                    b128 < 0x10000000000000000,
            ;
        }
        let skip128: u128 = a128 * b128;
        let n: usize = sorted.len();
        let mut out: Vec<Model> = Vec::new();
        if skip128 < n as u128 {
            let skip = skip128 as usize;
            let end128: u128 = skip128 + filters.page_size as u128;
            let end: usize = if end128 >= n as u128 {
                n
            } else {
                end128 as usize
            };
            let mut j: usize = skip;
            proof {
                assert(recs_view(out@) =~= sseq.subrange(skip as int, skip as int));
            }
            while j < end
                invariant
                    sseq == recs_view(sorted@),
                    skip <= j <= end <= sorted@.len(),
                    recs_view(out@) == sseq.subrange(skip as int, j as int),
                decreases end - j,
            {
                let ghost prev = out@;
                out.push(sorted[j].duplicate());
                proof {
                    assert(recs_view(out@) =~= recs_view(prev).push(sseq[j as int]));
                    assert(recs_view(out@) =~= sseq.subrange(skip as int, j + 1));
                }
                j += 1;
            }
            proof {
                assert(recs_view(out@) =~= page_of(sseq, filters@.page, filters@.page_size));
            }
        } else {
            proof {
                assert(recs_view(out@) =~= page_of(sseq, filters@.page, filters@.page_size));
            }
        }
        (out, total)
    }

    /// Updates one record's status: stamps the time of the attempt when it
    /// enters analyzing, completed or failed, records the error message on
    /// failure and clears it otherwise, and drops a stale analysis with its
    /// denormalized projections. A record becomes completed only through
    /// `save_analysis`, which writes the analysis those projections mirror.
    pub fn update_status(
        &mut self,
        id: &str,
        status: ResumeStatus,
        error_message: Option<String>,
        now: u64,
    ) -> (r: Result<(), AppError>)
        requires
            old(self).wf(),
            status != ResumeStatus::Completed,
        ensures
            final(self).wf(),
            match id_index(old(self).recs(), id@, 0) {
                Some(i) => r is Ok && final(self).recs() == old(self).recs().update(
                    i,
                    status_update(old(self).recs()[i], status, opt_str_view(error_message), now),
                ),
                None => (r matches Err(e) && (e matches AppError::NotFoundError(m)
                    && m@ == "Resume "@ + id@ + " not found"@)) && *final(self) == *old(self),
            },
    {
        let i = match self.find_index(id) {
            Some(i) => i,
            None => {
                return Err(AppError::NotFoundError(not_found_message(id)));
            }
        };
        let ghost pre = self.recs();
        let mut m = self.records.remove(i);
        m.status = status;
        if status == ResumeStatus::Analyzing || status == ResumeStatus::Failed {
            m.analyzed_at = Some(now);
        }
        if status == ResumeStatus::Failed {
            if let Some(msg) = error_message {
                m.error_message = Some(msg);
            }
        } else {
            m.error_message = None;
        }
        m.analysis = None;
        m.name = None;
        m.score = None;
        let ghost mv = m@;
        self.records.insert(i, m);
        proof {
            assert(mv == status_update(pre[i as int], status, opt_str_view(error_message), now));
            assert(self.recs() =~= pre.update(i as int, mv));
        }
        Ok(())
    }

    /// Writes a fresh analysis result: the record becomes completed, carries
    /// the analysis with its denormalized name and score, and is stamped.
    pub fn save_analysis(&mut self, id: &str, analysis: &Analysis, now: u64) -> (r: Result<
        (),
        AppError,
    >)
        requires
            old(self).wf(),
        ensures
            final(self).wf(),
            match id_index(old(self).recs(), id@, 0) {
                Some(i) => r is Ok && final(self).recs() == old(self).recs().update(
                    i,
                    completed_update(old(self).recs()[i], analysis@, now),
                ),
                None => (r matches Err(e) && (e matches AppError::NotFoundError(m)
                    && m@ == "Resume "@ + id@ + " not found"@)) && *final(self) == *old(self),
            },
    {
        let i = match self.find_index(id) {
            Some(i) => i,
            None => {
                return Err(AppError::NotFoundError(not_found_message(id)));
            }
        };
        let ghost pre = self.recs();
        let mut m = self.records.remove(i);
        m.status = ResumeStatus::Completed;
        m.analyzed_at = Some(now);
        m.error_message = None;
        m.name = Some(analysis.basic_info.name.clone());
        m.score = Some(analysis.score);
        m.analysis = Some(analysis.duplicate());
        let ghost mv = m@;
        self.records.insert(i, m);
        proof {
            assert(mv == completed_update(pre[i as int], analysis@, now));
            assert(self.recs() =~= pre.update(i as int, mv));
        }
        Ok(())
    }

    /// Deletes the record with this id; deleting a missing id changes
    /// nothing.
    pub fn delete(&mut self, id: &str)
        requires
            old(self).wf(),
        ensures
            final(self).wf(),
            match id_index(old(self).recs(), id@, 0) {
                Some(i) => final(self).recs() == old(self).recs().remove(i),
                None => *final(self) == *old(self),
            },
    {
        let ghost pre = self.recs();
        match self.find_index(id) {
            Some(i) => {
                let _removed = self.records.remove(i);
                proof {
                    assert(self.recs() =~= pre.remove(i as int));
                }
            }
            None => {}
        }
    }

    /// Moves every record whose id is in the set to the given status, as one
    /// bulk update, whatever each record's current state; no analysis time is
    /// stamped. A record becomes completed only through `save_analysis`.
    pub fn batch_update_status(&mut self, ids: &Vec<String>, status: ResumeStatus)
        requires
            old(self).wf(),
            status != ResumeStatus::Completed,
        ensures
            final(self).wf(),
            final(self).recs() == batch_updated(old(self).recs(), strs_view(ids@), status),
    {
        let ghost pre = self.recs();
        let ghost idv = strs_view(ids@);
        let n = self.records.len();
        let mut i: usize = 0;
        while i < n
            invariant
                idv == strs_view(ids@),
                status != ResumeStatus::Completed,
                i <= n == self.records@.len(),
                pre.len() == n,
                forall|k: int| 0 <= k < i ==> #[trigger] self.recs()[k] == batch_updated(
                    pre,
                    idv,
                    status,
                )[k],
                forall|k: int| i <= k < n ==> #[trigger] self.records@[k]@ == pre[k],
                forall|k: int| 0 <= k < pre.len() ==> (#[trigger] pre[k]).wf(),
                forall|k: int| 0 <= k < self.recs().len() ==> (#[trigger] self.recs()[k]).wf(),
                forall|k: int, j: int| 0 <= k < j < n ==> self.recs()[k].id != self.recs()[j].id,
                forall|k: int, j: int|
                    0 <= k < j < n ==> self.recs()[k].file_hash != self.recs()[j].file_hash,
            decreases n - i,
        {
            let hit = contains_string(ids, self.records[i].id.as_str());
            proof {
                assert(self.records@[i as int]@ == pre[i as int]);
                assert(self.records@[i as int].id@ == pre[i as int].id);
            }
            if hit {
                let ghost snap = self.recs();
                let mut m = self.records.remove(i);
                proof {
                    assert(m@ == snap[i as int]);
                    assert(snap[i as int] == pre[i as int]);
                }
                m.status = status;
                if status != ResumeStatus::Failed {
                    m.error_message = None;
                }
                m.analysis = None;
                m.name = None;
                m.score = None;
                let ghost mv = m@;
                self.records.insert(i, m);
                proof {
                    assert(self.recs() =~= snap.update(i as int, mv));
                    assert(mv == batch_update_one(pre[i as int], status));
                    assert(mv.analysis is None);
                    assert(mv.status != ResumeStatus::Completed);
                    assert(mv.name is None && mv.score is None);
                    assert(mv.error_message is Some ==> status == ResumeStatus::Failed);
                    assert(mv.wf());
                    assert forall|k: int| 0 <= k < self.recs().len()
                        implies (#[trigger] self.recs()[k]).wf() by {
                        if k != i {
                            assert(self.recs()[k] == snap[k]);
                        }
                    }
                }
            }
            i += 1;
        }
        proof {
            assert(final(self).recs() =~= batch_updated(pre, idv, status));
        }
    }
}

/// One record's status update: the single-row transition of the record
/// store. The analysis time records the last completed or attempted
/// analysis, so every move but one back to pending stamps it.
pub open spec fn status_update(
    m: ModelV,
    status: ResumeStatus,
    em: Option<Seq<char>>,
    now: u64,
) -> ModelV {
    ModelV {
        status,
        analyzed_at: if status == ResumeStatus::Pending {
            m.analyzed_at
        } else {
            Some(now)
        },
        error_message: if status == ResumeStatus::Failed {
            if em is Some {
                em
            } else {
                m.error_message
            }
        } else {
            None
        },
        analysis: if status == ResumeStatus::Completed {
            m.analysis
        } else {
            None
        },
        name: if status == ResumeStatus::Completed {
            m.name
        } else {
            None
        },
        score: if status == ResumeStatus::Completed {
            m.score
        } else {
            None
        },
        ..m
    }
}

/// One record's transition to completed with a fresh analysis.
pub open spec fn completed_update(m: ModelV, a: crate::analysis::AnalysisV, now: u64) -> ModelV {
    ModelV {
        status: ResumeStatus::Completed,
        analyzed_at: Some(now),
        error_message: None,
        analysis: Some(a),
        name: Some(a.basic_info.name),
        score: Some(a.score),
        ..m
    }
}

/// One record's part of a bulk status update.
pub open spec fn batch_update_one(m: ModelV, status: ResumeStatus) -> ModelV {
    ModelV {
        status,
        error_message: if status == ResumeStatus::Failed {
            m.error_message
        } else {
            None
        },
        analysis: None,
        name: None,
        score: None,
        ..m
    }
}

/// A bulk status update: every named record moves, every other stays.
pub open spec fn batch_updated(
    s: Seq<ModelV>,
    ids: Seq<Seq<char>>,
    status: ResumeStatus,
) -> Seq<ModelV> {
    Seq::new(s.len(), |i: int| if seq_contains(ids, s[i].id) {
        batch_update_one(s[i], status)
    } else {
        s[i]
    })
}

/// Whether one record passes the filters; exactly `matches_filters`.
fn model_matches(m: &Model, f: &ListFilters) -> (r: bool)
    ensures
        r == matches_filters(m@, f@),
{
    match &f.status {
        Some(s) => {
            let sv = chars_of(s.as_str());
            let mv = chars_of(m.status.as_str());
            if !char_vecs_equal(&mv, &sv) {
                return false;
            }
        }
        None => {}
    }
    match &f.job_key {
        Some(k) => {
            match &m.job_key {
                Some(mk) => {
                    let kv = chars_of(k.as_str());
                    let mkv = chars_of(mk.as_str());
                    if !char_vecs_equal(&mkv, &kv) {
                        return false;
                    }
                }
                None => {
                    return false;
                }
            }
        }
        None => {}
    }
    match &f.search {
        Some(q) => {
            let qv = chars_of(q.as_str());
            let name_hit = match &m.name {
                Some(nm) => {
                    let nv = chars_of(nm.as_str());
                    proof {
                        lemma_find_from(nv@, qv@, 0);
                    }
                    find_sub(&nv, &qv, 0).is_some()
                }
                None => false,
            };
            let fv = chars_of(m.filename.as_str());
            proof {
                lemma_find_from(fv@, qv@, 0);
            }
            let file_hit = find_sub(&fv, &qv, 0).is_some();
            if !name_hit && !file_hit {
                return false;
            }
        }
        None => {}
    }
    true
}

/// The message of a missed record lookup.
fn not_found_message(id: &str) -> (r: String)
    ensures
        r@ == "Resume "@ + id@ + " not found"@,
{
    let mut s = String::from_str("Resume ");
    s.append(id);
    s.append(" not found");
    proof {
        assert(s@ =~= "Resume "@ + id@ + " not found"@);
    }
    s
}

/// Where `insert_desc` puts the new record: right before the first strictly
/// older one.
pub proof fn lemma_insert_desc_at(m: ModelV, s: Seq<ModelV>, idx: int)
    requires
        0 <= idx <= s.len(),
        forall|k: int| 0 <= k < idx ==> !(m.uploaded_at > (#[trigger] s[k]).uploaded_at),
        idx < s.len() ==> m.uploaded_at > s[idx].uploaded_at,
    ensures
        insert_desc(m, s) == s.subrange(0, idx) + seq![m] + s.subrange(idx, s.len() as int),
    decreases idx,
{
    if s.len() == 0 {
        assert(insert_desc(m, s) =~= s.subrange(0, idx) + seq![m] + s.subrange(
            idx,
            s.len() as int,
        ));
    } else if idx == 0 {
        assert(insert_desc(m, s) =~= s.subrange(0, idx) + seq![m] + s.subrange(
            idx,
            s.len() as int,
        ));
    } else {
        let t = s.drop_first();
        assert forall|k: int| 0 <= k < idx - 1 implies !(m.uploaded_at
            > (#[trigger] t[k]).uploaded_at) by {
            assert(t[k] == s[k + 1]);
        }
        lemma_insert_desc_at(m, t, idx - 1);
        assert(insert_desc(m, s) == seq![s[0]] + insert_desc(m, t));
        assert(insert_desc(m, s) =~= s.subrange(0, idx) + seq![m] + s.subrange(
            idx,
            s.len() as int,
        ));
    }
}

/// The index an id scan returns is in bounds, carries the id, and is the
/// first to do so.
pub proof fn lemma_id_index_some(s: Seq<ModelV>, id: Seq<char>, i: int)
    requires
        0 <= i,
        id_index(s, id, i) is Some,
    ensures
        ({
            let j = id_index(s, id, i)->Some_0;
            i <= j < s.len() && s[j].id == id && forall|k: int|
                i <= k < j ==> (#[trigger] s[k]).id != id
        }),
    decreases s.len() - i,
{
    if i < s.len() && s[i as int].id != id {
        lemma_id_index_some(s, id, i + 1);
    }
}

/// Ordered newest-first: upload times never increase along the listing.
pub open spec fn sorted_newest_first(s: Seq<ModelV>) -> bool {
    forall|i: int, j: int| 0 <= i <= j < s.len() ==> s[i].uploaded_at >= s[j].uploaded_at
}

/// `insert_desc` keeps the listing ordered and only adds the new record.
pub proof fn lemma_insert_desc_sorted(m: ModelV, s: Seq<ModelV>)
    requires
        sorted_newest_first(s),
    ensures
        sorted_newest_first(insert_desc(m, s)),
        insert_desc(m, s).to_multiset() == s.to_multiset().insert(m),
        insert_desc(m, s).len() == s.len() + 1,
    decreases s.len(),
{
    broadcast use vstd::multiset::group_multiset_axioms;

    if s.len() == 0 {
        assert(insert_desc(m, s) =~= s.insert(0, m));
        vstd::seq_lib::to_multiset_insert(s, 0, m);
    } else if m.uploaded_at > s[0].uploaded_at {
        let r = insert_desc(m, s);
        assert(r =~= s.insert(0, m));
        vstd::seq_lib::to_multiset_insert(s, 0, m);
        assert forall|i: int, j: int| 0 <= i <= j < r.len() implies r[i].uploaded_at
            >= r[j].uploaded_at by {
            if i == 0 && j > 0 {
                assert(r[j] == s[j - 1]);
                assert(s[0].uploaded_at >= s[j - 1].uploaded_at);
            } else if i > 0 {
                assert(r[i] == s[i - 1] && r[j] == s[j - 1]);
            }
        }
    } else {
        let t = s.drop_first();
        assert forall|i: int, j: int| 0 <= i <= j < t.len() implies t[i].uploaded_at
            >= t[j].uploaded_at by {
            assert(t[i] == s[i + 1] && t[j] == s[j + 1]);
        }
        lemma_insert_desc_sorted(m, t);
        let rt = insert_desc(m, t);
        let r = insert_desc(m, s);
        assert(r == seq![s[0]] + rt);
        assert(r =~= rt.insert(0, s[0]));
        vstd::seq_lib::to_multiset_insert(rt, 0, s[0]);
        assert(s =~= t.insert(0, s[0]));
        vstd::seq_lib::to_multiset_insert(t, 0, s[0]);
        assert(r.to_multiset() =~= s.to_multiset().insert(m));
        assert forall|i: int, j: int| 0 <= i <= j < r.len() implies r[i].uploaded_at
            >= r[j].uploaded_at by {
            if i == 0 && j > 0 {
                assert(r[j] == rt[j - 1]);
                lemma_insert_desc_members(m, t, j - 1);
            } else if i > 0 {
                assert(r[i] == rt[i - 1] && r[j] == rt[j - 1]);
            }
        }
    }
}

/// Every record of an insertion result is the new one or one of the old.
pub proof fn lemma_insert_desc_members(m: ModelV, s: Seq<ModelV>, k: int)
    requires
        0 <= k < insert_desc(m, s).len(),
        insert_desc(m, s).len() == s.len() + 1,
    ensures
        insert_desc(m, s)[k] == m || exists|j: int| 0 <= j < s.len() && insert_desc(m, s)[k]
            == s[j],
    decreases s.len(),
{
    if s.len() == 0 {
    } else if m.uploaded_at > s[0].uploaded_at {
        if k > 0 {
            assert(insert_desc(m, s)[k] == s[k - 1]);
        }
    } else {
        if k > 0 {
            let t = s.drop_first();
            lemma_insert_desc_len(m, t);
            lemma_insert_desc_members(m, t, k - 1);
            assert(insert_desc(m, s)[k] == insert_desc(m, t)[k - 1]);
            if insert_desc(m, t)[k - 1] != m {
                let j = choose|j: int| 0 <= j < t.len() && insert_desc(m, t)[k - 1] == t[j];
                assert(t[j] == s[j + 1]);
            }
        }
    }
}

/// Insertion grows the listing by one.
pub proof fn lemma_insert_desc_len(m: ModelV, s: Seq<ModelV>)
    ensures
        insert_desc(m, s).len() == s.len() + 1,
    decreases s.len(),
{
    if s.len() > 0 && !(m.uploaded_at > s[0].uploaded_at) {
        lemma_insert_desc_len(m, s.drop_first());
    }
}

/// The sorted listing is ordered newest-first and holds exactly the records
/// that went in.
pub proof fn lemma_sort_desc(s: Seq<ModelV>)
    ensures
        sorted_newest_first(sort_desc(s)),
        sort_desc(s).to_multiset() == s.to_multiset(),
        sort_desc(s).len() == s.len(),
    decreases s.len(),
{
    if s.len() == 0 {
        assert(sort_desc(s) =~= s);
    } else {
        lemma_sort_desc(s.drop_last());
        lemma_insert_desc_sorted(s.last(), sort_desc(s.drop_last()));
        assert(s =~= s.drop_last().push(s.last()));
        vstd::seq_lib::to_multiset_build(s.drop_last(), s.last());
    }
}

/// Filtering reads only the narrowing fields, never the pagination window.
pub proof fn lemma_filtered_page_independent(s: Seq<ModelV>, f: FiltersV, g: FiltersV)
    requires
        f.status == g.status,
        f.job_key == g.job_key,
        f.search == g.search,
    ensures
        filtered(s, f) == filtered(s, g),
    decreases s.len(),
{
    if s.len() > 0 {
        lemma_filtered_page_independent(s.drop_last(), f, g);
    }
}

/// The status texts of distinct statuses differ.
pub proof fn lemma_status_str_injective(a: ResumeStatus, b: ResumeStatus)
    ensures
        (a.str_view() == b.str_view()) == (a == b),
{
    reveal_strlit("pending");
    reveal_strlit("analyzing");
    reveal_strlit("completed");
    reveal_strlit("failed");
    if a != b && a.str_view() == b.str_view() {
        assert(a.str_view().len() == b.str_view().len());
        assert(a.str_view()[0] == b.str_view()[0]);
    }
}

/// Listing filter composition: narrowing by one status returns exactly the
/// records of that status, the listing is ordered newest-upload-first, and
/// the total is the filtered count whatever the pagination window says.
pub proof fn lemma_listing_filter_composition(
    s: Seq<ModelV>,
    st: ResumeStatus,
    f: FiltersV,
    g: FiltersV,
)
    requires
        f.status == Some(st.str_view()),
        f.job_key is None,
        f.search is None,
        g.status == f.status,
        g.job_key is None,
        g.search is None,
    ensures
        filtered(s, f) == filtered(s, g),
        filtered(s, f) == s.filter(|m: ModelV| m.status == st),
        sorted_newest_first(sort_desc(filtered(s, f))),
        sort_desc(filtered(s, f)).to_multiset() == filtered(s, f).to_multiset(),
    decreases s.len(),
{
    lemma_filtered_page_independent(s, f, g);
    lemma_sort_desc(filtered(s, f));
    if s.len() == 0 {
        assert(filtered(s, f) =~= s.filter(|m: ModelV| m.status == st));
    } else {
        lemma_listing_filter_composition(s.drop_last(), st, f, g);
        lemma_status_str_injective(s.last().status, st);
        reveal(Seq::filter);
        assert(filtered(s, f) =~= s.filter(|m: ModelV| m.status == st));
    }
}

/// When a scan finds no id, no record carries it.
pub proof fn lemma_id_index_none(s: Seq<ModelV>, id: Seq<char>, i: int)
    requires
        0 <= i,
        id_index(s, id, i) is None,
    ensures
        forall|k: int| i <= k < s.len() ==> (#[trigger] s[k]).id != id,
    decreases s.len() - i,
{
    if i < s.len() {
        lemma_id_index_none(s, id, i + 1);
    }
}

/// When a scan finds no hash, no record carries it.
pub proof fn lemma_hash_index_none(s: Seq<ModelV>, hash: Seq<char>, i: int)
    requires
        0 <= i,
        hash_index(s, hash, i) is None,
    ensures
        forall|k: int| i <= k < s.len() ==> (#[trigger] s[k]).file_hash != hash,
    decreases s.len() - i,
{
    if i < s.len() {
        lemma_hash_index_none(s, hash, i + 1);
    }
}

} // verus!
