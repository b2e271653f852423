//! The analysis orchestration decisions. An upload stores the bytes, dedups
//! by content hash, and creates a pending record; a batch analysis trigger
//! moves the named records to analyzing in one bulk update; each analysis
//! task's outcome turns its record into exactly completed-with-analysis or
//! failed-with-error. Launching the concurrent tasks, reading files and the
//! outbound model call happen at the caller; every state decision is made
//! here, whatever those calls came back with.

use vstd::prelude::*;
use vstd::string::StrSliceExecFns;
use vstd::string::StringExecFns;

use crate::analysis::{Analysis, AnalysisV};
use crate::analyzer::{sha256_hex_of, store_result, stored_name_of, url_of, Analyzer};
use crate::error::AppError;
use crate::handlers::{AnalyzeRequest, AnalyzeResponse, UploadedFile};
use crate::records::{
    batch_updated, completed_update, hash_index, id_index, status_update, ResumeRepository,
};
use crate::resume::{Model, ModelV, ResumeStatus};
use crate::text::strs_view;

verus! {

/// Relies on uuid's `Uuid::new_v4` and its hyphenated `to_string` rendering:
/// a freshly drawn random identifier, always 36 characters long. Nothing
/// more can be promised of a random value.
#[verifier::external_body]
pub(crate) fn new_record_id() -> (r: String)
    ensures
        r@.len() == 36,
{
    uuid::Uuid::new_v4().to_string()
}

/// The record a fresh upload creates: pending, with no analysis yet.
pub open spec fn new_pending_record(
    id: Seq<char>,
    filename: Seq<char>,
    file_hash: Seq<char>,
    file_url: Seq<char>,
    now: u64,
) -> ModelV {
    ModelV {
        id,
        filename,
        file_hash,
        file_url,
        status: ResumeStatus::Pending,
        job_key: None,
        error_message: None,
        uploaded_at: now,
        analyzed_at: None,
        analysis: None,
        name: None,
        score: None,
    }
}

/// Handles one uploaded file under a caller-chosen record id: stores the
/// bytes (idempotently), and either returns the existing record for the same
/// content hash unchanged — an upload never re-triggers analysis — or
/// creates a fresh pending record. Fails only when the chosen id is taken.
pub fn process_upload(
    repo: &mut ResumeRepository,
    analyzer: &mut Analyzer,
    data: &[u8],
    filename: &str,
    id: String,
    now: u64,
) -> (r: Result<UploadedFile, AppError>)
    requires
        old(repo).wf(),
    ensures
        final(repo).wf(),
        strs_view(final(analyzer).stored_files@) == store_result(
            strs_view(old(analyzer).stored_files@),
            data@,
            filename@,
        ).0,
        final(analyzer).config == old(analyzer).config,
        final(analyzer).server_config == old(analyzer).server_config,
        final(analyzer).prompt_manager == old(analyzer).prompt_manager,
        final(analyzer).logger == old(analyzer).logger,
        ({
            let hash = sha256_hex_of(data@);
            let url = url_of(old(analyzer).server_config.base_url@, stored_name_of(data@,
                filename@));
            match hash_index(old(repo).recs(), hash, 0) {
                Some(i) => r matches Ok(f) && final(repo).recs() == old(repo).recs()
                    && f.id@ == old(repo).recs()[i].id
                    && f.filename@ == old(repo).recs()[i].filename
                    && f.status@ == old(repo).recs()[i].status.str_view(),
                None => match id_index(old(repo).recs(), id@, 0) {
                    Some(_) => (r matches Err(e) && e is StorageError) && final(repo).recs()
                        == old(repo).recs(),
                    None => r matches Ok(f) && final(repo).recs() == old(repo).recs().push(
                        new_pending_record(id@, filename@, hash, url, now),
                    ) && f.id@ == id@ && f.filename@ == filename@ && f.status@ == "pending"@,
                },
            }
        }),
{
    let stored = analyzer.save_file(data, filename);
    let hash = analyzer.calculate_hash(data);
    match repo.find_by_hash(hash.as_str()) {
        Some(existing) => {
            let f = UploadedFile {
                id: existing.id,
                filename: existing.filename,
                status: existing.status.as_str().to_owned(),
            };
            Ok(f)
        }
        None => {
            let fid = id.clone();
            let model = Model {
                id,
                filename: filename.to_owned(),
                file_hash: hash,
                file_url: stored.url,
                status: ResumeStatus::Pending,
                job_key: None,
                error_message: None,
                uploaded_at: now,
                analyzed_at: None,
                analysis: None,
                name: None,
                score: None,
            };
            match repo.create(model) {
                Ok(_) => Ok(
                    UploadedFile {
                        id: fid,
                        filename: filename.to_owned(),
                        status: ResumeStatus::Pending.as_str().to_owned(),
                    },
                ),
                Err(e) => Err(e),
            }
        }
    }
}

/// Handles one uploaded file under a freshly drawn record id. The id is
/// random, so success cannot be promised when the record is new: a drawn id
/// that is already taken surfaces as the storage error of `process_upload`,
/// and the store is then unchanged.
pub fn upload_resume(
    repo: &mut ResumeRepository,
    analyzer: &mut Analyzer,
    data: &[u8],
    filename: &str,
    now: u64,
) -> (r: Result<UploadedFile, AppError>)
    requires
        old(repo).wf(),
    ensures
        final(repo).wf(),
        strs_view(final(analyzer).stored_files@) == store_result(
            strs_view(old(analyzer).stored_files@),
            data@,
            filename@,
        ).0,
        final(analyzer).config == old(analyzer).config,
        final(analyzer).server_config == old(analyzer).server_config,
        final(analyzer).prompt_manager == old(analyzer).prompt_manager,
        final(analyzer).logger == old(analyzer).logger,
        ({
            let hash = sha256_hex_of(data@);
            let url = url_of(old(analyzer).server_config.base_url@, stored_name_of(data@,
                filename@));
            match hash_index(old(repo).recs(), hash, 0) {
                Some(i) => r matches Ok(f) && final(repo).recs() == old(repo).recs()
                    && f.id@ == old(repo).recs()[i].id
                    && f.filename@ == old(repo).recs()[i].filename
                    && f.status@ == old(repo).recs()[i].status.str_view(),
                None => (match r {
                    Ok(f) => final(repo).recs() == old(repo).recs().push(
                        new_pending_record(f.id@, filename@, hash, url, now),
                    ) && f.status@ == "pending"@ && f.filename@ == filename@,
                    Err(_) => final(repo).recs() == old(repo).recs(),
                }),
            }
        }),
{
    let id = new_record_id();
    process_upload(repo, analyzer, data, filename, id, now)
}

/// Triggers batch analysis: moves every named record to analyzing in one
/// bulk update, whatever its current state, and reports how many tasks the
/// caller is to launch. Launching them is the caller's concern.
pub fn analyze_resumes(repo: &mut ResumeRepository, req: &AnalyzeRequest) -> (r: AnalyzeResponse)
    requires
        old(repo).wf(),
    ensures
        final(repo).wf(),
        final(repo).recs() == batch_updated(
            old(repo).recs(),
            strs_view(req.resume_ids@),
            ResumeStatus::Analyzing,
        ),
        r.message@ == "开始分析"@,
        r.count == req.resume_ids@.len(),
{
    repo.batch_update_status(&req.resume_ids, ResumeStatus::Analyzing);
    AnalyzeResponse { message: String::from_str("开始分析"), count: req.resume_ids.len() }
}

/// What one task's outcome does to the store: the record becomes completed
/// with the fresh analysis, or failed with the error's display text; either
/// way the attempt's time is stamped, and other records are untouched.
pub open spec fn analysis_outcome_applied(
    s: Seq<ModelV>,
    id: Seq<char>,
    outcome: Result<AnalysisV, Seq<char>>,
    now: u64,
) -> Seq<ModelV> {
    match id_index(s, id, 0) {
        Some(i) => match outcome {
            Ok(a) => s.update(i, completed_update(s[i], a, now)),
            Err(msg) => s.update(i, status_update(s[i], ResumeStatus::Failed, Some(msg), now)),
        },
        None => s,
    }
}

/// The view of one task's outcome: the analysis, or the error's display text.
pub open spec fn outcome_view(outcome: Result<Analysis, AppError>) -> Result<AnalysisV, Seq<char>> {
    match outcome {
        Ok(a) => Ok(a@),
        Err(e) => Err(e.display_view()),
    }
}

/// Finishes one record's analysis task: persists the analysis on success, or
/// the failure with its display text, stamping the attempt's time either
/// way. Fails only when the record is gone.
pub fn complete_analysis(
    repo: &mut ResumeRepository,
    resume_id: &str,
    outcome: Result<Analysis, AppError>,
    now: u64,
) -> (r: Result<(), AppError>)
    requires
        old(repo).wf(),
    ensures
        final(repo).wf(),
        final(repo).recs() == analysis_outcome_applied(
            old(repo).recs(),
            resume_id@,
            outcome_view(outcome),
            now,
        ),
        (r is Ok) == (id_index(old(repo).recs(), resume_id@, 0) is Some),
        r matches Err(e) ==> e is NotFoundError,
{
    match outcome {
        Ok(analysis) => repo.save_analysis(resume_id, &analysis, now),
        Err(e) => repo.update_status(
            resume_id,
            ResumeStatus::Failed,
            Some(e.display_string()),
            now,
        ),
    }
}

// ------------------------------------------------------------------
// The status state machine, stated and proved over the transitions
// ------------------------------------------------------------------

/// The first record with this id is pinned down by where it stands.
proof fn lemma_id_index_char(s: Seq<ModelV>, id: Seq<char>, i: int, j: int)
    requires
        0 <= i <= j < s.len(),
        s[j].id == id,
        forall|k: int| i <= k < j ==> (#[trigger] s[k]).id != id,
    ensures
        id_index(s, id, i) == Some(j),
    decreases j - i,
{
    if i < j {
        lemma_id_index_char(s, id, i + 1, j);
    }
}

/// A fresh upload's record is pending, carries the uploaded file's identity
/// and nothing of an analysis; triggering analysis makes it analyzing; a
/// finished task stamps the attempt's time and leaves it exactly completed —
/// with an analysis and its denormalized name and score — or exactly failed
/// with an error message: never both, never neither.
pub proof fn lemma_status_state_machine(
    s0: Seq<ModelV>,
    id: Seq<char>,
    filename: Seq<char>,
    file_hash: Seq<char>,
    file_url: Seq<char>,
    now0: u64,
    ids: Seq<Seq<char>>,
    outcome: Result<AnalysisV, Seq<char>>,
    now1: u64,
)
    requires
        id_index(s0, id, 0) is None,
        crate::text::seq_contains(ids, id),
    ensures
        ({
            let s1 = s0.push(new_pending_record(id, filename, file_hash, file_url, now0));
            let s2 = batch_updated(s1, ids, ResumeStatus::Analyzing);
            let s3 = analysis_outcome_applied(s2, id, outcome, now1);
            let j = s0.len() as int;
            &&& s1[j] == new_pending_record(id, filename, file_hash, file_url, now0)
            &&& s1[j].status == ResumeStatus::Pending
            &&& s1[j].analysis is None
            &&& s1[j].error_message is None
            &&& s1[j].name is None
            &&& s1[j].score is None
            &&& s1[j].analyzed_at is None
            &&& s1[j].uploaded_at == now0
            &&& s2[j].status == ResumeStatus::Analyzing
            &&& (match outcome {
                Ok(a) => s3[j].status == ResumeStatus::Completed && s3[j].analysis == Some(a)
                    && s3[j].name == Some(a.basic_info.name) && s3[j].score == Some(a.score)
                    && s3[j].error_message is None && s3[j].analyzed_at == Some(now1),
                Err(msg) => s3[j].status == ResumeStatus::Failed && s3[j].error_message
                    == Some(msg) && s3[j].analysis is None && s3[j].analyzed_at == Some(now1),
            })
            &&& !(s3[j].status == ResumeStatus::Completed && s3[j].status
                == ResumeStatus::Failed)
        }),
{
    let s1 = s0.push(new_pending_record(id, filename, file_hash, file_url, now0));
    let s2 = batch_updated(s1, ids, ResumeStatus::Analyzing);
    let s3 = analysis_outcome_applied(s2, id, outcome, now1);
    let j = s0.len() as int;
    crate::records::lemma_id_index_none(s0, id, 0);
    assert(s1[j].id == id);
    assert(s2[j].id == id);
    assert forall|k: int| 0 <= k < j implies (#[trigger] s2[k]).id != id by {
        assert(s1[k] == s0[k]);
        assert(s2[k].id == s1[k].id);
    }
    lemma_id_index_char(s2, id, 0, j);
}

/// Analysis tasks of different records are independent: applying one
/// record's outcome leaves every other record unchanged, and the outcomes of
/// two different records land the same whichever finishes first.
pub proof fn lemma_analysis_independence(
    s: Seq<ModelV>,
    id1: Seq<char>,
    id2: Seq<char>,
    o1: Result<AnalysisV, Seq<char>>,
    o2: Result<AnalysisV, Seq<char>>,
    now1: u64,
    now2: u64,
)
    requires
        id1 != id2,
    ensures
        forall|k: int|
            0 <= k < s.len() && (#[trigger] s[k]).id != id1 ==> analysis_outcome_applied(
                s,
                id1,
                o1,
                now1,
            )[k] == s[k],
        analysis_outcome_applied(analysis_outcome_applied(s, id1, o1, now1), id2, o2, now2)
            == analysis_outcome_applied(analysis_outcome_applied(s, id2, o2, now2), id1, o1, now1),
{
    lemma_outcome_frame(s, id1, o1, now1);
    lemma_outcome_frame(s, id2, o2, now2);
    let a1 = analysis_outcome_applied(s, id1, o1, now1);
    let a2 = analysis_outcome_applied(s, id2, o2, now2);
    lemma_outcome_ids(s, id1, o1, now1);
    lemma_outcome_ids(s, id2, o2, now2);
    lemma_id_index_same_ids(s, a1, id2, 0);
    lemma_id_index_same_ids(s, a2, id1, 0);
    let b1 = analysis_outcome_applied(a1, id2, o2, now2);
    let b2 = analysis_outcome_applied(a2, id1, o1, now1);
    match id_index(s, id1, 0) {
        Some(i1) => {
            crate::records::lemma_id_index_some(s, id1, 0);
            match id_index(s, id2, 0) {
                Some(i2) => {
                    crate::records::lemma_id_index_some(s, id2, 0);
                    assert(i1 != i2);
                    assert(a1[i2] == s[i2]);
                    assert(a2[i1] == s[i1]);
                    assert(b1 =~= b2);
                }
                None => {
                    assert(b1 =~= b2);
                }
            }
        }
        None => {
            match id_index(s, id2, 0) {
                Some(i2) => {
                    crate::records::lemma_id_index_some(s, id2, 0);
                    assert(b1 =~= b2);
                }
                None => {
                    assert(b1 =~= b2);
                }
            }
        }
    }
}

/// One outcome touches only its own record.
proof fn lemma_outcome_frame(
    s: Seq<ModelV>,
    id: Seq<char>,
    o: Result<AnalysisV, Seq<char>>,
    now: u64,
)
    ensures
        forall|k: int|
            0 <= k < s.len() && (#[trigger] s[k]).id != id ==> analysis_outcome_applied(
                s,
                id,
                o,
                now,
            )[k] == s[k],
        analysis_outcome_applied(s, id, o, now).len() == s.len(),
{
    match id_index(s, id, 0) {
        Some(i) => {
            crate::records::lemma_id_index_some(s, id, 0);
        }
        None => {}
    }
}

/// One outcome changes no record's id.
proof fn lemma_outcome_ids(s: Seq<ModelV>, id: Seq<char>, o: Result<AnalysisV, Seq<char>>, now: u64)
    ensures
        analysis_outcome_applied(s, id, o, now).len() == s.len(),
        forall|k: int|
            0 <= k < s.len() ==> (#[trigger] analysis_outcome_applied(s, id, o, now)[k]).id
                == s[k].id,
{
    match id_index(s, id, 0) {
        Some(i) => {
            crate::records::lemma_id_index_some(s, id, 0);
        }
        None => {}
    }
}

/// Sequences whose records carry the same ids position by position are
/// searched the same way.
proof fn lemma_id_index_same_ids(s: Seq<ModelV>, t: Seq<ModelV>, id: Seq<char>, i: int)
    requires
        0 <= i,
        s.len() == t.len(),
        forall|k: int| 0 <= k < s.len() ==> (#[trigger] s[k]).id == t[k].id,
    ensures
        id_index(s, id, i) == id_index(t, id, i),
    decreases s.len() - i,
{
    if i < s.len() {
        lemma_id_index_same_ids(s, t, id, i + 1);
    }
}

} // verus!
