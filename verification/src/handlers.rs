//! The request and response shapes of the HTTP surface, and the synchronous
//! query operations behind it: listing with filters and pagination, record
//! detail, the coarse status/progress report, and deletion. Carrying these
//! shapes over HTTP — and rendering timestamps for display — is the HTTP
//! layer's concern; every decision about their content is made here.

use vstd::prelude::*;
use vstd::string::StrSliceExecFns;
use vstd::string::StringExecFns;

use crate::analysis::{Analysis, AnalysisV};
use crate::error::AppError;
use crate::records::{
    filtered, id_index, page_of, sort_desc, FiltersV, ListFilters, ResumeRepository,
};
use crate::resume::{clone_opt_string, opt_analysis_view, opt_str_view, Model, ModelV, ResumeStatus};

verus! {

/// What an upload call reports: one entry per uploaded file.
pub struct UploadResponse {
    pub uploaded: Vec<UploadedFile>,
}

/// One uploaded file: the record that now stands for it.
pub struct UploadedFile {
    pub id: String,
    pub filename: String,
    pub status: String,
}

/// A batch analysis request: which records, against which job.
pub struct AnalyzeRequest {
    pub resume_ids: Vec<String>,
    pub job: String,
}

/// What a batch analysis trigger reports.
pub struct AnalyzeResponse {
    pub message: String,
    pub count: usize,
}

/// The raw listing query; absent page values fall back to the defaults.
pub struct ListQuery {
    pub status: Option<String>,
    pub job_key: Option<String>,
    pub search: Option<String>,
    pub page: Option<u64>,
    pub page_size: Option<u64>,
}

/// One page of the listing and the total across all pages.
pub struct ListResponse {
    pub total: u64,
    pub items: Vec<ResumeListItem>,
}

/// One listing row. Timestamps are carried as epoch milliseconds; rendering
/// them for display is the HTTP layer's concern.
pub struct ResumeListItem {
    pub id: String,
    pub filename: String,
    pub status: String,
    pub job_key: Option<String>,
    pub score: Option<u32>,
    pub name: Option<String>,
    pub uploaded_at: u64,
    pub analyzed_at: Option<u64>,
}

/// The full detail of one record.
pub struct ResumeDetail {
    pub id: String,
    pub filename: String,
    pub file_url: String,
    pub status: String,
    pub job_key: Option<String>,
    pub error_message: Option<String>,
    pub uploaded_at: u64,
    pub analyzed_at: Option<u64>,
    pub analysis: Option<Analysis>,
}

/// The coarse status report of one record.
pub struct StatusResponse {
    pub status: String,
    pub progress: Option<u8>,
}

/// What a deletion reports.
pub struct DeleteResponse {
    pub message: String,
}

/// The placeholder progress reported while a record is analyzing.
pub const ANALYZING_PROGRESS: u8 = 50;

/// Mathematical value of one listing row.
pub struct ListItemV {
    pub id: Seq<char>,
    pub filename: Seq<char>,
    pub status: Seq<char>,
    pub job_key: Option<Seq<char>>,
    pub score: Option<u32>,
    pub name: Option<Seq<char>>,
    pub uploaded_at: u64,
    pub analyzed_at: Option<u64>,
}

impl View for ResumeListItem {
    type V = ListItemV;

    open spec fn view(&self) -> ListItemV {
        ListItemV {
            id: self.id@,
            filename: self.filename@,
            status: self.status@,
            job_key: opt_str_view(self.job_key),
            score: self.score,
            name: opt_str_view(self.name),
            uploaded_at: self.uploaded_at,
            analyzed_at: self.analyzed_at,
        }
    }
}

/// Mathematical value of one record detail.
pub struct DetailV {
    pub id: Seq<char>,
    pub filename: Seq<char>,
    pub file_url: Seq<char>,
    pub status: Seq<char>,
    pub job_key: Option<Seq<char>>,
    pub error_message: Option<Seq<char>>,
    pub uploaded_at: u64,
    pub analyzed_at: Option<u64>,
    pub analysis: Option<AnalysisV>,
}

impl View for ResumeDetail {
    type V = DetailV;

    open spec fn view(&self) -> DetailV {
        DetailV {
            id: self.id@,
            filename: self.filename@,
            file_url: self.file_url@,
            status: self.status@,
            job_key: opt_str_view(self.job_key),
            error_message: opt_str_view(self.error_message),
            uploaded_at: self.uploaded_at,
            analyzed_at: self.analyzed_at,
            analysis: opt_analysis_view(self.analysis),
        }
    }
}

/// The listing row a record yields.
pub open spec fn item_of(m: ModelV) -> ListItemV {
    ListItemV {
        id: m.id,
        filename: m.filename,
        status: m.status.str_view(),
        job_key: m.job_key,
        score: m.score,
        name: m.name,
        uploaded_at: m.uploaded_at,
        analyzed_at: m.analyzed_at,
    }
}

/// The listing rows a sequence of records yields, in order.
pub open spec fn items_of(s: Seq<ModelV>) -> Seq<ListItemV> {
    Seq::new(s.len(), |i: int| item_of(s[i]))
}

/// The views of a vector of listing rows.
pub open spec fn items_view(s: Seq<ResumeListItem>) -> Seq<ListItemV> {
    Seq::new(s.len(), |i: int| s[i]@)
}

/// The detail a record yields.
pub open spec fn detail_of(m: ModelV) -> DetailV {
    DetailV {
        id: m.id,
        filename: m.filename,
        file_url: m.file_url,
        status: m.status.str_view(),
        job_key: m.job_key,
        error_message: m.error_message,
        uploaded_at: m.uploaded_at,
        analyzed_at: m.analyzed_at,
        analysis: m.analysis,
    }
}

/// The filters a raw listing query denotes: absent page values fall back to
/// the first page of twenty.
pub open spec fn filters_of_query(
    status: Option<Seq<char>>,
    job_key: Option<Seq<char>>,
    search: Option<Seq<char>>,
    page: Option<u64>,
    page_size: Option<u64>,
) -> FiltersV {
    FiltersV {
        status,
        job_key,
        search,
        page: match page {
            Some(p) => p,
            None => 1,
        },
        page_size: match page_size {
            Some(s) => s,
            None => 20,
        },
    }
}

/// One record as a listing row.
pub fn to_list_item(m: &Model) -> (r: ResumeListItem)
    ensures
        r@ == item_of(m@),
{
    ResumeListItem {
        id: m.id.clone(),
        filename: m.filename.clone(),
        status: m.status.as_str().to_owned(),
        job_key: clone_opt_string(&m.job_key),
        score: m.score,
        name: clone_opt_string(&m.name),
        uploaded_at: m.uploaded_at,
        analyzed_at: m.analyzed_at,
    }
}

/// One record as its full detail.
pub fn to_detail(m: &Model) -> (r: ResumeDetail)
    ensures
        r@ == detail_of(m@),
{
    ResumeDetail {
        id: m.id.clone(),
        filename: m.filename.clone(),
        file_url: m.file_url.clone(),
        status: m.status.as_str().to_owned(),
        job_key: clone_opt_string(&m.job_key),
        error_message: clone_opt_string(&m.error_message),
        uploaded_at: m.uploaded_at,
        analyzed_at: m.analyzed_at,
        analysis: match &m.analysis {
            Some(a) => Some(a.duplicate()),
            None => None,
        },
    }
}

/// The filtered, ordered page of the listing a query asks for, with the
/// total number of matching records across all pages.
pub fn list_resumes(repo: &ResumeRepository, query: &ListQuery) -> (r: ListResponse)
    requires
        (query.page matches Some(p) ==> p >= 1),
        (query.page_size matches Some(s) ==> s >= 1),
    ensures
        ({
            let f = filters_of_query(
                opt_str_view(query.status),
                opt_str_view(query.job_key),
                opt_str_view(query.search),
                query.page,
                query.page_size,
            );
            r.total == filtered(repo.recs(), f).len() && items_view(r.items@) == items_of(
                page_of(sort_desc(filtered(repo.recs(), f)), f.page, f.page_size),
            )
        }),
{
    let filters = ListFilters {
        status: clone_opt_string(&query.status),
        job_key: clone_opt_string(&query.job_key),
        search: clone_opt_string(&query.search),
        page: match query.page {
            Some(p) => p,
            None => 1,
        },
        page_size: match query.page_size {
            Some(s) => s,
            None => 20,
        },
    };
    let (models, total) = repo.list(&filters);
    let ghost page = crate::records::recs_view(models@);
    let mut items: Vec<ResumeListItem> = Vec::new();
    let mut i: usize = 0;
    proof {
        assert(items_view(items@) =~= items_of(page.subrange(0, 0)));
    }
    while i < models.len()
        invariant
            page == crate::records::recs_view(models@),
            i <= models@.len(),
            items_view(items@) == items_of(page.subrange(0, i as int)),
        decreases models@.len() - i,
    {
        let it = to_list_item(&models[i]);
        let ghost itv = it@;
        let ghost prev = items@;
        items.push(it);
        i += 1;
        proof {
            assert(page[i - 1] == models@[i - 1]@);
            assert(itv == item_of(page[i - 1]));
            assert(items_view(prev).len() == prev.len());
            assert(items_of(page.subrange(0, i - 1)).len() == i - 1);
            assert(items@.len() == i);
            assert forall|k: int| 0 <= k < items_view(items@).len()
                implies items_view(items@)[k] == items_of(page.subrange(0, i as int))[k] by {
                assert(items_view(items@)[k] == items@[k]@);
                assert(items_of(page.subrange(0, i as int))[k]
                    == item_of(page.subrange(0, i as int)[k]));
                if k < prev.len() {
                    assert(items@[k] == prev[k]);
                    assert(items_view(prev)[k] == prev[k]@);
                } else {
                    assert(items@[k]@ == itv);
                }
            }
            assert(items_view(items@) =~= items_of(page.subrange(0, i as int)));
        }
    }
    proof {
        assert(page.subrange(0, page.len() as int) =~= page);
    }
    ListResponse { total, items }
}

/// The detail of one record; a missed id is a not-found error naming it.
pub fn get_resume_detail(repo: &ResumeRepository, id: &str) -> (r: Result<ResumeDetail, AppError>)
    ensures
        match id_index(repo.recs(), id@, 0) {
            Some(i) => r matches Ok(d) && d@ == detail_of(repo.recs()[i]),
            None => r matches Err(e) && (e matches AppError::NotFoundError(m)
                && m@ == "Resume "@ + id@ + " not found"@),
        },
{
    match repo.find_by_id(id) {
        Some(m) => Ok(to_detail(&m)),
        None => {
            let mut msg = String::from_str("Resume ");
            msg.append(id);
            msg.append(" not found");
            proof {
                assert(msg@ =~= "Resume "@ + id@ + " not found"@);
            }
            Err(AppError::NotFoundError(msg))
        }
    }
}

/// The coarse status report of one record: its status text, and a fixed
/// placeholder progress exactly while it is analyzing.
pub fn get_resume_status(repo: &ResumeRepository, id: &str) -> (r: Result<StatusResponse, AppError>)
    ensures
        match id_index(repo.recs(), id@, 0) {
            Some(i) => r matches Ok(s) && s.status@ == repo.recs()[i].status.str_view()
                && s.progress == (if repo.recs()[i].status == ResumeStatus::Analyzing {
                    Some(ANALYZING_PROGRESS)
                } else {
                    None::<u8>
                }),
            None => r matches Err(e) && (e matches AppError::NotFoundError(m)
                && m@ == "Resume "@ + id@ + " not found"@),
        },
{
    match repo.find_by_id(id) {
        Some(m) => {
            let progress: Option<u8> = if m.status == ResumeStatus::Analyzing {
                Some(ANALYZING_PROGRESS)
            } else {
                None
            };
            Ok(StatusResponse { status: m.status.as_str().to_owned(), progress })
        }
        None => {
            let mut msg = String::from_str("Resume ");
            msg.append(id);
            msg.append(" not found");
            proof {
                assert(msg@ =~= "Resume "@ + id@ + " not found"@);
            }
            Err(AppError::NotFoundError(msg))
        }
    }
}

/// Deletes one record; deleting a missing id still reports success, as the
/// underlying delete-by-id does.
pub fn delete_resume(repo: &mut ResumeRepository, id: &str) -> (r: DeleteResponse)
    requires
        old(repo).wf(),
    ensures
        final(repo).wf(),
        match id_index(old(repo).recs(), id@, 0) {
            Some(i) => final(repo).recs() == old(repo).recs().remove(i),
            None => *final(repo) == *old(repo),
        },
        r.message@ == "简历已删除"@,
{
    repo.delete(id);
    DeleteResponse { message: String::from_str("简历已删除") }
}

} // verus!
