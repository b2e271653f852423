//! One resume record: identity, the stored file, the analysis status state
//! machine, and the denormalized analysis projections. The record's
//! well-formedness ties them together: an analysis is present exactly on
//! completed records, an error message only on failed ones, and the
//! denormalized name and score always mirror the analysis.

use vstd::prelude::*;

use crate::analysis::{Analysis, AnalysisV};

verus! {

/// Where a resume stands between upload and a terminal analysis outcome.
#[derive(Clone, Copy, PartialEq, Eq, Structural, Debug)]
pub enum ResumeStatus {
    Pending,
    Analyzing,
    Completed,
    Failed,
}

impl ResumeStatus {
    /// The wire and storage text of this status.
    pub open spec fn str_view(&self) -> Seq<char> {
        match self {
            ResumeStatus::Pending => "pending"@,
            ResumeStatus::Analyzing => "analyzing"@,
            ResumeStatus::Completed => "completed"@,
            ResumeStatus::Failed => "failed"@,
        }
    }

    /// The status a storage text denotes; unknown text falls back to pending.
    pub open spec fn of_str(s: Seq<char>) -> ResumeStatus {
        if s == "pending"@ {
            ResumeStatus::Pending
        } else if s == "analyzing"@ {
            ResumeStatus::Analyzing
        } else if s == "completed"@ {
            ResumeStatus::Completed
        } else if s == "failed"@ {
            ResumeStatus::Failed
        } else {
            ResumeStatus::Pending
        }
    }

    /// Renders the status as its storage text.
    pub fn as_str(&self) -> (r: &str)
        ensures
            r@ == self.str_view(),
    {
        match self {
            ResumeStatus::Pending => "pending",
            ResumeStatus::Analyzing => "analyzing",
            ResumeStatus::Completed => "completed",
            ResumeStatus::Failed => "failed",
        }
    }

    /// Reads a status from its storage text; unknown text is pending.
    pub fn from_str(s: &str) -> (r: ResumeStatus)
        ensures
            r == ResumeStatus::of_str(s@),
    {
        let v = crate::text::chars_of(s);
        if crate::text::char_vecs_equal(&v, &crate::text::chars_of("pending")) {
            ResumeStatus::Pending
        } else if crate::text::char_vecs_equal(&v, &crate::text::chars_of("analyzing")) {
            ResumeStatus::Analyzing
        } else if crate::text::char_vecs_equal(&v, &crate::text::chars_of("completed")) {
            ResumeStatus::Completed
        } else if crate::text::char_vecs_equal(&v, &crate::text::chars_of("failed")) {
            ResumeStatus::Failed
        } else {
            ResumeStatus::Pending
        }
    }
}

/// One persisted resume record.
pub struct Model {
    pub id: String,
    pub filename: String,
    pub file_hash: String,
    pub file_url: String,
    pub status: ResumeStatus,
    pub job_key: Option<String>,
    pub error_message: Option<String>,
    pub uploaded_at: u64,
    pub analyzed_at: Option<u64>,
    pub analysis: Option<Analysis>,
    pub name: Option<String>,
    pub score: Option<u32>,
}

/// Mathematical value of a record.
pub struct ModelV {
    pub id: Seq<char>,
    pub filename: Seq<char>,
    pub file_hash: Seq<char>,
    pub file_url: Seq<char>,
    pub status: ResumeStatus,
    pub job_key: Option<Seq<char>>,
    pub error_message: Option<Seq<char>>,
    pub uploaded_at: u64,
    pub analyzed_at: Option<u64>,
    pub analysis: Option<AnalysisV>,
    pub name: Option<Seq<char>>,
    pub score: Option<u32>,
}

/// The view of an optional string.
pub open spec fn opt_str_view(o: Option<String>) -> Option<Seq<char>> {
    match o {
        Some(s) => Some(s@),
        None => None,
    }
}

/// The view of an optional analysis.
pub open spec fn opt_analysis_view(o: Option<Analysis>) -> Option<AnalysisV> {
    match o {
        Some(a) => Some(a@),
        None => None,
    }
}

impl View for Model {
    type V = ModelV;

    open spec fn view(&self) -> ModelV {
        ModelV {
            id: self.id@,
            filename: self.filename@,
            file_hash: self.file_hash@,
            file_url: self.file_url@,
            status: self.status,
            job_key: opt_str_view(self.job_key),
            error_message: opt_str_view(self.error_message),
            uploaded_at: self.uploaded_at,
            analyzed_at: self.analyzed_at,
            analysis: opt_analysis_view(self.analysis),
            name: opt_str_view(self.name),
            score: self.score,
        }
    }
}

impl ModelV {
    /// Record well-formedness: an analysis exactly on completed records, an
    /// error message only on failed ones, and the denormalized name and score
    /// mirroring the analysis.
    pub open spec fn wf(self) -> bool {
        &&& (self.analysis is Some <==> self.status == ResumeStatus::Completed)
        &&& (self.error_message is Some ==> self.status == ResumeStatus::Failed)
        &&& (match self.analysis {
            Some(a) => self.name == Some(a.basic_info.name) && self.score == Some(a.score),
            None => self.name is None && self.score is None,
        })
    }
}

/// Clones an optional string.
pub fn clone_opt_string(o: &Option<String>) -> (r: Option<String>)
    ensures
        opt_str_view(r) == opt_str_view(*o),
{
    match o {
        Some(s) => Some(s.clone()),
        None => None,
    }
}

impl Model {
    /// An equal copy; spelled out so that its contract is verified.
    pub fn duplicate(&self) -> (r: Model)
        ensures
            r@ == self@,
    {
        Model {
            id: self.id.clone(),
            filename: self.filename.clone(),
            file_hash: self.file_hash.clone(),
            file_url: self.file_url.clone(),
            status: self.status,
            job_key: clone_opt_string(&self.job_key),
            error_message: clone_opt_string(&self.error_message),
            uploaded_at: self.uploaded_at,
            analyzed_at: self.analyzed_at,
            analysis: match &self.analysis {
                Some(a) => Some(a.duplicate()),
                None => None,
            },
            name: clone_opt_string(&self.name),
            score: self.score,
        }
    }
}

} // verus!
