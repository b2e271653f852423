//! The structured evaluation produced by the model for one resume: candidate
//! basic information, a numeric score, a narrative summary, qualitative
//! skill/experience judgments and three bulleted lists. Absent data is
//! represented by a sentinel string chosen by the model, never by omission.

use vstd::prelude::*;

verus! {

/// Candidate basic information, one string per fixed field.
pub struct BasicInfo {
    pub name: String,
    pub gender: String,
    pub age: String,
    pub phone: String,
    pub email: String,
    pub location: String,
    pub work_years: String,
    pub degree: String,
    pub major: String,
    pub school: String,
    pub current_company: String,
    pub current_position: String,
}

/// Qualitative skills judgment: a level and its justification.
pub struct Skills {
    pub level: String,
    pub details: String,
}

/// Qualitative experience judgment: a level and its justification.
pub struct Experience {
    pub level: String,
    pub details: String,
}

/// One resume's structured evaluation.
pub struct Analysis {
    pub basic_info: BasicInfo,
    pub score: u32,
    pub summary: String,
    pub skills: Skills,
    pub experience: Experience,
    pub strengths: Vec<String>,
    pub concerns: Vec<String>,
    pub focus: Vec<String>,
}

/// An analysis together with the file and job it was produced for.
pub struct AnalysisResponse {
    pub filename: String,
    pub job_key: Option<String>,
    pub analysis: Analysis,
}

/// Mathematical value of a `BasicInfo`.
pub struct BasicInfoV {
    pub name: Seq<char>,
    pub gender: Seq<char>,
    pub age: Seq<char>,
    pub phone: Seq<char>,
    pub email: Seq<char>,
    pub location: Seq<char>,
    pub work_years: Seq<char>,
    pub degree: Seq<char>,
    pub major: Seq<char>,
    pub school: Seq<char>,
    pub current_company: Seq<char>,
    pub current_position: Seq<char>,
}

/// Mathematical value of a level/details pair.
pub struct PairV {
    pub level: Seq<char>,
    pub details: Seq<char>,
}

/// Mathematical value of an `Analysis`.
pub struct AnalysisV {
    pub basic_info: BasicInfoV,
    pub score: u32,
    pub summary: Seq<char>,
    pub skills: PairV,
    pub experience: PairV,
    pub strengths: Seq<Seq<char>>,
    pub concerns: Seq<Seq<char>>,
    pub focus: Seq<Seq<char>>,
}

impl View for BasicInfo {
    type V = BasicInfoV;

    open spec fn view(&self) -> BasicInfoV {
        BasicInfoV {
            name: self.name@,
            gender: self.gender@,
            age: self.age@,
            phone: self.phone@,
            email: self.email@,
            location: self.location@,
            work_years: self.work_years@,
            degree: self.degree@,
            major: self.major@,
            school: self.school@,
            current_company: self.current_company@,
            current_position: self.current_position@,
        }
    }
}

impl View for Skills {
    type V = PairV;

    open spec fn view(&self) -> PairV {
        PairV { level: self.level@, details: self.details@ }
    }
}

impl View for Experience {
    type V = PairV;

    open spec fn view(&self) -> PairV {
        PairV { level: self.level@, details: self.details@ }
    }
}

impl View for Analysis {
    type V = AnalysisV;

    open spec fn view(&self) -> AnalysisV {
        AnalysisV {
            basic_info: self.basic_info@,
            score: self.score,
            summary: self.summary@,
            skills: self.skills@,
            experience: self.experience@,
            strengths: self.strengths.deep_view(),
            concerns: self.concerns.deep_view(),
            focus: self.focus.deep_view(),
        }
    }
}

impl Analysis {
    /// An equal copy; spelled out so that its contract is verified.
    pub fn duplicate(&self) -> (r: Analysis)
        ensures
            r@ == self@,
    {
        let r = Analysis {
            basic_info: BasicInfo {
                name: self.basic_info.name.clone(),
                gender: self.basic_info.gender.clone(),
                age: self.basic_info.age.clone(),
                phone: self.basic_info.phone.clone(),
                email: self.basic_info.email.clone(),
                location: self.basic_info.location.clone(),
                work_years: self.basic_info.work_years.clone(),
                degree: self.basic_info.degree.clone(),
                major: self.basic_info.major.clone(),
                school: self.basic_info.school.clone(),
                current_company: self.basic_info.current_company.clone(),
                current_position: self.basic_info.current_position.clone(),
            },
            score: self.score,
            summary: self.summary.clone(),
            skills: Skills {
                level: self.skills.level.clone(),
                details: self.skills.details.clone(),
            },
            experience: Experience {
                level: self.experience.level.clone(),
                details: self.experience.details.clone(),
            },
            strengths: clone_strings(&self.strengths),
            concerns: clone_strings(&self.concerns),
            focus: clone_strings(&self.focus),
        };
        r
    }
}

/// An equal copy of a vector of strings.
pub fn clone_strings(v: &Vec<String>) -> (r: Vec<String>)
    ensures
        r.deep_view() == v.deep_view(),
        r@.len() == v@.len(),
{
    let mut r: Vec<String> = Vec::new();
    let mut i: usize = 0;
    while i < v.len()
        invariant
            i <= v@.len(),
            r@.len() == i,
            forall|k: int| 0 <= k < i ==> r@[k]@ == #[trigger] v@[k]@,
        decreases v@.len() - i,
    {
        r.push(v[i].clone());
        i += 1;
    }
    proof {
        assert forall|k: int| 0 <= k < v@.len() implies r.deep_view()[k]
            == #[trigger] v.deep_view()[k] by {
            assert(r.deep_view()[k] == r@[k]@);
            assert(v.deep_view()[k] == v@[k]@);
        }
        assert(r.deep_view() =~= v.deep_view());
    }
    r
}

} // verus!
