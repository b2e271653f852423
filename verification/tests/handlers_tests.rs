use resume_insight::analysis::{Analysis, BasicInfo, Experience, Skills};
use resume_insight::error::AppError;
use resume_insight::handlers::{delete_resume, get_resume_detail, list_resumes, ListQuery};
use resume_insight::records::ResumeRepository;
use resume_insight::resume::{Model, ResumeStatus};

fn record(id: &str, hash: &str, status: ResumeStatus, uploaded_at: u64) -> Model {
    Model {
        id: id.to_string(),
        filename: format!("{}.pdf", id),
        file_hash: hash.to_string(),
        file_url: format!("http://localhost:3000/files/{}.pdf", hash),
        status,
        job_key: Some("default".to_string()),
        error_message: None,
        uploaded_at,
        analyzed_at: None,
        analysis: None,
        name: None,
        score: None,
    }
}

fn completed(id: &str, hash: &str, uploaded_at: u64, name: &str, score: u32) -> Model {
    let analysis = Analysis {
        basic_info: BasicInfo {
            name: name.to_string(),
            gender: "未知".to_string(),
            age: "未知".to_string(),
            phone: "未知".to_string(),
            email: "未知".to_string(),
            location: "未知".to_string(),
            work_years: "未知".to_string(),
            degree: "未知".to_string(),
            major: "未知".to_string(),
            school: "未知".to_string(),
            current_company: "未知".to_string(),
            current_position: "未知".to_string(),
        },
        score,
        summary: "概要".to_string(),
        skills: Skills { level: "良好".to_string(), details: "详情".to_string() },
        experience: Experience { level: "良好".to_string(), details: "详情".to_string() },
        strengths: vec![],
        concerns: vec![],
        focus: vec![],
    };
    let mut m = record(id, hash, ResumeStatus::Completed, uploaded_at);
    m.name = Some(name.to_string());
    m.score = Some(score);
    m.analysis = Some(analysis);
    m
}

#[test]
fn listing_applies_defaults_and_maps_rows() {
    let mut repo = ResumeRepository::new();
    repo.create(record("a", "h1", ResumeStatus::Pending, 3)).unwrap();
    repo.create(completed("b", "h2", 7, "张三", 88)).unwrap();
    let query = ListQuery { status: None, job_key: None, search: None, page: None, page_size: None };
    let resp = list_resumes(&repo, &query);
    assert_eq!(resp.total, 2);
    assert_eq!(resp.items.len(), 2);
    assert_eq!(resp.items[0].id, "b");
    assert_eq!(resp.items[0].status, "completed");
    assert_eq!(resp.items[0].score, Some(88));
    assert_eq!(resp.items[0].name, Some("张三".to_string()));
    assert_eq!(resp.items[1].id, "a");
    assert_eq!(resp.items[1].uploaded_at, 3);
}

#[test]
fn detail_carries_the_analysis_and_misses_are_not_found() {
    let mut repo = ResumeRepository::new();
    repo.create(completed("b", "h2", 7, "张三", 88)).unwrap();
    let detail = get_resume_detail(&repo, "b").unwrap();
    assert_eq!(detail.status, "completed");
    assert_eq!(detail.file_url, "http://localhost:3000/files/h2.pdf");
    assert!(detail.analysis.is_some());
    assert_eq!(detail.analysis.unwrap().score, 88);
    match get_resume_detail(&repo, "zzz") {
        Err(AppError::NotFoundError(msg)) => assert_eq!(msg, "Resume zzz not found"),
        _ => panic!("expected not found"),
    }
}

#[test]
fn deletion_reports_and_removes() {
    let mut repo = ResumeRepository::new();
    repo.create(record("a", "h1", ResumeStatus::Pending, 3)).unwrap();
    let resp = delete_resume(&mut repo, "a");
    assert_eq!(resp.message, "简历已删除");
    assert!(repo.find_by_id("a").is_none());
}
