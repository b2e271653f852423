use resume_insight::records::{ListFilters, ResumeRepository};
use resume_insight::resume::{Model, ResumeStatus};
use resume_insight::analysis::{Analysis, BasicInfo, Experience, Skills};
use resume_insight::error::AppError;

fn record(id: &str, hash: &str, status: ResumeStatus, uploaded_at: u64) -> Model {
    Model {
        id: id.to_string(),
        filename: format!("{}.pdf", id),
        file_hash: hash.to_string(),
        file_url: format!("http://localhost:3000/files/{}.pdf", hash),
        status,
        job_key: None,
        error_message: None,
        uploaded_at,
        analyzed_at: None,
        analysis: None,
        name: None,
        score: None,
    }
}

fn tiny_analysis(name: &str, score: u32) -> Analysis {
    Analysis {
        basic_info: BasicInfo {
            name: name.to_string(),
            gender: "未知".to_string(),
            age: "未知".to_string(),
            phone: "未知".to_string(),
            email: "未知".to_string(),
            location: "未知".to_string(),
            work_years: "未知".to_string(),
            degree: "未知".to_string(),
            major: "未知".to_string(),
            school: "未知".to_string(),
            current_company: "未知".to_string(),
            current_position: "未知".to_string(),
        },
        score,
        summary: "概要".to_string(),
        skills: Skills { level: "良好".to_string(), details: "详情".to_string() },
        experience: Experience { level: "良好".to_string(), details: "详情".to_string() },
        strengths: vec![],
        concerns: vec![],
        focus: vec![],
    }
}

#[test]
fn create_and_find() {
    let mut repo = ResumeRepository::new();
    repo.create(record("a", "h1", ResumeStatus::Pending, 1)).unwrap();
    let found = repo.find_by_id("a").unwrap();
    assert_eq!(found.file_hash, "h1");
    assert!(repo.find_by_id("b").is_none());
    let by_hash = repo.find_by_hash("h1").unwrap();
    assert_eq!(by_hash.id, "a");
}

#[test]
fn duplicate_hash_is_refused() {
    let mut repo = ResumeRepository::new();
    repo.create(record("a", "h1", ResumeStatus::Pending, 1)).unwrap();
    match repo.create(record("b", "h1", ResumeStatus::Pending, 2)) {
        Err(AppError::StorageError(_)) => {}
        _ => panic!("expected the unique hash constraint to refuse"),
    }
}

#[test]
fn listing_filters_by_status_and_orders_newest_first() {
    let mut repo = ResumeRepository::new();
    repo.create(record("p", "h1", ResumeStatus::Pending, 10)).unwrap();
    let mut done_old = record("c1", "h2", ResumeStatus::Completed, 5);
    done_old.analysis = Some(tiny_analysis("甲", 70));
    done_old.name = Some("甲".to_string());
    done_old.score = Some(70);
    repo.create(done_old).unwrap();
    let mut done_new = record("c2", "h3", ResumeStatus::Completed, 20);
    done_new.analysis = Some(tiny_analysis("乙", 90));
    done_new.name = Some("乙".to_string());
    done_new.score = Some(90);
    repo.create(done_new).unwrap();
    let mut failed = record("f", "h4", ResumeStatus::Failed, 15);
    failed.error_message = Some("boom".to_string());
    repo.create(failed).unwrap();

    let filters = ListFilters {
        status: Some("completed".to_string()),
        job_key: None,
        search: None,
        page: 1,
        page_size: 20,
    };
    let (items, total) = repo.list(&filters);
    assert_eq!(total, 2);
    assert_eq!(items.len(), 2);
    assert_eq!(items[0].id, "c2");
    assert_eq!(items[1].id, "c1");

    // The total ignores the pagination window.
    let one_per_page = ListFilters { page_size: 1, ..filters };
    let (window, total2) = repo.list(&one_per_page);
    assert_eq!(total2, 2);
    assert_eq!(window.len(), 1);
    assert_eq!(window[0].id, "c2");
    let page2 = ListFilters {
        status: Some("completed".to_string()),
        job_key: None,
        search: None,
        page: 2,
        page_size: 1,
    };
    let (window2, total3) = repo.list(&page2);
    assert_eq!(total3, 2);
    assert_eq!(window2.len(), 1);
    assert_eq!(window2[0].id, "c1");
}

#[test]
fn listing_searches_name_and_filename() {
    let mut repo = ResumeRepository::new();
    let mut a = record("a", "h1", ResumeStatus::Completed, 1);
    a.analysis = Some(tiny_analysis("张三", 80));
    a.name = Some("张三".to_string());
    a.score = Some(80);
    repo.create(a).unwrap();
    repo.create(record("b", "h2", ResumeStatus::Pending, 2)).unwrap();

    let by_name = ListFilters {
        status: None,
        job_key: None,
        search: Some("张".to_string()),
        page: 1,
        page_size: 20,
    };
    let (items, total) = repo.list(&by_name);
    assert_eq!(total, 1);
    assert_eq!(items[0].id, "a");

    let by_file = ListFilters {
        status: None,
        job_key: None,
        search: Some("b.pdf".to_string()),
        page: 1,
        page_size: 20,
    };
    let (items2, _) = repo.list(&by_file);
    assert_eq!(items2[0].id, "b");
}

#[test]
fn update_status_stamps_and_records_errors() {
    let mut repo = ResumeRepository::new();
    repo.create(record("a", "h1", ResumeStatus::Pending, 1)).unwrap();
    repo.update_status("a", ResumeStatus::Analyzing, None, 111).unwrap();
    let m = repo.find_by_id("a").unwrap();
    assert_eq!(m.status, ResumeStatus::Analyzing);
    assert_eq!(m.analyzed_at, Some(111));

    repo.update_status("a", ResumeStatus::Failed, Some("boom".to_string()), 222).unwrap();
    let m = repo.find_by_id("a").unwrap();
    assert_eq!(m.status, ResumeStatus::Failed);
    assert_eq!(m.error_message, Some("boom".to_string()));
    // The failed attempt stamps the analysis time too.
    assert_eq!(m.analyzed_at, Some(222));

    match repo.update_status("missing", ResumeStatus::Failed, None, 1) {
        Err(AppError::NotFoundError(msg)) => assert_eq!(msg, "Resume missing not found"),
        _ => panic!("expected not found"),
    }
}

#[test]
fn save_analysis_completes_and_denormalizes() {
    let mut repo = ResumeRepository::new();
    repo.create(record("a", "h1", ResumeStatus::Analyzing, 1)).unwrap();
    repo.save_analysis("a", &tiny_analysis("张三", 85), 333).unwrap();
    let m = repo.find_by_id("a").unwrap();
    assert_eq!(m.status, ResumeStatus::Completed);
    assert_eq!(m.name, Some("张三".to_string()));
    assert_eq!(m.score, Some(85));
    assert_eq!(m.analyzed_at, Some(333));
    assert!(m.analysis.is_some());
    assert!(m.error_message.is_none());
}

#[test]
fn delete_removes_the_record() {
    let mut repo = ResumeRepository::new();
    repo.create(record("a", "h1", ResumeStatus::Pending, 1)).unwrap();
    repo.delete("a");
    assert!(repo.find_by_id("a").is_none());
    // Deleting a missing id changes nothing and does not fail.
    repo.delete("a");
}

#[test]
fn batch_update_moves_every_named_record() {
    let mut repo = ResumeRepository::new();
    repo.create(record("a", "h1", ResumeStatus::Pending, 1)).unwrap();
    repo.create(record("b", "h2", ResumeStatus::Failed, 2)).unwrap();
    repo.create(record("c", "h3", ResumeStatus::Pending, 3)).unwrap();
    let ids = vec!["a".to_string(), "b".to_string()];
    repo.batch_update_status(&ids, ResumeStatus::Analyzing);
    assert_eq!(repo.find_by_id("a").unwrap().status, ResumeStatus::Analyzing);
    assert_eq!(repo.find_by_id("b").unwrap().status, ResumeStatus::Analyzing);
    assert_eq!(repo.find_by_id("c").unwrap().status, ResumeStatus::Pending);
}

#[test]
fn status_round_trips_through_text() {
    assert_eq!(ResumeStatus::Pending.as_str(), "pending");
    assert_eq!(ResumeStatus::Analyzing.as_str(), "analyzing");
    assert_eq!(ResumeStatus::Completed.as_str(), "completed");
    assert_eq!(ResumeStatus::Failed.as_str(), "failed");
    assert_eq!(ResumeStatus::from_str("completed"), ResumeStatus::Completed);
    assert_eq!(ResumeStatus::from_str("garbage"), ResumeStatus::Pending);
}
