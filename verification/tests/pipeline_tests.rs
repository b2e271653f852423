use resume_insight::analysis::{Analysis, BasicInfo, Experience, Skills};
use resume_insight::analyzer::Analyzer;
use resume_insight::config::{LlmConfig, ServerConfig};
use resume_insight::error::AppError;
use resume_insight::gateway::{bearer_header, chat_completions_url, check_upstream_status,
    first_choice_content};
use resume_insight::handlers::{get_resume_status, AnalyzeRequest};
use resume_insight::llm::{ChatResponse, Choice, MessageContent, ResponseMessage};
use resume_insight::logger::Logger;
use resume_insight::orchestrator::{analyze_resumes, complete_analysis, upload_resume};
use resume_insight::prompts::PromptManager;
use resume_insight::records::ResumeRepository;
use resume_insight::resume::ResumeStatus;

fn analyzer() -> Analyzer {
    let manager = PromptManager::load(vec![(
        "default.md".to_string(),
        "# 通用岗位\n\n- 基本素质\n".to_string(),
    )])
    .unwrap();
    Analyzer::new(
        LlmConfig {
            base_url: "https://llm.example.com/v1".to_string(),
            model: "vision-model".to_string(),
            api_key: "test-key".to_string(),
        },
        ServerConfig {
            files_dir: "./data/files".to_string(),
            logs_dir: "./logs".to_string(),
            base_url: "http://localhost:3000/".to_string(),
        },
        manager,
    )
}

fn tiny_analysis(name: &str, score: u32) -> Analysis {
    Analysis {
        basic_info: BasicInfo {
            name: name.to_string(),
            gender: "未知".to_string(),
            age: "未知".to_string(),
            phone: "未知".to_string(),
            email: "未知".to_string(),
            location: "未知".to_string(),
            work_years: "未知".to_string(),
            degree: "未知".to_string(),
            major: "未知".to_string(),
            school: "未知".to_string(),
            current_company: "未知".to_string(),
            current_position: "未知".to_string(),
        },
        score,
        summary: "概要".to_string(),
        skills: Skills { level: "良好".to_string(), details: "详情".to_string() },
        experience: Experience { level: "良好".to_string(), details: "详情".to_string() },
        strengths: vec![],
        concerns: vec![],
        focus: vec![],
    }
}

#[test]
fn hashing_matches_the_published_test_vector() {
    let a = analyzer();
    assert_eq!(
        a.calculate_hash(b"abc"),
        "ba7816bf8f01cfea414140de5dae2223b00361a396177a9cb410ff61f20015ad"
    );
    assert_eq!(
        a.calculate_hash(b""),
        "e3b0c44298fc1c149afbf4c8996fb92427ae41e4649b934ca495991b7852b855"
    );
}

#[test]
fn extensions_are_lowercased_with_a_pdf_default() {
    assert_eq!(Analyzer::get_extension("Resume.PDF"), "pdf");
    assert_eq!(Analyzer::get_extension("a.b.DocX"), "docx");
    assert_eq!(Analyzer::get_extension("noext"), "pdf");
    assert_eq!(Analyzer::get_extension(".hidden"), "pdf");
}

#[test]
fn storing_identical_bytes_twice_writes_once() {
    let mut a = analyzer();
    let first = a.save_file(b"same bytes", "cv.pdf");
    let second = a.save_file(b"same bytes", "cv.pdf");
    assert!(first.wrote);
    assert!(!second.wrote);
    assert_eq!(first.stored_name, second.stored_name);
    assert_eq!(first.url, second.url);
    assert!(first.url.starts_with("http://localhost:3000/files/"));
    assert!(first.stored_name.ends_with(".pdf"));
}

#[test]
fn upload_dedups_by_content_hash() {
    let mut repo = ResumeRepository::new();
    let mut a = analyzer();
    let first = upload_resume(&mut repo, &mut a, b"bytes", "one.pdf", 100).unwrap();
    assert_eq!(first.status, "pending");
    assert_eq!(first.id.len(), 36);
    // The same bytes again: the existing record comes back unchanged.
    let again = upload_resume(&mut repo, &mut a, b"bytes", "one.pdf", 200).unwrap();
    assert_eq!(again.id, first.id);
    assert_eq!(repo.records.len(), 1);
}

#[test]
fn the_state_machine_runs_pending_analyzing_terminal() {
    let mut repo = ResumeRepository::new();
    let mut a = analyzer();
    let up = upload_resume(&mut repo, &mut a, b"bytes", "cv.pdf", 100).unwrap();
    assert_eq!(repo.find_by_id(&up.id).unwrap().status, ResumeStatus::Pending);

    let req = AnalyzeRequest { resume_ids: vec![up.id.clone()], job: "default".to_string() };
    let resp = analyze_resumes(&mut repo, &req);
    assert_eq!(resp.count, 1);
    assert_eq!(resp.message, "开始分析");
    assert_eq!(repo.find_by_id(&up.id).unwrap().status, ResumeStatus::Analyzing);
    let status = get_resume_status(&repo, &up.id).unwrap();
    assert_eq!(status.status, "analyzing");
    assert_eq!(status.progress, Some(50));

    complete_analysis(&mut repo, &up.id, Ok(tiny_analysis("张三", 85)), 300).unwrap();
    let done = repo.find_by_id(&up.id).unwrap();
    assert_eq!(done.status, ResumeStatus::Completed);
    assert!(done.analysis.is_some());
    assert_eq!(done.name, Some("张三".to_string()));
    assert_eq!(done.score, Some(85));
    assert_eq!(done.analyzed_at, Some(300));
    assert!(done.error_message.is_none());
    let status = get_resume_status(&repo, &up.id).unwrap();
    assert_eq!(status.progress, None);
}

#[test]
fn a_failed_task_records_the_error() {
    let mut repo = ResumeRepository::new();
    let mut a = analyzer();
    let up = upload_resume(&mut repo, &mut a, b"bytes", "cv.pdf", 100).unwrap();
    let req = AnalyzeRequest { resume_ids: vec![up.id.clone()], job: "default".to_string() };
    analyze_resumes(&mut repo, &req);
    complete_analysis(
        &mut repo,
        &up.id,
        Err(AppError::UpstreamError("status 502".to_string())),
        300,
    )
    .unwrap();
    let failed = repo.find_by_id(&up.id).unwrap();
    assert_eq!(failed.status, ResumeStatus::Failed);
    assert_eq!(failed.error_message, Some("LLM API error: status 502".to_string()));
    // A failed attempt is still an attempt: its time is stamped.
    assert_eq!(failed.analyzed_at, Some(300));
    assert!(failed.analysis.is_none());
}

#[test]
fn one_failure_leaves_the_other_outcomes_alone() {
    let mut repo = ResumeRepository::new();
    let mut a = analyzer();
    let up1 = upload_resume(&mut repo, &mut a, b"one", "1.pdf", 1).unwrap();
    let up2 = upload_resume(&mut repo, &mut a, b"two", "2.pdf", 2).unwrap();
    let up3 = upload_resume(&mut repo, &mut a, b"three", "3.pdf", 3).unwrap();
    let req = AnalyzeRequest {
        resume_ids: vec![up1.id.clone(), up2.id.clone(), up3.id.clone()],
        job: "default".to_string(),
    };
    analyze_resumes(&mut repo, &req);
    // Inject a gateway failure for the middle record only.
    complete_analysis(&mut repo, &up1.id, Ok(tiny_analysis("甲", 70)), 10).unwrap();
    complete_analysis(
        &mut repo,
        &up2.id,
        Err(AppError::ProtocolError("No choices in response".to_string())),
        11,
    )
    .unwrap();
    complete_analysis(&mut repo, &up3.id, Ok(tiny_analysis("丙", 90)), 12).unwrap();

    assert_eq!(repo.find_by_id(&up1.id).unwrap().status, ResumeStatus::Completed);
    assert_eq!(repo.find_by_id(&up2.id).unwrap().status, ResumeStatus::Failed);
    assert_eq!(repo.find_by_id(&up3.id).unwrap().status, ResumeStatus::Completed);
    assert_eq!(repo.find_by_id(&up1.id).unwrap().score, Some(70));
    assert_eq!(repo.find_by_id(&up3.id).unwrap().score, Some(90));
}

#[test]
fn the_gateway_judges_status_and_envelope() {
    assert!(check_upstream_status(200, "").is_ok());
    assert!(check_upstream_status(204, "").is_ok());
    match check_upstream_status(502, "overloaded") {
        Err(AppError::UpstreamError(msg)) => {
            assert_eq!(msg, "LLM API returned status 502: overloaded");
        }
        _ => panic!("expected an upstream error"),
    }

    let empty = ChatResponse { choices: vec![] };
    match first_choice_content(&empty) {
        Err(AppError::ProtocolError(msg)) => assert_eq!(msg, "No choices in response"),
        _ => panic!("expected a protocol error"),
    }
    let resp = ChatResponse {
        choices: vec![Choice { message: ResponseMessage { content: "raw output".to_string() } }],
    };
    assert_eq!(first_choice_content(&resp).unwrap(), "raw output");

    assert_eq!(
        chat_completions_url("https://llm.example.com/v1"),
        "https://llm.example.com/v1/chat/completions"
    );
    assert_eq!(bearer_header("k"), "Bearer k");
}

#[test]
fn the_request_carries_persona_file_and_instruction() {
    let a = analyzer();
    let req = a.build_request("http://localhost:3000/files/x.pdf", Some("default")).unwrap();
    assert_eq!(req.model, "vision-model");
    assert_eq!(req.messages.len(), 2);
    assert_eq!(req.messages[0].role, "system");
    assert_eq!(req.messages[1].role, "user");
    assert_eq!(req.temperature_tenths, Some(7));
    match &req.messages[1].content {
        Some(MessageContent::MultiModal(parts)) => {
            assert_eq!(parts.len(), 2);
        }
        _ => panic!("expected a multimodal user message"),
    }
    // An unknown key with no default fails.
    let bare = PromptManager { jobs_cache: vec![] };
    let empty = Analyzer::new(
        LlmConfig {
            base_url: "u".to_string(),
            model: "m".to_string(),
            api_key: "test-key".to_string(),
        },
        ServerConfig {
            files_dir: "f".to_string(),
            logs_dir: "l".to_string(),
            base_url: "b".to_string(),
        },
        bare,
    );
    assert!(empty.build_request("url", Some("anything")).is_err());
}

#[test]
fn errors_map_to_status_classes_and_texts() {
    assert_eq!(AppError::FileError("x".to_string()).status_code(), 400);
    assert_eq!(AppError::NotFoundError("x".to_string()).status_code(), 400);
    assert_eq!(AppError::UpstreamError("x".to_string()).status_code(), 502);
    assert_eq!(AppError::ProtocolError("x".to_string()).status_code(), 502);
    assert_eq!(AppError::ParseError("x".to_string()).status_code(), 502);
    assert_eq!(AppError::StorageError("x".to_string()).status_code(), 500);
    assert_eq!(
        AppError::FileError("bad upload".to_string()).display_string(),
        "File processing error: bad upload"
    );
    assert_eq!(
        AppError::ParseError("text".to_string()).display_string(),
        "Analysis parse error: text"
    );
}

#[test]
fn log_entries_carry_their_parts() {
    let logger = Logger::new("./logs");
    assert_eq!(
        logger.log_file_path("llm_request_", "20240101_120000.000"),
        "./logs/llm_request_20240101_120000.000.log"
    );
    let content = Logger::response_log_content("2024-01-01 12:00:00.000", "line one\nline two");
    assert!(content.contains("Content Length: 17 chars"));
    assert!(content.contains("Content Lines: 2"));
    assert!(content.contains("line one\nline two"));
    let req = Logger::request_log_content("ts", "http://f", "sys", "user", "{}");
    assert!(req.contains("LLM Request Log"));
    assert!(req.contains("File URL: http://f"));
    let err = Logger::error_log_content("ts", "LLM API Error", "boom");
    assert!(err.contains("Context: LLM API Error"));
    assert!(err.contains("boom"));
}
