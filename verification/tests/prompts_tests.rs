use resume_insight::prompts::PromptManager;
use resume_insight::error::AppError;

fn job_files() -> Vec<(String, String)> {
    vec![
        (
            "rust-backend-engineer.md".to_string(),
            "# Rust 后端工程师\n\n- 精通 Rust\n- 熟悉异步编程\n".to_string(),
        ),
        (
            "default.md".to_string(),
            "# 通用岗位\n\n- 基本素质\n".to_string(),
        ),
        ("notes.txt".to_string(), "not a job file".to_string()),
    ]
}

#[test]
fn test_load_prompts() {
    let manager = PromptManager::load(job_files());
    assert!(manager.is_ok());
}

#[test]
fn test_build_prompt_for_vision() {
    let manager = PromptManager::load(job_files()).unwrap();

    let prompt = manager.build_analysis_prompt_for_vision(Some("rust-backend-engineer"));

    assert!(prompt.is_ok());
    let prompt = prompt.unwrap();
    assert!(prompt.contains("<job_title>"));
    assert!(prompt.contains("<analysis>"));
}

#[test]
fn load_fails_without_job_files() {
    let files = vec![("readme.txt".to_string(), "hello".to_string())];
    match PromptManager::load(files) {
        Err(AppError::FileError(_)) => {}
        _ => panic!("expected a file error for an empty catalog"),
    }
}

#[test]
fn unknown_key_falls_back_to_default() {
    let manager = PromptManager::load(job_files()).unwrap();
    let missing = manager
        .build_analysis_prompt_for_vision(Some("nonexistent-job"))
        .unwrap();
    let default = manager.build_analysis_prompt_for_vision(Some("default")).unwrap();
    assert_eq!(missing, default);
}

#[test]
fn resolution_fails_without_default() {
    let files = vec![(
        "rust-backend-engineer.md".to_string(),
        "# Rust 后端工程师\n".to_string(),
    )];
    let manager = PromptManager::load(files).unwrap();
    match manager.build_analysis_prompt_for_vision(Some("nonexistent-job")) {
        Err(AppError::NotFoundError(msg)) => {
            assert!(msg.contains("nonexistent-job"));
        }
        _ => panic!("expected a not-found error"),
    }
}

#[test]
fn title_comes_from_first_heading() {
    assert_eq!(
        PromptManager::extract_title("intro\n# Rust 后端工程师  \nbody"),
        "Rust 后端工程师"
    );
    assert_eq!(PromptManager::extract_title("no heading at all"), "未知岗位");
    assert_eq!(PromptManager::extract_title("# # Doubled"), "Doubled");
}

#[test]
fn prompt_embeds_title_and_requirements() {
    let manager = PromptManager::load(job_files()).unwrap();
    let prompt = manager
        .build_analysis_prompt_for_vision(Some("rust-backend-engineer"))
        .unwrap();
    assert!(prompt.contains("<job_title>Rust 后端工程师</job_title>"));
    assert!(prompt.contains("- 精通 Rust"));
    assert!(prompt.contains("严格的 XML 格式"));
}
