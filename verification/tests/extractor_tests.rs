use resume_insight::analysis::{Analysis, BasicInfo, Experience, Skills};
use resume_insight::error::AppError;
use resume_insight::extractor::{extract, to_wire};

fn sample_xml() -> String {
    "<analysis><basic_info><name>张三</name><gender>男</gender><age>28</age>\
     <phone>13800001111</phone><email>zhang@example.com</email><location>北京</location>\
     <work_years>5年</work_years><degree>本科</degree><major>计算机科学</major>\
     <school>北京大学</school><current_company>某公司</current_company>\
     <current_position>高级工程师</current_position></basic_info>\
     <score>85</score><summary>优秀候选人</summary>\
     <skills><level>优秀</level><details>技术栈扎实</details></skills>\
     <experience><level>良好</level><details>5年经验</details></experience>\
     <strengths><item>Rust 精通</item></strengths>\
     <concerns><item>团队协作待考察</item></concerns>\
     <focus><item>架构能力</item></focus></analysis>"
        .to_string()
}

fn sample_analysis() -> Analysis {
    Analysis {
        basic_info: BasicInfo {
            name: "张三".to_string(),
            gender: "男".to_string(),
            age: "28".to_string(),
            phone: "13800001111".to_string(),
            email: "zhang@example.com".to_string(),
            location: "北京".to_string(),
            work_years: "5年".to_string(),
            degree: "本科".to_string(),
            major: "计算机科学".to_string(),
            school: "北京大学".to_string(),
            current_company: "某公司".to_string(),
            current_position: "高级工程师".to_string(),
        },
        score: 85,
        summary: "优秀候选人".to_string(),
        skills: Skills { level: "优秀".to_string(), details: "技术栈扎实".to_string() },
        experience: Experience { level: "良好".to_string(), details: "5年经验".to_string() },
        strengths: vec!["Rust 精通".to_string()],
        concerns: vec!["团队协作待考察".to_string()],
        focus: vec!["架构能力".to_string()],
    }
}

fn assert_same(a: &Analysis, b: &Analysis) {
    assert_eq!(a.basic_info.name, b.basic_info.name);
    assert_eq!(a.basic_info.gender, b.basic_info.gender);
    assert_eq!(a.basic_info.age, b.basic_info.age);
    assert_eq!(a.basic_info.phone, b.basic_info.phone);
    assert_eq!(a.basic_info.email, b.basic_info.email);
    assert_eq!(a.basic_info.location, b.basic_info.location);
    assert_eq!(a.basic_info.work_years, b.basic_info.work_years);
    assert_eq!(a.basic_info.degree, b.basic_info.degree);
    assert_eq!(a.basic_info.major, b.basic_info.major);
    assert_eq!(a.basic_info.school, b.basic_info.school);
    assert_eq!(a.basic_info.current_company, b.basic_info.current_company);
    assert_eq!(a.basic_info.current_position, b.basic_info.current_position);
    assert_eq!(a.score, b.score);
    assert_eq!(a.summary, b.summary);
    assert_eq!(a.skills.level, b.skills.level);
    assert_eq!(a.skills.details, b.skills.details);
    assert_eq!(a.experience.level, b.experience.level);
    assert_eq!(a.experience.details, b.experience.details);
    assert_eq!(a.strengths, b.strengths);
    assert_eq!(a.concerns, b.concerns);
    assert_eq!(a.focus, b.focus);
}

#[test]
fn all_three_wrappings_parse_identically() {
    let xml = sample_xml();
    let fenced_lang = format!("blah ```xml {} ``` blah", xml);
    let fenced = format!("```{}```", xml);

    let a = extract(&fenced_lang).unwrap();
    let b = extract(&fenced).unwrap();
    let c = extract(&xml).unwrap();

    assert_same(&a, &c);
    assert_same(&b, &c);
    assert_same(&c, &sample_analysis());
}

#[test]
fn prose_and_whitespace_around_the_element_are_tolerated() {
    let xml = sample_xml();
    let wrapped = format!("Here is my answer:\n```xml\n{}\n```\nHope it helps!", xml);
    let a = extract(&wrapped).unwrap();
    assert_same(&a, &sample_analysis());
}

#[test]
fn unmatched_text_fails_with_the_original_text() {
    let raw = "no analysis element here at all";
    match extract(raw) {
        Err(AppError::ParseError(text)) => assert_eq!(text, raw),
        _ => panic!("expected a parse error carrying the text"),
    }
}

#[test]
fn an_unclosed_element_fails() {
    let xml = sample_xml().replace("</analysis>", "");
    match extract(&xml) {
        Err(AppError::ParseError(text)) => assert_eq!(text, xml),
        _ => panic!("expected a parse error"),
    }
}

#[test]
fn missing_required_field_fails() {
    // The summary element is missing.
    let xml = sample_xml().replace("<summary>优秀候选人</summary>", "");
    match extract(&xml) {
        Err(AppError::ParseError(text)) => assert_eq!(text, xml),
        _ => panic!("expected a parse error"),
    }
}

#[test]
fn non_numeric_score_fails() {
    let xml = sample_xml().replace("<score>85</score>", "<score>eighty</score>");
    assert!(extract(&xml).is_err());
}

#[test]
fn empty_lists_are_accepted() {
    let xml = sample_xml()
        .replace("<strengths><item>Rust 精通</item></strengths>", "<strengths></strengths>")
        .replace("<concerns><item>团队协作待考察</item></concerns>", "<concerns> </concerns>");
    let a = extract(&xml).unwrap();
    assert!(a.strengths.is_empty());
    assert!(a.concerns.is_empty());
    assert_eq!(a.focus, vec!["架构能力".to_string()]);
}

#[test]
fn wire_round_trip_preserves_every_field() {
    let original = sample_analysis();
    let wire = to_wire(&original);
    let back = extract(&wire).unwrap();
    assert_same(&back, &original);
}

#[test]
fn wire_round_trip_with_empty_lists() {
    let mut original = sample_analysis();
    original.strengths = vec![];
    original.concerns = vec![];
    original.focus = vec![];
    original.score = 0;
    let wire = to_wire(&original);
    let back = extract(&wire).unwrap();
    assert_same(&back, &original);
    assert!(back.strengths.is_empty());
}
