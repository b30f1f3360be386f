use vecho_studio::repair::sanitize_json_unicode_surrogates;
use vecho_studio::summary::{
    build_summary_mindmap, build_summary_mindmap_node, append_summary_diagrams, canonical_summary_timeline_lane_key, normalize_lane_key, sanitize_mermaid_label,
    strip_mermaid_code_blocks,
};
use vecho_studio::whisper::parse_whisper_output;
use vecho_studio::backend::{
    after_failed_run, is_cuda_dependency_missing, recognizer_language, AcceleratorLatch, BackendState,
};
use vecho_studio::job::{JobStatus, JobType, ProgressThrottle};
use vecho_studio::media::{
    default_true, extract_first_http_url, is_retryable_ytdlp_failure,
    looks_like_youtube_url, normalize_base_url, parse_u32, sanitize_filename_component,
    select_ytdlp_format, validate_media_id, ytdlp_upload_date_to_iso,
};

#[test]
fn media_ids() {
    assert_eq!(validate_media_id("  "), Err("media_id is empty".to_string()));
    assert_eq!(validate_media_id("video-1"), Err("invalid media_id".to_string()));
    let long = format!("media-{}", "a".repeat(123));
    assert_eq!(validate_media_id(&long), Err("media_id too long".to_string()));
    let long_ok = format!("media-{}", "a".repeat(122));
    assert_eq!(validate_media_id(&long_ok), Ok(()));
    let wide = format!("media-{}", "é".repeat(62));
    assert_eq!(validate_media_id(&wide), Err("media_id too long".to_string()));
    assert_eq!(validate_media_id("media-a/b"), Err("invalid media_id characters".to_string()));
    assert_eq!(validate_media_id(" media-abc_12-x "), Ok(()));
}

#[test]
fn youtube_urls() {
    assert!(looks_like_youtube_url("  https://WWW.YouTube.com/watch?v=1 "));
    assert!(looks_like_youtube_url("https://YOUTU.BE/x"));
    assert!(!looks_like_youtube_url("https://vimeo.com/1"));
}

#[test]
fn download_failures() {
    assert!(is_retryable_ytdlp_failure("ERROR: Connection Reset by peer"));
    assert!(is_retryable_ytdlp_failure("[SSL: UNEXPECTED_EOF]"));
    assert!(!is_retryable_ytdlp_failure("Video unavailable"));
}

#[test]
fn base_urls() {
    assert_eq!(normalize_base_url("  https://api.example.com/v1/// "), "https://api.example.com/v1");
    assert_eq!(normalize_base_url("///"), "");
}

#[test]
fn numbers() {
    assert_eq!(parse_u32(" 42 "), Some(42));
    assert_eq!(parse_u32("+7"), Some(7));
    assert_eq!(parse_u32("4294967295"), Some(4294967295));
    assert_eq!(parse_u32("4294967296"), None);
    assert_eq!(parse_u32("99999999999999999999x"), None);
    assert_eq!(parse_u32("-1"), None);
    assert_eq!(parse_u32("+"), None);
    assert_eq!(parse_u32("1a"), None);
    assert_eq!(parse_u32(""), None);
}

#[test]
fn upload_dates() {
    assert_eq!(ytdlp_upload_date_to_iso(" 20240131 "), Some("2024-01-31".to_string()));
    assert_eq!(ytdlp_upload_date_to_iso("2024013"), None);
    assert_eq!(ytdlp_upload_date_to_iso("2024O131"), None);
}

#[test]
fn file_names() {
    assert_eq!(sanitize_filename_component("  My: video/clip?  "), "My_ video_clip_");
    assert_eq!(sanitize_filename_component("中文 标题"), "中文 标题");
    assert_eq!(sanitize_filename_component("   "), "media");
    let long = format!("{} {}", "a".repeat(59), "b".repeat(10));
    assert_eq!(sanitize_filename_component(&long), "a".repeat(59));
}

#[test]
fn format_selection() {
    assert_eq!(
        select_ytdlp_format(true, Some(" 720P ")),
        "bestvideo[height<=720][ext=mp4]+bestaudio[ext=m4a]/bestvideo[height<=720]+bestaudio/best[height<=720][ext=mp4]/best[height<=720]/best"
    );
    assert_eq!(select_ytdlp_format(false, Some("480")), "best[height<=480][ext=mp4]/best[height<=480]/best");
    assert_eq!(select_ytdlp_format(true, None), "bestvideo[ext=mp4]+bestaudio[ext=m4a]/bestvideo+bestaudio/best");
    assert_eq!(select_ytdlp_format(false, Some("4k")), "best");
}

#[test]
fn mermaid_blocks_are_removed() {
    let md = "Intro\n```mermaid\ngraph TD\n```\nMiddle\n```rust\nfn x() {}\n```\nEnd";
    assert_eq!(strip_mermaid_code_blocks(md), "Intro\n\nMiddle\n```rust\nfn x() {}\n```\nEnd");
    assert_eq!(strip_mermaid_code_blocks("a```mermaid\nunterminated"), "a");
    assert_eq!(strip_mermaid_code_blocks("plain"), "plain");
}

#[test]
fn diagrams_are_appended() {
    let out = append_summary_diagrams(" Summary ", " gantt ", "mindmap", false);
    assert_eq!(
        out,
        "Summary\n\n## Narrative Timeline\n\n```mermaid\ngantt\n```\n\n## Logic Mind Map\n\n```mermaid\nmindmap\n```\n"
    );
    let zh = append_summary_diagrams("", "t", "m", true);
    assert_eq!(zh, "## 视频叙事流程\n\n```mermaid\nt\n```\n\n## 逻辑脑图\n\n```mermaid\nm\n```\n");
}

#[test]
fn urls_in_pasted_text() {
    assert_eq!(
        extract_first_http_url("看这个：https://example.com/a?b=1）。 thanks"),
        Some("https://example.com/a?b=1".to_string())
    );
    assert_eq!(extract_first_http_url("see http://x.org/p, and more"), Some("http://x.org/p".to_string()));
    assert_eq!(extract_first_http_url("no link here"), None);
    assert_eq!(extract_first_http_url("   "), None);
}

#[test]
fn flags_default_on() {
    assert!(default_true());
}

#[test]
fn progress_is_throttled() {
    let mut t = ProgressThrottle::new(0);
    assert!(!t.offer(100, 100, false));
    assert!(t.offer(400, 100, false));
    assert!(!t.offer(900, 100, false));
    assert!(!t.offer(500, 200, false));
    assert!(t.offer(800, 200, false));
    assert!(t.offer(810, 1000, false));
    assert!(t.offer(811, 1000, true));
    assert!(JobStatus::Failed.is_terminal());
    assert!(!JobStatus::Running.is_terminal());
    assert_ne!(JobType::Subtitle, JobType::Transcribe);
}

#[test]
fn accelerator_latch_is_one_way() {
    let mut l = AcceleratorLatch::new();
    assert_eq!(l.provider_for("cuda"), "cuda");
    l.mark_available();
    assert_eq!(l.state, BackendState::Available);
    l.mark_unavailable();
    l.mark_available();
    assert_eq!(l.state, BackendState::Unavailable);
    assert_eq!(l.provider_for("cuda"), "cpu");
    assert_eq!(l.provider_for("coreml"), "coreml");
}

#[test]
fn failed_runs_fall_back_once() {
    assert!(is_cuda_dependency_missing("Could not locate CUDNN64_9.dll. MISSING", ""));
    assert!(is_cuda_dependency_missing("", "onnxruntime_providers_cuda.dll: Error 126"));
    assert!(!is_cuda_dependency_missing("out of memory", "cudnn64_9"));
    let mut l = AcceleratorLatch::new();
    assert_eq!(after_failed_run(&mut l, 0, "cuda", "cudnn64_9.dll is missing", ""), None);
    assert_eq!(l.state, BackendState::Unavailable);
    let mut l2 = AcceleratorLatch::new();
    assert_eq!(
        after_failed_run(&mut l2, 1, "cuda", " cudnn64_9.dll is missing ", "  "),
        Some("sherpa-onnx-offline failed\ncudnn64_9.dll is missing".to_string())
    );
    assert_eq!(l2.state, BackendState::Untested);
    assert_eq!(after_failed_run(&mut l2, 0, "cpu", "", " out "), Some("sherpa-onnx-offline failed\nout".to_string()));
}

#[test]
fn recognizer_languages() {
    assert_eq!(recognizer_language(" en "), "en");
    assert_eq!(recognizer_language("yue"), "yue");
    assert_eq!(recognizer_language("fr"), "auto");
    assert_eq!(recognizer_language("EN"), "auto");
}

#[test]
fn lone_surrogates_are_replaced() {
    let fix = |s: &str| String::from_utf8(sanitize_json_unicode_surrogates(s.as_bytes())).unwrap();
    assert_eq!(fix(r#"{"t":"a😀b"}"#), "{\"t\":\"a😀b\"}");
    assert_eq!(fix(r#"{"t":"x\ud83dy"}"#), "{\"t\":\"x\u{FFFD}y\"}");
    assert_eq!(fix(r#"{"t":"\ude00"}"#), "{\"t\":\"\u{FFFD}\"}");
    assert_eq!(fix(r#"{"t":"é\n\"q\""}"#), r#"{"t":"é\n\"q\""}"#);
    assert_eq!(fix(r#"\ud83d outside"#), r#"\ud83d outside"#);
    assert_eq!(fix(r#""\uZZZZ""#), r#""\uZZZZ""#);
    assert_eq!(fix(r#""\u12"#), r#""\u12"#);
    assert_eq!(fix("\"ab\\"), "\"ab\\");
    let fixed = fix(r#"{"t":"\ud83d"}"#);
    assert!(serde_json::from_str::<serde_json::Value>(&fixed).is_ok());
}

#[test]
fn diagram_labels_and_lanes() {
    assert_eq!(
        sanitize_mermaid_label("  a: b,\n\n c [x] <y> `z`  "),
        "a： b， c 【x】 y z"
    );
    assert_eq!(sanitize_mermaid_label("   "), "");
    assert_eq!(normalize_lane_key("Core Appeal_X-Y"), "coreappealxy");
    assert_eq!(canonical_summary_timeline_lane_key("  Why it is FUN ", false), "coreappeal");
    assert_eq!(canonical_summary_timeline_lane_key("背景介绍", true), "概念定义");
    assert_eq!(canonical_summary_timeline_lane_key("Case comparison", false), "casestudy");
    assert_eq!(canonical_summary_timeline_lane_key("Final takeaway", false), "deepsummary");
    assert_eq!(canonical_summary_timeline_lane_key("misc", false), "concepts");
}

#[test]
fn whisper_documents() {
    let raw = br#"{"result":{"language":" en "},"transcription":[
        {"offsets":{"from":0,"to":1500},"text":" Hello \ud83d"},
        {"offsets":{"from":-5},"text":"next"},
        {"offsets":{"from":3000,"to":2000},"text":"back"},
        {"offsets":{"from":1.5,"to":2},"text":"float"},
        {"text":"   "}
    ]}"#;
    let fixed = String::from_utf8(sanitize_json_unicode_surrogates(raw)).unwrap();
    let (lang, segs) = parse_whisper_output(&fixed).unwrap();
    assert_eq!(lang, Some("en".to_string()));
    assert_eq!(
        segs,
        vec![
            (0, 1500, "Hello \u{FFFD}".to_string()),
            (0, -5, "next".to_string()),
            (3000, 3000, "back".to_string()),
            (0, 2, "float".to_string()),
        ]
    );
    assert!(parse_whisper_output("not json").is_none());
    let (none_lang, none_segs) = parse_whisper_output("{\"result\":{\"language\":\"  \"}}").unwrap();
    assert_eq!(none_lang, None);
    assert!(none_segs.is_empty());
}

fn json(text: &str) -> vecho_studio::response::Json {
    vecho_studio::response::json_value_in(&text.chars().collect::<Vec<char>>()).unwrap()
}

#[test]
fn mind_maps_are_drawn() {
    let doc = json(r#"{"root":"Plan: A","children":[{"label":" First ","children":["a (x)","",{"label":"b"}]},"Second"]}"#);
    assert_eq!(
        build_summary_mindmap(Some(&doc), false),
        "mindmap\n  root((Plan： A))\n    First\n      a （x）\n      b\n    Second\n"
    );
    let small = json(r#"{"children":["Only"]}"#);
    assert_eq!(
        build_summary_mindmap(Some(&small), true),
        "mindmap\n  root((逻辑结构))\n    Only\n    主题\n      观点\n      证据\n      结论\n"
    );
    assert_eq!(
        build_summary_mindmap(None, false),
        "mindmap\n  root((Logic Map))\n    Topic\n      Claims\n      Evidence\n      Conclusion\n"
    );
    let mut out = String::from("x\n");
    let deep = json(r#"{"label":"L","children":[{"label":"M","children":["N"]}]}"#);
    build_summary_mindmap_node(&mut out, &deep, 5);
    assert_eq!(out, "x\n          L\n            M\n");
}
