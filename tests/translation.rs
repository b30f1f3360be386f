use vecho_studio::response::parse_translation_pairs;
use vecho_studio::service::{chat_reply_content, parse_openai_sse_text};
use vecho_studio::translate::{
    after_format, FormatStep, assemble, build_prompt, collect_units, failure_message, interpret_reply, is_transient_error,
    language_label, merge_translations, missing_units, normalize_target_lang, plan_batches,
    retry_delay_ms, should_split_translation_error, system_prompt, wants_chinese, AutoSplit,
    TranslationUnit, MAX_ITERATIONS, MAX_SPLITS,
};

fn units(n: usize) -> Vec<TranslationUnit> {
    (1..=n).map(|i| TranslationUnit { id: format!("u{}", i), text: format!("source {}", i) }).collect()
}

fn pairs(ids: &[&str]) -> Vec<(String, String)> {
    ids.iter().map(|id| (id.to_string(), format!("tr {}", id))).collect()
}

fn p(id: &str, text: &str) -> (String, String) {
    (id.to_string(), text.to_string())
}

#[test]
fn truncated_batch_is_bisected_and_completed() {
    let us = units(7);
    let mut done: Vec<Option<String>> = vec![None; 7];
    let mut job = AutoSplit::new((0..7).collect());
    let req = job.next_batch(&done).unwrap();
    assert_eq!((req.start, req.end), (0, 7));
    assert_eq!(req.units, vec![0, 1, 2, 3, 4, 5, 6]);
    job.record(&req, Ok(pairs(&["u1", "u2", "u3", "u4"])), &us, &mut done);
    assert_eq!(job.pending, vec![(3, 7), (0, 3)]);
    let req2 = job.next_batch(&done).unwrap();
    assert_eq!((req2.start, req2.end), (3, 7));
    assert_eq!(req2.units, vec![4, 5, 6]);
    job.record(&req2, Ok(pairs(&["u5", "u6", "u7"])), &us, &mut done);
    assert!(job.next_batch(&done).is_none());
    assert!(job.finished);
    assert!(missing_units(&done).is_empty());
    let a = assemble(&us, &done);
    assert_eq!(a.translated_count, 7);
    assert_eq!(a.translated[0], "tr u1");
    assert_eq!(a.translated[6], "tr u7");
    assert_eq!(a.bilingual[4], "source 5\ntr u5");
}

#[test]
fn failures_that_name_truncation_split_others_do_not() {
    let us = units(4);
    let mut done: Vec<Option<String>> = vec![None; 4];
    let mut job = AutoSplit::new((0..4).collect());
    let req = job.next_batch(&done).unwrap();
    job.record(&req, Err("HTTP 401 unauthorized".to_string()), &us, &mut done);
    assert!(job.pending.is_empty());
    assert_eq!(job.last_error, Some("HTTP 401 unauthorized".to_string()));
    let mut job2 = AutoSplit::new((0..4).collect());
    let req = job2.next_batch(&done).unwrap();
    job2.record(&req, Err("Translate output missing JSON".to_string()), &us, &mut done);
    assert_eq!(job2.pending, vec![(2, 4), (0, 2)]);
    assert_eq!(job2.splits, 1);
}

#[test]
fn bisection_terminates_within_its_ceilings() {
    let n = 5000usize;
    let us = units(n);
    let mut done: Vec<Option<String>> = vec![None; n];
    let mut job = AutoSplit::new((0..n).collect());
    let mut requests = 0usize;
    while let Some(req) = job.next_batch(&done) {
        requests += 1;
        job.record(&req, Err("translate output missing JSON".to_string()), &us, &mut done);
    }
    assert!(requests <= MAX_ITERATIONS);
    assert_eq!(job.splits, MAX_SPLITS);
    assert!(job.finished);
    assert_eq!(missing_units(&done).len(), n);
    let a = assemble(&us, &done);
    assert_eq!(a.translated_count, 0);
    assert_eq!(a.translated[17], "source 18");
}

#[test]
fn single_unit_failure_is_not_split() {
    let us = units(1);
    let mut done: Vec<Option<String>> = vec![None];
    let mut job = AutoSplit::new(vec![0]);
    let req = job.next_batch(&done).unwrap();
    job.record(&req, Err("translate output missing JSON".to_string()), &us, &mut done);
    assert_eq!(job.splits, 0);
    assert!(job.next_batch(&done).is_none());
}

#[test]
fn replies_only_fill_units_of_their_range() {
    let us = units(4);
    let mut done: Vec<Option<String>> = vec![None; 4];
    let mut job = AutoSplit::new(vec![2, 3]);
    let req = job.next_batch(&done).unwrap();
    assert_eq!(req.units, vec![2, 3]);
    job.record(&req, Ok(vec![p("u1", "x"), p("u3", "three"), p("u4", ""), p("zz", "?")]), &us, &mut done);
    assert_eq!(done, vec![None, None, Some("three".to_string()), None]);
    assert_eq!(job.pending, vec![(1, 2), (0, 1)]);
}

#[test]
fn every_unit_gets_text() {
    let us = units(3);
    let done = vec![Some("one".to_string()), None, Some("three".to_string())];
    let a = assemble(&us, &done);
    assert_eq!(a.translated, vec!["one".to_string(), "source 2".to_string(), "three".to_string()]);
    assert_eq!(a.bilingual[1], "source 2\nsource 2");
    assert_eq!(a.translated_count, 2);
}

#[test]
fn merge_and_missing() {
    let mut global = vec![Some("a".to_string()), None, None];
    let local = vec![None, Some("b".to_string()), None];
    merge_translations(&mut global, &local);
    assert_eq!(global, vec![Some("a".to_string()), Some("b".to_string()), None]);
    assert_eq!(missing_units(&global), vec![2]);
}

#[test]
fn units_skip_blank_ids_and_texts() {
    let segs = vec![p(" s1 ", " hi "), p("", "x"), p("s3", "  "), p("s4", "ok")];
    let us = collect_units(&segs);
    assert_eq!(us.len(), 2);
    assert_eq!((us[0].id.as_str(), us[0].text.as_str()), ("s1", "hi"));
    assert_eq!((us[1].id.as_str(), us[1].text.as_str()), ("s4", "ok"));
}

#[test]
fn batches_respect_items_and_characters() {
    let us = units(7);
    assert_eq!(plan_batches(&us, 7, 14_000), vec![(0, 7)]);
    assert_eq!(plan_batches(&us, 3, 14_000), vec![(0, 3), (3, 6), (6, 7)]);
    // each unit costs 8 characters plus 32
    assert_eq!(plan_batches(&us, 140, 80), vec![(0, 2), (2, 4), (4, 6), (6, 7)]);
    assert_eq!(plan_batches(&us, 140, 10), vec![(0, 1), (1, 2), (2, 3), (3, 4), (4, 5), (5, 6), (6, 7)]);
    assert_eq!(plan_batches(&[], 140, 10), vec![]);
}

#[test]
fn split_classification() {
    assert!(should_split_translation_error("Translate Output Missing JSON\nraw"));
    assert!(should_split_translation_error("translate output DOES NOT LOOK LIKE CHINESE"));
    assert!(should_split_translation_error("event-stream returned no content"));
    assert!(!should_split_translation_error("HTTP 500 internal"));
}

#[test]
fn transient_classification_and_backoff() {
    assert!(is_transient_error("HTTP 429 Too Many Requests"));
    assert!(is_transient_error("request TIMEOUT"));
    assert!(!is_transient_error("HTTP 400 bad request"));
    assert_eq!(retry_delay_ms(0, "HTTP 503"), Some(350));
    assert_eq!(retry_delay_ms(1, "Rate Limit reached"), Some(900));
    assert_eq!(retry_delay_ms(2, "HTTP 503"), None);
    assert_eq!(retry_delay_ms(0, "unknown parameter"), None);
}

#[test]
fn parse_array_of_pairs() {
    let r = parse_translation_pairs("[[\"u1\",\" one \"],[\"u2\",\"two\"],[\"u3\"],[\"\",\"x\"]]").unwrap();
    assert_eq!(r, vec![p("u1", "one"), p("u2", "two")]);
}

#[test]
fn parse_object_with_segments_and_synonyms() {
    let raw = "```json\n{\"segments\":[{\"id\":\"a\",\"translation\":\"A\"},{\"id\":\"b\",\"output\":\"B\"},{\"id\":\"c\",\"note\":\"C\",\"start\":\"0\"}]}\n```";
    let r = parse_translation_pairs(raw).unwrap();
    assert_eq!(r, vec![p("a", "A"), p("b", "B"), p("c", "C")]);
    let r2 = parse_translation_pairs("{\"translations\":[{\"id\":\"x\",\"text\":\"X\"}]}").unwrap();
    assert_eq!(r2, vec![p("x", "X")]);
}

#[test]
fn parse_salvages_truncated_output() {
    let full = "{\"segments\":[{\"id\":\"u1\",\"text\":\"one\"},{\"id\":\"u2\",\"text\":\"two\"},{\"id\":\"u3\",\"text\":\"three\"}]}";
    let cut = "{\"segments\":[{\"id\":\"u1\",\"text\":\"one\"},{\"id\":\"u2\",\"text\":\"two\"},{\"id\":\"u3\",\"te";
    let a = parse_translation_pairs(full).unwrap();
    let b = parse_translation_pairs(cut).unwrap();
    assert_eq!(a, vec![p("u1", "one"), p("u2", "two"), p("u3", "three")]);
    assert_eq!(b, vec![p("u1", "one"), p("u2", "two")]);
    let arr = "[{\"id\":\"u1\",\"text\":\"one\"},{\"id\":\"u2\",\"text\":\"tw";
    assert_eq!(parse_translation_pairs(arr).unwrap_err(), "translate output missing segments array");
}

#[test]
fn parse_newline_delimited() {
    let raw = "{\"id\":\"u1\",\"text\":\"one\"}\nnot json\n\n  note: {\"id\":\"u2\",\"translated\":\"two\"} ok\n[\"u3\",\"three\"]\n{\"id\":\"u4\",\"te";
    let r = parse_translation_pairs(raw).unwrap();
    assert_eq!(r, vec![p("u1", "one"), p("u2", "two"), p("u3", "three")]);
}

#[test]
fn parse_failures_have_distinct_messages() {
    let e = parse_translation_pairs("  sorry, I cannot  ").unwrap_err();
    assert_eq!(e, "translate output missing JSON\nraw (first 400 chars):\nsorry, I cannot");
    let e2 = parse_translation_pairs("{\"foo\": 1}").unwrap_err();
    assert_eq!(e2, "translate output missing segments array");
    let e3 = parse_translation_pairs("[{\"id\":\"u1\"}]").unwrap_err();
    assert_eq!(e3, "translate output had no usable segments");
    let long: String = std::iter::repeat('z').take(500).collect();
    let e4 = parse_translation_pairs(&long).unwrap_err();
    assert_eq!(e4.chars().count(), "translate output missing JSON\nraw (first 400 chars):\n".chars().count() + 400);
}

#[test]
fn chinese_target_requires_han_characters() {
    let raw = "[[\"u1\",\"hello\"],[\"u2\",\"world\"],[\"u3\",\"again\"]]";
    assert_eq!(interpret_reply(raw, true, 3).unwrap_err(), "translate output does not look like Chinese");
    assert_eq!(interpret_reply(raw, true, 2).unwrap().len(), 3);
    assert_eq!(interpret_reply(raw, false, 3).unwrap().len(), 3);
    let zh = "[[\"u1\",\"你好\"],[\"u2\",\"world\"],[\"u3\",\"again\"]]";
    assert_eq!(interpret_reply(zh, true, 3).unwrap().len(), 3);
}

#[test]
fn target_language_helpers() {
    assert_eq!(normalize_target_lang("  ZH-CN "), "zh-cn");
    assert!(wants_chinese("zh-cn"));
    assert!(!wants_chinese("en"));
    assert_eq!(language_label("zh"), "Simplified Chinese");
    assert_eq!(language_label("fr"), "fr");
}

#[test]
fn prompts_name_language_and_payload() {
    let p1 = build_prompt(0, "French", "[{\"id\":\"a\",\"text\":\"b\"}]");
    assert!(p1.starts_with("You are a translation engine. Translate each item to French.\nOutput format: JSONL"));
    assert!(p1.ends_with("Input JSON array:\n[{\"id\":\"a\",\"text\":\"b\"}]\n"));
    let p2 = build_prompt(1, "French", "P");
    assert_eq!(p2, "Translate to French. Output ONLY JSON. No markdown.\nFormat: [[\"id\",\"text\"], ...] (array of 2-item arrays).\nKeep ids unchanged. Do NOT add/remove items.\n\nInput:\nP\n");
    let p3 = build_prompt(2, "French", "P");
    assert!(p3.contains("Schema: {\"segments\":[{\"id\":string,\"text\":string}]}"));
    assert_eq!(system_prompt("French"), "You are a translation engine. Translate to French. Output ONLY JSON.");
}

#[test]
fn failure_message_previews_last_error() {
    assert_eq!(failure_message(None), "translation produced no segments\n\nlast error (first 380 chars):\nunknown error");
    assert_eq!(failure_message(Some("  ")), "translation produced no segments\n\nlast error (first 380 chars):\nunknown error");
    assert_eq!(failure_message(Some(" boom ")), "translation produced no segments\n\nlast error (first 380 chars):\nboom");
}

#[test]
fn formats_are_tried_in_turn() {
    match after_format(0, Err("HTTP 400 unknown parameter".to_string())) {
        FormatStep::Next(1, e) => assert_eq!(e, "HTTP 400 unknown parameter"),
        _ => panic!("expected the next format"),
    }
    match after_format(2, Err("translate output missing segments array".to_string())) {
        FormatStep::Done(Err(e)) => assert_eq!(e, "translate output missing segments array"),
        _ => panic!("expected the end"),
    }
    match after_format(1, Ok(vec![p("a", "b")])) {
        FormatStep::Done(Ok(v)) => assert_eq!(v, vec![p("a", "b")]),
        _ => panic!("expected the pairs"),
    }
}

#[test]
fn chat_replies_are_read() {
    let ok = chat_reply_content(true, "200", "application/json", "{\"choices\":[{\"message\":{\"content\":\" hi \"}}]}");
    assert_eq!(ok, Ok(" hi ".to_string()));
    let blank = chat_reply_content(true, "200", "application/json", "{\"choices\":[{\"message\":{\"content\":\"  \"}}]}");
    assert_eq!(blank, Err("openai response missing content".to_string()));
    let failed = chat_reply_content(false, "429", "application/json", "slow down");
    assert_eq!(failed, Err("openai request failed: http 429\nslow down".to_string()));
    assert!(is_transient_error(&failed.unwrap_err()));
    let html = chat_reply_content(true, "200", "text/html", "  <html>oops</html>");
    assert_eq!(
        html,
        Err("openai response is not JSON (looks like HTML). Check baseUrl (should end with /v1).\ncontent-type: text/html\nbody (first 200 chars):\n<html>oops</html>".to_string())
    );
    let noisy = chat_reply_content(true, "200", "application/json", "note {\"choices\":[{\"message\":{\"content\":\"x\"}}]} end");
    assert_eq!(noisy, Ok("x".to_string()));
    let bad = chat_reply_content(true, "200", "application/json", "nope");
    assert_eq!(bad, Err("parse openai json failed\ncontent-type: application/json\nbody (first 400 chars):\nnope".to_string()));
}

#[test]
fn event_streams_are_read() {
    let stream = "data: {\"choices\":[{\"delta\":{\"content\":\"Hel\"}}]}\n\n: ping\ndata: {\"choices\":[{\"delta\":{\"content\":[\"lo\",{\"text\":\"!\"}]}}]}\ndata: [DONE]\ndata: {\"choices\":[{\"delta\":{\"content\":\"late\"}}]}\n";
    assert_eq!(parse_openai_sse_text(stream), Ok("Hello!".to_string()));
    assert_eq!(chat_reply_content(true, "200", "Text/Event-Stream", stream), Ok("Hello!".to_string()));
    let reasoning = "data: {\"choices\":[{\"delta\":{\"reasoning_content\":\"think\"}}]}\n";
    assert_eq!(parse_openai_sse_text(reasoning), Ok("think".to_string()));
    let empty = parse_openai_sse_text("data: [DONE]\n");
    assert_eq!(empty, Err("openai event-stream returned no content".to_string()));
    assert!(should_split_translation_error(&empty.unwrap_err()));
}
