use vecho_studio::reconcile::{
    dominant_language, merge_sense_voice_chunks, normalize_sense_token,
    pick_dominant_language_from_results, segments_from_merged_tokens_with_lang,
    tokens_with_estimated_timestamps_ms, RecognitionResult,
};
use vecho_studio::window::{plan_windows, TimeWindow};

fn result(lang: &str, text: &str, tokens: &[&str], ts: &[u64]) -> RecognitionResult {
    RecognitionResult {
        language: lang.to_string(),
        text: text.to_string(),
        tokens: tokens.iter().map(|t| t.to_string()).collect(),
        timestamps_ms: ts.to_vec(),
    }
}

fn window(index: usize, start_ms: u64, duration_ms: u64) -> TimeWindow {
    TimeWindow { index, start_ms, duration_ms }
}

#[test]
fn windows_overlap_and_clip_the_last() {
    let ws = plan_windows(100_000, 45_000, 8_000);
    assert_eq!(ws, vec![window(0, 0, 45_000), window(1, 37_000, 45_000), window(2, 74_000, 26_000)]);
}

#[test]
fn windows_unknown_duration_gives_one_window() {
    assert_eq!(plan_windows(0, 45_000, 8_000), vec![window(0, 0, 45_000)]);
}

#[test]
fn windows_step_has_a_floor() {
    let ws = plan_windows(3_000, 2_000, 1_900);
    assert_eq!(ws, vec![window(0, 0, 2_000), window(1, 1_000, 2_000), window(2, 2_000, 1_000)]);
}

#[test]
fn windows_cover_the_timeline_without_gaps() {
    for &(d, l, o) in &[(1u64, 1000u64, 0u64), (90_001, 45_000, 8_000), (7_777, 1_500, 1_499), (45_000, 45_000, 0)] {
        let ws = plan_windows(d, l, o);
        assert_eq!(ws[0].start_ms, 0);
        let mut covered_to = 0u64;
        for w in &ws {
            assert!(w.start_ms <= covered_to);
            assert!(w.start_ms + w.duration_ms <= d);
            covered_to = covered_to.max(w.start_ms + w.duration_ms);
        }
        assert_eq!(covered_to, d);
    }
}

#[test]
fn control_and_blank_tokens_are_dropped() {
    assert_eq!(normalize_sense_token("<|en|>"), None);
    assert_eq!(normalize_sense_token("   "), None);
    assert_eq!(normalize_sense_token(" <|>"), None);
    assert_eq!(normalize_sense_token(" hi"), Some(" hi".to_string()));
}

#[test]
fn missing_timestamps_are_extrapolated_and_clamped() {
    let r = result("en", "", &["a", "<|en|>", "b", "c", "d"], &[1000, 0, 1200]);
    let toks = tokens_with_estimated_timestamps_ms(&r);
    assert_eq!(
        toks,
        vec![(1000, "a".to_string()), (1200, "b".to_string()), (1250, "c".to_string()), (1300, "d".to_string())]
    );
    let back = result("en", "", &["a", "b"], &[900, 300]);
    assert_eq!(tokens_with_estimated_timestamps_ms(&back), vec![(900, "a".to_string()), (900, "b".to_string())]);
}

#[test]
fn overlap_duplicate_is_kept_once() {
    let windows = vec![window(0, 0, 45_000), window(1, 37_000, 45_000)];
    let results = vec![
        result("en", "hello", &["hello"], &[40_000]),
        result("en", "hello", &["hello"], &[3_050]),
    ];
    let segs = merge_sense_voice_chunks(&results, &windows, None);
    assert_eq!(segs, vec![(40_000, 40_000, "hello".to_string())]);
}

#[test]
fn tokens_near_shared_edges_are_dropped() {
    let windows = vec![window(0, 0, 45_000), window(1, 37_000, 45_000)];
    let results = vec![
        result("zh", "", &["你", "好"], &[1_000, 44_000]),
        result("zh", "", &["早", "。"], &[1_000, 10_000]),
    ];
    let segs = merge_sense_voice_chunks(&results, &windows, Some("zh"));
    assert_eq!(segs, vec![(1_000, 47_000, "你。".to_string())]);
}

#[test]
fn no_tokens_falls_back_to_window_text() {
    let windows = vec![window(0, 0, 45_000), window(1, 37_000, 20_000)];
    let results = vec![result("en", "  first part ", &[], &[]), result("en", "", &[], &[])];
    let segs = merge_sense_voice_chunks(&results, &windows, None);
    assert_eq!(segs, vec![(0, 45_000, "first part".to_string())]);
}

#[test]
fn reconciliation_is_repeatable() {
    let windows = plan_windows(90_000, 45_000, 8_000);
    let results = vec![
        result("en", "", &["Hi", " there", ".", " Next"], &[500, 900, 1_000, 20_000]),
        result("en", "", &[" Next", " words"], &[3_000, 6_000]),
        result("en", "", &[" end", "."], &[5_000, 5_100]),
    ];
    let a = merge_sense_voice_chunks(&results, &windows, Some("en"));
    let b = merge_sense_voice_chunks(&results, &windows, Some("en"));
    assert_eq!(a, b);
    for i in 0..a.len() {
        assert!(a[i].1 >= a[i].0);
        if i + 1 < a.len() {
            assert!(a[i].0 <= a[i + 1].0);
        }
    }
}

#[test]
fn segments_close_at_punctuation_and_pauses() {
    let toks = vec![
        (0u64, "Hello".to_string()),
        (100, " world".to_string()),
        (200, ".".to_string()),
        (300, " Then".to_string()),
        (400, " a long sentence".to_string()),
        (2_000, " after".to_string()),
    ];
    let en = segments_from_merged_tokens_with_lang(&toks, Some(" en "));
    assert_eq!(
        en,
        vec![
            (0, 200, "Hello world.".to_string()),
            (300, 400, "Then a long sentence".to_string()),
            (2_000, 2_000, "after".to_string()),
        ]
    );
    let other = segments_from_merged_tokens_with_lang(&toks, None);
    assert_eq!(
        other,
        vec![
            (0, 200, "Hello world.".to_string()),
            (300, 400, "Then a long sentence".to_string()),
            (2_000, 2_000, "after".to_string()),
        ]
    );
    let short_gap = vec![(0u64, "abc".to_string()), (1_000, "def".to_string())];
    assert_eq!(segments_from_merged_tokens_with_lang(&short_gap, Some("en")), vec![(0, 1_000, "abcdef".to_string())]);
}

#[test]
fn segments_close_at_length_limit() {
    let long: String = std::iter::repeat('x').take(110).collect();
    let toks = vec![(0u64, long.clone()), (10, "y".to_string())];
    assert_eq!(
        segments_from_merged_tokens_with_lang(&toks, Some("EN")),
        vec![(0, 0, long.clone()), (10, 10, "y".to_string())]
    );
    assert_eq!(
        segments_from_merged_tokens_with_lang(&toks, Some("zh")),
        vec![(0, 10, format!("{}y", long))]
    );
}

#[test]
fn dominant_language_locks_in_at_eighty_percent() {
    let w = vec![("en".to_string(), 950u64), ("zh".to_string(), 50u64)];
    assert_eq!(dominant_language(&w, 1000), Some("en".to_string()));
    let w2 = vec![("en".to_string(), 600u64), ("zh".to_string(), 400u64)];
    assert_eq!(dominant_language(&w2, 1000), None);
    let w3 = vec![("en".to_string(), 79u64)];
    assert_eq!(dominant_language(&w3, 79), None);
    let w4 = vec![("en".to_string(), 80u64), ("zh".to_string(), 20u64)];
    assert_eq!(dominant_language(&w4, 100), Some("en".to_string()));
}

#[test]
fn dominant_language_from_results_weighs_visible_characters() {
    let en: String = std::iter::repeat("word ").take(40).collect();
    let results = vec![
        result("<|en|>", &en, &[], &[]),
        result("en", "more text here", &[], &[]),
        result("zh", "中文", &[], &[]),
        result("auto", "ignored ignored ignored", &[], &[]),
        result(" ", "also ignored", &[], &[]),
    ];
    assert_eq!(pick_dominant_language_from_results(&results[1..]), None);
    let results2 = vec![result("en", &en, &[], &[]), result("zh", "中文", &[], &[])];
    assert_eq!(pick_dominant_language_from_results(&results2), Some("en".to_string()));
    let tiny = vec![result("en", "", &[], &[])];
    assert_eq!(pick_dominant_language_from_results(&tiny), None);
}

#[test]
fn empty_input_gives_empty_transcript() {
    assert!(merge_sense_voice_chunks(&[], &[], None).is_empty());
    let windows = vec![window(0, 0, 45_000)];
    let blank = vec![result("en", "   ", &["<|en|>", " "], &[0, 10])];
    assert!(merge_sense_voice_chunks(&blank, &windows, None).is_empty());
    assert!(segments_from_merged_tokens_with_lang(&[], Some("en")).is_empty());
}
