use echo::heuristics::{analysis_prompt, extract_context, run_heuristics};

#[test]
fn context_spans_before_and_after_the_match() {
    assert_eq!(extract_context("The quick brown fox", 4, 9, 2, 3), "e quick br");
}

#[test]
fn context_is_clipped_to_the_text() {
    assert_eq!(extract_context("short", 1, 3, 50, 100), "short");
}

#[test]
fn context_widens_to_whole_characters() {
    // "é" spans bytes 1..3; a context starting at byte 2 starts at byte 1 instead,
    // and one ending at byte 2 ends at byte 3.
    assert_eq!(extract_context("aébc", 3, 3, 1, 0), "é");
    assert_eq!(extract_context("aébc", 0, 1, 0, 1), "aé");
}

#[test]
fn heuristics_find_each_category() {
    let text = "Actually, I was wrong. Let's go with plan B. Turns out it works perfectly. \
                Ugh, this is annoying. Next time avoid that. Anyway, maybe later.";
    let r = run_heuristics(text);
    assert_eq!(r.corrections.len(), 2);
    assert_eq!(r.decisions.len(), 1);
    assert_eq!(r.discoveries.len(), 1);
    assert_eq!(r.success.len(), 1);
    assert_eq!(r.frustration.len(), 2);
    assert_eq!(r.anti_patterns.len(), 2);
    assert_eq!(r.pivots.len(), 1);
    assert_eq!(r.hedging.len(), 1);
    assert_eq!(r.weight_halves(), 6 * 2 + 6 + 6 + 4 * 2 + 3 + 3 * 2 + 2 + 1);
}

#[test]
fn legacy_aliases_repeat_categories() {
    let r = run_heuristics("Ugh. It works perfectly. I think so.");
    let mut expected = r.frustration.clone();
    expected.extend(r.success.iter().cloned());
    assert_eq!(r.emotions, expected);
    assert_eq!(r.held_back, r.hedging);
    assert!(!r.emotions.is_empty());
}

#[test]
fn heuristics_contexts_hold_their_matches() {
    let text = format!("{}I was wrong{}", "x ".repeat(40), " y".repeat(80));
    let r = run_heuristics(&text);
    assert_eq!(r.corrections.len(), 1);
    let ctx = &r.corrections[0];
    assert!(ctx.contains("I was wrong"));
    assert_eq!(ctx.len(), 50 + "I was wrong".len() + 100);
}

#[test]
fn plain_text_has_no_signals() {
    let r = run_heuristics("The cat sat on the mat.");
    assert_eq!(r.weight_halves(), 0);
    assert!(r.corrections.is_empty() && r.emotions.is_empty() && r.held_back.is_empty());
}

#[test]
fn analysis_prompt_reports_counts_focus_and_text() {
    let r = run_heuristics("Actually, I was wrong.");
    let p = analysis_prompt(&r, "corrections", "Actually, I was wrong.");
    assert!(p.starts_with("You are analyzing a conversation transcript for retrospective self-understanding.\n\nHeuristic pre-analysis found:\n- 2 corrections, 0 decisions, 0 discoveries\n- 0 successes, 0 frustrations, 0 anti-patterns\n- 0 pivots, 0 hedging moments\n\nFocus: corrections\n\n"));
    assert!(p.ends_with("TEXT:\nActually, I was wrong.\n\nProvide concise, specific analysis."));
}

#[test]
fn analysis_prompt_keeps_first_4000_bytes() {
    let r = run_heuristics("");
    let text = "z".repeat(5000);
    let p = analysis_prompt(&r, "f", &text);
    assert!(p.contains(&format!("TEXT:\n{}\n\n", "z".repeat(4000))));
    assert!(!p.contains(&"z".repeat(4001)));
}

#[test]
fn correction_and_pivot_in_one_line() {
    let r = run_heuristics("actually no, let's switch to the other approach");
    assert_eq!(r.corrections.len(), 1);
    assert_eq!(r.pivots.len(), 1);
    assert!(r.decisions.is_empty() && r.hedging.is_empty());
}
