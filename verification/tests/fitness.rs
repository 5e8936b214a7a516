use echo::fitness::{score_joe_fitness, score_signals, FitnessSignals, Grade};

fn quiet() -> FitnessSignals {
    FitnessSignals {
        hedge_count: 0,
        asks_permission: false,
        explains_instead: false,
        many_questions: false,
        shortcut_language: false,
        anticipates: false,
        proactive: false,
        self_corrects: false,
        concise_code: false,
    }
}

#[test]
fn neutral_response_is_acceptable() {
    let r = score_joe_fitness("Here is the answer.").unwrap();
    assert_eq!(r.score, 0);
    assert_eq!(r.grade, Grade::Acceptable);
    assert!(r.deductions.is_empty() && r.bonuses.is_empty());
    assert_eq!(r.summary, format!("{} (+0)", Grade::Acceptable.label()));
    assert_eq!(r.summary, "\u{e2}\u{161}\u{a0}\u{ef}\u{b8}\u{8f} Acceptable (+0)");
}

#[test]
fn hedging_and_permission_are_deducted() {
    let r = score_joe_fitness("Maybe. Perhaps. I think so. Would you like me to continue?").unwrap();
    assert_eq!(
        r.deductions,
        vec![
            ("Excessive hedging".to_string(), -2),
            ("Asking permission for obvious actions".to_string(), -2),
        ]
    );
    assert_eq!(r.score, -4);
    assert_eq!(r.grade, Grade::NeedsWork);
    assert_eq!(r.summary, "\u{e2}\u{9d}\u{152} Needs work (-4)");
}

#[test]
fn hedging_penalty_is_capped_at_three() {
    let r = score_joe_fitness("maybe maybe maybe maybe maybe maybe").unwrap();
    assert_eq!(r.deductions, vec![("Excessive hedging".to_string(), -3)]);
}

#[test]
fn two_hedges_cost_nothing() {
    let r = score_joe_fitness("maybe, perhaps").unwrap();
    assert!(r.deductions.is_empty());
}

#[test]
fn short_code_and_side_notes_earn_bonuses() {
    let r = score_joe_fitness("Side note: use this.\n```rust\nfn main() {}\n```\nNext step: run it.").unwrap();
    assert_eq!(
        r.bonuses,
        vec![
            ("Anticipated follow-up".to_string(), 1),
            ("Proactive information".to_string(), 2),
            ("Concise with code".to_string(), 1),
        ]
    );
    assert_eq!(r.score, 4);
    assert_eq!(r.grade, Grade::Excellent);
    assert_eq!(r.summary, "\u{f0}\u{178}\u{152}\u{178} Excellent (+4)");
}

#[test]
fn long_explanations_and_question_strings_are_deducted() {
    let long = format!("Here's how it goes. {} Why? What? Really?", "word ".repeat(120));
    let r = score_joe_fitness(&long).unwrap();
    assert_eq!(
        r.deductions,
        vec![
            ("Explaining instead of doing".to_string(), -1),
            ("Multiple questions instead of action".to_string(), -1),
        ]
    );
}

#[test]
fn shortcut_language_costs_three() {
    let r = score_joe_fitness("That should work, it is common practice.").unwrap();
    assert_eq!(r.deductions, vec![("Shortcut language detected".to_string(), -3)]);
    assert_eq!(r.score, -3);
}

#[test]
fn grades_follow_thresholds() {
    let mut s = quiet();
    s.anticipates = true;
    let r = score_signals(&s);
    assert_eq!((r.score, r.grade), (1, Grade::Good));
    assert_eq!(r.summary, "\u{e2}\u{153}\u{2026} Good (+1)");
    let mut s = quiet();
    s.explains_instead = true;
    assert_eq!(score_signals(&s).grade, Grade::Acceptable);
    let mut s = quiet();
    s.asks_permission = true;
    assert_eq!(score_signals(&s).grade, Grade::NeedsWork);
    let mut s = quiet();
    s.proactive = true;
    s.self_corrects = true;
    assert_eq!(score_signals(&s).grade, Grade::Excellent);
}

#[test]
fn score_is_the_sum_of_the_points_listed() {
    let mut s = quiet();
    s.hedge_count = 9;
    s.asks_permission = true;
    s.explains_instead = true;
    s.many_questions = true;
    s.shortcut_language = true;
    s.anticipates = true;
    s.proactive = true;
    s.self_corrects = true;
    s.concise_code = true;
    let r = score_signals(&s);
    let sum: i32 = r.deductions.iter().chain(r.bonuses.iter()).map(|(_, p)| p).sum();
    assert_eq!(r.score, sum);
    assert_eq!(r.score, 5 - 10);
    assert_eq!(r.summary, "\u{e2}\u{9d}\u{152} Needs work (-5)");
}
