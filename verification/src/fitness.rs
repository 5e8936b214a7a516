//! Scoring a response against a fitness function: points off for hedging, asking
//! permission, explaining instead of doing, trailing questions and shortcut language;
//! points for anticipating follow-ups, proactive notes, self-correction and concise code.
use vstd::prelude::*;
use crate::text::{
    byte_len, byte_len_up_to, chars_of, contains, contains_chars, lowercase, };
use crate::decimal::{format_signed, signed_decimal};
use crate::text::push_all;
use crate::pattern::{
    find_all_matches, regex_compiles, regex_find_all, regex_is_match, test_match,
};

verus! {

pub const HEDGE_PHRASES: &'static str = r"(?i)(it might be|perhaps|possibly|it's possible that|it could be|maybe|I think|I believe|in my opinion)";

pub const PERMISSION_PHRASES: &'static str = r"(?i)(would you like me to|shall I|do you want me to|should I proceed|let me know if you'd like)";

/// What the scoring looks at in a response.
pub struct FitnessSignals {
    /// Number of hedging phrases.
    pub hedge_count: usize,
    /// Asks permission for something obvious.
    pub asks_permission: bool,
    /// Announces an explanation, is long (over 500 bytes) and holds no code block.
    pub explains_instead: bool,
    /// Ends with a question, holds no code block, and asks more than two questions.
    pub many_questions: bool,
    /// Uses shortcut language ("should work", "common practice").
    pub shortcut_language: bool,
    /// Anticipates the next question.
    pub anticipates: bool,
    /// Offers proactive information.
    pub proactive: bool,
    /// Corrects itself.
    pub self_corrects: bool,
    /// Holds a code block and is short (under 800 bytes).
    pub concise_code: bool,
}

/// The grade that a total earns.
#[derive(PartialEq, Eq, Structural, Clone, Copy, Debug)]
pub enum Grade {
    Excellent,
    Good,
    Acceptable,
    NeedsWork,
}

pub open spec fn grade_for(total: int) -> Grade {
    if total >= 3 {
        Grade::Excellent
    } else if total >= 1 {
        Grade::Good
    } else if total >= -1 {
        Grade::Acceptable
    } else {
        Grade::NeedsWork
    }
}

pub open spec fn grade_label(g: Grade) -> Seq<char> {
    match g {
        Grade::Excellent => "\u{f0}\u{178}\u{152}\u{178} Excellent"@,
        Grade::Good => "\u{e2}\u{153}\u{2026} Good"@,
        Grade::Acceptable => "\u{e2}\u{161}\u{a0}\u{ef}\u{b8}\u{8f} Acceptable"@,
        Grade::NeedsWork => "\u{e2}\u{9d}\u{152} Needs work"@,
    }
}

impl Grade {
    /// The grade as the report shows it.
    pub fn label(&self) -> (s: &'static str)
        ensures
            s@ == grade_label(*self),
    {
        match self {
            Grade::Excellent => "\u{f0}\u{178}\u{152}\u{178} Excellent",
            Grade::Good => "\u{e2}\u{153}\u{2026} Good",
            Grade::Acceptable => "\u{e2}\u{161}\u{a0}\u{ef}\u{b8}\u{8f} Acceptable",
            Grade::NeedsWork => "\u{e2}\u{9d}\u{152} Needs work",
        }
    }
}

/// Points taken off for hedging: one per hedge beyond the first, at most three.
pub open spec fn hedge_penalty(count: int) -> int {
    if count - 1 >= 3 {
        3
    } else {
        count - 1
    }
}

/// The deductions, in the order they are checked, each with its reason and points.
pub open spec fn deductions_for(s: FitnessSignals) -> Seq<(Seq<char>, int)> {
    (if s.hedge_count > 2 {
        seq![("Excessive hedging"@, -hedge_penalty(s.hedge_count as int))]
    } else {
        Seq::empty()
    }) + (if s.asks_permission {
        seq![("Asking permission for obvious actions"@, -2)]
    } else {
        Seq::empty()
    }) + (if s.explains_instead {
        seq![("Explaining instead of doing"@, -1)]
    } else {
        Seq::empty()
    }) + (if s.many_questions {
        seq![("Multiple questions instead of action"@, -1)]
    } else {
        Seq::empty()
    }) + (if s.shortcut_language {
        seq![("Shortcut language detected"@, -3)]
    } else {
        Seq::empty()
    })
}

/// The bonuses, in the order they are checked, each with its reason and points.
pub open spec fn bonuses_for(s: FitnessSignals) -> Seq<(Seq<char>, int)> {
    (if s.anticipates {
        seq![("Anticipated follow-up"@, 1)]
    } else {
        Seq::empty()
    }) + (if s.proactive {
        seq![("Proactive information"@, 2)]
    } else {
        Seq::empty()
    }) + (if s.self_corrects {
        seq![("Self-correction"@, 1)]
    } else {
        Seq::empty()
    }) + (if s.concise_code {
        seq![("Concise with code"@, 1)]
    } else {
        Seq::empty()
    })
}

/// Sum of the points of a list of adjustments.
pub open spec fn points(list: Seq<(Seq<char>, int)>) -> int
    decreases list.len(),
{
    if list.len() == 0 {
        0
    } else {
        points(list.drop_last()) + list.last().1
    }
}

/// The total score: bonuses plus (negative) deductions.
pub open spec fn total_for(s: FitnessSignals) -> int {
    points(bonuses_for(s)) + points(deductions_for(s))
}

/// The one-line summary: the grade, then the total with an explicit `+` when it is not negative.
pub open spec fn summary_for(total: int) -> Seq<char> {
    grade_label(grade_for(total)) + " ("@ + (if total >= 0 {
        "+"@
    } else {
        Seq::empty()
    }) + signed_decimal(total) + ")"@
}

/// The scored response.
pub struct FitnessReport {
    pub score: i32,
    pub grade: Grade,
    pub deductions: Vec<(String, i32)>,
    pub bonuses: Vec<(String, i32)>,
    pub summary: String,
}

pub open spec fn adjustments_view(v: Seq<(String, i32)>) -> Seq<(Seq<char>, int)> {
    v.map_values(|a: (String, i32)| (a.0@, a.1 as int))
}

fn add_adjustment(list: &mut Vec<(String, i32)>, reason: &str, points: i32)
    ensures
        adjustments_view(final(list)@) == adjustments_view(old(list)@).push(
            (reason@, points as int),
        ),
{
    list.push((reason.to_owned(), points));
    assert(adjustments_view(list@) =~= adjustments_view(old(list)@).push((reason@, points as int)));
}

proof fn lemma_points_append(a: Seq<(Seq<char>, int)>, b: Seq<(Seq<char>, int)>)
    ensures
        points(a + b) == points(a) + points(b),
    decreases b.len(),
{
    if b.len() == 0 {
        assert(a + b =~= a);
    } else {
        lemma_points_append(a, b.drop_last());
        assert((a + b).drop_last() =~= a + b.drop_last());
    }
}

proof fn lemma_points_single(x: (Seq<char>, int))
    ensures
        points(seq![x]) == x.1,
{
    assert(seq![x].drop_last() =~= Seq::<(Seq<char>, int)>::empty());
    assert(points(Seq::<(Seq<char>, int)>::empty()) == 0);
}

fn append_if(
    list: &mut Vec<(String, i32)>,
    sum: &mut i32,
    cond: bool,
    reason: &str,
    pts: i32,
    Ghost(parts): Ghost<Seq<(Seq<char>, int)>>,
)
    requires
        adjustments_view(old(list)@) == parts,
        *old(sum) == points(parts),
        -10 <= *old(sum) <= 10,
        -3 <= pts <= 3,
    ensures
        adjustments_view(final(list)@) == parts + (if cond {
            seq![(reason@, pts as int)]
        } else {
            Seq::empty()
        }),
        *final(sum) == points(adjustments_view(final(list)@)),
        *final(sum) == *old(sum) + (if cond {
            pts as int
        } else {
            0
        }),
{
    if cond {
        add_adjustment(list, reason, pts);
        *sum = *sum + pts;
        proof {
            lemma_points_single((reason@, pts as int));
            lemma_points_append(parts, seq![(reason@, pts as int)]);
        }
    } else {
        assert(parts + Seq::<(Seq<char>, int)>::empty() =~= parts);
    }
}

fn collect_deductions(s: &FitnessSignals) -> (r: (Vec<(String, i32)>, i32))
    requires
        s.hedge_count <= i32::MAX,
    ensures
        adjustments_view(r.0@) == deductions_for(*s),
        r.1 == points(deductions_for(*s)),
        -10 <= r.1 <= 0,
{
    let mut list: Vec<(String, i32)> = Vec::new();
    let mut sum: i32 = 0;
    let ghost e = Seq::<(Seq<char>, int)>::empty();
    assert(adjustments_view(list@) =~= e);
    let p: i32 = if s.hedge_count <= 2 {
        0
    } else if s.hedge_count - 1 >= 3 {
        3
    } else {
        (s.hedge_count - 1) as i32
    };
    append_if(&mut list, &mut sum, s.hedge_count > 2, "Excessive hedging", -p, Ghost(e));
    let ghost a = adjustments_view(list@);
    append_if(
        &mut list,
        &mut sum,
        s.asks_permission,
        "Asking permission for obvious actions",
        -2,
        Ghost(a),
    );
    let ghost a = adjustments_view(list@);
    append_if(&mut list, &mut sum, s.explains_instead, "Explaining instead of doing", -1, Ghost(a));
    let ghost a = adjustments_view(list@);
    append_if(
        &mut list,
        &mut sum,
        s.many_questions,
        "Multiple questions instead of action",
        -1,
        Ghost(a),
    );
    let ghost a = adjustments_view(list@);
    append_if(&mut list, &mut sum, s.shortcut_language, "Shortcut language detected", -3, Ghost(a));
    assert(adjustments_view(list@) =~= deductions_for(*s));
    (list, sum)
}

fn collect_bonuses(s: &FitnessSignals) -> (r: (Vec<(String, i32)>, i32))
    ensures
        adjustments_view(r.0@) == bonuses_for(*s),
        r.1 == points(bonuses_for(*s)),
        0 <= r.1 <= 5,
{
    let mut list: Vec<(String, i32)> = Vec::new();
    let mut sum: i32 = 0;
    let ghost e = Seq::<(Seq<char>, int)>::empty();
    assert(adjustments_view(list@) =~= e);
    append_if(&mut list, &mut sum, s.anticipates, "Anticipated follow-up", 1, Ghost(e));
    let ghost a = adjustments_view(list@);
    append_if(&mut list, &mut sum, s.proactive, "Proactive information", 2, Ghost(a));
    let ghost a = adjustments_view(list@);
    append_if(&mut list, &mut sum, s.self_corrects, "Self-correction", 1, Ghost(a));
    let ghost a = adjustments_view(list@);
    append_if(&mut list, &mut sum, s.concise_code, "Concise with code", 1, Ghost(a));
    assert(adjustments_view(list@) =~= bonuses_for(*s));
    (list, sum)
}

fn summary_text(grade: Grade, total: i32) -> (r: String)
    requires
        grade == grade_for(total as int),
    ensures
        r@ == summary_for(total as int),
{
    let mut summary = String::new();
    let label = grade.label();
    let label_chars = chars_of(label);
    push_all(&mut summary, &label_chars);
    summary.push(' ');
    summary.push('(');
    if total >= 0 {
        summary.push('+');
    }
    let number = format_signed(total as i64);
    let number_chars = chars_of(number.as_str());
    push_all(&mut summary, &number_chars);
    summary.push(')');
    proof {
        reveal_strlit(" (");
        reveal_strlit("+");
        reveal_strlit(")");
        assert(summary@ =~= summary_for(total as int));
    }
    summary
}

/// A score lies between -10 (every deduction, hedging at its cap) and 5 (every bonus).
pub proof fn lemma_score_bounds(s: FitnessSignals)
    ensures
        -10 <= total_for(s) <= 5,
        -10 <= points(deductions_for(s)) <= 0,
        0 <= points(bonuses_for(s)) <= 5,
{
    let e = Seq::<(Seq<char>, int)>::empty();
    let d0 = if s.hedge_count > 2 {
        seq![("Excessive hedging"@, -hedge_penalty(s.hedge_count as int))]
    } else {
        e
    };
    let d1 = if s.asks_permission {
        seq![("Asking permission for obvious actions"@, -2int)]
    } else {
        e
    };
    let d2 = if s.explains_instead {
        seq![("Explaining instead of doing"@, -1int)]
    } else {
        e
    };
    let d3 = if s.many_questions {
        seq![("Multiple questions instead of action"@, -1int)]
    } else {
        e
    };
    let d4 = if s.shortcut_language {
        seq![("Shortcut language detected"@, -3int)]
    } else {
        e
    };
    let b0 = if s.anticipates {
        seq![("Anticipated follow-up"@, 1int)]
    } else {
        e
    };
    let b1 = if s.proactive {
        seq![("Proactive information"@, 2int)]
    } else {
        e
    };
    let b2 = if s.self_corrects {
        seq![("Self-correction"@, 1int)]
    } else {
        e
    };
    let b3 = if s.concise_code {
        seq![("Concise with code"@, 1int)]
    } else {
        e
    };
    assert(deductions_for(s) =~= d0 + d1 + d2 + d3 + d4);
    assert(bonuses_for(s) =~= b0 + b1 + b2 + b3);
    assert(points(e) == 0);
    lemma_points_single(("Excessive hedging"@, -hedge_penalty(s.hedge_count as int)));
    lemma_points_single(("Asking permission for obvious actions"@, -2int));
    lemma_points_single(("Explaining instead of doing"@, -1int));
    lemma_points_single(("Multiple questions instead of action"@, -1int));
    lemma_points_single(("Shortcut language detected"@, -3int));
    lemma_points_single(("Anticipated follow-up"@, 1int));
    lemma_points_single(("Proactive information"@, 2int));
    lemma_points_single(("Self-correction"@, 1int));
    lemma_points_single(("Concise with code"@, 1int));
    lemma_points_append(d0 + d1 + d2 + d3, d4);
    lemma_points_append(d0 + d1 + d2, d3);
    lemma_points_append(d0 + d1, d2);
    lemma_points_append(d0, d1);
    lemma_points_append(b0 + b1 + b2, b3);
    lemma_points_append(b0 + b1, b2);
    lemma_points_append(b0, b1);
}

/// Grades follow fixed thresholds: a score of 3 or more is Excellent, 1 or 2 is Good,
/// 0 or -1 is Acceptable and anything lower Needs work; the summary opens with that
/// grade's label.
pub proof fn law_grade_thresholds(total: int)
    ensures
        total >= 3 <==> grade_for(total) == Grade::Excellent,
        (1 <= total && total <= 2) <==> grade_for(total) == Grade::Good,
        (-1 <= total && total <= 0) <==> grade_for(total) == Grade::Acceptable,
        total <= -2 <==> grade_for(total) == Grade::NeedsWork,
        total >= 3 ==> summary_for(total).take(14) == "\u{f0}\u{178}\u{152}\u{178} Excellent"@,
        (1 <= total && total <= 2) ==> summary_for(total).take(8) == "\u{e2}\u{153}\u{2026} Good"@,
{
    reveal_strlit("\u{f0}\u{178}\u{152}\u{178} Excellent");
    reveal_strlit("\u{e2}\u{153}\u{2026} Good");
    let label = grade_label(grade_for(total));
    let rest = " ("@ + (if total >= 0 {
        "+"@
    } else {
        Seq::empty()
    }) + signed_decimal(total) + ")"@;
    assert(summary_for(total) =~= label + rest);
    if total >= 3 {
        assert(label.len() == 14);
        assert((label + rest).take(14) =~= label);
    }
    if 1 <= total && total <= 2 {
        assert(label.len() == 8);
        assert((label + rest).take(8) =~= label);
    }
}

/// A higher score never earns a lower grade.
pub proof fn law_grade_monotone(a: int, b: int)
    requires
        a <= b,
    ensures
        grade_for(a) == Grade::Excellent ==> grade_for(b) == Grade::Excellent,
        grade_for(a) == Grade::Good ==> grade_for(b) == Grade::Good || grade_for(b) == Grade::Excellent,
        grade_for(b) == Grade::NeedsWork ==> grade_for(a) == Grade::NeedsWork,
{
}

/// Scores a response from its signals.
pub fn score_signals(s: &FitnessSignals) -> (r: FitnessReport)
    requires
        s.hedge_count <= i32::MAX,
    ensures
        r.score == total_for(*s),
        r.grade == grade_for(total_for(*s)),
        adjustments_view(r.deductions@) == deductions_for(*s),
        adjustments_view(r.bonuses@) == bonuses_for(*s),
        r.summary@ == summary_for(total_for(*s)),
{
    let (deductions, off) = collect_deductions(s);
    let (bonuses, gain) = collect_bonuses(s);
    let total = gain + off;
    let grade = if total >= 3 {
        Grade::Excellent
    } else if total >= 1 {
        Grade::Good
    } else if total >= -1 {
        Grade::Acceptable
    } else {
        Grade::NeedsWork
    };
    let summary = summary_text(grade, total);
    FitnessReport { score: total, grade, deductions, bonuses, summary }
}

/// The count of `c` in `chars`.
pub open spec fn count_of(s: Seq<char>, c: char) -> nat
    decreases s.len(),
{
    if s.len() == 0 {
        0
    } else {
        count_of(s.drop_last(), c) + (if s.last() == c {
            1nat
        } else {
            0
        })
    }
}

fn count_char(chars: &Vec<char>, c: char) -> (n: usize)
    ensures
        n == count_of(chars@, c),
{
    let mut n: usize = 0;
    let mut i: usize = 0;
    while i < chars.len()
        invariant
            i <= chars.len(),
            n == count_of(chars@.take(i as int), c),
            n <= i,
        decreases chars.len() - i,
    {
        assert(chars@.take(i + 1).drop_last() =~= chars@.take(i as int));
        if chars[i] == c {
            n = n + 1;
        }
        i = i + 1;
    }
    assert(chars@.take(chars.len() as int) =~= chars@);
    n
}

/// Any of the phrases occurs in `hay`.
pub open spec fn any_of(hay: Seq<char>, phrases: Seq<Seq<char>>) -> bool {
    exists|i: int| 0 <= i < phrases.len() && contains(hay, #[trigger] phrases[i])
}

fn has(hay: &Vec<char>, phrase: &str) -> (b: bool)
    ensures
        b == contains(hay@, phrase@),
{
    let p = chars_of(phrase);
    contains_chars(hay, &p)
}

/// The signals of a response, as the scoring reads them: `None` when a pattern does
/// not compile or when there are more hedges than an `i32` counts.
pub open spec fn signals_of(response: Seq<char>) -> Option<FitnessSignals> {
    let lower = lowercase(response);
    let code = contains(response, "```"@);
    let hedges = regex_find_all(HEDGE_PHRASES@, response).len();
    if !regex_compiles(HEDGE_PHRASES@) || !regex_compiles(PERMISSION_PHRASES@) || hedges
        > i32::MAX {
        None
    } else {
        Some(
            FitnessSignals {
                hedge_count: hedges as usize,
                asks_permission: regex_is_match(PERMISSION_PHRASES@, response),
                explains_instead: (contains(lower, "here's how"@) || contains(
                    lower,
                    "first, let me explain"@,
                )) && byte_len(response) > 500 && !code,
                many_questions: response.len() > 0 && response.last() == '?' && !code
                    && count_of(response, '?') > 2,
                shortcut_language: contains(lower, "should work"@) || contains(
                    lower,
                    "common practice"@,
                ),
                anticipates: contains(lower, "you might also"@) || contains(lower, "related:"@)
                    || contains(lower, "next step"@),
                proactive: contains(lower, "side note:"@) || contains(lower, "fyi:"@) || contains(
                    lower,
                    "heads up:"@,
                ),
                self_corrects: contains(lower, "actually, let me correct"@) || contains(
                    lower,
                    "wait, that's wrong"@,
                ),
                concise_code: code && byte_len(response) < 800,
            },
        )
    }
}

/// Reads the scoring signals of a response.
pub fn fitness_signals(response: &str) -> (r: Option<FitnessSignals>)
    ensures
        r == signals_of(response@),
{
    let hedges = match find_all_matches(HEDGE_PHRASES, response) {
        Some(v) => v.len(),
        None => return None,
    };
    let permission = match test_match(PERMISSION_PHRASES, response) {
        Some(b) => b,
        None => return None,
    };
    if hedges > i32::MAX as usize {
        return None;
    }
    let lower_string = response.to_lowercase();
    let lower = chars_of(lower_string.as_str());
    let text = chars_of(response);
    let code = has(&text, "```");
    let explains = (has(&lower, "here's how") || has(&lower, "first, let me explain"))
        && byte_len_up_to(&text, 500).is_none() && !code;
    let ends_with_question = text.len() > 0 && text[text.len() - 1] == '?';
    let many_questions = ends_with_question && !code && count_char(&text, '?') > 2;
    let shortcut = has(&lower, "should work") || has(&lower, "common practice");
    let anticipates = has(&lower, "you might also") || has(&lower, "related:") || has(
        &lower,
        "next step",
    );
    let proactive = has(&lower, "side note:") || has(&lower, "fyi:") || has(&lower, "heads up:");
    let self_corrects = has(&lower, "actually, let me correct") || has(
        &lower,
        "wait, that's wrong",
    );
    let concise = code && byte_len_up_to(&text, 799).is_some();
    Some(
        FitnessSignals {
            hedge_count: hedges,
            asks_permission: permission,
            explains_instead: explains,
            many_questions,
            shortcut_language: shortcut,
            anticipates,
            proactive,
            self_corrects,
            concise_code: concise,
        },
    )
}

/// Scores a response against the fitness function: `None` exactly when its signals
/// cannot be read (see `signals_of`).
pub fn score_joe_fitness(response: &str) -> (r: Option<FitnessReport>)
    ensures
        r is Some <==> signals_of(response@) is Some,
        r matches Some(rep) ==> ({
            let s = signals_of(response@)->0;
            &&& rep.score == total_for(s)
            &&& rep.grade == grade_for(total_for(s))
            &&& adjustments_view(rep.deductions@) == deductions_for(s)
            &&& adjustments_view(rep.bonuses@) == bonuses_for(s)
            &&& rep.summary@ == summary_for(total_for(s))
        }),
{
    match fitness_signals(response) {
        Some(s) => Some(score_signals(&s)),
        None => None,
    }
}

} // verus!
