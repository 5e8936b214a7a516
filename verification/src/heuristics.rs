//! Behavioural signals in conversation text: corrections, decisions, discoveries,
//! successes, frustration, anti-patterns, pivots and hedging, each found by a pattern
//! and reported with the text around it.
use vstd::prelude::*;
use crate::text::{
    byte_len, ceil_char_index, ceil_index, chars_of, count_chars_within, floor_index,
    lemma_floor_ceil, lemma_chars_within, byte_len_up_to, string_of_range, strings_view,
    lemma_offset_strictly_increasing, filled, texts_view, fill_template,
    is_boundary, byte_offset,
};
use crate::decimal::{decimal, format_dimension};
use crate::pattern::{
    find_all_matches, regex_compiles, regex_find_all, ranges_view, is_match_range,
};

verus! {

/// Byte offset where the context before a match starts, before it is moved to a boundary.
pub open spec fn context_start(start: int, before: int) -> int {
    if start >= before {
        start - before
    } else {
        0
    }
}

/// Byte offset where the context after a match ends, before it is moved to a boundary.
pub open spec fn context_end(text: Seq<char>, end: int, after: int) -> int {
    if end + after <= byte_len(text) {
        end + after
    } else {
        byte_len(text) as int
    }
}

/// The context of the byte range `start..end` can be cut: computing its end does not
/// overflow and, once both ends are moved outward to character boundaries, they are in order.
pub open spec fn context_fits(text: Seq<char>, start: int, end: int, before: int, after: int) -> bool {
    &&& end + after <= usize::MAX
    &&& floor_index(text, context_start(start, before)) <= ceil_index(
        text,
        context_end(text, end, after),
    )
}

/// The text around `start..end`: from `before` bytes before it to `after` bytes after it,
/// clipped to the text and widened to whole characters.
pub open spec fn context(text: Seq<char>, start: int, end: int, before: int, after: int) -> Seq<
    char,
> {
    text.subrange(
        floor_index(text, context_start(start, before)) as int,
        ceil_index(text, context_end(text, end, after)) as int,
    )
}

/// Cuts the text around the byte range `start..end`: `before` bytes before it and
/// `after` bytes after it, clipped to the text and widened to whole characters.
pub fn extract_context(text: &str, start: usize, end: usize, before: usize, after: usize) -> (r: String)
    requires
        context_fits(text@, start as int, end as int, before as int, after as int),
    ensures
        r@ == context(text@, start as int, end as int, before as int, after as int),
{
    let chars = chars_of(text);
    let lo = if start >= before {
        start - before
    } else {
        0
    };
    let reach = end + after;
    let hi = match byte_len_up_to(&chars, reach) {
        Some(n) => n,
        None => reach,
    };
    let k1 = count_chars_within(&chars, lo);
    let k2 = ceil_char_index(&chars, hi);
    string_of_range(&chars, k1, k2)
}

/// The context cut around a match holds the matched text itself.
pub proof fn lemma_context_holds_match(text: Seq<char>, m: (int, int), before: int, after: int)
    requires
        is_match_range(text, m),
        0 <= before,
        0 <= after,
    ensures
        ({
            let ks = floor_index(text, m.0);
            let ke = floor_index(text, m.1);
            let c = context(text, m.0, m.1, before, after);
            let lo = floor_index(text, context_start(m.0, before));
            &&& ks <= ke
            &&& byte_offset(text, ks as int) == m.0
            &&& byte_offset(text, ke as int) == m.1
            &&& lo <= ks
            &&& c.subrange(ks - lo, ke - lo) == text.subrange(ks as int, ke as int)
        }),
{
    let cs = context_start(m.0, before);
    let ce = context_end(text, m.1, after);
    lemma_floor_ceil(text, cs);
    lemma_floor_ceil(text, ce);
    lemma_floor_ceil(text, m.0);
    lemma_floor_ceil(text, m.1);
    let ks = floor_index(text, m.0) as int;
    let ke = floor_index(text, m.1) as int;
    let lo = floor_index(text, cs) as int;
    let hi = ceil_index(text, ce) as int;
    if ks > ke {
        lemma_offset_strictly_increasing(text, ke, ks);
    }
    if lo > ks {
        lemma_offset_strictly_increasing(text, ks, lo);
    }
    if ke > hi {
        lemma_offset_strictly_increasing(text, hi, ke);
    }
    let c = context(text, m.0, m.1, before, after);
    assert(c.subrange(ks - lo, ke - lo) =~= text.subrange(ks, ke));
}

/// The contexts of every match of `pattern` in `text` (none when it does not compile).
pub open spec fn findings(text: Seq<char>, pattern: Seq<char>, before: int, after: int) -> Seq<
    Seq<char>,
> {
    if regex_compiles(pattern) {
        regex_find_all(pattern, text).map_values(
            |m: (int, int)| context(text, m.0, m.1, before, after),
        )
    } else {
        Seq::empty()
    }
}

proof fn lemma_match_context_fits(text: Seq<char>, m: (int, int), before: int, after: int)
    requires
        is_match_range(text, m),
        0 <= before,
        0 <= after,
        byte_len(text) + after <= usize::MAX,
    ensures
        context_fits(text, m.0, m.1, before, after),
{
    let cs = context_start(m.0, before);
    let ce = context_end(text, m.1, after);
    lemma_floor_ceil(text, cs);
    lemma_floor_ceil(text, ce);
    let a = floor_index(text, cs) as int;
    let b = ceil_index(text, ce) as int;
    if a > b {
        lemma_offset_strictly_increasing(text, b, a);
    }
}

fn collect_findings(text: &str, pattern: &str, before: usize, after: usize) -> (r: Vec<String>)
    requires
        byte_len(text@) + after <= usize::MAX,
    ensures
        strings_view(r@) == findings(text@, pattern@, before as int, after as int),
{
    let mut out: Vec<String> = Vec::new();
    match find_all_matches(pattern, text) {
        None => {
            assert(strings_view(out@) =~= Seq::<Seq<char>>::empty());
            out
        },
        Some(ranges) => {
            let ghost ms = ranges_view(ranges@);
            let mut i: usize = 0;
            while i < ranges.len()
                invariant
                    byte_len(text@) + after <= usize::MAX,
                    ms == ranges_view(ranges@),
                    ms == regex_find_all(pattern@, text@),
                    regex_compiles(pattern@),
                    forall|j: int| 0 <= j < ms.len() ==> is_match_range(text@, #[trigger] ms[j]),
                    i <= ranges.len(),
                    strings_view(out@) == ms.take(i as int).map_values(
                        |m: (int, int)| context(text@, m.0, m.1, before as int, after as int),
                    ),
                decreases ranges.len() - i,
            {
                let m = ranges[i];
                assert(ms[i as int] == (m.0 as int, m.1 as int));
                proof {
                    lemma_match_context_fits(text@, ms[i as int], before as int, after as int);
                }
                let piece = extract_context(text, m.0, m.1, before, after);
                let ghost prev = out@;
                out.push(piece);
                assert(strings_view(out@) =~= ms.take(i + 1).map_values(
                    |m: (int, int)| context(text@, m.0, m.1, before as int, after as int),
                )) by {
                    assert(strings_view(out@) =~= strings_view(prev).push(piece@));
                }
                i = i + 1;
            }
            assert(ms.take(ranges.len() as int) =~= ms);
            out
        },
    }
}

pub const CORRECTION_SIGNALS: &'static str = r"(?i)\b(actually[,.]?\s|no wait|I was wrong|let me correct|that's not right|I misspoke|not quite|scratch that|never mind|my bad|oops|my mistake|I meant|what I meant|let me rephrase|I stand corrected|correction:|hold on[,.]?\s|wait[,.]?\s(?:no|that)|rather[,.]?\s|instead[,.]?\s(?:of|we)|I take that back|disregard|ignore what I|that's incorrect|I need to fix|I messed up|wrong about|shouldn't have said|let me clarify|to clarify|I should say|more accurately|to be precise|strike that|that came out wrong|I didn't mean)\b";

pub const DECISION_SIGNALS: &'static str = r"(?i)\b(let's do|let's go with|decided to|go with|the plan is|we should|hold off|choosing|I'll go with|we'll use|switching to|committed to|settled on|final answer|the approach is|sticking with|opting for|I prefer|better to|the move is|I vote for|let's try|let's use|let's keep|let's drop|let's skip|let's avoid|ruling out|in favor of|over .{1,20} because|the winner is|going forward|from now on|new rule|new policy|the standard is)\b";

pub const DISCOVERY_SIGNALS: &'static str = r"(?i)\b(turns out|realized|found out|the fix was|lesson learned|key insight|the trick is|the problem was|root cause|figured out|breakthrough|discovered|it works because|the issue was|the reason is|mystery solved|now I understand|makes sense now|the answer is|that explains|so that's why|the secret is|pro tip|TIL|learned that|good to know|worth noting|important detail|the catch is|gotcha:|caveat:|heads up|for future reference|note to self|remember that|the pattern is|takeaway)\b";

pub const SUCCESS_SIGNALS: &'static str = r"(?i)\b(working now|fixed it|nailed it|that did it|solved|confirmed|verified|passing|deployed|shipped|looks good|works perfectly|success|brilliant|excellent|spot on|exactly right|perfect|love it|great job|nice work|well done|crushed it|clean build|all green|tests pass|no errors|smooth|flawless|mission accomplished|that's the one|bingo|jackpot|finally works|boom|ship it|done and done|good to go|ready to roll|locked in)\b";

pub const FRUSTRATION_SIGNALS: &'static str = r"(?i)\b(frustrated|annoying|ugh|keeps breaking|why does|still broken|doesn't work|gave up|wasted time|ridiculous|terrible|horrible|awful|broken again|this sucks|hate this|pain in|nightmare|headache|infuriating|maddening|unbelievable|seriously\?|come on|for the .{1,10} time|how is this|makes no sense|what the hell|waste of|killing me|driving me crazy|so slow|unacceptable|deal ?breaker|show ?stopper|blocker|regression|degraded|worse than|downgrade)\b";

pub const ANTI_PATTERN_SIGNALS: &'static str = r"(?i)\b(should have|shouldn't have|next time|avoid|wrong approach|mistake was|don't do|bad idea|overkill|over.?engineered|premature|unnecessary|redundant|could have just|if only|in hindsight|looking back|that was dumb|lesson:|anti.?pattern|never again|the hard way|wasted effort|wrong call|missed the|overlooked|forgot to|failed to|neglected|skipped|shortcut that|hack that|technical debt|band.?aid|duct tape|workaround that|too complex|too clever|too many|too much)\b";

pub const PIVOT_SIGNALS: &'static str = r"(?i)\b(anyway|moving on|let's switch|back to|on another note|by the way|speaking of|tangent|sidebar|before I forget|also|oh and|one more thing|unrelated|separate topic|different question|quick question|while I have you|while we're at it|another thing|real quick|btw|shifting gears|circling back|returning to|as for|regarding|about that|now about|next up|on to)\b";

pub const HEDGING_SIGNALS: &'static str = r"(?i)\b(I think|maybe|probably|not sure|might be|could be|possibly|it seems|appears to|I believe|I suppose|I guess|not certain|uncertain|unclear|hard to say|don't know if|I wonder|questionable|debatable|risky|tricky|complicated|iffy|sketchy|I should note|to be fair|part of me|on the other hand|then again|that said|having said that|I'm torn|not convinced|remains to be seen|TBD|open question)\b";

/// The signals found in a text, each with its context. `emotions` repeats the
/// frustration then the success signals, and `held_back` the hedging signals.
pub struct HeuristicResults {
    pub corrections: Vec<String>,
    pub decisions: Vec<String>,
    pub discoveries: Vec<String>,
    pub success: Vec<String>,
    pub frustration: Vec<String>,
    pub anti_patterns: Vec<String>,
    pub pivots: Vec<String>,
    pub hedging: Vec<String>,
    pub emotions: Vec<String>,
    pub held_back: Vec<String>,
}

/// What each signal category of a text holds.
pub open spec fn heuristics_of(text: Seq<char>) -> Seq<Seq<Seq<char>>> {
    seq![
        findings(text, CORRECTION_SIGNALS@, 50, 100),
        findings(text, DECISION_SIGNALS@, 30, 80),
        findings(text, DISCOVERY_SIGNALS@, 40, 100),
        findings(text, SUCCESS_SIGNALS@, 30, 60),
        findings(text, FRUSTRATION_SIGNALS@, 40, 80),
        findings(text, ANTI_PATTERN_SIGNALS@, 40, 80),
        findings(text, PIVOT_SIGNALS@, 20, 60),
        findings(text, HEDGING_SIGNALS@, 20, 80),
    ]
}

impl HeuristicResults {
    /// The eight signal categories, in declaration order.
    pub open spec fn categories(&self) -> Seq<Seq<Seq<char>>> {
        seq![
            strings_view(self.corrections@),
            strings_view(self.decisions@),
            strings_view(self.discoveries@),
            strings_view(self.success@),
            strings_view(self.frustration@),
            strings_view(self.anti_patterns@),
            strings_view(self.pivots@),
            strings_view(self.hedging@),
        ]
    }

    /// Twice the weighted signal count: corrections, decisions and discoveries weigh 3,
    /// anti-patterns 2, successes and frustrations 1.5, pivots 1 and hedges 0.5.
    pub open spec fn weight_halves_spec(&self) -> int {
        6 * self.corrections.len() + 6 * self.decisions.len() + 6 * self.discoveries.len() + 4
            * self.anti_patterns.len() + 3 * self.success.len() + 3 * self.frustration.len() + 2
            * self.pivots.len() + self.hedging.len()
    }

    /// Twice the weighted signal count (the score is this over 60, capped at 1).
    pub fn weight_halves(&self) -> (w: u128)
        ensures
            w == self.weight_halves_spec(),
    {
        6 * (self.corrections.len() as u128) + 6 * (self.decisions.len() as u128) + 6 * (
        self.discoveries.len() as u128) + 4 * (self.anti_patterns.len() as u128) + 3 * (
        self.success.len() as u128) + 3 * (self.frustration.len() as u128) + 2 * (
        self.pivots.len() as u128) + (self.hedging.len() as u128)
    }
}

/// The weight of a signal, in halves, by category (in the order of `categories`):
/// corrections, decisions and discoveries 3, successes and frustrations 1.5,
/// anti-patterns 2, pivots 1, hedges 0.5.
pub open spec fn signal_weight_halves(k: int) -> int {
    seq![6int, 6, 6, 3, 3, 4, 2, 1][k]
}

/// A result with no signals at all weighs nothing.
pub proof fn law_no_signals_weigh_nothing(r: HeuristicResults)
    requires
        forall|k: int| 0 <= k < 8 ==> #[trigger] r.categories()[k].len() == 0,
    ensures
        r.weight_halves_spec() == 0,
{
    assert(r.categories()[0].len() == r.corrections.len());
    assert(r.categories()[1].len() == r.decisions.len());
    assert(r.categories()[2].len() == r.discoveries.len());
    assert(r.categories()[3].len() == r.success.len());
    assert(r.categories()[4].len() == r.frustration.len());
    assert(r.categories()[5].len() == r.anti_patterns.len());
    assert(r.categories()[6].len() == r.pivots.len());
    assert(r.categories()[7].len() == r.hedging.len());
}

/// One more signal of a category raises the weight by that category's fixed weight,
/// whatever else was found: a correction, decision or discovery by 3, an anti-pattern
/// by 2, a success or frustration by 1.5, a pivot by 1 and a hedge by 0.5.
pub proof fn law_one_more_signal(a: HeuristicResults, b: HeuristicResults, k: int)
    requires
        0 <= k < 8,
        b.categories()[k].len() == a.categories()[k].len() + 1,
        forall|j: int| 0 <= j < 8 && j != k ==> #[trigger] b.categories()[j].len() == a.categories()[j].len(),
    ensures
        b.weight_halves_spec() == a.weight_halves_spec() + signal_weight_halves(k),
        k == 0 ==> b.weight_halves_spec() == a.weight_halves_spec() + 6,
        k == 5 ==> b.weight_halves_spec() == a.weight_halves_spec() + 4,
        k == 7 ==> b.weight_halves_spec() == a.weight_halves_spec() + 1,
{
    assert(a.categories()[0].len() == a.corrections.len());
    assert(a.categories()[1].len() == a.decisions.len());
    assert(a.categories()[2].len() == a.discoveries.len());
    assert(a.categories()[3].len() == a.success.len());
    assert(a.categories()[4].len() == a.frustration.len());
    assert(a.categories()[5].len() == a.anti_patterns.len());
    assert(a.categories()[6].len() == a.pivots.len());
    assert(a.categories()[7].len() == a.hedging.len());
    assert(b.categories()[0].len() == b.corrections.len());
    assert(b.categories()[1].len() == b.decisions.len());
    assert(b.categories()[2].len() == b.discoveries.len());
    assert(b.categories()[3].len() == b.success.len());
    assert(b.categories()[4].len() == b.frustration.len());
    assert(b.categories()[5].len() == b.anti_patterns.len());
    assert(b.categories()[6].len() == b.pivots.len());
    assert(b.categories()[7].len() == b.hedging.len());
    assert(a.categories()[0].len() == b.categories()[0].len() || k == 0);
    assert(a.categories()[1].len() == b.categories()[1].len() || k == 1);
    assert(a.categories()[2].len() == b.categories()[2].len() || k == 2);
    assert(a.categories()[3].len() == b.categories()[3].len() || k == 3);
    assert(a.categories()[4].len() == b.categories()[4].len() || k == 4);
    assert(a.categories()[5].len() == b.categories()[5].len() || k == 5);
    assert(a.categories()[6].len() == b.categories()[6].len() || k == 6);
    assert(a.categories()[7].len() == b.categories()[7].len() || k == 7);
}

/// A text with `n` corrections and no other signal weighs `3 * n` (so its score is
/// `n / 10`, capped at 1).
pub proof fn law_corrections_alone(r: HeuristicResults)
    requires
        forall|k: int| 1 <= k < 8 ==> #[trigger] r.categories()[k].len() == 0,
    ensures
        r.weight_halves_spec() == 6 * r.categories()[0].len(),
{
    assert(r.categories()[0].len() == r.corrections.len());
    assert(r.categories()[1].len() == r.decisions.len());
    assert(r.categories()[2].len() == r.discoveries.len());
    assert(r.categories()[3].len() == r.success.len());
    assert(r.categories()[4].len() == r.frustration.len());
    assert(r.categories()[5].len() == r.anti_patterns.len());
    assert(r.categories()[6].len() == r.pivots.len());
    assert(r.categories()[7].len() == r.hedging.len());
}

fn copy_strings(v: &Vec<String>, into: &mut Vec<String>)
    ensures
        strings_view(final(into)@) == strings_view(old(into)@) + strings_view(v@),
{
    let ghost start = strings_view(into@);
    let mut i: usize = 0;
    while i < v.len()
        invariant
            i <= v.len(),
            strings_view(into@) == start + strings_view(v@).take(i as int),
        decreases v.len() - i,
    {
        let ghost prev = into@;
        into.push(v[i].clone());
        assert(strings_view(into@) =~= start + strings_view(v@).take(i + 1)) by {
            assert(strings_view(into@) =~= strings_view(prev).push(v@[i as int]@));
        }
        i = i + 1;
    }
    assert(strings_view(v@).take(v.len() as int) =~= strings_view(v@));
}

/// Finds the behavioural signals in `text`, each with its surrounding context.
pub fn run_heuristics(text: &str) -> (r: HeuristicResults)
    requires
        byte_len(text@) + 100 <= usize::MAX,
    ensures
        r.categories() == heuristics_of(text@),
        strings_view(r.emotions@) == strings_view(r.frustration@) + strings_view(r.success@),
        strings_view(r.held_back@) == strings_view(r.hedging@),
{
    let corrections = collect_findings(text, CORRECTION_SIGNALS, 50, 100);
    let decisions = collect_findings(text, DECISION_SIGNALS, 30, 80);
    let discoveries = collect_findings(text, DISCOVERY_SIGNALS, 40, 100);
    let success = collect_findings(text, SUCCESS_SIGNALS, 30, 60);
    let frustration = collect_findings(text, FRUSTRATION_SIGNALS, 40, 80);
    let anti_patterns = collect_findings(text, ANTI_PATTERN_SIGNALS, 40, 80);
    let pivots = collect_findings(text, PIVOT_SIGNALS, 20, 60);
    let hedging = collect_findings(text, HEDGING_SIGNALS, 20, 80);
    let mut emotions: Vec<String> = Vec::new();
    assert(strings_view(emotions@) =~= Seq::<Seq<char>>::empty());
    copy_strings(&frustration, &mut emotions);
    copy_strings(&success, &mut emotions);
    let mut held_back: Vec<String> = Vec::new();
    assert(strings_view(held_back@) =~= Seq::<Seq<char>>::empty());
    copy_strings(&hedging, &mut held_back);
    let r = HeuristicResults {
        corrections,
        decisions,
        discoveries,
        success,
        frustration,
        anti_patterns,
        pivots,
        hedging,
        emotions,
        held_back,
    };
    assert(r.categories() =~= heuristics_of(text@));
    r
}

/// The fixed parts of the analysis prompt, between which go the eight signal counts,
/// the focus and the text.
pub open spec fn analysis_template() -> Seq<Seq<char>> {
    seq![
        "You are analyzing a conversation transcript for retrospective self-understanding.\n\nHeuristic pre-analysis found:\n- "@,
        " corrections, "@,
        " decisions, "@,
        " discoveries\n- "@,
        " successes, "@,
        " frustrations, "@,
        " anti-patterns\n- "@,
        " pivots, "@,
        " hedging moments\n\nFocus: "@,
        "\n\nAnalyze the following text and provide:\n1. Key patterns observed\n2. Confidence gaps (overstatements)\n3. Authenticity assessment\n4. Recommendations for next instance\n\nTEXT:\n"@,
        "\n\nProvide concise, specific analysis."@,
    ]
}

fn analysis_pieces() -> (v: Vec<&'static str>)
    ensures
        texts_view(v@) == analysis_template(),
{
    let v = vec![
        "You are analyzing a conversation transcript for retrospective self-understanding.\n\nHeuristic pre-analysis found:\n- ",
        " corrections, ",
        " decisions, ",
        " discoveries\n- ",
        " successes, ",
        " frustrations, ",
        " anti-patterns\n- ",
        " pivots, ",
        " hedging moments\n\nFocus: ",
        "\n\nAnalyze the following text and provide:\n1. Key patterns observed\n2. Confidence gaps (overstatements)\n3. Authenticity assessment\n4. Recommendations for next instance\n\nTEXT:\n",
        "\n\nProvide concise, specific analysis.",
    ];
    assert(texts_view(v@) =~= analysis_template());
    v
}

/// The part of the text that goes into the analysis prompt: its first 4000 bytes.
pub open spec fn analysis_excerpt(text: Seq<char>) -> Seq<char> {
    text.take(floor_index(text, 4000) as int)
}

/// The prompt that asks a model for a retrospective analysis of `text`, given the
/// signal counts that the heuristics found and the focus of the analysis.
pub open spec fn analysis_prompt_for(h: HeuristicResults, focus: Seq<char>, text: Seq<char>) -> Seq<char> {
    filled(
        analysis_template(),
        seq![
            decimal(h.corrections.len() as nat),
            decimal(h.decisions.len() as nat),
            decimal(h.discoveries.len() as nat),
            decimal(h.success.len() as nat),
            decimal(h.frustration.len() as nat),
            decimal(h.anti_patterns.len() as nat),
            decimal(h.pivots.len() as nat),
            decimal(h.hedging.len() as nat),
            focus,
            analysis_excerpt(text),
        ],
    )
}

/// Builds the analysis prompt. When `text` is longer than 4000 bytes, byte 4000 must
/// fall on a character boundary.
pub fn analysis_prompt(h: &HeuristicResults, focus: &str, text: &str) -> (p: String)
    requires
        byte_len(text@) <= 4000 || is_boundary(text@, 4000),
    ensures
        p@ == analysis_prompt_for(*h, focus@, text@),
{
    let chars = chars_of(text);
    let k = count_chars_within(&chars, 4000);
    proof {
        lemma_chars_within(chars@, 4000);
    }
    let excerpt = string_of_range(&chars, 0, k);
    let values = vec![
        format_dimension(h.corrections.len()),
        format_dimension(h.decisions.len()),
        format_dimension(h.discoveries.len()),
        format_dimension(h.success.len()),
        format_dimension(h.frustration.len()),
        format_dimension(h.anti_patterns.len()),
        format_dimension(h.pivots.len()),
        format_dimension(h.hedging.len()),
        focus.to_owned(),
        excerpt,
    ];
    let pieces = analysis_pieces();
    assert(analysis_template().len() == 11);
    assert(texts_view(pieces@).len() == pieces@.len());
    assert(values@.len() == 10);
    let p = fill_template(&pieces, &values);
    proof {
        assert(excerpt@ =~= analysis_excerpt(text@));
        assert(strings_view(values@) =~= seq![
            decimal(h.corrections.len() as nat),
            decimal(h.decisions.len() as nat),
            decimal(h.discoveries.len() as nat),
            decimal(h.success.len() as nat),
            decimal(h.frustration.len() as nat),
            decimal(h.anti_patterns.len() as nat),
            decimal(h.pivots.len() as nat),
            decimal(h.hedging.len() as nat),
            focus@,
            analysis_excerpt(text@),
        ]);
    }
    p
}

} // verus!
