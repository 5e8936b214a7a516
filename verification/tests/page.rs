use echo::page::{
    check_currency_needs, fetch_warnings, include_raw_preview, input_truncated_message,
    strip_html, summary_prompt, summary_word_budget, truncate_to_chars,
};
use echo::text::is_char_boundary;

#[test]
fn strip_html_drops_blocks_and_tags_and_decodes_entities() {
    let html = "<html><head><title>x</title></head><body><nav>menu</nav>\
                <p>Hello&nbsp;&amp; <b>World</b></p><script>var a = 1;</script>\
                <style>p { color: red }</style><footer>bye</footer></body></html>";
    assert_eq!(strip_html(html), Some("Hello & World".to_string()));
}

#[test]
fn strip_html_turns_block_ends_into_lines_and_collapses_blank_lines() {
    assert_eq!(strip_html("<p>a</p><p></p><p></p><div>b</div>"), Some("a\n\nb".to_string()));
    assert_eq!(strip_html("<li>one</li><li>two</li>"), Some("one\ntwo".to_string()));
}

#[test]
fn strip_html_collapses_spaces_and_trims() {
    assert_eq!(strip_html("  a  \t b   "), Some("a b".to_string()));
}

#[test]
fn strip_html_decodes_entities_in_order() {
    assert_eq!(strip_html("a &amp;lt; b &quot;c&quot; &#39;d&apos;"), Some("a < b \"c\" 'd'".to_string()));
}

#[test]
fn strip_html_of_empty_page_is_empty() {
    assert_eq!(strip_html(""), Some(String::new()));
}

#[test]
fn truncate_keeps_short_text() {
    assert_eq!(truncate_to_chars("hello world foo", 100), ("hello world foo".to_string(), false));
    assert_eq!(truncate_to_chars("hello", 5), ("hello".to_string(), false));
}

#[test]
fn truncate_cuts_back_to_last_space() {
    assert_eq!(truncate_to_chars("hello world foo", 13), ("hello world".to_string(), true));
}

#[test]
fn truncate_without_space_cuts_at_limit() {
    assert_eq!(truncate_to_chars("abcdefgh", 4), ("abcd".to_string(), true));
}

#[test]
fn truncate_counts_bytes() {
    // "é" takes two bytes: the first four bytes are "aé" plus 'b'.
    assert!(is_char_boundary("aébc", 4));
    assert!(!is_char_boundary("aébc", 2));
    assert_eq!(truncate_to_chars("aébc", 4), ("aéb".to_string(), true));
}

#[test]
fn currency_flags_prices() {
    let c = check_currency_needs("The price is $100 today.").unwrap();
    assert!(c.needs_verification);
    assert_eq!(c.reasons, vec!["Contains prices".to_string()]);
    assert_eq!(c.time_sensitive_matches, vec!["The price is $100 today.".to_string()]);
}

#[test]
fn currency_passes_plain_text() {
    let c = check_currency_needs("Nothing to see here.").unwrap();
    assert!(!c.needs_verification);
    assert!(c.reasons.is_empty());
    assert!(c.time_sensitive_matches.is_empty());
}

#[test]
fn currency_reports_reasons_in_pattern_order_and_three_snippets() {
    let c = check_currency_needs("Breaking: the election poll shows stock price at $5 as of March").unwrap();
    assert!(c.needs_verification);
    assert_eq!(
        c.reasons,
        vec![
            "Contains date reference".to_string(),
            "Contains prices".to_string(),
            "Financial data".to_string(),
            "Political/polling data".to_string(),
            "Recent events language".to_string(),
        ]
    );
    assert_eq!(c.time_sensitive_matches.len(), 3);
}

#[test]
fn currency_snippet_takes_twenty_bytes_before_and_thirty_after() {
    let text = "0123456789012345678901234567890 the vote was held 0123456789012345678901234567890123456789";
    let c = check_currency_needs(text).unwrap();
    assert_eq!(c.reasons, vec!["Political/polling data".to_string()]);
    let start = text.find("vote").unwrap();
    assert_eq!(c.time_sensitive_matches, vec![text[start - 20..start + 4 + 30].to_string()]);
}

#[test]
fn currency_refuses_snippets_that_would_split_a_character() {
    // Lowercasing 'İ' lengthens it, so offsets in the lowercased text fall inside
    // characters of the text as given.
    assert!(check_currency_needs("İİİİİİİİİİİİ $5").is_none());
}

#[test]
fn fetch_warnings_report_status_and_thin_pages() {
    assert_eq!(
        fetch_warnings(404, 100),
        vec![
            "HTTP status 404".to_string(),
            "Very little text extracted - page may be JS-rendered. Try browser:http_scrape".to_string()
        ]
    );
    assert!(fetch_warnings(200, 5000).is_empty());
}

#[test]
fn model_input_and_summary_budget() {
    assert_eq!(input_truncated_message(20000), "Input truncated from 20000 to 16000 chars for LLM");
    assert_eq!(summary_word_budget(500), 375);
    assert_eq!(summary_word_budget(0), 0);
    assert!(include_raw_preview(false, false, true));
    assert!(!include_raw_preview(false, false, false));
}

#[test]
fn summary_prompt_fills_focus_budget_and_content() {
    let p = summary_prompt("prices", 375, "PAGE");
    assert!(p.starts_with("Summarize the following web page content.\n\nFOCUS: prices\nMAX LENGTH: 375 words\n\nRULES:\n"));
    assert!(p.ends_with("CONTENT:\nPAGE\n\nSUMMARY:"));
}
