//! Turning a fetched web page into plain text, cutting text to a byte budget,
//! and spotting content that goes stale (dates, prices, polls).
use vstd::prelude::*;
use crate::text::{
    byte_len, chars_of, count_chars_within, floor_index, is_boundary, lemma_chars_within,
    lemma_floor_ceil, lemma_trim_no_outer_white, byte_len_up_to, last_index_in,
    last_index_of, replace_literal, replace_literal_chars, string_of, string_of_range, trim,
    trim_chars, is_white_space, byte_offset,
};
use crate::pattern::{
    regex_compiles, regex_replace_all, replace_all_matches, regex_find_first, find_first_match,
    };
use crate::text::{
    holds_text, lowercase, strings_view, is_char_boundary, lemma_offset_monotone, append_text,
    filled, texts_view, fill_template,
};
use crate::decimal::{decimal, format_dimension};

verus! {

pub const SCRIPT_BLOCK: &'static str = r"(?is)<script[^>]*>.*?</script>";

pub const STYLE_BLOCK: &'static str = r"(?is)<style[^>]*>.*?</style>";

pub const HEAD_BLOCK: &'static str = r"(?is)<head[^>]*>.*?</head>";

pub const NAV_BLOCK: &'static str = r"(?is)<nav[^>]*>.*?</nav>";

pub const FOOTER_BLOCK: &'static str = r"(?is)<footer[^>]*>.*?</footer>";

pub const BLOCK_END_TAG: &'static str = r"(?i)</(p|div|h[1-6]|li|tr|br)[^>]*>";

pub const ANY_TAG: &'static str = r"<[^>]+>";

pub const SPACE_RUN: &'static str = r"[ \t]+";

pub const BLANK_LINES: &'static str = r"\n\s*\n+";

/// One regex rewrite applied to text that earlier steps produced (`None` once a
/// pattern fails to compile).
pub open spec fn then_replace(t: Option<Seq<char>>, pattern: Seq<char>, replacement: Seq<char>) -> Option<
    Seq<char>,
> {
    match t {
        Some(x) => if regex_compiles(pattern) {
            Some(regex_replace_all(pattern, x, replacement))
        } else {
            None
        },
        None => None,
    }
}

/// The HTML entities that page text decodes, in the order they are decoded.
pub open spec fn decode_entities(s: Seq<char>) -> Seq<char> {
    let s = replace_literal(s, "&nbsp;"@, " "@);
    let s = replace_literal(s, "&amp;"@, "&"@);
    let s = replace_literal(s, "&lt;"@, "<"@);
    let s = replace_literal(s, "&gt;"@, ">"@);
    let s = replace_literal(s, "&quot;"@, "\""@);
    let s = replace_literal(s, "&#39;"@, "'"@);
    replace_literal(s, "&apos;"@, "'"@)
}

/// `e` begins with `&` and holds no other `&`.
spec fn amp_led(e: Seq<char>) -> bool {
    e.len() > 0 && e[0] == '&' && forall|k: int| 0 < k < e.len() ==> #[trigger] e[k] != '&'
}

proof fn lemma_lacks_concat(a: Seq<char>, b: Seq<char>, c: char)
    requires
        !a.contains(c),
        !b.contains(c),
    ensures
        !(a + b).contains(c),
{
    assert forall|k: int| 0 <= k < (a + b).len() implies #[trigger] (a + b)[k] != c by {
        if k < a.len() {
            assert((a + b)[k] == a[k]);
        } else {
            assert((a + b)[k] == b[k - a.len()]);
        }
    }
}

/// Text without the pattern's first character is left as it is.
proof fn lemma_replace_untouched(x: Seq<char>, from: Seq<char>, to: Seq<char>)
    requires
        from.len() > 0,
        !x.contains(from[0]),
    ensures
        replace_literal(x, from, to) == x,
    decreases x.len(),
{
    if x.len() >= from.len() {
        assert(x.take(from.len() as int)[0] == x[0]);
        assert(x[0] != from[0]);
        assert(x.take(from.len() as int) != from);
        assert(!x.drop_first().contains(from[0])) by {
            if x.drop_first().contains(from[0]) {
                let k = choose|k: int| 0 <= k < x.drop_first().len() && x.drop_first()[k] == from[0];
                assert(x[k + 1] == from[0]);
            }
        }
        lemma_replace_untouched(x.drop_first(), from, to);
        assert(seq![x[0]] + x.drop_first() =~= x);
    }
}

/// A prefix without the pattern's first character passes through unchanged.
proof fn lemma_replace_after_plain(a: Seq<char>, b: Seq<char>, from: Seq<char>, to: Seq<char>)
    requires
        from.len() > 0,
        !a.contains(from[0]),
    ensures
        replace_literal(a + b, from, to) == a + replace_literal(b, from, to),
    decreases a.len(),
{
    if a.len() == 0 {
        assert(a + b =~= b);
        assert(a + replace_literal(b, from, to) =~= replace_literal(b, from, to));
    } else {
        let x = a + b;
        if x.len() < from.len() {
            assert(a + b =~= x);
            assert(a + replace_literal(b, from, to) =~= x);
        } else {
            assert(x[0] == a[0]);
            assert(x.take(from.len() as int)[0] == a[0]);
            assert(a[0] != from[0]);
            assert(x.take(from.len() as int) != from);
            assert(!a.drop_first().contains(from[0])) by {
                if a.drop_first().contains(from[0]) {
                    let k = choose|k: int| 0 <= k < a.drop_first().len() && a.drop_first()[k] == from[0];
                    assert(a[k + 1] == from[0]);
                }
            }
            assert(x.drop_first() =~= a.drop_first() + b);
            lemma_replace_after_plain(a.drop_first(), b, from, to);
            assert(seq![a[0]] + (a.drop_first() + replace_literal(b, from, to)) =~= a + replace_literal(b, from, to));
        }
    }
}

/// Text that opens with the pattern has it replaced there.
proof fn lemma_replace_at_front(from: Seq<char>, b: Seq<char>, to: Seq<char>)
    requires
        from.len() > 0,
    ensures
        replace_literal(from + b, from, to) == to + replace_literal(b, from, to),
{
    let x = from + b;
    assert(x.take(from.len() as int) =~= from);
    assert(x.skip(from.len() as int) =~= b);
}

/// Text whose only `&` opens it, and which differs from the pattern within the
/// pattern's length, is left as it is.
proof fn lemma_replace_mismatch(x: Seq<char>, from: Seq<char>, to: Seq<char>, i: int)
    requires
        amp_led(x),
        amp_led(from),
        0 < i < from.len(),
        i < x.len() ==> x[i] != from[i],
    ensures
        replace_literal(x, from, to) == x,
{
    if x.len() >= from.len() {
        assert(x.take(from.len() as int)[i] == x[i]);
        assert(x.take(from.len() as int) != from);
        assert(!x.drop_first().contains(from[0])) by {
            if x.drop_first().contains(from[0]) {
                let k = choose|k: int| 0 <= k < x.drop_first().len() && x.drop_first()[k] == from[0];
                assert(x[k + 1] == '&');
            }
        }
        lemma_replace_untouched(x.drop_first(), from, to);
        assert(seq![x[0]] + x.drop_first() =~= x);
    }
}

/// `e + t`, with `e` led by its only `&` and `t` free of `&`, is led by its only `&`.
proof fn lemma_amp_led_concat(e: Seq<char>, t: Seq<char>)
    requires
        amp_led(e),
        !t.contains('&'),
    ensures
        amp_led(e + t),
{
    assert forall|k: int| 0 < k < (e + t).len() implies #[trigger] (e + t)[k] != '&' by {
        if k < e.len() {
            assert((e + t)[k] == e[k]);
        } else {
            assert((e + t)[k] == t[k - e.len()]);
        }
    }
}
/// Text without `&` is left as it is by entity decoding.
pub proof fn law_plain_text_not_decoded(s: Seq<char>)
    requires
        !s.contains('&'),
    ensures
        decode_entities(s) == s,
{
    reveal_strlit("&nbsp;");
    reveal_strlit("&amp;");
    reveal_strlit("&lt;");
    reveal_strlit("&gt;");
    reveal_strlit("&quot;");
    reveal_strlit("&#39;");
    reveal_strlit("&apos;");
    lemma_replace_untouched(s, "&nbsp;"@, " "@);
    lemma_replace_untouched(s, "&amp;"@, "&"@);
    lemma_replace_untouched(s, "&lt;"@, "<"@);
    lemma_replace_untouched(s, "&gt;"@, ">"@);
    lemma_replace_untouched(s, "&quot;"@, "\""@);
    lemma_replace_untouched(s, "&#39;"@, "'"@);
    lemma_replace_untouched(s, "&apos;"@, "'"@);
}

/// Each entity, standing between text free of `&`, decodes to its character:
/// `&nbsp;` to a space, `&amp;` to `&`, `&lt;` to `<`, `&gt;` to `>`, `&quot;` to `"`,
/// `&#39;` and `&apos;` to `'`. (An `&` that `&amp;` gives is decoded again when what
/// follows it completes a later entity, so for `&amp;` the text after it holds no `;`.)
pub proof fn law_entity_decoded(s: Seq<char>, t: Seq<char>)
    requires
        !s.contains('&'),
        !t.contains('&'),
    ensures
        decode_entities(s + "&nbsp;"@ + t) == s + " "@ + t,
        !t.contains(';') ==> decode_entities(s + "&amp;"@ + t) == s + "&"@ + t,
        decode_entities(s + "&lt;"@ + t) == s + "<"@ + t,
        decode_entities(s + "&gt;"@ + t) == s + ">"@ + t,
        decode_entities(s + "&quot;"@ + t) == s + "\""@ + t,
        decode_entities(s + "&#39;"@ + t) == s + "'"@ + t,
        decode_entities(s + "&apos;"@ + t) == s + "'"@ + t,
{
    reveal_strlit("&nbsp;");
    reveal_strlit("&amp;");
    reveal_strlit("&lt;");
    reveal_strlit("&gt;");
    reveal_strlit("&quot;");
    reveal_strlit("&#39;");
    reveal_strlit("&apos;");
    reveal_strlit(" ");
    reveal_strlit("&");
    reveal_strlit("'");
    reveal_strlit("<");
    reveal_strlit(">");
    reveal_strlit("\"");
    assert(amp_led("&nbsp;"@));
    assert(amp_led("&amp;"@));
    assert(amp_led("&lt;"@));
    assert(amp_led("&gt;"@));
    assert(amp_led("&quot;"@));
    assert(amp_led("&#39;"@));
    assert(amp_led("&apos;"@));
    if true {
        lemma_amp_led_concat("&nbsp;"@, t);
        assert(s + "&nbsp;"@ + t =~= s + ("&nbsp;"@ + t));
        lemma_replace_after_plain(s, "&nbsp;"@ + t, "&nbsp;"@, " "@);
        lemma_replace_at_front("&nbsp;"@, t, " "@);
        lemma_replace_untouched(t, "&nbsp;"@, " "@);
        assert(s + (" "@ + t) =~= s + " "@ + t);
        assert(!" "@.contains('&')) by { assert(" "@[0] != '&'); }
        lemma_lacks_concat(s, " "@, '&');
        lemma_lacks_concat(s + " "@, t, '&');
        lemma_replace_untouched(s + " "@ + t, "&amp;"@, "&"@);
        lemma_replace_untouched(s + " "@ + t, "&lt;"@, "<"@);
        lemma_replace_untouched(s + " "@ + t, "&gt;"@, ">"@);
        lemma_replace_untouched(s + " "@ + t, "&quot;"@, "\""@);
        lemma_replace_untouched(s + " "@ + t, "&#39;"@, "'"@);
        lemma_replace_untouched(s + " "@ + t, "&apos;"@, "'"@);
    }
    if !t.contains(';') {
        lemma_amp_led_concat("&amp;"@, t);
        lemma_replace_mismatch("&amp;"@ + t, "&nbsp;"@, " "@, 1);
        lemma_replace_after_plain(s, "&amp;"@ + t, "&nbsp;"@, " "@);
        assert(s + "&amp;"@ + t =~= s + ("&amp;"@ + t));
        assert(s + "&amp;"@ + t =~= s + ("&amp;"@ + t));
        lemma_replace_after_plain(s, "&amp;"@ + t, "&amp;"@, "&"@);
        lemma_replace_at_front("&amp;"@, t, "&"@);
        lemma_replace_untouched(t, "&amp;"@, "&"@);
        assert(s + ("&"@ + t) =~= s + "&"@ + t);
        lemma_amp_led_concat("&"@, t);
        assert(3 < ("&"@ + t).len() ==> ("&"@ + t)[3] == t[3 - 1]);
        assert(3 < ("&"@ + t).len() ==> t[3 - 1] != ';');
        lemma_replace_mismatch("&"@ + t, "&lt;"@, "<"@, 3);
        lemma_replace_after_plain(s, "&"@ + t, "&lt;"@, "<"@);
        assert(s + "&"@ + t =~= s + ("&"@ + t));
        assert(3 < ("&"@ + t).len() ==> ("&"@ + t)[3] == t[3 - 1]);
        assert(3 < ("&"@ + t).len() ==> t[3 - 1] != ';');
        lemma_replace_mismatch("&"@ + t, "&gt;"@, ">"@, 3);
        lemma_replace_after_plain(s, "&"@ + t, "&gt;"@, ">"@);
        assert(s + "&"@ + t =~= s + ("&"@ + t));
        assert(5 < ("&"@ + t).len() ==> ("&"@ + t)[5] == t[5 - 1]);
        assert(5 < ("&"@ + t).len() ==> t[5 - 1] != ';');
        lemma_replace_mismatch("&"@ + t, "&quot;"@, "\""@, 5);
        lemma_replace_after_plain(s, "&"@ + t, "&quot;"@, "\""@);
        assert(s + "&"@ + t =~= s + ("&"@ + t));
        assert(4 < ("&"@ + t).len() ==> ("&"@ + t)[4] == t[4 - 1]);
        assert(4 < ("&"@ + t).len() ==> t[4 - 1] != ';');
        lemma_replace_mismatch("&"@ + t, "&#39;"@, "'"@, 4);
        lemma_replace_after_plain(s, "&"@ + t, "&#39;"@, "'"@);
        assert(s + "&"@ + t =~= s + ("&"@ + t));
        assert(5 < ("&"@ + t).len() ==> ("&"@ + t)[5] == t[5 - 1]);
        assert(5 < ("&"@ + t).len() ==> t[5 - 1] != ';');
        lemma_replace_mismatch("&"@ + t, "&apos;"@, "'"@, 5);
        lemma_replace_after_plain(s, "&"@ + t, "&apos;"@, "'"@);
        assert(s + "&"@ + t =~= s + ("&"@ + t));
    }
    if true {
        lemma_amp_led_concat("&lt;"@, t);
        lemma_replace_mismatch("&lt;"@ + t, "&nbsp;"@, " "@, 1);
        lemma_replace_after_plain(s, "&lt;"@ + t, "&nbsp;"@, " "@);
        assert(s + "&lt;"@ + t =~= s + ("&lt;"@ + t));
        lemma_replace_mismatch("&lt;"@ + t, "&amp;"@, "&"@, 1);
        lemma_replace_after_plain(s, "&lt;"@ + t, "&amp;"@, "&"@);
        assert(s + "&lt;"@ + t =~= s + ("&lt;"@ + t));
        assert(s + "&lt;"@ + t =~= s + ("&lt;"@ + t));
        lemma_replace_after_plain(s, "&lt;"@ + t, "&lt;"@, "<"@);
        lemma_replace_at_front("&lt;"@, t, "<"@);
        lemma_replace_untouched(t, "&lt;"@, "<"@);
        assert(s + ("<"@ + t) =~= s + "<"@ + t);
        assert(!"<"@.contains('&')) by { assert("<"@[0] != '&'); }
        lemma_lacks_concat(s, "<"@, '&');
        lemma_lacks_concat(s + "<"@, t, '&');
        lemma_replace_untouched(s + "<"@ + t, "&gt;"@, ">"@);
        lemma_replace_untouched(s + "<"@ + t, "&quot;"@, "\""@);
        lemma_replace_untouched(s + "<"@ + t, "&#39;"@, "'"@);
        lemma_replace_untouched(s + "<"@ + t, "&apos;"@, "'"@);
    }
    if true {
        lemma_amp_led_concat("&gt;"@, t);
        lemma_replace_mismatch("&gt;"@ + t, "&nbsp;"@, " "@, 1);
        lemma_replace_after_plain(s, "&gt;"@ + t, "&nbsp;"@, " "@);
        assert(s + "&gt;"@ + t =~= s + ("&gt;"@ + t));
        lemma_replace_mismatch("&gt;"@ + t, "&amp;"@, "&"@, 1);
        lemma_replace_after_plain(s, "&gt;"@ + t, "&amp;"@, "&"@);
        assert(s + "&gt;"@ + t =~= s + ("&gt;"@ + t));
        lemma_replace_mismatch("&gt;"@ + t, "&lt;"@, "<"@, 1);
        lemma_replace_after_plain(s, "&gt;"@ + t, "&lt;"@, "<"@);
        assert(s + "&gt;"@ + t =~= s + ("&gt;"@ + t));
        assert(s + "&gt;"@ + t =~= s + ("&gt;"@ + t));
        lemma_replace_after_plain(s, "&gt;"@ + t, "&gt;"@, ">"@);
        lemma_replace_at_front("&gt;"@, t, ">"@);
        lemma_replace_untouched(t, "&gt;"@, ">"@);
        assert(s + (">"@ + t) =~= s + ">"@ + t);
        assert(!">"@.contains('&')) by { assert(">"@[0] != '&'); }
        lemma_lacks_concat(s, ">"@, '&');
        lemma_lacks_concat(s + ">"@, t, '&');
        lemma_replace_untouched(s + ">"@ + t, "&quot;"@, "\""@);
        lemma_replace_untouched(s + ">"@ + t, "&#39;"@, "'"@);
        lemma_replace_untouched(s + ">"@ + t, "&apos;"@, "'"@);
    }
    if true {
        lemma_amp_led_concat("&quot;"@, t);
        lemma_replace_mismatch("&quot;"@ + t, "&nbsp;"@, " "@, 1);
        lemma_replace_after_plain(s, "&quot;"@ + t, "&nbsp;"@, " "@);
        assert(s + "&quot;"@ + t =~= s + ("&quot;"@ + t));
        lemma_replace_mismatch("&quot;"@ + t, "&amp;"@, "&"@, 1);
        lemma_replace_after_plain(s, "&quot;"@ + t, "&amp;"@, "&"@);
        assert(s + "&quot;"@ + t =~= s + ("&quot;"@ + t));
        lemma_replace_mismatch("&quot;"@ + t, "&lt;"@, "<"@, 1);
        lemma_replace_after_plain(s, "&quot;"@ + t, "&lt;"@, "<"@);
        assert(s + "&quot;"@ + t =~= s + ("&quot;"@ + t));
        lemma_replace_mismatch("&quot;"@ + t, "&gt;"@, ">"@, 1);
        lemma_replace_after_plain(s, "&quot;"@ + t, "&gt;"@, ">"@);
        assert(s + "&quot;"@ + t =~= s + ("&quot;"@ + t));
        assert(s + "&quot;"@ + t =~= s + ("&quot;"@ + t));
        lemma_replace_after_plain(s, "&quot;"@ + t, "&quot;"@, "\""@);
        lemma_replace_at_front("&quot;"@, t, "\""@);
        lemma_replace_untouched(t, "&quot;"@, "\""@);
        assert(s + ("\""@ + t) =~= s + "\""@ + t);
        assert(!"\""@.contains('&')) by { assert("\""@[0] != '&'); }
        lemma_lacks_concat(s, "\""@, '&');
        lemma_lacks_concat(s + "\""@, t, '&');
        lemma_replace_untouched(s + "\""@ + t, "&#39;"@, "'"@);
        lemma_replace_untouched(s + "\""@ + t, "&apos;"@, "'"@);
    }
    if true {
        lemma_amp_led_concat("&#39;"@, t);
        lemma_replace_mismatch("&#39;"@ + t, "&nbsp;"@, " "@, 1);
        lemma_replace_after_plain(s, "&#39;"@ + t, "&nbsp;"@, " "@);
        assert(s + "&#39;"@ + t =~= s + ("&#39;"@ + t));
        lemma_replace_mismatch("&#39;"@ + t, "&amp;"@, "&"@, 1);
        lemma_replace_after_plain(s, "&#39;"@ + t, "&amp;"@, "&"@);
        assert(s + "&#39;"@ + t =~= s + ("&#39;"@ + t));
        lemma_replace_mismatch("&#39;"@ + t, "&lt;"@, "<"@, 1);
        lemma_replace_after_plain(s, "&#39;"@ + t, "&lt;"@, "<"@);
        assert(s + "&#39;"@ + t =~= s + ("&#39;"@ + t));
        lemma_replace_mismatch("&#39;"@ + t, "&gt;"@, ">"@, 1);
        lemma_replace_after_plain(s, "&#39;"@ + t, "&gt;"@, ">"@);
        assert(s + "&#39;"@ + t =~= s + ("&#39;"@ + t));
        lemma_replace_mismatch("&#39;"@ + t, "&quot;"@, "\""@, 1);
        lemma_replace_after_plain(s, "&#39;"@ + t, "&quot;"@, "\""@);
        assert(s + "&#39;"@ + t =~= s + ("&#39;"@ + t));
        assert(s + "&#39;"@ + t =~= s + ("&#39;"@ + t));
        lemma_replace_after_plain(s, "&#39;"@ + t, "&#39;"@, "'"@);
        lemma_replace_at_front("&#39;"@, t, "'"@);
        lemma_replace_untouched(t, "&#39;"@, "'"@);
        assert(s + ("'"@ + t) =~= s + "'"@ + t);
        assert(!"'"@.contains('&')) by { assert("'"@[0] != '&'); }
        lemma_lacks_concat(s, "'"@, '&');
        lemma_lacks_concat(s + "'"@, t, '&');
        lemma_replace_untouched(s + "'"@ + t, "&apos;"@, "'"@);
    }
    if true {
        lemma_amp_led_concat("&apos;"@, t);
        lemma_replace_mismatch("&apos;"@ + t, "&nbsp;"@, " "@, 1);
        lemma_replace_after_plain(s, "&apos;"@ + t, "&nbsp;"@, " "@);
        assert(s + "&apos;"@ + t =~= s + ("&apos;"@ + t));
        lemma_replace_mismatch("&apos;"@ + t, "&amp;"@, "&"@, 2);
        lemma_replace_after_plain(s, "&apos;"@ + t, "&amp;"@, "&"@);
        assert(s + "&apos;"@ + t =~= s + ("&apos;"@ + t));
        lemma_replace_mismatch("&apos;"@ + t, "&lt;"@, "<"@, 1);
        lemma_replace_after_plain(s, "&apos;"@ + t, "&lt;"@, "<"@);
        assert(s + "&apos;"@ + t =~= s + ("&apos;"@ + t));
        lemma_replace_mismatch("&apos;"@ + t, "&gt;"@, ">"@, 1);
        lemma_replace_after_plain(s, "&apos;"@ + t, "&gt;"@, ">"@);
        assert(s + "&apos;"@ + t =~= s + ("&apos;"@ + t));
        lemma_replace_mismatch("&apos;"@ + t, "&quot;"@, "\""@, 1);
        lemma_replace_after_plain(s, "&apos;"@ + t, "&quot;"@, "\""@);
        assert(s + "&apos;"@ + t =~= s + ("&apos;"@ + t));
        lemma_replace_mismatch("&apos;"@ + t, "&#39;"@, "'"@, 1);
        lemma_replace_after_plain(s, "&apos;"@ + t, "&#39;"@, "'"@);
        assert(s + "&apos;"@ + t =~= s + ("&apos;"@ + t));
        assert(s + "&apos;"@ + t =~= s + ("&apos;"@ + t));
        lemma_replace_after_plain(s, "&apos;"@ + t, "&apos;"@, "'"@);
        lemma_replace_at_front("&apos;"@, t, "'"@);
        lemma_replace_untouched(t, "&apos;"@, "'"@);
        assert(s + ("'"@ + t) =~= s + "'"@ + t);
        assert(!"'"@.contains('&')) by { assert("'"@[0] != '&'); }
        lemma_lacks_concat(s, "'"@, '&');
        lemma_lacks_concat(s + "'"@, t, '&');
    }
}

/// Plain text of an HTML page: script, style, head, nav and footer blocks removed,
/// block-closing tags turned into line breaks, remaining tags removed, entities
/// decoded, runs of spaces and tabs collapsed, blank-line runs collapsed to one blank
/// line, and the result trimmed. `None` when one of the patterns does not compile.
pub open spec fn stripped_html(html: Seq<char>) -> Option<Seq<char>> {
    let t = then_replace(Some(html), SCRIPT_BLOCK@, ""@);
    let t = then_replace(t, STYLE_BLOCK@, ""@);
    let t = then_replace(t, HEAD_BLOCK@, ""@);
    let t = then_replace(t, NAV_BLOCK@, ""@);
    let t = then_replace(t, FOOTER_BLOCK@, ""@);
    let t = then_replace(t, BLOCK_END_TAG@, "\n"@);
    let t = then_replace(t, ANY_TAG@, ""@);
    let t = match t {
        Some(x) => Some(decode_entities(x)),
        None => None,
    };
    let t = then_replace(t, SPACE_RUN@, " "@);
    let t = then_replace(t, BLANK_LINES@, "\n\n"@);
    match t {
        Some(x) => Some(trim(x)),
        None => None,
    }
}

fn replace_entity(s: Vec<char>, from: &str, to: &str) -> (r: Vec<char>)
    requires
        from@.len() > 0,
    ensures
        r@ == replace_literal(s@, from@, to@),
{
    let f = chars_of(from);
    let t = chars_of(to);
    replace_literal_chars(&s, &f, &t)
}

fn decode_entities_exec(s: &str) -> (r: String)
    ensures
        r@ == decode_entities(s@),
{
    proof {
        reveal_strlit("&nbsp;");
        reveal_strlit("&amp;");
        reveal_strlit("&lt;");
        reveal_strlit("&gt;");
        reveal_strlit("&quot;");
        reveal_strlit("&#39;");
        reveal_strlit("&apos;");
    }
    let v = chars_of(s);
    let v = replace_entity(v, "&nbsp;", " ");
    let v = replace_entity(v, "&amp;", "&");
    let v = replace_entity(v, "&lt;", "<");
    let v = replace_entity(v, "&gt;", ">");
    let v = replace_entity(v, "&quot;", "\"");
    let v = replace_entity(v, "&#39;", "'");
    let v = replace_entity(v, "&apos;", "'");
    string_of(&v)
}

/// Plain text of an HTML page (see `stripped_html`); `None` when a pattern does not compile.
pub fn strip_html(html: &str) -> (r: Option<String>)
    ensures
        match r {
            Some(s) => stripped_html(html@) == Some(s@),
            None => stripped_html(html@) is None,
        },
        r matches Some(s) ==> s@.len() > 0 ==> !is_white_space(s@[0]) && !is_white_space(
            s@.last(),
        ),
{
    let t = match replace_all_matches(SCRIPT_BLOCK, html, "") {
        Some(t) => t,
        None => return None,
    };
    let t = match replace_all_matches(STYLE_BLOCK, t.as_str(), "") {
        Some(t) => t,
        None => return None,
    };
    let t = match replace_all_matches(HEAD_BLOCK, t.as_str(), "") {
        Some(t) => t,
        None => return None,
    };
    let t = match replace_all_matches(NAV_BLOCK, t.as_str(), "") {
        Some(t) => t,
        None => return None,
    };
    let t = match replace_all_matches(FOOTER_BLOCK, t.as_str(), "") {
        Some(t) => t,
        None => return None,
    };
    let t = match replace_all_matches(BLOCK_END_TAG, t.as_str(), "\n") {
        Some(t) => t,
        None => return None,
    };
    let t = match replace_all_matches(ANY_TAG, t.as_str(), "") {
        Some(t) => t,
        None => return None,
    };
    let t = decode_entities_exec(t.as_str());
    let t = match replace_all_matches(SPACE_RUN, t.as_str(), " ") {
        Some(t) => t,
        None => return None,
    };
    let t = match replace_all_matches(BLANK_LINES, t.as_str(), "\n\n") {
        Some(t) => t,
        None => return None,
    };
    let v = chars_of(t.as_str());
    let v = trim_chars(&v);
    proof {
        lemma_trim_no_outer_white(t@);
    }
    Some(string_of(&v))
}

/// What cutting `text` to at most `max` bytes gives: the whole text when it fits
/// (and `false`); otherwise its first `max` bytes, cut back to the last space in them
/// when there is one (and `true`).
pub open spec fn truncated(text: Seq<char>, max: int) -> (Seq<char>, bool) {
    if byte_len(text) <= max {
        (text, false)
    } else {
        let prefix = text.take(floor_index(text, max) as int);
        match last_index_of(prefix, ' ') {
            Some(j) => (prefix.take(j), true),
            None => (prefix, true),
        }
    }
}

/// Cuts `text` to at most `max_chars` bytes, preferring to cut at a space, and says
/// whether anything was cut. When the text is longer, `max_chars` must fall on a
/// character boundary.
pub fn truncate_to_chars(text: &str, max_chars: usize) -> (r: (String, bool))
    requires
        byte_len(text@) <= max_chars || is_boundary(text@, max_chars as int),
    ensures
        (r.0@, r.1) == truncated(text@, max_chars as int),
        r.1 <==> byte_len(text@) > max_chars,
        byte_len(r.0@) <= max_chars,
        r.0@ == text@.take(r.0@.len() as int),
{
    let chars = chars_of(text);
    match byte_len_up_to(&chars, max_chars) {
        Some(_) => {
            assert(text@.take(text@.len() as int) =~= text@);
            (text.to_owned(), false)
        },
        None => {
            let k = count_chars_within(&chars, max_chars);
            proof {
                lemma_chars_within(text@, max_chars as int);
                lemma_prefix_bytes(text@, k as int);
            }
            match last_index_in(&chars, k, ' ') {
                Some(j) => {
                    let s = string_of_range(&chars, 0, j);
                    proof {
                        assert(s@ =~= text@.take(k as int).take(j as int));
                        lemma_prefix_bytes(text@, j as int);
                        crate::text::lemma_offset_monotone(text@, j as int, k as int);
                        assert(text@.take(s@.len() as int) =~= s@);
                        assert(chars@.take(k as int) == text@.take(floor_index(text@, max_chars as int) as int));
                        assert(truncated(text@, max_chars as int) == (text@.take(k as int).take(j as int), true));
                    }
                    (s, true)
                },
                None => {
                    let s = string_of_range(&chars, 0, k);
                    proof {
                        assert(s@ =~= text@.take(k as int));
                        assert(text@.take(s@.len() as int) =~= s@);
                        assert(chars@.take(k as int) == text@.take(floor_index(text@, max_chars as int) as int));
                        assert(truncated(text@, max_chars as int) == (text@.take(k as int), true));
                    }
                    (s, true)
                },
            }
        },
    }
}

proof fn lemma_prefix_bytes(s: Seq<char>, k: int)
    requires
        0 <= k <= s.len(),
    ensures
        byte_len(s.take(k)) == byte_offset(s, k),
{
}

// ---------------------------------------------------------------------------
// Currency: content that goes stale
// ---------------------------------------------------------------------------

pub const DATE_REFERENCE: &'static str = r"(?i)(as of|updated|last updated)\s*(january|february|march|april|may|june|july|august|september|october|november|december|\d{1,2}[/-]\d{1,2})";

pub const CURRENT_STATUS: &'static str = r"(?i)(current(ly)?|now|today|this week|this month|latest)\s+(price|rate|status|ceo|president|leader)";

pub const PRICES: &'static str = r"(?i)\$\d+[\d,]*(\.\d{2})?";

pub const FINANCIAL_DATA: &'static str = r"(?i)(stock|share|market)\s+(price|value|trading)";

pub const POLLING_DATA: &'static str = r"(?i)(election|vote|poll|approval rating)";

pub const RECENT_EVENTS: &'static str = r"(?i)(breaking|just (announced|released)|recently)";

pub const FINANCIAL_PERIOD: &'static str = r"(?i)(q[1-4]\s*20\d{2}|fy\s*20\d{2}|20\d{2}\s*(earnings|results|report))";

/// The time-sensitivity patterns, in the order they are tried.
pub open spec fn currency_patterns() -> Seq<Seq<char>> {
    seq![
        DATE_REFERENCE@,
        CURRENT_STATUS@,
        PRICES@,
        FINANCIAL_DATA@,
        POLLING_DATA@,
        RECENT_EVENTS@,
        FINANCIAL_PERIOD@,
    ]
}

/// The reason reported for each time-sensitivity pattern.
pub open spec fn currency_reasons() -> Seq<Seq<char>> {
    seq![
        "Contains date reference"@,
        "Current status reference"@,
        "Contains prices"@,
        "Financial data"@,
        "Political/polling data"@,
        "Recent events language"@,
        "Financial period reference"@,
    ]
}

fn currency_pattern(i: usize) -> (p: &'static str)
    requires
        i < 7,
    ensures
        p@ == currency_patterns()[i as int],
{
    if i == 0 {
        DATE_REFERENCE
    } else if i == 1 {
        CURRENT_STATUS
    } else if i == 2 {
        PRICES
    } else if i == 3 {
        FINANCIAL_DATA
    } else if i == 4 {
        POLLING_DATA
    } else if i == 5 {
        RECENT_EVENTS
    } else {
        FINANCIAL_PERIOD
    }
}

fn currency_reason(i: usize) -> (r: &'static str)
    requires
        i < 7,
    ensures
        r@ == currency_reasons()[i as int],
{
    if i == 0 {
        "Contains date reference"
    } else if i == 1 {
        "Current status reference"
    } else if i == 2 {
        "Contains prices"
    } else if i == 3 {
        "Financial data"
    } else if i == 4 {
        "Political/polling data"
    } else if i == 5 {
        "Recent events language"
    } else {
        "Financial period reference"
    }
}

/// The first match of each time-sensitivity pattern in the lowercased text
/// (`None` for a pattern that does not compile or does not match).
pub open spec fn currency_matches(text: Seq<char>) -> Seq<Option<(int, int)>> {
    Seq::new(
        7,
        |i: int|
            if regex_compiles(currency_patterns()[i]) {
                regex_find_first(currency_patterns()[i], lowercase(text))
            } else {
                None
            },
    )
}

/// Byte range of the snippet around a match: 20 bytes before it and 30 after,
/// clipped to the text.
pub open spec fn snippet_range(text: Seq<char>, m: (int, int)) -> (int, int) {
    (
        if m.0 >= 20 {
            m.0 - 20
        } else {
            0
        },
        if m.1 + 30 <= byte_len(text) {
            m.1 + 30
        } else {
            byte_len(text) as int
        },
    )
}

/// The snippet around a match can be cut out of the text: its ends are character
/// boundaries in order, and computing the end does not overflow.
pub open spec fn snippet_fits(text: Seq<char>, m: (int, int)) -> bool {
    let r = snippet_range(text, m);
    &&& 0 <= m.0
    &&& m.1 + 30 <= usize::MAX
    &&& r.0 <= r.1
    &&& is_boundary(text, r.0)
    &&& is_boundary(text, r.1)
}

pub open spec fn snippet(text: Seq<char>, m: (int, int)) -> Seq<char> {
    let r = snippet_range(text, m);
    text.subrange(floor_index(text, r.0) as int, floor_index(text, r.1) as int)
}

pub open spec fn snippets_fit(text: Seq<char>, found: Seq<Option<(int, int)>>) -> bool {
    forall|i: int| 0 <= i < found.len() ==> (#[trigger] found[i] matches Some(m) ==> snippet_fits(text, m))
}

/// The snippets of all the matches found, in pattern order.
pub open spec fn all_snippets(text: Seq<char>, found: Seq<Option<(int, int)>>) -> Seq<Seq<char>>
    decreases found.len(),
{
    if found.len() == 0 {
        Seq::empty()
    } else {
        let earlier = all_snippets(text, found.drop_last());
        match found.last() {
            Some(m) => earlier.push(snippet(text, m)),
            None => earlier,
        }
    }
}

/// The reasons of the patterns that matched, in pattern order, each once.
pub open spec fn matched_reasons(found: Seq<Option<(int, int)>>) -> Seq<Seq<char>>
    decreases found.len(),
{
    if found.len() == 0 {
        Seq::empty()
    } else {
        let earlier = matched_reasons(found.drop_last());
        let reason = currency_reasons()[found.len() - 1];
        if found.last() is Some && !earlier.contains(reason) {
            earlier.push(reason)
        } else {
            earlier
        }
    }
}

/// The verdict on a text whose pattern matches are `found`: it needs verification
/// when any pattern matched; the reasons of those patterns; and the snippets around
/// the first three matches.
pub open spec fn currency_verdict(text: Seq<char>, found: Seq<Option<(int, int)>>) -> (
    bool,
    Seq<Seq<char>>,
    Seq<Seq<char>>,
) {
    let snippets = all_snippets(text, found);
    (
        exists|i: int| 0 <= i < found.len() && #[trigger] found[i] is Some,
        matched_reasons(found),
        if snippets.len() <= 3 {
            snippets
        } else {
            snippets.take(3)
        },
    )
}

/// Whether a text holds time-sensitive content, why, and where.
pub struct CurrencyCheck {
    pub needs_verification: bool,
    pub reasons: Vec<String>,
    pub time_sensitive_matches: Vec<String>,
}

impl View for CurrencyCheck {
    type V = (bool, Seq<Seq<char>>, Seq<Seq<char>>);

    open spec fn view(&self) -> Self::V {
        (
            self.needs_verification,
            strings_view(self.reasons@),
            strings_view(self.time_sensitive_matches@),
        )
    }
}

pub open spec fn found_view(v: Seq<Option<(usize, usize)>>) -> Seq<Option<(int, int)>> {
    v.map_values(
        |f: Option<(usize, usize)>|
            match f {
                Some(m) => Some((m.0 as int, m.1 as int)),
                None => None,
            },
    )
}

/// The snippet of text around a match (20 bytes before, 30 after, clipped to the text).
fn cut_snippet(text: &str, chars: &Vec<char>, m: (usize, usize)) -> (s: String)
    requires
        chars@ == text@,
        snippet_fits(text@, (m.0 as int, m.1 as int)),
    ensures
        s@ == snippet(text@, (m.0 as int, m.1 as int)),
{
    let ghost r = snippet_range(text@, (m.0 as int, m.1 as int));
    let start = if m.0 >= 20 {
        m.0 - 20
    } else {
        0
    };
    let reach = m.1 + 30;
    let end = match byte_len_up_to(chars, reach) {
        Some(n) => n,
        None => reach,
    };
    assert(start == r.0 && end == r.1);
    let k1 = count_chars_within(chars, start);
    let k2 = count_chars_within(chars, end);
    proof {
        lemma_offset_monotone(text@, 0, text@.len() as int);
        crate::text::lemma_offset_zero_full(text@);
        lemma_floor_ceil(text@, start as int);
        lemma_floor_ceil(text@, end as int);
        if k1 > k2 {
            crate::text::lemma_offset_strictly_increasing(text@, k2 as int, k1 as int);
        }
    }
    string_of_range(chars, k1, k2)
}

/// The verdict on `text` given the first match of each time-sensitivity pattern.
pub fn currency_check_from_matches(text: &str, found: &Vec<Option<(usize, usize)>>) -> (c: CurrencyCheck)
    requires
        found.len() == 7,
        snippets_fit(text@, found_view(found@)),
    ensures
        c@ == currency_verdict(text@, found_view(found@)),
{
    let chars = chars_of(text);
    let mut needs = false;
    let mut reasons: Vec<String> = Vec::new();
    let mut snippets: Vec<String> = Vec::new();
    let ghost fv = found_view(found@);
    let mut i: usize = 0;
    while i < 7
        invariant
            chars@ == text@,
            found.len() == 7,
            fv == found_view(found@),
            snippets_fit(text@, fv),
            i <= 7,
            needs == exists|j: int| 0 <= j < i && #[trigger] fv[j] is Some,
            strings_view(reasons@) == matched_reasons(fv.take(i as int)),
            strings_view(snippets@) == (if all_snippets(text@, fv.take(i as int)).len() <= 3 {
                all_snippets(text@, fv.take(i as int))
            } else {
                all_snippets(text@, fv.take(i as int)).take(3)
            }),
        decreases 7 - i,
    {
        let ghost before = fv.take(i as int);
        assert(fv.take(i + 1).drop_last() =~= before);
        assert(fv.take(i + 1).last() == fv[i as int]);
        match found[i] {
            Some(m) => {
                assert(fv[i as int] == Some((m.0 as int, m.1 as int)));
                let reason = currency_reason(i);
                needs = true;
                let ghost old_reasons = reasons@;
                if !holds_text(&reasons, reason) {
                    reasons.push(reason.to_owned());
                    assert(strings_view(reasons@) =~= strings_view(old_reasons).push(reason@));
                }
                let piece = cut_snippet(text, &chars, m);
                let ghost old_snippets = snippets@;
                if snippets.len() < 3 {
                    snippets.push(piece);
                    assert(strings_view(snippets@) =~= strings_view(old_snippets).push(piece@));
                }
                proof {
                    let all_before = all_snippets(text@, before);
                    let all_now = all_snippets(text@, fv.take(i + 1));
                    assert(all_now == all_before.push(piece@));
                    if all_before.len() < 3 {
                        assert(strings_view(snippets@) =~= all_now);
                    } else if all_before.len() == 3 {
                        assert(all_now.take(3) =~= all_before);
                    } else {
                        assert(all_now.take(3) =~= all_before.take(3));
                    }
                }
            },
            None => {
                assert(fv[i as int] is None);
            },
        }
        i = i + 1;
    }
    assert(fv.take(7) =~= fv);
    CurrencyCheck { needs_verification: needs, reasons, time_sensitive_matches: snippets }
}

fn snippet_fits_exec(text: &str, m: (usize, usize)) -> (b: bool)
    ensures
        b == snippet_fits(text@, (m.0 as int, m.1 as int)),
{
    if m.1 > usize::MAX - 30 {
        return false;
    }
    let chars = chars_of(text);
    let start = if m.0 >= 20 {
        m.0 - 20
    } else {
        0
    };
    let reach = m.1 + 30;
    let end = match byte_len_up_to(&chars, reach) {
        Some(n) => n,
        None => reach,
    };
    start <= end && is_char_boundary(text, start) && is_char_boundary(text, end)
}

/// Checks `text` for time-sensitive content (dates, current status, prices, market
/// data, polls, recent events, financial periods): each pattern is matched against the
/// lowercased text and its snippet cut from `text` itself. `None` exactly when a
/// snippet cannot be cut there (its ends do not fall on character boundaries of `text`).
pub fn check_currency_needs(text: &str) -> (r: Option<CurrencyCheck>)
    ensures
        r is Some <==> snippets_fit(text@, currency_matches(text@)),
        r matches Some(c) ==> c@ == currency_verdict(text@, currency_matches(text@)),
{
    let lower = text.to_lowercase();
    let mut found: Vec<Option<(usize, usize)>> = Vec::new();
    let mut i: usize = 0;
    while i < 7
        invariant
            i <= 7,
            lower@ == lowercase(text@),
            found.len() == i,
            forall|j: int| 0 <= j < i ==> #[trigger] found_view(found@)[j] == currency_matches(text@)[j],
        decreases 7 - i,
    {
        let pattern = currency_pattern(i);
        let f = match find_first_match(pattern, lower.as_str()) {
            Some(f) => f,
            None => None,
        };
        let ghost old = found@;
        found.push(f);
        proof {
            assert forall|j: int| 0 <= j < i + 1 implies #[trigger] found_view(found@)[j]
                == currency_matches(text@)[j] by {
                if j < i {
                    assert(found@[j] == old[j]);
                    assert(found_view(old)[j] == currency_matches(text@)[j]);
                }
            }
        }
        i = i + 1;
    }
    assert(found_view(found@) =~= currency_matches(text@));
    let mut j: usize = 0;
    while j < 7
        invariant
            found.len() == 7,
            found_view(found@) == currency_matches(text@),
            j <= 7,
            forall|q: int| 0 <= q < j ==> (#[trigger] found_view(found@)[q] matches Some(m) ==> snippet_fits(text@, m)),
        decreases 7 - j,
    {
        match found[j] {
            Some(m) => {
                if !snippet_fits_exec(text, m) {
                    assert(found_view(found@)[j as int] == Some((m.0 as int, m.1 as int)));
                    return None;
                }
            },
            None => {},
        }
        j = j + 1;
    }
    Some(currency_check_from_matches(text, &found))
}

proof fn lemma_matched_reasons_nonempty(found: Seq<Option<(int, int)>>)
    ensures
        (exists|i: int| 0 <= i < found.len() && #[trigger] found[i] is Some) <==> matched_reasons(
            found,
        ).len() > 0,
    decreases found.len(),
{
    if found.len() > 0 {
        let earlier = found.drop_last();
        lemma_matched_reasons_nonempty(earlier);
        if exists|i: int| 0 <= i < earlier.len() && #[trigger] earlier[i] is Some {
            let i = choose|i: int| 0 <= i < earlier.len() && #[trigger] earlier[i] is Some;
            assert(found[i] is Some);
        }
        if exists|i: int| 0 <= i < found.len() && #[trigger] found[i] is Some {
            let i = choose|i: int| 0 <= i < found.len() && #[trigger] found[i] is Some;
            if i < found.len() - 1 {
                assert(earlier[i] is Some);
            }
        }
    }
}

/// Each reason is paired with its own pattern, and no pattern is tried twice.
pub proof fn law_currency_pairs()
    ensures
        currency_patterns().len() == 7,
        currency_reasons().len() == 7,
        currency_patterns()[0] == DATE_REFERENCE@ && currency_reasons()[0] == "Contains date reference"@,
        currency_patterns()[1] == CURRENT_STATUS@ && currency_reasons()[1] == "Current status reference"@,
        currency_patterns()[2] == PRICES@ && currency_reasons()[2] == "Contains prices"@,
        currency_patterns()[3] == FINANCIAL_DATA@ && currency_reasons()[3] == "Financial data"@,
        currency_patterns()[4] == POLLING_DATA@ && currency_reasons()[4] == "Political/polling data"@,
        currency_patterns()[5] == RECENT_EVENTS@ && currency_reasons()[5] == "Recent events language"@,
        currency_patterns()[6] == FINANCIAL_PERIOD@ && currency_reasons()[6] == "Financial period reference"@,
        forall|i: int, j: int|
            0 <= i < 7 && 0 <= j < 7 && i != j ==> #[trigger] currency_patterns()[i] != #[trigger] currency_patterns()[j],
{
    reveal_strlit(r"(?i)(as of|updated|last updated)\s*(january|february|march|april|may|june|july|august|september|october|november|december|\d{1,2}[/-]\d{1,2})");
    reveal_strlit(r"(?i)(current(ly)?|now|today|this week|this month|latest)\s+(price|rate|status|ceo|president|leader)");
    reveal_strlit(r"(?i)\$\d+[\d,]*(\.\d{2})?");
    reveal_strlit(r"(?i)(stock|share|market)\s+(price|value|trading)");
    reveal_strlit(r"(?i)(election|vote|poll|approval rating)");
    reveal_strlit(r"(?i)(breaking|just (announced|released)|recently)");
    reveal_strlit(r"(?i)(q[1-4]\s*20\d{2}|fy\s*20\d{2}|20\d{2}\s*(earnings|results|report))");
    let p = currency_patterns();
    assert(p[0][5] == 'a');
    assert(p[1][5] == 'c');
    assert(p[2][5] == '$');
    assert(p[3][5] == 's');
    assert(p[4][5] == 'e');
    assert(p[5][5] == 'b');
    assert(p[6][5] == 'q');
    assert forall|i: int, j: int| 0 <= i < 7 && 0 <= j < 7 && i != j implies #[trigger] p[i] != #[trigger] p[j] by {
        assert(p[i][5] != p[j][5]);
    }
}

/// Every pattern that matched has its reason reported, and every reason reported
/// belongs to a pattern that matched.
pub proof fn law_matched_patterns_reported(found: Seq<Option<(int, int)>>)
    requires
        found.len() <= 7,
    ensures
        forall|i: int| 0 <= i < found.len() && #[trigger] found[i] is Some ==> matched_reasons(found).contains(currency_reasons()[i]),
        forall|r: Seq<char>| #[trigger] matched_reasons(found).contains(r) ==> exists|i: int|
            0 <= i < found.len() && #[trigger] found[i] is Some && currency_reasons()[i] == r,
    decreases found.len(),
{
    if found.len() > 0 {
        let earlier = found.drop_last();
        law_matched_patterns_reported(earlier);
        let reason = currency_reasons()[found.len() - 1];
        let m = matched_reasons(found);
        let e = matched_reasons(earlier);
        assert forall|i: int| 0 <= i < found.len() && #[trigger] found[i] is Some implies m.contains(currency_reasons()[i]) by {
            if i < found.len() - 1 {
                assert(earlier[i] is Some);
                let k = choose|k: int| 0 <= k < e.len() && e[k] == currency_reasons()[i];
                if found.last() is Some && !e.contains(reason) {
                    assert(m[k] == e[k]);
                }
            } else {
                if !e.contains(reason) {
                    assert(m[m.len() - 1] == reason);
                }
            }
        }
        assert forall|r: Seq<char>| #[trigger] m.contains(r) implies exists|i: int|
            0 <= i < found.len() && #[trigger] found[i] is Some && currency_reasons()[i] == r by {
            let k = choose|k: int| 0 <= k < m.len() && m[k] == r;
            if found.last() is Some && !e.contains(reason) && k == m.len() - 1 {
                assert(found[found.len() - 1] is Some);
            } else {
                if found.last() is Some && !e.contains(reason) {
                    assert(m == e.push(reason));
                } else {
                    assert(m == e);
                }
                assert(e[k] == r);
                assert(e.contains(r));
                let i = choose|i: int| 0 <= i < earlier.len() && #[trigger] earlier[i] is Some && currency_reasons()[i] == r;
                assert(found[i] is Some);
            }
        }
    }
}

/// Whenever the current-status pattern finds a match in the lowercased text, the text
/// needs verification and "Current status reference" is among the reasons.
pub proof fn law_current_status_reported(text: Seq<char>)
    requires
        regex_compiles(CURRENT_STATUS@),
        regex_find_first(CURRENT_STATUS@, lowercase(text)) is Some,
    ensures
        currency_verdict(text, currency_matches(text)).0,
        currency_verdict(text, currency_matches(text)).1.contains("Current status reference"@),
{
    law_currency_pairs();
    let found = currency_matches(text);
    assert(found[1] is Some);
    law_matched_patterns_reported(found);
}

/// A text needs verification exactly when at least one reason is reported, and
/// at most three snippets are reported.
pub proof fn lemma_currency_verdict_consistent(text: Seq<char>, found: Seq<Option<(int, int)>>)
    ensures
        currency_verdict(text, found).0 <==> currency_verdict(text, found).1.len() > 0,
        currency_verdict(text, found).2.len() <= 3,
{
    lemma_matched_reasons_nonempty(found);
}

// ---------------------------------------------------------------------------
// Fetch-and-summarise decisions
// ---------------------------------------------------------------------------

/// Bytes of clean text shown when summarising is skipped.
pub const CLEAN_PREVIEW_BYTES: usize = 2000;

/// Bytes of clean text handed to the summarising model.
pub const MODEL_INPUT_BYTES: usize = 16000;

/// Bytes of clean text shown as a fallback when summarising fails.
pub const FALLBACK_PREVIEW_BYTES: usize = 1500;

/// Bytes of clean text shown next to a summary that needs checking.
pub const RAW_PREVIEW_BYTES: usize = 1000;

/// The warnings a fetch starts with: a non-200 status, and a page with under 200 bytes
/// of text (likely rendered by scripts).
pub open spec fn fetch_warnings_for(status: u16, clean_length: usize) -> Seq<Seq<char>> {
    (if status != 200 {
        seq!["HTTP status "@ + decimal(status as nat)]
    } else {
        Seq::empty()
    }) + (if clean_length < 200 {
        seq!["Very little text extracted - page may be JS-rendered. Try browser:http_scrape"@]
    } else {
        Seq::empty()
    })
}

/// The warnings a fetch starts with.
pub fn fetch_warnings(status: u16, clean_length: usize) -> (w: Vec<String>)
    ensures
        strings_view(w@) == fetch_warnings_for(status, clean_length),
{
    let mut w: Vec<String> = Vec::new();
    if status != 200 {
        let mut m = "HTTP status ".to_owned();
        let code = format_dimension(status as usize);
        append_text(&mut m, code.as_str());
        w.push(m);
    }
    if clean_length < 200 {
        w.push("Very little text extracted - page may be JS-rendered. Try browser:http_scrape".to_owned());
    }
    assert(strings_view(w@) =~= fetch_warnings_for(status, clean_length));
    w
}

/// The warning added when the model's input had to be cut.
pub open spec fn input_truncated_warning(clean_length: usize) -> Seq<char> {
    "Input truncated from "@ + decimal(clean_length as nat) + " to "@ + decimal(
        MODEL_INPUT_BYTES as nat,
    ) + " chars for LLM"@
}

/// The warning added when the model's input had to be cut.
pub fn input_truncated_message(clean_length: usize) -> (m: String)
    ensures
        m@ == input_truncated_warning(clean_length),
{
    let mut m = "Input truncated from ".to_owned();
    let a = format_dimension(clean_length);
    append_text(&mut m, a.as_str());
    append_text(&mut m, " to ");
    let b = format_dimension(MODEL_INPUT_BYTES);
    append_text(&mut m, b.as_str());
    append_text(&mut m, " chars for LLM");
    m
}

/// Words the summary may use: three quarters of the token budget.
pub fn summary_word_budget(max_tokens: usize) -> (w: usize)
    requires
        max_tokens * 3 <= usize::MAX,
    ensures
        w == max_tokens * 3 / 4,
{
    max_tokens * 3 / 4
}

/// A raw preview goes with the summary when asked for, when there are warnings, or
/// when the content may be out of date.
pub fn include_raw_preview(forced: bool, has_warnings: bool, needs_verification: bool) -> (b: bool)
    ensures
        b == (forced || has_warnings || needs_verification),
{
    forced || has_warnings || needs_verification
}

/// The fixed parts of the summary prompt, between which go the focus, the word budget
/// and the page text.
pub open spec fn summary_template() -> Seq<Seq<char>> {
    seq![
        "Summarize the following web page content.\n\nFOCUS: "@,
        "\nMAX LENGTH: "@,
        " words\n\nRULES:\n1. Extract the most important information related to the focus\n2. Include specific facts, numbers, names when relevant\n3. If the content seems unrelated to the focus, summarize what IS there\n4. Include 2-3 direct quotes that support key points (mark with \"...\")\n\nCONTENT:\n"@,
        "\n\nSUMMARY:"@,
    ]
}

fn summary_pieces() -> (v: Vec<&'static str>)
    ensures
        texts_view(v@) == summary_template(),
{
    let v = vec![
        "Summarize the following web page content.\n\nFOCUS: ",
        "\nMAX LENGTH: ",
        " words\n\nRULES:\n1. Extract the most important information related to the focus\n2. Include specific facts, numbers, names when relevant\n3. If the content seems unrelated to the focus, summarize what IS there\n4. Include 2-3 direct quotes that support key points (mark with \"...\")\n\nCONTENT:\n",
        "\n\nSUMMARY:",
    ];
    assert(texts_view(v@) =~= summary_template());
    v
}

/// The prompt asking a model to summarise page text with a focus and a word budget.
pub fn summary_prompt(focus: &str, max_words: usize, content: &str) -> (p: String)
    ensures
        p@ == filled(summary_template(), seq![focus@, decimal(max_words as nat), content@]),
{
    let values = vec![focus.to_owned(), format_dimension(max_words), content.to_owned()];
    let pieces = summary_pieces();
    assert(summary_template().len() == 4);
    assert(texts_view(pieces@).len() == pieces@.len());
    assert(values@.len() == 3);
    let p = fill_template(&pieces, &values);
    assert(strings_view(values@) =~= seq![focus@, decimal(max_words as nat), content@]);
    p
}

} // verus!
