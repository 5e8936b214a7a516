use echo::chunking::chunk_text;

fn owned(v: &[(&str, usize, usize)]) -> Vec<(String, usize, usize)> {
    v.iter().map(|(s, a, b)| (s.to_string(), *a, *b)).collect()
}

#[test]
fn empty_text_has_no_chunks() {
    assert!(chunk_text("", 10, 2).is_empty());
}

#[test]
fn windows_advance_by_size_minus_overlap() {
    let chunks = chunk_text("abcdefghij", 4, 1);
    assert_eq!(chunks, owned(&[("abcd", 0, 4), ("defg", 3, 7), ("ghij", 6, 10)]));
}

#[test]
fn last_window_is_clipped_to_the_text() {
    let chunks = chunk_text("abcdefg", 3, 0);
    assert_eq!(chunks, owned(&[("abc", 0, 3), ("def", 3, 6), ("g", 6, 7)]));
}

#[test]
fn window_covering_the_text_gives_one_chunk_whatever_the_overlap() {
    assert_eq!(chunk_text("abc", 10, 20), owned(&[("abc", 0, 3)]));
    assert_eq!(chunk_text("abc", 3, 3), owned(&[("abc", 0, 3)]));
}

#[test]
fn positions_count_characters_not_bytes() {
    let chunks = chunk_text("héllo wörld", 5, 1);
    assert_eq!(chunks, owned(&[("héllo", 0, 5), ("o wör", 4, 9), ("rld", 8, 11)]));
}

#[test]
fn chunks_stitch_back_to_the_text() {
    let text = "The quick brown fox jumps over the lazy dog, again and again.";
    let (size, overlap) = (12usize, 5usize);
    let chunks = chunk_text(text, size, overlap);
    let mut stitched = String::new();
    for (i, (c, _, _)) in chunks.iter().enumerate() {
        if i + 1 < chunks.len() {
            let n = c.chars().count();
            stitched.extend(c.chars().take(n - overlap));
        } else {
            stitched.push_str(c);
        }
    }
    assert_eq!(stitched, text);
}

#[test]
fn neighbouring_chunks_share_the_overlap() {
    let chunks = chunk_text("0123456789abcdefghijklmnop", 8, 3);
    for w in chunks.windows(2) {
        let tail: String = w[0].0.chars().skip(8 - 3).collect();
        let head: String = w[1].0.chars().take(3).collect();
        assert_eq!(tail, head);
    }
}

#[test]
fn chunks_are_full_except_the_last() {
    let chunks = chunk_text(&"x".repeat(1300), 512, 100);
    assert_eq!(chunks.len(), 3);
    assert_eq!(chunks[0].0.chars().count(), 512);
    assert_eq!(chunks[1].0.chars().count(), 512);
    assert_eq!((chunks[2].1, chunks[2].2), (824, 1300));
    for c in &chunks {
        assert!(!c.0.is_empty() && c.0.chars().count() <= 512);
    }
}
