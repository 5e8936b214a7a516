use echo::store::{
    check_query_dimension, check_store_model, document_title, is_indexable_extension, probe_dimension, result_snippet,
    search_request, should_index, ReindexBatch,
};

#[test]
fn index_skips_archives_logs_scripts_and_indexes() {
    assert!(should_index("C:\\My Drive\\Volumes\\notes\\a.md"));
    assert!(should_index("/home/me/notes/archived.md"));
    assert!(!should_index("C:\\My Drive\\Volumes\\archive\\a.md"));
    assert!(!should_index("/data/logs/today.txt"));
    assert!(!should_index("/data/scripts/x.md"));
    assert!(!should_index("/data/backups/x.md"));
    assert!(!should_index("/vol/.semantic_index.db"));
    assert!(!should_index("/vol/.tantivy_index/meta.txt"));
}

#[test]
fn only_markdown_and_text_are_indexed() {
    assert!(is_indexable_extension(Some("md")));
    assert!(is_indexable_extension(Some("txt")));
    assert!(!is_indexable_extension(Some("rs")));
    assert!(!is_indexable_extension(Some("MD")));
    assert!(!is_indexable_extension(None));
}

#[test]
fn titles_come_from_the_first_line() {
    assert_eq!(document_title("# Hello World\nbody", Some("file")), "Hello World");
    assert_eq!(document_title("Title\r\nmore", Some("file")), "Title");
    assert_eq!(document_title("  ## Spaced  \n", None), "## Spaced");
    assert_eq!(document_title("---\ntitle: x", Some("file")), "file");
    assert_eq!(document_title("###   \nx", Some("file")), "file");
    assert_eq!(document_title("", Some("stem")), "stem");
    assert_eq!(document_title("", None), "Untitled");
    assert_eq!(document_title("only line", None), "only line");
}

#[test]
fn search_needs_the_model_that_built_the_index() {
    assert_eq!(check_store_model(&Some(("nomic".to_string(), 768)), "nomic"), Ok(()));
    assert_eq!(
        check_store_model(&Some(("nomic".to_string(), 768)), "mxbai"),
        Err("Store was built with model 'nomic' (dim 768), you requested 'mxbai'. Run semantic_reindex to rebuild.".to_string())
    );
    assert_eq!(
        check_store_model(&None, "nomic"),
        Err("Store has no metadata. Run semantic_reindex first.".to_string())
    );
}

#[test]
fn search_arguments_are_checked() {
    let r = search_request(Some("q".to_string()), Some("m".to_string()), None).unwrap();
    assert_eq!((r.query.as_str(), r.model.as_str(), r.limit), ("q", "m", 10));
    let r = search_request(Some("q".to_string()), Some("m".to_string()), Some(3)).unwrap();
    assert_eq!(r.limit, 3);
    assert_eq!(search_request(None, Some("m".to_string()), None).err(), Some("Missing 'query' parameter".to_string()));
    assert_eq!(
        search_request(Some("q".to_string()), None, None).err(),
        Some("Missing 'model' parameter \u{2014} specify the embedding model used at reindex time".to_string())
    );
}

#[test]
fn snippets_keep_short_content_and_cut_long_content() {
    assert_eq!(result_snippet("short"), "short");
    assert_eq!(result_snippet(&"a".repeat(200)), "a".repeat(200));
    assert_eq!(result_snippet(&"a".repeat(250)), format!("{}...", "a".repeat(200)));
    // 150 two-byte characters exceed 200 bytes but not 200 characters.
    assert_eq!(result_snippet(&"é".repeat(150)), format!("{}...", "é".repeat(150)));
}

#[test]
fn empty_probe_embedding_refuses_the_rebuild() {
    assert_eq!(probe_dimension("m", 768), Ok(768));
    assert_eq!(
        probe_dimension("nomic", 0),
        Err("Model 'nomic' returned empty embedding. Verify this model supports embeddings.".to_string())
    );
}

#[test]
fn batches_hand_over_every_chunk_in_order() {
    let mut batch = ReindexBatch::new();
    let doc = "y".repeat(600);
    let mut handed = Vec::new();
    for i in 0..60 {
        let path = format!("/v/doc{}.md", i);
        if let Some(b) = batch.add_document(&path, "T", &doc) {
            assert!(b.len() >= 100);
            handed.extend(b);
        }
    }
    assert_eq!(batch.file_count(), 60);
    assert_eq!(handed.len(), 100);
    if let Some(rest) = batch.finish() {
        handed.extend(rest);
    }
    assert_eq!(handed.len(), 120);
    for (i, c) in handed.iter().enumerate() {
        assert_eq!(c.path, format!("/v/doc{}.md", i / 2));
        assert_eq!(c.title, "T");
        if i % 2 == 0 {
            assert_eq!((c.start, c.end), (0, 512));
        } else {
            assert_eq!((c.start, c.end), (412, 600));
        }
    }
}

#[test]
fn search_needs_the_dimension_of_the_index() {
    assert_eq!(check_query_dimension(768, 768, "nomic"), Ok(()));
    assert_eq!(
        check_query_dimension(768, 1024, "mxbai"),
        Err("Dimension mismatch: store was built with dimension 768, model 'mxbai' returned 1024. Run semantic_reindex to rebuild.".to_string())
    );
}
