use echo::protocol::{
    classify_method, classify_tool, fallback_matches, invalid_version_message, is_blank_line,
    method_not_found_message, model_for_tool, route_message, server_selected, tally_servers,
    unknown_tool_message, Method, Route, Tool,
};

#[test]
fn messages_are_routed() {
    assert_eq!(route_message(Some("1.0"), true, Some("ping")), Route::InvalidVersion);
    assert_eq!(route_message(Some("1.0"), false, None), Route::InvalidVersion);
    assert_eq!(route_message(None, true, Some("notifications/initialized")), Route::Skip);
    assert_eq!(route_message(Some("2.0"), false, Some("ping")), Route::Skip);
    assert_eq!(route_message(Some("2.0"), true, None), Route::Skip);
    assert_eq!(route_message(Some("2.0"), true, Some("tools/list")), Route::Handle);
    assert_eq!(route_message(None, true, Some("ping")), Route::Handle);
}

#[test]
fn blank_lines_are_ignored() {
    assert!(is_blank_line(""));
    assert!(is_blank_line(" \t\r"));
    assert!(!is_blank_line(" {} "));
}

#[test]
fn methods_and_tools_are_recognised() {
    assert_eq!(classify_method("initialize"), Method::Initialize);
    assert_eq!(classify_method("tools/list"), Method::ToolsList);
    assert_eq!(classify_method("tools/call"), Method::ToolsCall);
    assert_eq!(classify_method("ping"), Method::Ping);
    assert_eq!(classify_method("Ping"), Method::Unknown);
    assert_eq!(classify_tool("smart_fetch"), Tool::SmartFetch);
    assert_eq!(classify_tool("semantic_reindex"), Tool::SemanticReindex);
    assert_eq!(classify_tool("error_fallbacks"), Tool::ErrorFallbacks);
    assert_eq!(classify_tool("nope"), Tool::Unknown);
    assert_eq!(unknown_tool_message("nope"), "Unknown tool: nope");
    assert_eq!(method_not_found_message("x/y"), "Method not found: x/y");
    assert_eq!(invalid_version_message("1.0"), "Invalid JSON-RPC version: expected '2.0', got '1.0'");
}

#[test]
fn model_backed_tools_have_no_default_model() {
    assert_eq!(model_for_tool(Tool::Embed, None), Err("Missing 'model' parameter".to_string()));
    assert_eq!(model_for_tool(Tool::Compare, Some("m".to_string())), Ok(Some("m".to_string())));
    assert_eq!(
        model_for_tool(Tool::SemanticReindex, None),
        Err("Missing 'model' parameter \u{2014} specify the embedding model to use (e.g. 'nomic-embed-text')".to_string())
    );
    assert_eq!(model_for_tool(Tool::Heuristics, Some("m".to_string())), Ok(None));
    assert_eq!(model_for_tool(Tool::Health, None), Ok(None));
}

#[test]
fn fallbacks_match_case_insensitively_on_symptom_or_name() {
    assert!(fallback_matches("linker_lock", "LINK : fatal error LNK1181", "lnk1181"));
    assert!(fallback_matches("Ollama_Down", "connection refused", "ollama"));
    assert!(!fallback_matches("a", "b", "c"));
    assert!(fallback_matches("a", "b", ""));
}

#[test]
fn server_filters_and_tallies() {
    let filter = Some(vec!["local".to_string(), "atlas".to_string()]);
    assert!(server_selected(&filter, "atlas"));
    assert!(!server_selected(&filter, "echo"));
    assert!(server_selected(&None, "echo"));
    assert_eq!(tally_servers(&vec![true, false, true]), (2, 1));
    assert_eq!(tally_servers(&vec![]), (0, 0));
}
