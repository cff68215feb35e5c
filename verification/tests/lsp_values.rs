use codex_toolkit::json::Json;
use codex_toolkit::json::JsonNumber;
use codex_toolkit::lsp::actions::LspAction;
use codex_toolkit::lsp::output::answer_text;
use codex_toolkit::lsp::output::normalize_value_for_output;
use codex_toolkit::lsp::output::truncate_result;
use codex_toolkit::lsp::settings::load_workspace_settings;
use codex_toolkit::lsp::settings::lookup_workspace_setting;
use codex_toolkit::lsp::settings::parse_jsonc_value;
use codex_toolkit::lsp::settings::settings_places;
use codex_toolkit::lsp::settings::workspace_configuration_response;
use codex_toolkit::lsp::symbols::fallback_workspace_symbols_from_document_symbols;
use codex_toolkit::lsp::symbols::hover_fallback_from_document_symbols;
use codex_toolkit::lsp::symbols::should_retry_empty_result;
use codex_toolkit::lsp::text_edits::apply_lsp_text_edits;
use codex_toolkit::lsp::transport::read_body;
use codex_toolkit::lsp::uri::lsp_uri_to_path;
use codex_toolkit::lsp::uri::path_to_file_url;
use codex_toolkit::lsp::uri::uri_display_path;
use codex_toolkit::lsp::workspace_edit::rename_preview_operation_count;
use codex_toolkit::lsp::workspace_edit::summarize_workspace_edit;
use codex_toolkit::json;
use codex_toolkit::json_text::lay_out;
use codex_toolkit::lsp::settings::strip_jsonc_comments;

fn json(source: &str) -> Json {
    read_body(source.as_bytes()).expect("valid JSON")
}

fn shown(value: &Json) -> serde_json::Value {
    serde_json::from_str(&answer_text(value)).expect("valid JSON")
}

fn expected(source: &str) -> serde_json::Value {
    serde_json::from_str(source).expect("valid JSON")
}

fn symbol_range(start_line: i64, start_character: i64, end_line: i64, end_character: i64) -> String {
    format!(
        r#"{{"start":{{"line":{start_line},"character":{start_character}}},"end":{{"line":{end_line},"character":{end_character}}}}}"#
    )
}

#[test]
fn normalize_value_for_output_converts_file_uris_and_positions() {
    let sample_path = "/tmp/example.rs";
    let uri = path_to_file_url(sample_path).expect("build sample uri");
    let value = json(&format!(
        r#"{{"uri":"{uri}","range":{{"start":{{"line":0,"character":1}},"end":{{"line":2,"character":3}}}}}}"#
    ));

    let value = shown(&normalize_value_for_output(&value));

    assert_eq!(value["uri"], expected("\"/tmp/example.rs\""));
    assert_eq!(value["range"]["start"]["line"], expected("1"));
    assert_eq!(value["range"]["start"]["character"], expected("2"));
    assert_eq!(value["range"]["end"]["line"], expected("3"));
    assert_eq!(value["range"]["end"]["character"], expected("4"));
}

#[test]
fn parse_jsonc_value_accepts_comments_and_trailing_commas() {
    let parsed = parse_jsonc_value(
        r#"{
                // line comment
                "rust-analyzer.check.command": "clippy",
                "gopls": {
                    /* block comment */
                    "ui.semanticTokens": true,
                },
            }"#,
    )
    .expect("parse jsonc settings");

    assert_eq!(
        shown(&parsed),
        expected(
            r#"{
                "rust-analyzer.check.command": "clippy",
                "gopls": {
                    "ui.semanticTokens": true
                }
            }"#
        )
    );
}

#[test]
fn workspace_configuration_response_returns_nested_values_for_dotted_sections() {
    let source = r#"{
            "rust-analyzer": {
                "check": {
                    "command": "clippy",
                    "features": "all"
                }
            },
            "gopls": {
                "ui": {
                    "semanticTokens": true
                }
            }
        }"#;
    let settings = json(source);

    let response = workspace_configuration_response(
        &settings,
        &json(
            r#"{
                "items": [
                    { "section": "rust-analyzer" },
                    { "section": "rust-analyzer.check" },
                    { "section": "gopls.ui.semanticTokens" },
                    { "section": "python.analysis" },
                    {}
                ]
            }"#,
        ),
    );

    assert_eq!(
        shown(&response),
        expected(&format!(
            r#"[
                {{
                    "check": {{
                        "command": "clippy",
                        "features": "all"
                    }}
                }},
                {{
                    "command": "clippy",
                    "features": "all"
                }},
                true,
                null,
                {source}
            ]"#
        ))
    );
}

#[test]
fn apply_lsp_text_edits_handles_utf16_offsets_and_descending_ranges() {
    let updated = apply_lsp_text_edits(
        "const value = \"🙂x\";\n",
        &[
            json(
                r#"{
                    "range": {
                        "start": { "line": 0, "character": 17 },
                        "end": { "line": 0, "character": 18 }
                    },
                    "newText": "y"
                }"#,
            ),
            json(
                r#"{
                    "range": {
                        "start": { "line": 0, "character": 0 },
                        "end": { "line": 0, "character": 5 }
                    },
                    "newText": "let"
                }"#,
            ),
        ],
    )
    .expect("apply text edits");

    assert_eq!(updated, "let value = \"🙂y\";\n");
}

#[test]
fn summarize_workspace_edit_builds_preview_for_text_and_resource_operations() {
    let old_uri = path_to_file_url("/tmp/demo/old.ts").expect("build old uri");
    let new_uri = path_to_file_url("/tmp/demo/new.ts").expect("build new uri");

    let preview = summarize_workspace_edit(
        &json(&format!(
            r#"{{
                "documentChanges": [
                    {{
                        "kind": "rename",
                        "oldUri": "{old_uri}",
                        "newUri": "{new_uri}"
                    }},
                    {{
                        "textDocument": {{
                            "uri": "{new_uri}"
                        }},
                        "edits": [
                            {{
                                "range": {{
                                    "start": {{ "line": 0, "character": 0 }},
                                    "end": {{ "line": 0, "character": 0 }}
                                }},
                                "newText": "hello"
                            }},
                            {{
                                "range": {{
                                    "start": {{ "line": 0, "character": 0 }},
                                    "end": {{ "line": 0, "character": 0 }}
                                }},
                                "newText": "world"
                            }}
                        ]
                    }}
                ]
            }}"#
        )),
        10,
    )
    .expect("summarize workspace edit");

    assert_eq!(rename_preview_operation_count(&preview), 2);
    let summary = shown(&preview);
    assert_eq!(summary["kind"], expected("\"workspace_edit_preview\""));
    assert_eq!(summary["operation_count"], expected("2"));
    assert_eq!(summary["text_edit_count"], expected("2"));
    assert_eq!(summary["resource_operation_count"], expected("1"));
    assert_eq!(summary["touched_path_count"], expected("2"));
    assert_eq!(summary["operations"][0]["kind"], expected("\"rename\""));
    assert_eq!(summary["operations"][1]["kind"], expected("\"text_document\""));
}

#[test]
fn load_workspace_settings_normalizes_vscode_dotted_keys() {
    let settings = load_workspace_settings(
        Some(
            r#"{
                "rust-analyzer.check.command": "clippy",
                "rust-analyzer.check.features": "all",
                "gopls": {
                    "ui.semanticTokens": true
                }
            }"#,
        ),
        "/home/alice/workspace",
    );
    assert_eq!(
        shown(&settings),
        expected(
            r#"{
                "rust-analyzer": {
                    "check": {
                        "command": "clippy",
                        "features": "all"
                    }
                },
                "gopls": {
                    "ui": {
                        "semanticTokens": true
                    }
                }
            }"#
        )
    );
}

#[test]
fn load_workspace_settings_uses_ancestor_vscode_dir_and_expands_variables() {
    let places = settings_places("/home/alice/workspace/crates/demo/src");
    assert_eq!(
        places[3],
        (
            "/home/alice/workspace/.vscode/settings.json".to_string(),
            "/home/alice/workspace".to_string()
        )
    );

    let settings = load_workspace_settings(
        Some(
            r#"{
                "rust-analyzer.linkedProjects": [
                    "${workspaceFolder}/Cargo.toml",
                    "${workspaceRoot}\\crates\\demo\\Cargo.toml"
                ],
                "rust-analyzer.cargo.targetDir": "${workspaceFolderBasename}"
            }"#,
        ),
        &places[3].1,
    );
    assert_eq!(
        shown(&settings),
        expected(
            r#"{
                "rust-analyzer": {
                    "linkedProjects": [
                        "/home/alice/workspace/Cargo.toml",
                        "/home/alice/workspace/crates/demo/Cargo.toml"
                    ],
                    "cargo": {
                        "targetDir": "workspace"
                    }
                }
            }"#
        )
    );
}

#[test]
fn settings_that_cannot_be_read_are_empty() {
    assert_eq!(shown(&load_workspace_settings(None, "/w")), expected("{}"));
    assert_eq!(shown(&load_workspace_settings(Some("{"), "/w")), expected("{}"));
    assert!(parse_jsonc_value("{").is_err());
}

#[test]
fn should_retry_empty_result_only_for_rust_hover_and_workspace_symbols() {
    assert!(should_retry_empty_result("rust", LspAction::Hover, &Json::Null));
    assert!(should_retry_empty_result(
        "rust",
        LspAction::WorkspaceSymbols,
        &json("[]")
    ));
    assert!(!should_retry_empty_result(
        "rust",
        LspAction::WorkspaceSymbols,
        &json(r#"[{ "name": "helper" }]"#)
    ));
    assert!(!should_retry_empty_result(
        "rust",
        LspAction::DocumentSymbols,
        &Json::Null
    ));
    assert!(!should_retry_empty_result("python", LspAction::Hover, &Json::Null));
}

#[test]
fn workspace_symbol_fallback_ranks_exact_prefix_contains_then_detail() {
    let document_symbols = json(&format!(
        r#"[
            {{ "name": "alpha_target", "kind": 12, "range": {}, "selectionRange": {} }},
            {{
                "name": "container",
                "kind": 5,
                "range": {},
                "selectionRange": {},
                "children": [
                    {{ "name": "target", "kind": 12, "range": {}, "selectionRange": {} }}
                ]
            }},
            {{ "name": "TargetWidget", "kind": 12, "range": {}, "selectionRange": {} }},
            {{
                "name": "misc",
                "kind": 12,
                "detail": "returns target metadata",
                "range": {},
                "selectionRange": {}
            }}
        ]"#,
        symbol_range(0, 0, 0, 12),
        symbol_range(0, 0, 0, 12),
        symbol_range(1, 0, 5, 0),
        symbol_range(1, 0, 1, 9),
        symbol_range(2, 0, 2, 6),
        symbol_range(2, 0, 2, 6),
        symbol_range(6, 0, 6, 12),
        symbol_range(6, 0, 6, 12),
        symbol_range(7, 0, 7, 4),
        symbol_range(7, 0, 7, 4),
    ));

    let result = fallback_workspace_symbols_from_document_symbols(
        &document_symbols,
        "/tmp/main.rs",
        Some("target"),
        10,
    )
    .expect("build workspace symbol fallback");
    let mut names: Vec<String> = Vec::new();
    for item in result.as_array().expect("result array") {
        if let Some(name) = item.get("name").and_then(Json::as_str) {
            names.push(name.to_string());
        }
    }

    assert_eq!(names, vec!["target", "TargetWidget", "alpha_target", "misc"]);
}

#[test]
fn hover_fallback_prefers_deepest_matching_document_symbol() {
    let document_symbols = json(&format!(
        r#"[
            {{
                "name": "outer",
                "kind": 2,
                "detail": "mod outer",
                "range": {},
                "selectionRange": {},
                "children": [
                    {{
                        "name": "inner",
                        "kind": 12,
                        "detail": "fn inner()",
                        "range": {},
                        "selectionRange": {}
                    }}
                ]
            }}
        ]"#,
        symbol_range(0, 0, 8, 0),
        symbol_range(0, 0, 0, 5),
        symbol_range(2, 0, 4, 1),
        symbol_range(2, 3, 2, 8),
    ));

    let hover = hover_fallback_from_document_symbols(&document_symbols, Some(3), Some(4))
        .expect("hover fallback");
    let hover = shown(&hover);
    assert_eq!(hover["contents"]["kind"], expected("\"markdown\""));
    assert_eq!(
        hover["contents"]["value"],
        expected("\"```text\\ninner\\nfn inner()\\n```\"")
    );
    assert_eq!(hover["range"], expected(&symbol_range(2, 3, 2, 8)));
}

#[test]
fn urls_name_files() {
    assert_eq!(
        path_to_file_url("/tmp/a b.rs"),
        Ok("file:///tmp/a%20b.rs".to_string())
    );
    assert!(path_to_file_url("a.rs").is_err());
    assert_eq!(
        lsp_uri_to_path("file:///tmp/a%20b.rs"),
        Ok("/tmp/a b.rs".to_string())
    );
    assert!(lsp_uri_to_path("https://example.com/a").is_err());
    assert_eq!(uri_display_path("file:///tmp/x"), Some("/tmp/x".to_string()));
    assert_eq!(uri_display_path("untitled:x"), None);
}

#[test]
fn settings_are_looked_up_by_dotted_path() {
    let settings = json(r#"{"a":{"b":{"c":1}}}"#);
    let found = lookup_workspace_setting(&settings, "a.b").expect("setting");
    assert_eq!(shown(&found), expected(r#"{"c":1}"#));
    assert!(lookup_workspace_setting(&settings, "a.x").is_none());
}

#[test]
fn long_lists_are_cut() {
    let cut = truncate_result(LspAction::References, json("[1,2,3]"), 2);
    assert_eq!(shown(&cut), expected("[1,2]"));
    let kept = truncate_result(LspAction::References, json("[1,2,3]"), 0);
    assert_eq!(shown(&kept), expected("[1,2,3]"));
    let items = truncate_result(
        LspAction::Completion,
        json(r#"{"isIncomplete":false,"items":[1,2,3]}"#),
        1,
    );
    assert_eq!(
        shown(&items),
        expected(r#"{"isIncomplete":false,"items":[1]}"#)
    );
}

#[test]
fn numbers_keep_their_kind() {
    assert_eq!(json("7"), Json::Number(JsonNumber::Unsigned(7)));
    assert_eq!(json("-7"), Json::Number(JsonNumber::Negative(-7)));
    assert_eq!(json("1.5"), Json::Number(JsonNumber::Float("1.5".to_string())));
    assert_eq!(shown(&json("[7,-7,1.5,null,true]")), expected("[7,-7,1.5,null,true]"));
}

#[test]
fn values_are_equal_in_whatever_order() {
    let one = || Json::Number(JsonNumber::Unsigned(1));
    let there = json::object().with("a", one()).with("b", json::object().with("x", one()));
    let back = json::object().with("b", json::object().with("x", one())).with("a", one());
    assert!(json::same_json(&there, &back));
    assert!(!json::same_json(&there, &json::object().with("a", one())));
    assert!(!json::same_json(&json::object().with("a", one()), &there));
    assert!(!json::same_json(&there, &back.with("c", Json::Null)));
    let float = |s: &str| Json::Number(JsonNumber::Float(s.to_string()));
    assert!(json::same_json(&float("-0.0"), &float("0.0")));
    assert!(!json::same_json(&float("1.0"), &one()));
    assert!(!json::same_json(&float("1.5"), &float("1.0")));
    assert!(json::same_json(
        &json::array(vec![there.clone(), Json::Null]),
        &json::array(vec![there.duplicate(), Json::Null])
    ));
    assert!(!json::same_json(&json::array(vec![one()]), &json::array(vec![])));
}

#[test]
fn values_are_laid_out_in_order() {
    let value = json::object()
        .with("b", json::array(vec![Json::Bool(true), json::object(), json::array(vec![])]))
        .with("a \"quoted\"", json::object().with("n", Json::Null));
    assert_eq!(
        lay_out(&value, ""),
        "{\n  \"b\": [\n    true,\n    {},\n    []\n  ],\n  \"a \\\"quoted\\\"\": {\n    \"n\": null\n  }\n}"
    );
    assert_eq!(lay_out(&json::string("a\nb"), "    "), "\"a\\nb\"");
    let source = r#"{"a":[1,-2,0.5,"x",{"k":{}},[]],"b":{"c":{"d":[[1],[2,3]]}},"z":null}"#;
    let parsed: serde_json::Value = serde_json::from_str(source).expect("valid JSON");
    assert_eq!(
        lay_out(&read_body(source.as_bytes()).expect("valid JSON"), ""),
        serde_json::to_string_pretty(&parsed).expect("text")
    );
}

#[test]
fn comments_are_stripped_once() {
    let strip = |source: &str| -> String {
        let chars: Vec<char> = source.chars().collect();
        strip_jsonc_comments(&chars).into_iter().collect()
    };
    assert_eq!(strip("a // b\nc /* d\ne **/ f"), "a \nc \n f");
    assert_eq!(strip("\"// \\\" /*\" /"), "\"// \\\" /*\" /");
    assert_eq!(strip("/ /**//* x"), "/ ");
    for source in ["/", "//", "/*/", "/ / *", "\"/\"/", "\"a\\", "/**/*", "a/**/\n/b", "/\n/"] {
        let once = strip(source);
        assert_eq!(strip(&once), once);
        assert_eq!(once.matches('\n').count(), source.matches('\n').count());
    }
}
