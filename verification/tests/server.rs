//! The dealings with one language server.

use lspd::language::{Language, Readiness};
use lspd::lsp_client::{
    abs_path, call_hierarchy, callee_in, definition_in, definitions, extract_name, file_url,
    flatten, handshake, handshake_at, hover_to_text, is_progress, launch, not_implemented,
    not_spawned, readiness_from, symbol_of, CallItem, DefinitionReply, HoverContents, Location,
    LocationLink, MarkedString, NoCallHierarchy, Span, Stderr,
};
use lspd::path::System;
use serde_json::Value;

fn json(s: &str) -> Value {
    serde_json::from_str(s).unwrap()
}

#[test]
fn rust_analyzer_dice_listo_con_quiescent() {
    assert_eq!(
        readiness_from("experimental/serverStatus", &json(r#"{"quiescent": true}"#)),
        Some(Readiness::Ready)
    );
    assert_eq!(
        readiness_from("experimental/serverStatus", &json(r#"{"quiescent": false}"#)),
        Some(Readiness::Indexing)
    );
}

#[test]
fn el_health_de_rust_analyzer_no_es_readiness() {
    assert_eq!(
        readiness_from(
            "experimental/serverStatus",
            &json(r#"{"quiescent": true, "health": "error"}"#)
        ),
        Some(Readiness::Ready)
    );
}

#[test]
fn jdtls_solo_esta_listo_en_service_ready() {
    assert_eq!(
        readiness_from("language/status", &json(r#"{"type": "ServiceReady"}"#)),
        Some(Readiness::Ready)
    );
    assert_eq!(
        readiness_from("language/status", &json(r#"{"type": "Started"}"#)),
        Some(Readiness::Indexing)
    );
    assert_eq!(
        readiness_from("language/status", &json(r#"{"type": "Starting"}"#)),
        Some(Readiness::Indexing)
    );
}

#[test]
fn cualquier_otra_notificacion_no_dice_nada() {
    assert_eq!(readiness_from("window/logMessage", &json(r#"{"type": 3}"#)), None);
    assert_eq!(readiness_from("$/progress", &json("{}")), None);
    assert_eq!(readiness_from("experimental/serverStatus", &json("{}")), None);
    assert_eq!(readiness_from("language/status", &json("{}")), None);
    assert_eq!(readiness_from("language/status", &json(r#"{"type": 1}"#)), None);
    assert_eq!(readiness_from("experimental/serverStatus", &json(r#"{"quiescent": "si"}"#)), None);
}

#[test]
fn three_notifications_are_signs_of_progress() {
    assert!(is_progress("$/progress"));
    assert!(is_progress("experimental/serverStatus"));
    assert!(is_progress("language/status"));
    assert!(!is_progress("window/logMessage"));
}

#[test]
fn a_request_that_nobody_attends_is_refused() {
    assert_eq!(not_implemented("workspace/applyEdit"), "lspd no implementa `workspace/applyEdit`");
}

#[test]
fn a_server_is_launched_standing_in_the_workspace() {
    let l = launch(Language::Java, "jdtls", "/ws");
    assert_eq!(l.exe, "jdtls");
    assert_eq!(l.args, vec!["--jvm-arg=-Xmx2G".to_string()]);
    assert_eq!(l.cwd, "/ws");
    assert!(launch(Language::Python, "pylsp", "/ws").args.is_empty());
    assert_eq!(not_spawned("pylsp", "denied"), "failed to spawn pylsp: denied");
}

#[test]
fn the_handshake_asks_for_what_it_needs() {
    let h = handshake(System::Unix, Language::Rust, "/home/u/mi ws").unwrap();
    assert_eq!(h.uri, "file:///home/u/mi%20ws");
    assert_eq!(h.name, "mi ws");
    assert_eq!(h.experimental.to_string(), r#"{"serverStatusNotification":true}"#);
    assert!(h.work_done_progress);
    assert!(h.initialization_options.is_none());
    assert_eq!(
        handshake(System::Unix, Language::Rust, "rel/ws").unwrap_err(),
        "invalid workspace path: rel/ws"
    );
}

#[test]
fn jdtls_is_told_its_roots() {
    let h = handshake_at(System::Unix, Language::Java, "/", "file:///");
    assert_eq!(h.name, "");
    assert_eq!(
        h.initialization_options.unwrap().to_string(),
        r#"{"extendedClientCapabilities":{"classFileContentsSupport":false,"progressReportProvider":false},"workspaceFolders":["file:///"]}"#
    );
}

#[test]
fn the_last_twenty_lines_of_stderr_are_kept() {
    let mut s = Stderr::new();
    assert_eq!(s.explain("se cayó"), "se cayó");
    for i in 0..25 {
        s.push(&format!("línea {i}"));
    }
    let why = s.explain("LSP initialize: ServiceStopped");
    let lines: Vec<&str> = why.lines().collect();
    assert_eq!(lines.len(), 21);
    assert_eq!(lines[0], "LSP initialize: ServiceStopped");
    assert_eq!(lines[1], "línea 5");
    assert_eq!(lines[20], "línea 24");
}

// ─── the calls ───────────────────────────────────────────────────────────────

fn item(name: &str, detail: Option<&str>, uri: &str) -> CallItem {
    CallItem {
        name: name.into(),
        detail: detail.map(str::to_string),
        uri: uri.into(),
        line: 3,
        col: 4,
    }
}

#[test]
fn sin_item_de_call_hierarchy_es_un_error() {
    assert_eq!(call_hierarchy(&[]).unwrap_err(), NoCallHierarchy);
}

/// Items without calls are not an error: nobody calls it.
#[test]
fn an_item_without_calls_is_no_error() {
    assert!(call_hierarchy(&[vec![], vec![]]).unwrap().is_empty());
}

#[test]
fn the_calls_of_each_item_come_one_after_the_other() {
    let calls = call_hierarchy(&[
        vec![item("f", Some("mod::f"), "file:///ws/a%20b.rs"), item("g", None, "jdt://contents/G")],
        vec![item("h", None, "file:///ws/h.rs")],
    ])
    .unwrap();
    let got: Vec<(&str, &str, &str, u32, u32)> = calls
        .iter()
        .map(|c| (c.symbol.as_str(), c.name.as_str(), c.file.as_str(), c.line, c.col))
        .collect();
    assert_eq!(
        got,
        vec![
            ("mod::f", "f", "/ws/a b.rs", 3, 4),
            ("g", "g", "jdt://contents/G", 3, 4),
            ("h", "h", "/ws/h.rs", 3, 4),
        ]
    );
    let c = callee_in(&item("f", None, "u"), None);
    assert_eq!(c.file, "u", "where the URL names no file, it is the URL");
}

// ─── the declarations ────────────────────────────────────────────────────────

const SPAN: Span = Span { line: 1, col: 2, end_line: 3, end_col: 4 };

fn at(uri: &str) -> Location {
    Location { uri: uri.into(), range: SPAN }
}

/// The three shapes of an answer come out the same.
#[test]
fn the_shape_of_a_reply_does_not_show() {
    let replies = vec![
        DefinitionReply::Scalar(at("file:///ws/Persona.java")),
        DefinitionReply::Array(vec![at("file:///ws/Persona.java")]),
        DefinitionReply::Link(vec![LocationLink {
            target_uri: "file:///ws/Persona.java".into(),
            target_range: SPAN,
        }]),
    ];
    for reply in replies {
        let d = definitions(System::Unix, Some(reply));
        assert_eq!(d.len(), 1);
        assert_eq!(d[0].name, "Persona");
        assert_eq!(d[0].file, "/ws/Persona.java");
        assert_eq!((d[0].line, d[0].col, d[0].end_line, d[0].end_col), (1, 2, 3, 4));
    }
    assert!(definitions(System::Unix, None).is_empty());
    assert!(flatten(None).is_empty());
}

/// What is not in a file is left out.
#[test]
fn what_is_not_in_a_file_is_left_out() {
    let d = definitions(System::Unix, Some(DefinitionReply::Array(vec![
        at("jdt://contents/x"),
        at("file:///"),
        at("file:///ws/b.rs"),
        at("not a url"),
    ])));
    assert_eq!(d.len(), 1);
    assert_eq!(d[0].name, "b");
    assert!(definition_in(System::Unix, SPAN, Some("/".into())).is_none());
    assert_eq!(definition_in(System::Unix, SPAN, Some("/ws/.bashrc".into())).unwrap().name, ".bashrc");
    assert_eq!(definition_in(System::Unix, SPAN, Some("/ws/a.d.ts".into())).unwrap().name, "a.d");
}

// ─── the symbol ──────────────────────────────────────────────────────────────

#[test]
fn a_hover_is_read_in_its_three_shapes() {
    assert_eq!(hover_to_text(&HoverContents::Markup("m".into())), "m");
    assert_eq!(hover_to_text(&HoverContents::Scalar(MarkedString::Text("t".into()))), "t");
    assert_eq!(
        hover_to_text(&HoverContents::Array(vec![
            MarkedString::Code("fn f()".into()),
            MarkedString::Text("hace algo".into()),
        ])),
        "fn f()\nhace algo"
    );
}

#[test]
fn the_name_is_the_last_word_of_the_first_line() {
    assert_eq!(extract_name("pub fn check(\nmás"), "check");
    assert_eq!(extract_name("fn  f((  "), "f");
    assert_eq!(extract_name("uno\tdos\r\ntres"), "dos");
    assert_eq!(extract_name(""), "unknown");
    assert_eq!(extract_name("   \nfn f"), "unknown");
    assert_eq!(extract_name("("), "");
}

#[test]
fn a_symbol_is_a_function() {
    let s = symbol_of(&Some(HoverContents::Markup("fn f\nx".into()))).unwrap();
    assert_eq!(s.symbol, "fn f\nx");
    assert_eq!(s.name, "f");
    assert_eq!(s.kind, "function");
    assert!(symbol_of(&None).is_none());
}

// ─── the files ───────────────────────────────────────────────────────────────

#[test]
fn a_file_hangs_from_the_workspace() {
    assert_eq!(abs_path(System::Unix, "src/a.rs", "/ws"), "/ws/src/a.rs");
    assert_eq!(abs_path(System::Unix, "/else/a.rs", "/ws"), "/else/a.rs");
    assert_eq!(file_url(System::Unix, "/ws", "src/a b.rs").unwrap(), "file:///ws/src/a%20b.rs");
    assert_eq!(file_url(System::Unix, "ws", "a.rs").unwrap_err(), "invalid file path: ws/a.rs");
}

/// On Windows a path with a drive is absolute, and its name is what follows the last
/// back slash.
#[test]
fn a_file_on_a_drive_is_itself() {
    let w = System::Windows;
    assert_eq!(abs_path(w, r"C:\x\a.rs", r"C:\ws"), r"C:\x\a.rs");
    assert_eq!(abs_path(w, r"src\a.rs", r"C:\ws"), r"C:\ws\src\a.rs");
    assert_eq!(abs_path(w, "src/a.rs", r"\\?\C:\ws"), r"\\?\C:\ws\src\a.rs");
    let d = definition_in(w, SPAN, Some(r"C:\x\Persona.java".into())).unwrap();
    assert_eq!(d.name, "Persona");
    assert_eq!(d.file, r"C:\x\Persona.java");
    assert_eq!(handshake_at(w, Language::Rust, r"\\?\C:\u\ws", "file:///C:/u/ws").name, "ws");
}
