//! Waiting for servers to be ready.

use lspd::wait::{
    assess, parse_status, Broken, ServerState, Waited, Waiting, POLL, STALL,
};
use serde_json::Value;

fn st(name: &str, state: &str) -> ServerState {
    ServerState { name: name.into(), state: state.into(), since_progress: Some(0), error: None }
}

/// A server that has been silent for this many seconds.
fn quiet(name: &str, state: &str, secs: u64) -> ServerState {
    ServerState { since_progress: Some(secs * 1000), ..st(name, state) }
}

const STALL_TEST: u64 = 60_000;

fn servers(v: &[&str]) -> Vec<String> {
    v.iter().map(|s| s.to_string()).collect()
}

/// A wait over these pictures of `status`, the last of which repeats. It gives how it
/// ended and how many pictures were seen.
fn wait_with(pictures: Vec<Vec<ServerState>>, names: &[String], stall: u64) -> (Waited, usize) {
    let mut waiting = Waiting::new(names);
    let mut seen = 0;
    while !waiting.done() {
        let at = seen.min(pictures.len() - 1);
        waiting.observe(stall, &pictures[at]);
        seen += 1;
    }
    (waiting.waited().clone(), seen)
}

// ─── one picture of `status` ─────────────────────────────────────────────────

#[test]
fn ready_y_running_estan_listos_e_indexing_no() {
    let a = assess(
        STALL_TEST,
        &servers(&["rust-analyzer", "jdtls", "typescript-language-server"]),
        &[
            st("rust-analyzer", "READY"),
            st("jdtls", "INDEXING"),
            st("typescript-language-server", "RUNNING"),
        ],
    );
    assert_eq!(a.indexing, servers(&["jdtls"]));
    assert!(a.gone.is_empty());
    assert!(!a.settled());
}

#[test]
fn el_que_no_esta_en_status_se_cayo() {
    let a = assess(
        STALL_TEST,
        &servers(&["rust-analyzer", "jdtls"]),
        &[st("rust-analyzer", "READY")],
    );
    assert_eq!(a.gone, servers(&["jdtls"]));
    assert!(a.indexing.is_empty());
    assert!(a.settled());
}

#[test]
fn lo_que_no_se_espera_no_cuenta() {
    let a = assess(
        STALL_TEST,
        &servers(&["rust-analyzer"]),
        &[st("rust-analyzer", "READY"), st("jdtls", "INDEXING")],
    );
    assert!(a.settled());
}

#[test]
fn indexing_sin_progreso_en_la_ventana_esta_estancado() {
    let a = assess(
        STALL_TEST,
        &servers(&["rust-analyzer", "jdtls"]),
        &[quiet("rust-analyzer", "INDEXING", 60), quiet("jdtls", "INDEXING", 59)],
    );
    assert_eq!(a.stalled, servers(&["rust-analyzer"]));
    assert_eq!(a.indexing, servers(&["jdtls"]));
}

#[test]
fn el_silencio_de_un_listo_no_es_estancamiento() {
    let a = assess(
        STALL_TEST,
        &servers(&["rust-analyzer", "pylsp"]),
        &[quiet("rust-analyzer", "READY", 600), quiet("pylsp", "RUNNING", 600)],
    );
    assert!(a.stalled.is_empty());
    assert!(a.settled());
}

#[test]
fn sin_since_progress_no_hay_estancamiento() {
    let s = ServerState { since_progress: None, ..st("rust-analyzer", "INDEXING") };
    let a = assess(STALL_TEST, &servers(&["rust-analyzer"]), &[s]);
    assert!(a.stalled.is_empty());
    assert_eq!(a.indexing, servers(&["rust-analyzer"]));
}

#[test]
fn un_starting_sin_progreso_en_la_ventana_esta_estancado() {
    let a = assess(STALL_TEST, &servers(&["jdtls"]), &[quiet("jdtls", "STARTING", 60)]);
    assert_eq!(a.stalled, servers(&["jdtls"]));
}

/// A `FAILED` that does not say why is told all the same.
#[test]
fn a_failure_without_a_reason_has_no_detail() {
    let a = assess(STALL_TEST, &servers(&["jdtls"]), &[st("jdtls", "FAILED")]);
    assert_eq!(a.failed, vec![("jdtls".to_string(), "sin detalle".to_string())]);
    assert!(a.settled());
}

/// Of two lines of one name the first counts, and each name keeps its place.
#[test]
fn the_first_line_of_a_name_counts() {
    let a = assess(
        STALL_TEST,
        &servers(&["b", "a", "b"]),
        &[st("a", "INDEXING"), st("a", "READY"), st("b", "STARTING")],
    );
    assert_eq!(a.indexing, servers(&["b", "a", "b"]));
}

// ─── the wait ────────────────────────────────────────────────────────────────

#[test]
fn espera_hasta_que_ninguno_indexa() {
    let (w, vistas) = wait_with(
        vec![
            vec![st("rust-analyzer", "INDEXING"), st("jdtls", "INDEXING")],
            vec![st("rust-analyzer", "READY"), st("jdtls", "INDEXING")],
            vec![st("rust-analyzer", "READY"), st("jdtls", "READY")],
        ],
        &servers(&["rust-analyzer", "jdtls"]),
        STALL_TEST,
    );
    assert!(w.is_ok(), "{w:?}");
    assert_eq!(vistas, 3, "el llamador ve cada foto");
}

#[test]
fn running_no_se_espera() {
    let (w, vistas) = wait_with(
        vec![vec![st("typescript-language-server", "RUNNING")]],
        &servers(&["typescript-language-server"]),
        STALL_TEST,
    );
    assert!(w.is_ok());
    assert_eq!(vistas, 1);
}

#[test]
fn uno_que_se_cae_no_corta_a_los_demas() {
    let (w, _) = wait_with(
        vec![
            vec![st("rust-analyzer", "INDEXING"), st("jdtls", "INDEXING")],
            vec![st("rust-analyzer", "INDEXING")],
            vec![st("rust-analyzer", "READY")],
        ],
        &servers(&["rust-analyzer", "jdtls"]),
        STALL_TEST,
    );
    assert!(!w.is_ok());
    assert_eq!(w.gone, servers(&["jdtls"]));
    assert!(w.stalled.is_empty(), "rust-analyzer se siguió esperando hasta READY");
}

#[test]
fn el_que_se_cayo_no_vuelve() {
    let (w, _) = wait_with(
        vec![vec![], vec![st("jdtls", "READY")]],
        &servers(&["jdtls"]),
        STALL_TEST,
    );
    assert_eq!(w.gone, servers(&["jdtls"]));
}

#[test]
fn el_estancado_no_corta_a_los_demas() {
    let (w, _) = wait_with(
        vec![
            vec![st("rust-analyzer", "INDEXING"), st("jdtls", "INDEXING")],
            vec![st("rust-analyzer", "INDEXING"), quiet("jdtls", "INDEXING", 60)],
            vec![st("rust-analyzer", "INDEXING"), quiet("jdtls", "INDEXING", 61)],
            vec![st("rust-analyzer", "READY"), quiet("jdtls", "INDEXING", 62)],
        ],
        &servers(&["rust-analyzer", "jdtls"]),
        STALL_TEST,
    );
    assert!(!w.is_ok());
    assert_eq!(w.stalled, servers(&["jdtls"]));
    assert!(w.gone.is_empty());
}

#[test]
fn mientras_avanza_no_hay_tope() {
    let mut fotos = vec![vec![st("rust-analyzer", "INDEXING")]; 50];
    fotos.push(vec![st("rust-analyzer", "READY")]);
    let (w, vistas) = wait_with(fotos, &servers(&["rust-analyzer"]), 5);
    assert!(w.is_ok(), "50 consultas superan la ventana, y el progreso no para: {w:?}");
    assert_eq!(vistas, 51);
}

#[test]
fn sin_servidores_no_consulta() {
    let waiting = Waiting::new(&[]);
    assert!(waiting.done(), "no tenía que consultar");
    assert!(waiting.waited().is_ok());
}

#[test]
fn starting_se_espera() {
    let (w, vistas) = wait_with(
        vec![
            vec![st("typescript-language-server", "STARTING")],
            vec![st("typescript-language-server", "RUNNING")],
        ],
        &servers(&["typescript-language-server"]),
        STALL_TEST,
    );
    assert!(w.is_ok(), "{w:?}");
    assert_eq!(vistas, 2, "el STARTING no cuenta como listo");
}

#[test]
fn el_que_se_arranca_y_falla_vuelve_con_su_error() {
    let failed = ServerState {
        error: Some("LSP initialize: ServiceStopped".into()),
        ..st("typescript-language-server", "FAILED")
    };
    let (w, _) = wait_with(
        vec![vec![st("typescript-language-server", "STARTING")], vec![failed]],
        &servers(&["typescript-language-server"]),
        STALL_TEST,
    );
    assert!(!w.is_ok());
    assert_eq!(
        w.failed,
        vec![(
            "typescript-language-server".to_string(),
            "LSP initialize: ServiceStopped".to_string()
        )]
    );
    assert!(w.gone.is_empty());
}

/// What ended badly is not shown again, nor is what nobody asked for; what is ready is.
#[test]
fn what_ended_is_not_shown_again() {
    let mut w = Waiting::new(&servers(&["a", "b", "c"]));
    let seen = w.observe(STALL_TEST, &[st("a", "INDEXING"), st("c", "READY"), st("x", "READY")]);
    assert_eq!(seen, vec![st("a", "INDEXING"), st("c", "READY")]);
    assert_eq!(w.waited().gone, servers(&["b"]));
    let seen = w.observe(STALL_TEST, &[st("a", "READY"), st("b", "READY"), st("c", "READY")]);
    assert_eq!(seen, vec![st("a", "READY"), st("c", "READY")]);
    assert!(w.done());
    assert_eq!(w.waited().gone, servers(&["b"]), "una vez caído, queda caído");
}

/// The defaults: asked each half second, and two minutes of silence.
#[test]
fn the_window_is_two_minutes() {
    assert_eq!(POLL, 500);
    assert_eq!(STALL, 120_000);
}

// ─── what `status` answers ───────────────────────────────────────────────────

#[test]
fn status_se_lee_de_lo_que_contesta_el_daemon() {
    let v: Value = serde_json::from_str(
        r#"[
            {"name": "rust-analyzer", "state": "READY", "queries": 3, "since_progress_ms": 0},
            {"name": "jdtls", "state": "INDEXING", "queries": 0, "since_progress_ms": 1500},
            {"name": "pylsp", "state": "RUNNING", "queries": 0},
            {"name": "typescript-language-server", "state": "FAILED", "queries": 0,
             "since_progress_ms": 0, "error": "se cayó"}
        ]"#,
    )
    .unwrap();
    assert_eq!(
        parse_status(&v).unwrap(),
        vec![
            st("rust-analyzer", "READY"),
            ServerState { since_progress: Some(1500), ..st("jdtls", "INDEXING") },
            ServerState { since_progress: None, ..st("pylsp", "RUNNING") },
            ServerState {
                error: Some("se cayó".into()),
                ..st("typescript-language-server", "FAILED")
            },
        ]
    );
    let not_a_list: Value = serde_json::from_str(r#"{"no": "lista"}"#).unwrap();
    assert_eq!(
        parse_status(&not_a_list).unwrap_err(),
        r#"`status` no contestó una lista: {"no":"lista"}"#
    );
}

/// A line that says little is a line all the same.
#[test]
fn a_line_without_a_name_has_a_mark() {
    let v: Value = serde_json::from_str(r#"[{}, 7, {"name": 1, "since_progress_ms": -1}]"#).unwrap();
    let unknown =
        ServerState { name: "?".into(), state: "?".into(), since_progress: None, error: None };
    assert_eq!(parse_status(&v).unwrap(), vec![unknown.clone(), unknown.clone(), unknown]);
}

/// The error of a question for `status` comes out as it is, and the wait stays where it
/// was; what is not a list is said.
#[test]
fn an_unanswered_status_is_handed_on() {
    let mut w = Waiting::new(&servers(&["jdtls"]));
    match w.hear(STALL, Err("se fue")) {
        Err(Broken::Unanswered(e)) => assert_eq!(e, "se fue"),
        other => panic!("{other:?}"),
    }
    match w.hear::<&str>(STALL, Ok(Value::Null)) {
        Err(Broken::NoList(e)) => assert_eq!(e, "`status` no contestó una lista: null"),
        other => panic!("{other:?}"),
    }
    assert!(!w.done());
    let ready = serde_json::from_str(r#"[{"name":"jdtls","state":"READY"},{"name":"x"}]"#);
    let seen = w.hear(STALL, ready).unwrap();
    assert_eq!(seen.len(), 1);
    assert_eq!(seen[0].name, "jdtls");
    assert!(w.done() && w.waited().is_ok());
}
