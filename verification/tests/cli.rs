//! What the command line says.

use lspd::cli::{
    all_ready, already_running, daemon_line, failure_lines, language_name, nothing_to_warm,
    read_warmed, stall_window, start_step, status_lines, wait_lines, Progress, StartStep,
};
use lspd::transport::Endpoint;
use lspd::wait::{ServerState, Waited};
use serde_json::Value;

fn json(s: &str) -> Value {
    serde_json::from_str(s).unwrap()
}

fn st(name: &str, state: &str) -> ServerState {
    ServerState { name: name.into(), state: state.into(), since_progress: None, error: None }
}

fn secs(n: u64) -> u64 {
    n * 1000
}

#[test]
fn el_avance_se_dice_cuando_cambia_y_cada_tanto() {
    let mut r = Progress::default();
    let ra = |state| vec![st("rust-analyzer", state)];

    assert_eq!(r.observe(secs(0), &ra("INDEXING")).len(), 1, "el primer estado se dice");
    assert!(r.observe(secs(1), &ra("INDEXING")).is_empty(), "sin cambios no se repite");
    assert!(r.observe(secs(29), &ra("INDEXING")).is_empty());
    let beat = r.observe(secs(30), &ra("INDEXING"));
    assert_eq!(beat.len(), 1, "cada 30 segundos se recuerda");
    assert!(beat[0].contains("30s"), "{beat:?}");
    assert!(r.observe(secs(31), &ra("INDEXING")).is_empty());

    let ready = r.observe(secs(40), &ra("READY"));
    assert_eq!(ready.len(), 1);
    assert!(
        ready[0].contains("rust-analyzer") && ready[0].contains("READY") && ready[0].contains("40s"),
        "{ready:?}"
    );
    assert!(r.observe(secs(90), &ra("READY")).is_empty(), "un listo no se recuerda");
}

#[test]
fn un_starting_tambien_se_recuerda() {
    let mut r = Progress::default();
    let ts = |state| vec![st("typescript-language-server", state)];
    assert_eq!(r.observe(secs(0), &ts("STARTING")).len(), 1);
    assert_eq!(r.observe(secs(30), &ts("STARTING")).len(), 1);
}

/// The lines as they are shown.
#[test]
fn a_line_of_progress_is_in_columns() {
    let mut r = Progress::default();
    assert_eq!(
        r.observe(412_900, &[st("rust-analyzer", "READY"), st("jdtls", "INDEXING")]),
        vec![
            "  rust-analyzer               READY     412s".to_string(),
            "  jdtls                       INDEXING  412s".to_string(),
        ]
    );
}

#[test]
fn el_error_de_un_caido_se_indenta() {
    let lines = failure_lines(
        "typescript-language-server",
        "LSP initialize: ServiceStopped\nerror: required option '--stdio' not specified",
    );
    assert_eq!(
        lines,
        vec![
            "  typescript-language-server no arrancó: LSP initialize: ServiceStopped".to_string(),
            "      error: required option '--stdio' not specified".to_string(),
        ]
    );
    assert_eq!(failure_lines("jdtls", ""), vec!["  jdtls no arrancó: ".to_string()]);
}

#[test]
fn a_language_is_named_or_told_which_there_are() {
    assert_eq!(language_name("java").unwrap(), "java");
    assert_eq!(
        language_name("cobol").unwrap_err(),
        "no hay language server para `cobol`: los lenguajes son rust, java, typescript, python"
    );
}

#[test]
fn a_start_takes_the_daemon_that_there_is() {
    assert_eq!(start_step(false, false), StartStep::Spawn);
    assert_eq!(start_step(false, true), StartStep::Spawn);
    assert_eq!(start_step(true, true), StartStep::Take);
    assert_eq!(start_step(true, false), StartStep::Refuse);
    let ep = Endpoint::Socket("/home/u/.lspd/accreta-impl-1c8540.sock".into());
    assert_eq!(
        daemon_line("lspd started", 12345, &ep),
        "lspd started  pid=12345  endpoint=/home/u/.lspd/accreta-impl-1c8540.sock"
    );
    assert_eq!(already_running(0), "el daemon de este workspace ya está corriendo  pid=0");
}

#[test]
fn what_is_warmed_is_said_or_waited_for() {
    let w = read_warmed(&json(
        r#"[{"name":"rust-analyzer"},{"name":"jdtls","error":"not found"},{"error":7},{"error":"x"}]"#,
    ));
    assert_eq!(w.servers, vec!["rust-analyzer".to_string(), "?".to_string()]);
    assert_eq!(
        w.lines,
        vec!["  jdtls no arrancó: not found".to_string(), "  ? no arrancó: x".to_string()]
    );
    assert!(w.any);
    assert!(!all_ready(&w, &Waited::default()));
    for nothing in ["[]", "null", "{}"] {
        let w = read_warmed(&json(nothing));
        assert!(!w.any && w.servers.is_empty() && w.lines.is_empty());
        assert!(all_ready(&w, &Waited::default()));
    }
    assert_eq!(
        nothing_to_warm("."),
        "no hay marcadores de proyecto en la raíz de .: nada que calentar"
    );
}

#[test]
fn how_a_wait_ended_is_said() {
    let w = Waited {
        gone: vec!["jdtls".into()],
        failed: vec![("a".into(), "uno\ndos".into())],
        stalled: vec!["rust-analyzer".into()],
    };
    assert_eq!(
        wait_lines(&w, 120),
        vec![
            "  a no arrancó: uno".to_string(),
            "      dos".to_string(),
            "  jdtls no arrancó: su proceso terminó antes de quedar listo, y el daemon ya no lo tiene"
                .to_string(),
            "  rust-analyzer lleva 120s indexando sin reportar progreso: no se lo espera más. El daemon queda vivo."
                .to_string(),
        ]
    );
    assert!(wait_lines(&Waited::default(), 120).is_empty());
    assert!(!all_ready(&read_warmed(&json("[]")), &w));
}

#[test]
fn a_window_is_in_milliseconds() {
    assert_eq!(stall_window(120), 120_000);
    assert_eq!(stall_window(0), 0);
    assert_eq!(stall_window(u64::MAX), u64::MAX);
}

#[test]
fn the_status_is_shown_in_columns() {
    let v = json(
        r#"[
            {"name":"rust-analyzer","state":"READY","queries":147,"since_progress_ms":212999},
            {"name":"jdtls","state":"INDEXING","queries":3,"since_progress_ms":1000},
            {"name":"typescript-language-server","state":"FAILED","queries":0,
             "error":"LSP initialize: ServiceStopped\nerror: required option"},
            {}
        ]"#,
    );
    assert_eq!(
        status_lines(&v),
        vec![
            "  rust-analyzer               READY     queries=147  progreso hace 212s".to_string(),
            "  jdtls                       INDEXING  queries=3    progreso hace 1s".to_string(),
            "  typescript-language-server  FAILED    queries=0    ".to_string(),
            "      LSP initialize: ServiceStopped".to_string(),
            "      error: required option".to_string(),
            "  ?                           ?         queries=null ".to_string(),
        ]
    );
    for none in ["[]", "null"] {
        assert_eq!(status_lines(&json(none)), vec!["  (ninguno arrancado todavía)".to_string()]);
    }
}
