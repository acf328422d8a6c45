//! The servers of a workspace.

use lspd::ipc::QuestionError;
use lspd::language::Language;
use lspd::lsp_client::Stderr;
use lspd::lsp_manager::{languages_to_warm, Admission, Asked, LspManager, LspSlot, NotReady, Start};
use lspd::path::System;
use serde_json::Value;

fn langs(v: &[&str]) -> Vec<String> {
    v.iter().map(|s| s.to_string()).collect()
}

fn json(s: &str) -> Value {
    serde_json::from_str(s).unwrap()
}

/// What is in `PATH`: every server but those of TypeScript and Python.
fn path() -> Vec<String> {
    langs(&["rust-analyzer", "jdtls"])
}

fn everything() -> Vec<String> {
    langs(&["rust-analyzer", "jdtls", "typescript-language-server", "jedi-language-server"])
}

fn manager() -> LspManager {
    LspManager::new(System::Unix, "/ws")
}

/// Starts the server of a language and lets its handshake end well.
fn up(m: &mut LspManager, lang: &str, now: u64) -> u64 {
    let (infos, starts) = m.warm(&langs(&[lang]), &[], &everything(), now);
    assert!(infos[0].error.is_none());
    m.settle(starts[0].ticket, Ok(()), &Stderr::new());
    starts[0].ticket
}

fn started(a: Admission) -> Start {
    match a {
        Admission::Start(s) => s,
        other => panic!("{other:?}"),
    }
}

// ─── the promise of a client ─────────────────────────────────────────────────

#[test]
fn un_slot_pendiente_hace_esperar() {
    let slot: LspSlot<u32> = LspSlot::pending();
    assert!(slot.get().is_none());
}

#[test]
fn el_error_del_arranque_llega_a_los_que_esperan() {
    let mut slot: LspSlot<u32> = LspSlot::pending();
    slot.settle(Err("rust-analyzer no está en PATH".into()));
    for _ in 0..3 {
        let e = slot.get().unwrap().as_ref().expect_err("tenía que fallar");
        assert!(e.contains("rust-analyzer no está en PATH"), "llegó: {e}");
    }
}

#[test]
fn el_resultado_sobrevive_a_que_nadie_lo_escuche() {
    let mut slot: LspSlot<u32> = LspSlot::pending();
    slot.settle(Err("jdtls no está en PATH".into()));
    let r = slot.get().expect("no debería esperar: el arranque ya terminó");
    assert!(r.as_ref().err().expect("tenía que fallar").contains("jdtls"));
}

#[test]
fn ready_no_espera() {
    let mut slot: LspSlot<u32> = LspSlot::pending();
    assert!(slot.ready().is_none());
    slot.settle(Err("falló".into()));
    assert!(slot.ready().is_none());
    slot.settle(Ok(7));
    assert_eq!(slot.ready(), Some(&7));
}

// ─── warming ─────────────────────────────────────────────────────────────────

#[test]
fn sin_lenguajes_ni_marcadores_no_arranca_nada() {
    let mut m = manager();
    let (infos, starts) = m.warm(&[], &langs(&["README.md"]), &path(), 0);
    assert!(infos.is_empty());
    assert!(starts.is_empty());
    assert!(m.status(0).is_empty());
}

#[test]
fn un_ejecutable_que_no_esta_vuelve_con_su_error() {
    let mut m = manager();
    let (r, starts) = m.warm(&langs(&["python"]), &[], &path(), 0);
    assert_eq!(r.len(), 1);
    assert_eq!(r[0].name, "jedi-language-server");
    let e = r[0].error.as_deref().expect("tenía que fallar");
    assert!(e.contains("not found"), "el error dice por qué: {e}");
    assert!(starts.is_empty());
    assert!(m.status(0).is_empty(), "un arranque fallido no deja el lugar tomado");
}

#[test]
fn un_lenguaje_desconocido_vuelve_con_su_error() {
    let mut m = manager();
    let (r, _) = m.warm(&langs(&["cobol", "typescript"]), &[], &path(), 0);
    assert_eq!(r.len(), 2);
    assert_eq!(r[0].name, "cobol");
    assert_eq!(
        r[0].error.as_deref(),
        Some("no hay language server para `cobol`: los lenguajes son rust, java, typescript, python")
    );
    assert_eq!(r[1].name, "typescript-language-server");
    assert!(r[1].error.is_some(), "typescript-language-server no está en el PATH de prueba");
}

#[test]
fn warm_vuelve_sin_esperar_el_handshake() {
    let mut m = manager();
    let (r, starts) = m.warm(&langs(&["rust"]), &[], &path(), 0);
    assert_eq!(r.len(), 1);
    assert_eq!(r[0].name, "rust-analyzer");
    assert!(r[0].error.is_none(), "{:?}", r[0].error);
    assert_eq!(starts.len(), 1);
    assert_eq!(starts[0].lang, Language::Rust);
    assert_eq!(starts[0].exe, "rust-analyzer");

    let st = m.status(0);
    assert_eq!(st.len(), 1);
    assert_eq!(st[0].state, "STARTING", "en el handshake todavía no hay readiness");
}

#[test]
fn en_el_handshake_el_progreso_cuenta_desde_el_arranque() {
    let mut m = manager();
    assert!(m.warm(&langs(&["rust"]), &[], &path(), 1_000).0[0].error.is_none());
    let st = m.status(1_300);
    assert_eq!(st.len(), 1);
    assert_eq!(st[0].since_progress_ms, 300);
}

#[test]
fn dos_warm_no_arrancan_dos_servidores() {
    let mut m = manager();
    let (a, first) = m.warm(&langs(&["rust"]), &[], &path(), 0);
    let (b, second) = m.warm(&langs(&["rust", "rust"]), &[], &path(), 1);
    assert!(a[0].error.is_none());
    assert_eq!(b.len(), 1, "un lenguaje repetido es un lenguaje");
    assert!(b[0].error.is_none());
    assert_eq!(first.len(), 1);
    assert!(second.is_empty());
    let names: Vec<String> = m.status(1).into_iter().map(|s| s.name).collect();
    assert_eq!(names, vec!["rust-analyzer".to_string()]);
}

#[test]
fn sin_lenguajes_calienta_los_de_los_marcadores() {
    let mut m = manager();
    let (r, _) = m.warm(&[], &langs(&["Cargo.toml", "requirements.txt"]), &path(), 0);
    let got: Vec<(&str, bool)> = r.iter().map(|w| (w.name.as_str(), w.error.is_none())).collect();
    assert_eq!(got, vec![("rust-analyzer", true), ("jedi-language-server", false)]);
}

#[test]
fn un_arranque_que_se_cae_queda_failed_y_libera_el_lugar() {
    let mut m = manager();
    let (r, starts) = m.warm(&langs(&["java"]), &[], &path(), 0);
    assert!(r[0].error.is_none(), "el ejecutable está: el arranque empieza");

    let mut stderr = Stderr::new();
    stderr.push("error: required option '--stdio' not specified");
    m.died(starts[0].ticket);
    m.settle(starts[0].ticket, Err("LSP initialize: ServiceStopped".into()), &stderr);

    let st = m.status(10);
    assert_eq!(st.len(), 1);
    assert_eq!(st[0].state, "FAILED");
    assert_eq!(st[0].name, "jdtls");
    assert_eq!((st[0].queries, st[0].since_progress_ms), (0, 0));
    assert_eq!(
        st[0].error.as_deref(),
        Some("LSP initialize: ServiceStopped\nerror: required option '--stdio' not specified")
    );

    let (again, more) = m.warm(&langs(&["java"]), &[], &path(), 20);
    assert!(again[0].error.is_none());
    assert_eq!(more.len(), 1);
    assert_ne!(more[0].ticket, starts[0].ticket);
    let st = m.status(20);
    assert_eq!(st.len(), 1);
    assert_eq!(st[0].state, "STARTING");
    assert!(st[0].error.is_none());
}

#[test]
fn which_languages_are_warmed() {
    assert_eq!(languages_to_warm(&langs(&["b", "a", "b"]), &langs(&["pom.xml"])), langs(&["b", "a"]));
    assert_eq!(languages_to_warm(&[], &langs(&["tsconfig.json", "pom.xml"])), langs(&["java", "typescript"]));
}

// ─── signs of life ───────────────────────────────────────────────────────────

/// Warms a language whose server sends its sign at 1,5 s.
fn la_senal_vuelve_a_cero(lang: &str, method: &str, params: &str) {
    let mut m = manager();
    let t = up(&mut m, lang, 0);
    let before = m.status(1_000);
    assert_eq!(before.len(), 1);
    assert_eq!(before[0].since_progress_ms, 1_000, "{lang}: sin señal todavía, cuenta desde el arranque");
    m.signal(t, method, &json(params), 1_500);
    assert_eq!(m.status(2_000)[0].since_progress_ms, 500, "{lang}: la señal lo vuelve a cero");
}

#[test]
fn status_dice_hace_cuanto_llego_el_ultimo_progreso() {
    la_senal_vuelve_a_cero("rust", "$/progress", r#"{"token":"t","value":{"kind":"report"}}"#);
}

#[test]
fn server_status_es_progreso() {
    la_senal_vuelve_a_cero("typescript", "experimental/serverStatus", r#"{"quiescent":false}"#);
}

#[test]
fn language_status_es_progreso() {
    la_senal_vuelve_a_cero("python", "language/status", r#"{"type":"Starting","message":"x"}"#);
}

#[test]
fn un_servidor_que_muere_indexando_sale_del_mapa() {
    let mut m = manager();
    let t = up(&mut m, "java", 0);
    assert_eq!(m.status(0)[0].name, "jdtls");
    assert_eq!(m.status(0)[0].state, "INDEXING");
    m.died(t);
    assert!(m.status(0).is_empty(), "el jdtls muerto sigue en el mapa");
    let (again, starts) = m.warm(&langs(&["java"]), &[], &path(), 1);
    assert!(again[0].error.is_none(), "el lugar quedó libre");
    assert_eq!(starts.len(), 1);
}

/// A process that ends before its handshake is told well leaves its place free.
#[test]
fn a_server_that_dies_starting_does_not_stay() {
    let mut m = manager();
    let s = started(m.client_for("a.rs", &path(), 0));
    m.died(s.ticket);
    assert_eq!(m.status(0)[0].state, "STARTING");
    m.settle(s.ticket, Ok(()), &Stderr::new());
    assert!(m.status(0).is_empty());
}

// ─── the questions ───────────────────────────────────────────────────────────

#[test]
fn who_comes_second_joins() {
    let mut m = manager();
    let s = started(m.client_for("src/a.rs", &path(), 0));
    for _ in 0..3 {
        match m.client_for("/ws/b.rs", &[], 1) {
            Admission::Join { ticket } => assert_eq!(ticket, s.ticket),
            other => panic!("{other:?}"),
        }
    }
    assert_eq!(m.status(1).len(), 1);
}

/// Each start has its ticket: those of the other languages, and those before it.
#[test]
fn each_start_has_its_ticket() {
    let mut m = manager();
    let mut tickets: Vec<u64> = Vec::new();
    for _ in 0..3 {
        for file in ["a.rs", "A.java", "a.ts", "a.py"] {
            let s = started(m.client_for(file, &everything(), 0));
            assert!(!tickets.contains(&s.ticket), "{file}");
            tickets.push(s.ticket);
        }
        assert_eq!(m.shutdown().len(), 4);
    }
}

/// A server that failed to start is started again by whoever asks next.
#[test]
fn who_asks_after_a_failure_starts_again() {
    let mut m = manager();
    let a = started(m.client_for("a.rs", &path(), 0));
    m.settle(a.ticket, Err("se cayó".into()), &Stderr::new());
    let b = started(m.client_for("b.rs", &path(), 1));
    assert_ne!(a.ticket, b.ticket);
    m.settle(b.ticket, Ok(()), &Stderr::new());
    assert_eq!(m.status(1)[0].state, "INDEXING");
}

/// On Windows the extension is that of the last segment.
#[test]
fn a_windows_file_has_its_language() {
    let mut m = LspManager::new(System::Windows, r"C:\ws");
    assert_eq!(started(m.client_for(r"C:\ws.x\A.java", &path(), 0)).lang, Language::Java);
    let t = started(m.client_for(r"src\a.ts", &everything(), 0)).ticket;
    m.settle(t, Ok(()), &Stderr::new());
    assert_eq!(m.inquire(t, r"src\a.ts").unwrap(), r"C:\ws\src\a.ts");
}

#[test]
fn a_file_of_no_language_is_refused() {
    let mut m = manager();
    for (file, error) in [
        ("a.cob", "no LSP for extension .cob"),
        ("Makefile", "no LSP for extension ."),
        ("a.py", r#"LSP for "jedi-language-server" not found: install one of ["jedi-language-server", "pylsp"]"#),
    ] {
        match m.client_for(file, &path(), 0) {
            Admission::Refused { error: e } => assert_eq!(e, error),
            other => panic!("{other:?}"),
        }
    }
    assert!(m.status(0).is_empty());
}

#[test]
fn who_indexes_is_not_asked_and_counts() {
    let mut m = manager();
    let t = up(&mut m, "rust", 0);
    match m.inquire(t, "src/a.rs") {
        Err(QuestionError::NotReady(e)) => assert_eq!(
            e.to_text(),
            "rust-analyzer todavía está indexando: volvé a preguntar. `lspd status` dice cuándo."
        ),
        other => panic!("{other:?}"),
    }
    m.signal(t, "experimental/serverStatus", &json(r#"{"quiescent":true}"#), 5);
    assert_eq!(m.inquire(t, "src/a.rs").unwrap(), "/ws/src/a.rs");
    let st = m.status(5);
    assert_eq!(st[0].state, "READY");
    assert_eq!(st[0].queries, 2, "también se cuenta la que se contestó -32001");
}

#[test]
fn who_does_not_tell_is_asked() {
    let mut m = manager();
    let t = up(&mut m, "typescript", 0);
    assert_eq!(m.status(0)[0].state, "RUNNING");
    assert!(matches!(m.ask(t), Asked::Go));
    assert_eq!(m.inquire(t, "/else/a.ts").unwrap(), "/else/a.ts");
}

#[test]
fn who_is_not_there_is_not_asked() {
    let mut m = manager();
    let s = started(m.client_for("a.rs", &path(), 0));
    for ticket in [s.ticket, s.ticket + 1] {
        match m.inquire(ticket, "a.rs") {
            Err(QuestionError::Failed(e)) => {
                assert_eq!(e, "el arranque del language server se abandonó")
            }
            other => panic!("{other:?}"),
        }
    }
    assert_eq!(m.status(0)[0].queries, 0);
}

#[test]
fn what_is_said_of_who_indexes() {
    let e = NotReady { lang: "jdtls" };
    assert_eq!(
        e.to_text(),
        "jdtls todavía está indexando: volvé a preguntar. `lspd status` dice cuándo."
    );
}

#[test]
fn status_is_in_the_order_of_the_table() {
    let mut m = manager();
    m.warm(&langs(&["python", "typescript", "java", "rust"]), &[], &everything(), 0);
    let names: Vec<String> = m.status(0).into_iter().map(|s| s.name).collect();
    assert_eq!(
        names,
        langs(&["rust-analyzer", "jdtls", "typescript-language-server", "jedi-language-server"])
    );
}

/// A shutdown lets go of all, and what comes later of them changes nothing.
#[test]
fn a_shutdown_reaches_every_server() {
    let mut m = manager();
    let a = up(&mut m, "rust", 0);
    let b = started(m.client_for("A.java", &path(), 0)).ticket;
    assert!(m.runs(a) && m.runs(b) && !m.runs(b + 1));
    assert_eq!(m.shutdown(), vec![a, b]);
    assert!(!m.runs(a) && !m.runs(b));
    assert!(m.status(0).is_empty());
    m.settle(b, Err("se cayó".into()), &Stderr::new());
    m.died(a);
    assert!(m.status(0).is_empty(), "uno que se cierra al apagar no queda FAILED");
    assert!(m.shutdown().is_empty());
    assert_eq!(m.workspace(), "/ws");
}

/// What is told of a start that another replaced is not told of that other.
#[test]
fn an_old_ticket_says_nothing_of_the_new_one() {
    let mut m = manager();
    let old = up(&mut m, "java", 0);
    m.died(old);
    let new = up(&mut m, "java", 1);
    m.signal(old, "language/status", &json(r#"{"type":"ServiceReady"}"#), 2);
    assert_eq!(m.status(2)[0].state, "INDEXING");
    m.died(old);
    assert_eq!(m.status(2).len(), 1);
    m.signal(new, "language/status", &json(r#"{"type":"ServiceReady"}"#), 2);
    assert_eq!(m.status(2)[0].state, "READY");
}
