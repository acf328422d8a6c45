//! The open documents.

use lspd::documents::{language_id, DocSync, OpenDocuments};
use lspd::path::System;

fn uri(p: &str) -> String {
    format!("file://{p}")
}

#[test]
fn la_primera_vez_se_abre() {
    let mut d = OpenDocuments::default();
    assert_eq!(d.sync(&uri("/ws/a.ts"), "x"), DocSync::Open { version: 1 });
}

#[test]
fn sin_cambios_no_se_manda_nada() {
    let mut d = OpenDocuments::default();
    d.sync(&uri("/ws/a.ts"), "x");
    assert_eq!(d.sync(&uri("/ws/a.ts"), "x"), DocSync::Current);
}

#[test]
fn lo_que_cambio_se_manda_con_la_version_siguiente() {
    let mut d = OpenDocuments::default();
    d.sync(&uri("/ws/a.ts"), "x");
    assert_eq!(d.sync(&uri("/ws/a.ts"), "y"), DocSync::Change { version: 2 });
    assert_eq!(d.sync(&uri("/ws/a.ts"), "y"), DocSync::Current);
    assert_eq!(
        d.sync(&uri("/ws/a.ts"), "x"),
        DocSync::Change { version: 3 },
        "volver al texto de antes también es un cambio"
    );
}

#[test]
fn cada_documento_es_independiente() {
    let mut d = OpenDocuments::default();
    d.sync(&uri("/ws/a.ts"), "x");
    d.sync(&uri("/ws/a.ts"), "y");
    assert_eq!(d.sync(&uri("/ws/b.ts"), "y"), DocSync::Open { version: 1 });
}

#[test]
fn un_documento_olvidado_se_vuelve_a_abrir() {
    let mut d = OpenDocuments::default();
    d.sync(&uri("/ws/a.ts"), "x");
    d.sync(&uri("/ws/a.ts"), "y");
    d.sync(&uri("/ws/b.ts"), "x");
    let mut abiertos = d.uris();
    abiertos.sort();
    assert_eq!(abiertos, vec![uri("/ws/a.ts"), uri("/ws/b.ts")]);

    d.forget(&uri("/ws/a.ts"));
    assert_eq!(d.uris(), vec![uri("/ws/b.ts")]);
    assert_eq!(d.sync(&uri("/ws/a.ts"), "y"), DocSync::Open { version: 1 });
}

/// What is sent follows the hash of the text, and the version each change of it.
#[test]
fn the_version_follows_the_hash() {
    let mut d = OpenDocuments::default();
    assert_eq!(d.sync_hashed("a", 7), DocSync::Open { version: 1 });
    assert_eq!(d.sync_hashed("a", 7), DocSync::Current);
    assert_eq!(d.sync_hashed("a", 8), DocSync::Change { version: 2 });
    d.forget("b");
    assert_eq!(d.sync_hashed("a", 7), DocSync::Change { version: 3 });
    d.forget("a");
    assert_eq!(d.sync_hashed("a", 7), DocSync::Open { version: 1 });
}

/// A document that has versions left is sent the same way whichever is asked.
#[test]
fn what_has_versions_left_is_sent() {
    let mut d = OpenDocuments::default();
    assert_eq!(d.try_sync("a", "x"), Some(DocSync::Open { version: 1 }));
    assert_eq!(d.try_sync("a", "x"), Some(DocSync::Current));
    assert_eq!(d.sync("a", "x"), DocSync::Current);
    assert_eq!(d.try_sync("a", "y"), Some(DocSync::Change { version: 2 }));
}

/// Two texts are told apart by their hash, and one text has one.
#[test]
fn a_text_has_one_hash() {
    let mut d = OpenDocuments::default();
    d.sync("a", "export function f() {}\n");
    d.sync("b", "export function f() {}\n");
    assert_eq!(d.sync("a", "export function f() {}\n"), DocSync::Current);
    assert_eq!(d.sync("b", "export function f() { g() }\n"), DocSync::Change { version: 2 });
}

#[test]
fn el_language_id_sale_de_la_extension() {
    assert_eq!(language_id(System::Unix, "/ws/a.ts"), "typescript");
    assert_eq!(language_id(System::Unix, "/ws/a.tsx"), "typescriptreact");
    assert_eq!(language_id(System::Unix, "/ws/a.js"), "javascript");
    assert_eq!(language_id(System::Unix, "/ws/a.jsx"), "javascriptreact");
}

#[test]
fn the_other_languages_have_their_id_too() {
    assert_eq!(language_id(System::Unix, "/ws/a.rs"), "rust");
    assert_eq!(language_id(System::Unix, "/ws/a.py"), "python");
    assert_eq!(language_id(System::Unix, "/ws/A.java"), "java");
    assert_eq!(language_id(System::Windows, r"C:\ws.x\a.py"), "python");
    assert_eq!(language_id(System::Unix, "/ws/Makefile"), "typescript");
    assert_eq!(language_id(System::Unix, "/ws/.rs"), "typescript", "a hidden file has no extension");
}
