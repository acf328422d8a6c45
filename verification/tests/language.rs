//! The table of languages.

use lspd::language::{Language, ProgressClock, Readiness, ReadinessCell};

fn files(v: &[&str]) -> Vec<String> {
    v.iter().map(|s| s.to_string()).collect()
}

#[test]
fn cada_marcador_dice_su_lenguaje() {
    let casos: &[(&str, Language)] = &[
        ("Cargo.toml", Language::Rust),
        ("pom.xml", Language::Java),
        ("build.gradle", Language::Java),
        ("build.gradle.kts", Language::Java),
        ("package.json", Language::TypeScript),
        ("tsconfig.json", Language::TypeScript),
        ("pyproject.toml", Language::Python),
        ("setup.py", Language::Python),
        ("requirements.txt", Language::Python),
    ];
    for (marker, lang) in casos {
        assert_eq!(Language::from_markers(&files(&[marker])), vec![*lang], "{marker}");
    }
}

#[test]
fn varios_lenguajes_salen_una_vez_y_en_el_orden_de_la_tabla() {
    let ws = files(&[
        "requirements.txt",
        "setup.py",
        "package.json",
        "pom.xml",
        "build.gradle",
        "Cargo.toml",
    ]);
    assert_eq!(
        Language::from_markers(&ws),
        vec![Language::Rust, Language::Java, Language::TypeScript, Language::Python]
    );
}

#[test]
fn sin_marcadores_no_hay_lenguajes() {
    assert!(Language::from_markers(&files(&["README.md", "main.rs"])).is_empty());
    assert!(Language::from_markers(&[]).is_empty());
}

#[test]
fn un_marcador_en_un_subdirectorio_no_cuenta() {
    let ws = files(&["scripts/requirements.txt", "web/package.json"]);
    assert!(Language::from_markers(&ws).is_empty());
}

#[test]
fn el_nombre_de_un_lenguaje_ida_y_vuelta() {
    for lang in [Language::Rust, Language::Java, Language::TypeScript, Language::Python] {
        assert_eq!(Language::from_name(lang.id()), Some(lang));
    }
    assert_eq!(Language::from_name("cobol"), None);
    assert_eq!(
        Language::from_name("rust-analyzer"),
        None,
        "el nombre es el del lenguaje, no el del servidor"
    );
}

#[test]
fn java_se_lanza_con_un_techo_fijo() {
    let args = Language::Java.spawn_args();
    assert!(
        args.iter().any(|a| a.contains("-Xmx")),
        "jdtls sin -Xmx hereda un cuarto de la RAM de la máquina: {args:?}"
    );
    assert_eq!(args, &["--jvm-arg=-Xmx2G"]);
}

#[test]
fn typescript_se_lanza_con_stdio() {
    assert_eq!(Language::TypeScript.spawn_args(), &["--stdio"]);
}

#[test]
fn los_que_no_piden_nada_se_lanzan_pelados() {
    for lang in [Language::Rust, Language::Python] {
        assert!(lang.spawn_args().is_empty(), "{lang:?} no debería llevar args");
    }
}

#[test]
fn solo_typescript_necesita_el_documento_abierto() {
    assert!(Language::TypeScript.needs_open());
    for lang in [Language::Rust, Language::Java, Language::Python] {
        assert!(!lang.needs_open(), "{lang:?}");
    }
}

#[test]
fn el_estado_inicial_sale_de_si_el_servidor_avisa() {
    assert_eq!(Readiness::initial(Language::Rust), Readiness::Indexing);
    assert_eq!(Readiness::initial(Language::Java), Readiness::Indexing);
    assert_eq!(Readiness::initial(Language::TypeScript), Readiness::Running);
    assert_eq!(Readiness::initial(Language::Python), Readiness::Running);
}

#[test]
fn la_celda_arranca_en_el_inicial_y_sube() {
    let mut c = ReadinessCell::new(Language::Rust);
    assert_eq!(c.get(), Readiness::Indexing);
    c.set(Readiness::Ready);
    assert_eq!(c.get(), Readiness::Ready);
}

#[test]
fn a_cell_keeps_each_readiness() {
    let mut c = ReadinessCell::new(Language::Python);
    assert_eq!(c.get(), Readiness::Running);
    for r in [Readiness::Indexing, Readiness::Ready, Readiness::Running] {
        c.set(r);
        assert_eq!(c.get(), r);
    }
    assert_eq!(Readiness::Indexing.as_str(), "INDEXING");
    assert_eq!(Readiness::Ready.as_str(), "READY");
    assert_eq!(Readiness::Running.as_str(), "RUNNING");
}

#[test]
fn the_clock_counts_from_the_last_sign() {
    let mut c = ProgressClock::new(1_000);
    assert_eq!(c.since(1_900), 900);
    c.touch(2_500);
    assert_eq!(c.since(3_000), 500);
    assert_eq!(c.since(2_000), 0);
}

#[test]
fn an_extension_says_its_language() {
    let casos: &[(&str, Option<Language>)] = &[
        ("rs", Some(Language::Rust)),
        ("ts", Some(Language::TypeScript)),
        ("tsx", Some(Language::TypeScript)),
        ("js", Some(Language::TypeScript)),
        ("jsx", Some(Language::TypeScript)),
        ("py", Some(Language::Python)),
        ("java", Some(Language::Java)),
        ("RS", None),
        ("", None),
    ];
    for (ext, lang) in casos {
        assert_eq!(Language::from_extension(ext), *lang, "{ext}");
    }
}

#[test]
fn the_first_candidate_in_path_is_the_executable() {
    let both = files(&["pylsp", "jedi-language-server"]);
    assert_eq!(Language::Python.find_executable(&both).unwrap(), "jedi-language-server");
    assert_eq!(Language::Python.find_executable(&files(&["pylsp"])).unwrap(), "pylsp");
    assert_eq!(
        Language::Rust.find_executable(&[]).unwrap_err(),
        r#"LSP for "rust-analyzer" not found: install one of ["rust-analyzer"]"#
    );
    assert_eq!(
        Language::Python.find_executable(&files(&["jdtls"])).unwrap_err(),
        r#"LSP for "jedi-language-server" not found: install one of ["jedi-language-server", "pylsp"]"#
    );
}

#[test]
fn only_jdtls_needs_options() {
    let v = Language::Java.initialization_options("/home/u/ws").unwrap();
    assert_eq!(
        v.to_string(),
        r#"{"extendedClientCapabilities":{"classFileContentsSupport":false,"progressReportProvider":false},"workspaceFolders":["file:///home/u/ws"]}"#
    );
    assert!(Language::Java.initialization_options("not/absolute").is_none());
    for lang in [Language::Rust, Language::TypeScript, Language::Python] {
        assert!(lang.initialization_options("/home/u/ws").is_none());
    }
}

#[test]
fn a_server_is_named_after_its_first_candidate() {
    for lang in Language::ALL {
        assert_eq!(lang.candidates()[0], lang.name());
    }
    assert_eq!(Language::ALL.map(|l| l.id()), ["rust", "java", "typescript", "python"]);
}
