//! The protocol, from the question to what the client reads.

use lspd::client::{
    read_response, request_line, responds, Boot, BootStep, RpcFailure, BOOT_TRIES, TIMEOUT,
};
use lspd::ipc::{
    answer, dispatch, plan, positional, status_reply, warm_reply, Answer, Dispatch, Plan, Pos,
    Question, QuestionError, Request,
};
use lspd::language::Language;
use lspd::lsp_client::{NoCallHierarchy, Stderr};
use lspd::lsp_manager::{LspManager, NotReady};
use lspd::path::System;
use lspd::types::{
    CalleeInfo, DefinitionInfo, LspStatus, RpcRequest, RpcResponse, SymbolInfo, WarmInfo,
};
use lspd::wait::parse_status;
use serde_json::Value;

fn json(s: &str) -> Value {
    serde_json::from_str(s).unwrap()
}

fn request(method: &str, params: &str) -> RpcRequest {
    RpcRequest {
        jsonrpc: "2.0".into(),
        id: Value::from(1),
        method: method.into(),
        params: json(params),
    }
}

/// What the daemon does about a line, where it needs no language server.
fn served(line: &str) -> (String, bool) {
    let v: Value = serde_json::from_str(line).unwrap();
    let req = RpcRequest {
        jsonrpc: v["jsonrpc"].as_str().unwrap().into(),
        id: v["id"].clone(),
        method: v["method"].as_str().unwrap().into(),
        params: v["params"].clone(),
    };
    match dispatch(Ok(req)) {
        Dispatch::Reply { response, stop } => (response.to_line(), stop),
        other => panic!("{other:?}"),
    }
}

#[test]
fn a_server_error_is_the_protocol_s_minus_32000() {
    let r = RpcResponse::server_error(Value::from(1), "LSP for \"jdtls\" not found".into());
    assert_eq!(r.error.expect("es un error").code, -32000);
}

#[test]
fn not_ready_is_minus_32001() {
    let r = RpcResponse::not_ready(Value::from(1), "INDEXING".into());
    assert_eq!(r.error.expect("es un error").code, -32001);
}

#[test]
fn the_other_codes_are_those_of_the_table() {
    let r = RpcResponse::parse_error("x".into());
    assert_eq!(
        r.to_line(),
        "{\"jsonrpc\":\"2.0\",\"id\":null,\"error\":{\"code\":-32700,\"message\":\"x\"}}\n"
    );
    assert_eq!(RpcResponse::invalid_params(Value::from(1), "x".into()).error.unwrap().code, -32602);
    let r = RpcResponse::method_not_found(Value::from("a"), "no-existe").error.unwrap();
    assert_eq!((r.code, r.message.as_str()), (-32601, "method not found: no-existe"));
}

/// The members of an answer come in their order, and what is under them as it is.
#[test]
fn an_answer_is_written_in_its_order() {
    let r = RpcResponse::ok(json(r#"["b",{"z":1,"a":-2}]"#), json("{\"t\":\"x\\ny\\\"\",\"e\":[]}"));
    assert_eq!(
        r.to_line(),
        "{\"jsonrpc\":\"2.0\",\"id\":[\"b\",{\"a\":-2,\"z\":1}],\"result\":{\"e\":[],\"t\":\"x\\ny\\\"\"}}\n"
    );
    assert_eq!(
        RpcResponse::not_ready(Value::from(7), "ñ\n".into()).to_line(),
        "{\"jsonrpc\":\"2.0\",\"id\":7,\"error\":{\"code\":-32001,\"message\":\"ñ\\n\"}}\n"
    );
}

#[test]
fn a_question_is_one_line() {
    assert_eq!(
        request_line("callers", json(r#"{"file":"/a\nb.rs","line":261,"col":4}"#)),
        "{\"id\":1,\"jsonrpc\":\"2.0\",\"method\":\"callers\",\"params\":{\"col\":4,\"file\":\"/a\\nb.rs\",\"line\":261}}\n"
    );
}

#[test]
fn a_ping_goes_and_comes_back() {
    let (reply, stop) = served(&request_line("ping", json("{}")));
    assert_eq!(read_response(&reply).unwrap(), Value::from("pong"));
    assert!(responds(Some(&reply)));
    assert!(!stop);
}

#[test]
fn an_unknown_method_is_an_error_and_not_a_broken_connection() {
    let (reply, stop) = served(&request_line("no-existe", json("{}")));
    match read_response(&reply) {
        Err(RpcFailure::Error { code, message }) => {
            assert_eq!(code, Some(-32601));
            assert!(message.contains("no-existe"), "el error nombra el método: {message}");
        }
        other => panic!("{other:?}"),
    }
    assert!(!stop);
    assert!(responds(Some(&served(&request_line("ping", json("{}"))).0)));
}

#[test]
fn a_shutdown_is_answered_and_stops() {
    let (reply, stop) = served(&request_line("shutdown", json("{}")));
    assert_eq!(read_response(&reply).unwrap(), Value::Null);
    assert!(stop);
}

#[test]
fn what_is_not_a_question_is_a_parse_error() {
    match dispatch(Err("expected value at line 1 column 1".into())) {
        Dispatch::Reply { response, stop } => {
            assert_eq!(response.id, Value::Null);
            let e = response.error.unwrap();
            assert_eq!((e.code, e.message.as_str()), (-32700, "expected value at line 1 column 1"));
            assert!(!stop);
        }
        other => panic!("{other:?}"),
    }
}

#[test]
fn the_questions_about_a_position_are_asked() {
    for (method, question) in [
        ("callees", Question::Callees),
        ("callers", Question::Callers),
        ("symbol_at", Question::SymbolAt),
        ("definitions", Question::Definitions),
    ] {
        match dispatch(Ok(request(method, r#"{"line":1}"#))) {
            Dispatch::Ask { id, question: q, params } => {
                assert_eq!(id, Value::from(1));
                assert_eq!(q, question);
                assert_eq!(params, json(r#"{"line":1}"#));
            }
            other => panic!("{other:?}"),
        }
    }
    assert!(matches!(dispatch(Ok(request("status", "null"))), Dispatch::Status { .. }));
}

#[test]
fn warm_reads_its_languages() {
    for (params, languages) in [
        (r#"{"languages":["rust","java"]}"#, vec!["rust".to_string(), "java".to_string()]),
        (r#"{"languages":[]}"#, vec![]),
        ("{}", vec![]),
        ("null", vec![]),
    ] {
        match dispatch(Ok(request("warm", params))) {
            Dispatch::Warm { languages: l, .. } => assert_eq!(l, languages),
            other => panic!("{other:?}"),
        }
    }
    for params in [
        r#"{"languages":"rust"}"#,
        r#"{"languages":["rust",1]}"#,
        r#"{"languages":null}"#,
        r#"["rust"]"#,
        "7",
    ] {
        match dispatch(Ok(request("warm", params))) {
            Dispatch::Reply { response, .. } => {
                let e = response.error.unwrap();
                assert_eq!(e.code, -32602);
                assert_eq!(e.message, "`languages` es una lista de nombres de lenguajes");
            }
            other => panic!("{other:?}"),
        }
    }
}

#[test]
fn params_that_are_no_position_are_invalid() {
    let pos = Pos { file: "a.rs".into(), line: 1, col: 2 };
    let (id, p) = positional(Value::from(7), Ok(pos)).unwrap();
    assert_eq!((id, p.file.as_str(), p.line, p.col), (Value::from(7), "a.rs", 1, 2));
    let r = positional(Value::from(7), Err("missing field `col`".into())).unwrap_err();
    assert_eq!(r.id, Value::from(7));
    assert_eq!(r.error.unwrap().code, -32602);
}

// ─── the answers ─────────────────────────────────────────────────────────────

fn read(r: RpcResponse) -> Value {
    read_response(&r.to_line()).unwrap()
}

#[test]
fn an_answer_reads_back() {
    let calls = Answer::Calls(vec![CalleeInfo {
        symbol: "m::f".into(),
        name: "f".into(),
        file: "/a\n\"b\".rs".into(),
        line: 1,
        col: 2,
    }]);
    assert_eq!(
        read(answer(Value::from("x"), Ok(calls))),
        json(r#"[{"symbol":"m::f","name":"f","file":"/a\n\"b\".rs","line":1,"col":2}]"#)
    );
    let defs = Answer::Definitions(vec![DefinitionInfo {
        name: "a".into(),
        file: "/a.rs".into(),
        line: 1,
        col: 2,
        end_line: 3,
        end_col: 4,
    }]);
    assert_eq!(
        read(answer(Value::from(1), Ok(defs))),
        json(r#"[{"name":"a","file":"/a.rs","line":1,"col":2,"end_line":3,"end_col":4}]"#)
    );
    let symbol = SymbolInfo { symbol: "fn f".into(), name: "f".into(), kind: "function".into() };
    assert_eq!(
        read(answer(Value::from(1), Ok(Answer::Symbol(Some(symbol))))),
        json(r#"{"symbol":"fn f","name":"f","kind":"function"}"#)
    );
    assert_eq!(read(answer(Value::from(1), Ok(Answer::Symbol(None)))), Value::Null);
    assert_eq!(read(answer(Value::from(1), Ok(Answer::Calls(vec![])))), json("[]"));
}

/// "Not yet" is told from "it failed" by the code, and neither is an empty answer.
#[test]
fn an_error_keeps_its_code() {
    for (error, code, message) in [
        (
            QuestionError::NotReady(NotReady { lang: "jdtls" }),
            -32001,
            "jdtls todavía está indexando: volvé a preguntar. `lspd status` dice cuándo.",
        ),
        (
            QuestionError::NoCallHierarchy(NoCallHierarchy),
            -32000,
            "no hay call hierarchy en esa posición",
        ),
        (QuestionError::Failed("se cayó".into()), -32000, "se cayó"),
    ] {
        let line = answer(Value::from(1), Err(error)).to_line();
        assert_eq!(
            read_response(&line).unwrap_err(),
            RpcFailure::Error { code: Some(code), message: message.into() }
        );
        assert_eq!(line.matches('\n').count(), 1);
    }
}

/// What a manager answers to a line, at this time and with these names in `PATH`.
fn attended(m: &mut LspManager, line: &str, in_path: &[String], now: u64) -> Value {
    let v: Value = serde_json::from_str(line).unwrap();
    let req = RpcRequest {
        jsonrpc: v["jsonrpc"].as_str().unwrap().into(),
        id: v["id"].clone(),
        method: v["method"].as_str().unwrap().into(),
        params: v["params"].clone(),
    };
    let response = match dispatch(Ok(req)) {
        Dispatch::Status { id } => status_reply(id, &m.status(now)),
        Dispatch::Warm { id, languages } => {
            let (infos, starts) = m.warm(&languages, &[], in_path, now);
            for s in starts {
                m.settle(s.ticket, Ok(()), &Stderr::new());
            }
            warm_reply(id, &infos)
        }
        other => panic!("{other:?}"),
    };
    read(response)
}

#[test]
fn since_progress_ms_viaja_por_el_protocolo() {
    let mut m = LspManager::new(System::Unix, "/ws");
    let here = vec!["rust-analyzer".to_string()];
    let warm = request_line("warm", json(r#"{"languages":["rust"]}"#));
    attended(&mut m, &warm, &here, 1_000);
    let status = attended(&mut m, &request_line("status", json("{}")), &here, 1_300);

    let list = parse_status(&status).unwrap();
    assert_eq!(list.len(), 1);
    let since = list[0].since_progress.expect("status tiene que decir since_progress_ms");
    assert_eq!(since, 300);
    assert_eq!((list[0].name.as_str(), list[0].state.as_str()), ("rust-analyzer", "INDEXING"));
}

#[test]
fn warm_por_el_protocolo() {
    let mut m = LspManager::new(System::Unix, "/ws");
    let line = request_line("warm", json(r#"{"languages":["python"]}"#));
    let result = attended(&mut m, &line, &[], 0);
    let list = result.as_array().expect("una lista");
    assert_eq!(list.len(), 1);
    assert_eq!(list[0]["name"], "jedi-language-server");
    assert!(list[0]["error"].is_string());
}

/// What there is not is not in the line, and what there is comes whole.
#[test]
fn what_there_is_not_is_not_said() {
    let failed = LspStatus {
        name: "jdtls".into(),
        state: "FAILED".into(),
        queries: 0,
        since_progress_ms: 0,
        error: Some("se cayó\nasí".into()),
    };
    let well = LspStatus { error: None, ..failed.clone() };
    let status = read(status_reply(Value::from(1), &[failed, well]));
    let list = parse_status(&status).unwrap();
    assert_eq!(list[0].error.as_deref(), Some("se cayó\nasí"));
    assert!(status[1].get("error").is_none());
    let info = WarmInfo { name: "jdtls".into(), error: None };
    assert!(read(warm_reply(Value::from(1), &[info]))[0].get("error").is_none());
}

/// Only TypeScript's document goes first, and each question has its request.
#[test]
fn a_question_has_its_plan() {
    for (question, request) in [
        (Question::Callees, Request::OutgoingCalls),
        (Question::Callers, Request::IncomingCalls),
        (Question::SymbolAt, Request::Hover),
        (Question::Definitions, Request::Definition),
    ] {
        for lang in Language::ALL {
            let open_first = lang == Language::TypeScript;
            assert_eq!(plan(lang, question), Plan { open_first, request });
        }
    }
}

// ─── the client ──────────────────────────────────────────────────────────────

#[test]
fn what_is_not_json_is_said() {
    assert_eq!(read_response("no es json\n").unwrap_err(), RpcFailure::NotJson);
    assert_eq!(read_response("").unwrap_err(), RpcFailure::NotJson);
    assert!(!responds(Some("no es json")));
    assert!(!responds(None));
    assert!(!responds(Some(r#"{"result":"ping"}"#)));
    assert!(!responds(Some(r#"{"result":"pong","error":{}}"#)));
    assert!(responds(Some("  {\"result\":\"pong\"}\r\n")));
}

#[test]
fn an_error_without_a_message_is_unknown() {
    assert_eq!(
        read_response(r#"{"error":{"code":1.5}}"#).unwrap_err(),
        RpcFailure::Error { code: None, message: "unknown error".into() }
    );
    assert_eq!(
        read_response(r#"{"error":null}"#).unwrap_err(),
        RpcFailure::Error { code: None, message: "unknown error".into() }
    );
    assert_eq!(read_response(r#"{"id":1}"#).unwrap(), Value::Null);
}

/// A daemon that does not answer is given up after five seconds.
#[test]
fn a_start_is_waited_for_five_seconds() {
    let mut boot = Boot::new();
    for _ in 1..BOOT_TRIES {
        assert_eq!(boot.asked(false), BootStep::Again);
    }
    assert_eq!(boot.asked(false), BootStep::GaveUp);
    assert_eq!(Boot::gave_up_text(), "el daemon no respondió en 5s");
    assert_eq!(TIMEOUT, 5_000);
    let mut boot = Boot::new();
    assert_eq!(boot.asked(true), BootStep::Up);
}
