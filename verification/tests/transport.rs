//! The doors.

use lspd::client::{binary, binary_beside, dir, no_daemon, pid, pid_path};
use lspd::path::System;
use lspd::transport::{endpoint, huella, Endpoint};
use lspd::transport::nombre as name_on;

fn nombre(workspace: &str) -> String {
    name_on(System::Unix, workspace)
}

fn on_unix(workspace: &str) -> Endpoint {
    endpoint(System::Unix, "/home/u/.lspd", workspace)
}

#[test]
fn the_endpoint_is_derived() {
    let w = "/tmp";
    let e = on_unix(w);
    assert_eq!(e, on_unix(w), "dos llamadas dan lo mismo");
    assert!(!e.display().is_empty());
}

#[test]
fn two_workspaces_get_two_doors() {
    let a = on_unix("/tmp");
    let b = on_unix("/usr");
    assert_ne!(a, b, "dos workspaces comparten puerta");
}

#[test]
fn the_name_carries_the_basename() {
    let n = nombre("/tmp");
    assert!(n.starts_with("tmp-"), "{n}");
}

#[test]
fn on_unix_it_is_a_socket_under_the_lspd_dir() {
    let d = dir(System::Unix, Some("/home/u"), None);
    let e = endpoint(System::Unix, &d, "/tmp");
    let Endpoint::Socket(p) = &e else { panic!("en unix es un socket") };
    assert!(p.starts_with("/home/u/.lspd/"), "{p}");
    assert!(p.ends_with(".sock"), "{p}");
    assert!(p.len() < 108, "no entra en sun_path: {p}");
    assert_eq!(e.path(), Some(p.as_str()));
}

/// On Windows it is a pipe of the workspace, and leaves no file to remove.
#[test]
fn on_windows_it_is_a_pipe_of_the_workspace() {
    let ws = r"\\?\C:\Users\u\.cache\ws";
    let e = endpoint(System::Windows, r"C:\Users\u\.lspd", ws);
    let name = name_on(System::Windows, ws);
    assert!(name.starts_with("u-ws-"), "{name}");
    assert_eq!(e, Endpoint::Pipe(format!(r"\\.\pipe\lspd-{name}")));
    assert_eq!(
        pid_path(System::Windows, &dir(System::Windows, None, Some(r"C:\Users\u")), ws),
        format!(r"C:\Users\u\.lspd\{name}.pid")
    );
    assert!(e.path().is_none(), "un pipe no deja archivo que borrar");
}

/// The last two visible segments, and the fingerprint of the whole path.
#[test]
fn a_hidden_segment_is_passed_over() {
    let ws = "/home/anibal/Workspace/accreta/subsystems/worklist/.stratum/impl";
    assert_eq!(nombre(ws), "worklist-impl-1c8540");
    assert_eq!(on_unix(ws).display(), "/home/u/.lspd/worklist-impl-1c8540.sock");
    assert_eq!(pid_path(System::Unix, "/home/u/.lspd", ws), "/home/u/.lspd/worklist-impl-1c8540.pid");
}

/// Two workspaces whose name and fingerprint both coincide share a door.
#[test]
fn two_workspaces_that_coincide_share_a_door() {
    assert_eq!(nombre("/10959/a/b"), "a-b-32f435");
    assert_eq!(nombre("/41584/a/b"), "a-b-32f435");
}

/// The fingerprint is the low 24 bits of FNV-1a.
#[test]
fn the_fingerprint_is_fnv() {
    assert_eq!(huella(b""), 0x222325);
    assert_eq!(huella(b"a"), 0x01ec8c);
    assert_eq!(huella(b"foobar"), 0x3967e8);
}

/// The readable part is plain and is cut at forty.
#[test]
fn the_readable_part_is_cut() {
    let long = "/abcdefghijklmnopqrstuvwxyz/ABCDEFGHIJKLMNOPQRSTUVWXYZ";
    let n = nombre(long);
    assert!(n.starts_with("abcdefghijklmnopqrstuvwxyz-abcdefghijklm-"), "{n}");
    assert!(n.len() <= 47, "{n}");
    assert!(nombre("/mi proyecto/ñandú").starts_with("mi-proyecto--and--"));
    assert!(nombre("/").starts_with("raiz-"));
    assert!(nombre("/.config").starts_with("raiz-"));
}

#[test]
fn the_directory_is_in_the_home() {
    assert_eq!(dir(System::Unix, Some("/home/u"), Some("C:/u")), "/home/u/.lspd");
    assert_eq!(dir(System::Unix, None, Some("C:/u")), "C:/u/.lspd");
    assert_eq!(dir(System::Unix, None, None), "./.lspd");
}

#[test]
fn a_pid_is_read_or_is_zero() {
    assert_eq!(pid(Some("12345\n")), 12345);
    assert_eq!(pid(Some("  +7 ")), 7);
    assert_eq!(pid(Some("4294967295")), u32::MAX);
    assert_eq!(pid(Some("4294967296")), 0);
    assert_eq!(pid(Some("12a")), 0);
    assert_eq!(pid(Some("-1")), 0);
    assert_eq!(pid(Some("+")), 0);
    assert_eq!(pid(Some("")), 0);
    assert_eq!(pid(None), 0);
}

#[test]
fn the_binary_is_beside_or_in_path() {
    assert_eq!(binary_beside(System::Unix, "/opt/bin"), "/opt/bin/lspd");
    assert_eq!(binary_beside(System::Windows, r"C:\bin"), r"C:\bin\lspd.exe");
    assert_eq!(binary(System::Unix, Some("/opt/bin/lspd".into())), "/opt/bin/lspd");
    assert_eq!(binary(System::Unix, None), "lspd");
    assert_eq!(binary(System::Windows, None), "lspd.exe");
}

#[test]
fn without_a_daemon_it_says_where_it_looked() {
    let ep = on_unix("/tmp");
    let err = no_daemon(&ep);
    assert!(err.contains(&ep.display()), "{err}");
    assert_eq!(err, format!("no hay daemon en {}", ep.display()));
}
