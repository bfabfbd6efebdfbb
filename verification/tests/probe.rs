use zm_mux::probe::{parse_markers, argv_for, b2s, cell_status, excerpt, parse_bool, squote, CellStatus, Probe};

fn probe() -> Probe {
    Probe { lang: "node", prog: "node".to_string(), args: vec!["a b.js".to_string(), "it's".to_string()], available: true }
}

#[test]
fn launch_paths() {
    let p = probe();
    assert_eq!(argv_for(&p, "direct"), vec!["node", "a b.js", "it's"]);
    assert_eq!(argv_for(&p, "cmd"), vec!["cmd.exe", "/c", "node", "a b.js", "it's"]);
    assert_eq!(
        argv_for(&p, "pwsh"),
        vec!["pwsh", "-NoProfile", "-NonInteractive", "-Command", "& 'node' 'a b.js' 'it''s'"]
    );
    assert_eq!(argv_for(&p, "powershell")[0], "powershell");
    assert_eq!(argv_for(&p, "other"), vec!["other"]);
    assert_eq!(squote("it's"), "'it''s'");
}

#[test]
fn reports_and_status() {
    assert_eq!(parse_bool(" TRUE "), Some(true));
    assert_eq!(parse_bool("false"), Some(false));
    assert_eq!(parse_bool("undefined"), None);
    assert_eq!(b2s(Some(true)), "true");
    assert_eq!(b2s(None), "-");
    assert_eq!(cell_status(false, true, true, true), CellStatus::Skip);
    assert_eq!(cell_status(true, true, true, true), CellStatus::SpawnErr);
    assert_eq!(cell_status(true, false, true, true), CellStatus::Pass);
    assert_eq!(cell_status(true, false, false, true), CellStatus::Timeout);
    assert_eq!(cell_status(true, false, false, false).as_str(), "NO_MARKER");
    assert_eq!(excerpt("a\r\nb"), "a··b");
    assert_eq!(excerpt(&"x".repeat(200)).chars().count(), 120);
}

#[test]
fn markers_in_output() {
    let out = "noise\r\nZMPROBE lang=node out=true in=false err=TRUE END\r\nZMPROBE_RAW lang=node rawout=undefined END\n";
    assert_eq!(parse_markers(out), (Some(true), Some(false), Some(true), Some("undefined".to_string())));
    assert_eq!(parse_markers("ZMPROBE lang=py out=maybe END"), (None, None, None, None));
    assert_eq!(parse_markers("ZMPROBE out=true"), (None, None, None, None));
    assert_eq!(parse_markers(""), (None, None, None, None));
}
