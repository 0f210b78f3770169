use zipper::mux::{Finished, Multiplexer, MuxConfig};
use zipper::opts::{is_blank_line, Opts};
use zipper::session::{count_ticks, run_session};

fn recs(items: &[&str]) -> Vec<Vec<u8>> {
    items.iter().map(|s| s.as_bytes().to_vec()).collect()
}

fn abc() -> Vec<Vec<Vec<u8>>> {
    vec![recs(&["a1", "a2"]), recs(&["b1"]), recs(&["c1", "c2", "c3"])]
}

fn lines(finished: Finished) -> MuxConfig {
    MuxConfig { finished, paste: None, terminator: b"\n".to_vec() }
}

fn paste(finished: Finished, sep: &str) -> MuxConfig {
    MuxConfig { finished, paste: Some(sep.as_bytes().to_vec()), terminator: b"\n".to_vec() }
}

fn text(v: Vec<u8>) -> String {
    String::from_utf8(v).unwrap()
}

#[test]
fn line_interleave_ignore() {
    let out = text(run_session(lines(Finished::Ignore), &abc()));
    assert_eq!(out, "a1\nb1\nc1\na2\nc2\nc3\n");
}

#[test]
fn line_interleave_blank() {
    let out = text(run_session(lines(Finished::Blank), &abc()));
    assert_eq!(out, "a1\nb1\nc1\na2\n\nc2\n\n\nc3\n");
    assert_eq!(out.lines().count(), 9);
}

#[test]
fn line_interleave_terminate() {
    let out = text(run_session(lines(Finished::Terminate), &abc()));
    assert_eq!(out, "a1\nb1\nc1\n");
}

#[test]
fn paste_join_ignore() {
    let chs = vec![recs(&["x1", "x2"]), recs(&["y1", "y2"])];
    let out = text(run_session(paste(Finished::Ignore, "|"), &chs));
    assert_eq!(out, "x1|y1\nx2|y2\n");
}

#[test]
fn paste_join_ignore_keeps_separators() {
    let out = text(run_session(paste(Finished::Ignore, "|"), &abc()));
    assert_eq!(out, "a1|b1|c1\na2||c2\n||c3\n");
}

#[test]
fn paste_join_blank_pads() {
    let out = text(run_session(paste(Finished::Blank, ","), &abc()));
    assert_eq!(out, "a1,b1,c1\na2, ,c2\n , ,c3\n");
}

#[test]
fn paste_join_terminate() {
    let out = text(run_session(paste(Finished::Terminate, "\t"), &abc()));
    assert_eq!(out, "a1\tb1\tc1\n");
}

#[test]
fn no_channels_write_nothing() {
    let chs: Vec<Vec<Vec<u8>>> = Vec::new();
    assert!(run_session(lines(Finished::Blank), &chs).is_empty());
    let m = Multiplexer::new(lines(Finished::Blank), 0);
    assert!(m.is_finished());
    assert_eq!(m.next_channel(), None);
}

#[test]
fn empty_channels_write_nothing() {
    let chs = vec![recs(&[]), recs(&[])];
    assert!(run_session(lines(Finished::Blank), &chs).is_empty());
    assert!(run_session(paste(Finished::Ignore, "|"), &chs).is_empty());
}

#[test]
fn tick_counts() {
    assert_eq!(count_ticks(&lines(Finished::Terminate), &abc()), 1);
    assert_eq!(count_ticks(&lines(Finished::Ignore), &abc()), 3);
    assert_eq!(count_ticks(&lines(Finished::Blank), &abc()), 3);
}

#[test]
fn terminate_drops_partial_tick_step_by_step() {
    let mut m = Multiplexer::new(lines(Finished::Terminate), 3);
    assert_eq!(m.next_channel(), Some(0));
    assert_eq!(m.receive(Some(b"a1".to_vec())), None);
    assert_eq!(m.receive(Some(b"b1".to_vec())), None);
    assert_eq!(m.receive(Some(b"c1".to_vec())), Some(b"a1\nb1\nc1\n".to_vec()));
    assert_eq!(m.next_channel(), Some(0));
    assert_eq!(m.receive(Some(b"a2".to_vec())), None);
    assert_eq!(m.next_channel(), Some(1));
    assert_eq!(m.receive(None), None);
    assert!(m.is_finished());
    assert_eq!(m.next_channel(), None);
}

#[test]
fn closed_channel_stays_blank() {
    let mut m = Multiplexer::new(lines(Finished::Blank), 2);
    assert_eq!(m.receive(None), None);
    assert_eq!(m.receive(Some(b"x".to_vec())), Some(b"\nx\n".to_vec()));
    assert!(!m.is_finished());
    assert_eq!(m.receive(None), None);
    assert_eq!(m.receive(Some(b"y".to_vec())), Some(b"\ny\n".to_vec()));
    assert_eq!(m.receive(None), None);
    assert_eq!(m.receive(None), None);
    assert!(m.is_finished());
}

#[test]
fn ticks_come_out_in_order() {
    let chs = vec![recs(&["1", "3", "5"]), recs(&["2", "4", "6"])];
    let out = text(run_session(lines(Finished::Ignore), &chs));
    assert_eq!(out, "1\n2\n3\n4\n5\n6\n");
}

#[test]
fn crlf_terminator() {
    let cfg = MuxConfig { finished: Finished::Ignore, paste: None, terminator: b"\r\n".to_vec() };
    let out = text(run_session(cfg, &abc()));
    assert_eq!(out, "a1\r\nb1\r\nc1\r\na2\r\nc2\r\nc3\r\n");
}

#[test]
fn runtime_choice_gives_same_bytes() {
    let threaded = Opts::from_flags(Finished::Blank, true, false, Some(Some(String::from(";"))));
    let local = Opts::from_flags(Finished::Blank, false, false, Some(Some(String::from(";"))));
    let a = run_session(threaded.mux_config(b"\n".to_vec()), &abc());
    let b = run_session(local.mux_config(b"\n".to_vec()), &abc());
    assert_eq!(a, b);
    assert_eq!(text(a), "a1;b1;c1\na2; ;c2\n ; ;c3\n");
}

#[test]
fn paste_flag_defaults_to_tab() {
    let o = Opts::from_flags(Finished::Terminate, false, false, Some(None));
    assert_eq!(o.paste.as_deref(), Some("\t"));
    let cfg = o.mux_config(b"\n".to_vec());
    assert_eq!(cfg.paste, Some(b"\t".to_vec()));
    let o = Opts::from_flags(Finished::Ignore, true, true, None);
    assert_eq!(o.paste, None);
    assert!(o.threads && o.commands);
    assert_eq!(o.mux_config(b"\n".to_vec()).paste, None);
}

#[test]
fn default_policy_is_terminate() {
    assert_eq!(Finished::default(), Finished::Terminate);
}

#[test]
fn blank_lines_end_the_command_list() {
    assert!(is_blank_line(""));
    assert!(is_blank_line(" \t \r"));
    assert!(is_blank_line("\u{3000}\u{a0}"));
    assert!(!is_blank_line("ls"));
    assert!(!is_blank_line("  echo hi  "));
}
