use f3::inner::Status;
use f3::parser::{parse_decimal, scan_token, u_is_integer};
use f3::repl::Cycle;
use f3::runtime::{ForthRuntime, HostOp, Source};
use f3::tui::{EditKey, ForthLineEditor, ForthTui};
use f3::config::Config;

fn lines(ls: &[&str]) -> Vec<Vec<u8>> {
    ls.iter().map(|l| l.as_bytes().to_vec()).collect()
}

fn run_cycle(rt: &mut ForthRuntime) {
    loop {
        match rt.run(100000) {
            Status::Done => break,
            Status::Busy => continue,
            Status::Waiting => panic!("unexpected host request {:?}", rt.pending),
        }
    }
}

#[test]
fn included_file_resumes_outer_file() {
    let mut rt = ForthRuntime::new();
    rt.cold_start();
    rt.reader.push(Source::File { lines: lines(&["1", "2"]), next: 0 });
    assert!(rt.begin_cycle());
    assert_eq!(rt.query_line(), Cycle::Ready);
    run_cycle(&mut rt);
    // the outer file includes another file
    rt.include_lines(Some(lines(&["10", "11"])));
    assert_eq!(rt.kernel.pop(), -1);
    let mut seen = vec![];
    for _ in 0..5 {
        assert!(rt.begin_cycle());
        assert_eq!(rt.query_line(), Cycle::Ready);
        run_cycle(&mut rt);
        seen.push(rt.kernel.stack_len());
    }
    // 10, 11, end of inner (nothing), 2, end of outer (nothing)
    let mut vals = vec![];
    while rt.kernel.stack_len() > 0 {
        vals.push(rt.kernel.pop());
    }
    vals.reverse();
    assert_eq!(vals, vec![1, 10, 11, 2]);
    assert_eq!(rt.reader.len(), 1);
    assert!(rt.begin_cycle());
    assert_eq!(rt.query_line(), Cycle::NeedLine);
    assert!(matches!(rt.pending, Some(HostOp::ReadLine { .. })));
}

#[test]
fn console_end_of_input_ends_session() {
    let mut rt = ForthRuntime::new();
    rt.cold_start();
    assert!(rt.begin_cycle());
    assert_eq!(rt.query_line(), Cycle::NeedLine);
    rt.accept_console_line(None);
    assert!(rt.should_exit());
}

#[test]
fn console_line_is_evaluated() {
    let mut rt = ForthRuntime::new();
    rt.cold_start();
    assert!(rt.begin_cycle());
    assert_eq!(rt.query_line(), Cycle::NeedLine);
    rt.accept_console_line(Some("3 4 * ."));
    rt.start_eval();
    run_cycle(&mut rt);
    rt.end_cycle();
    assert_eq!(String::from_utf8(rt.take_output()).unwrap(), "12 [ ] ok> ");
}

#[test]
fn include_file_asks_the_host() {
    let mut rt = ForthRuntime::new();
    rt.cold_start();
    rt.evaluate("tmp @ include-file", 1000);
    assert!(matches!(rt.pending, Some(HostOp::Include { .. })));
    rt.include_lines(None);
    assert_eq!(rt.kernel.pop(), 0);
}

#[test]
fn decimal_parsing() {
    assert_eq!(parse_decimal(b"42"), Some(42));
    assert_eq!(parse_decimal(b"-42"), Some(-42));
    assert_eq!(parse_decimal(b"+7"), Some(7));
    assert_eq!(parse_decimal(b"-9223372036854775808"), Some(i64::MIN));
    assert_eq!(parse_decimal(b"9223372036854775807"), Some(i64::MAX));
    assert_eq!(parse_decimal(b"9223372036854775808"), None);
    assert_eq!(parse_decimal(b""), None);
    assert_eq!(parse_decimal(b"-"), None);
    assert_eq!(parse_decimal(b"12a"), None);
    assert_eq!(parse_decimal(b"0x10"), None);
    assert!(u_is_integer("123"));
    assert!(!u_is_integer("abc"));
}

#[test]
fn token_scanning() {
    assert_eq!(scan_token(b"   abc def", 10, b' '), (3, 3));
    assert_eq!(scan_token(b"abc", 3, b' '), (0, 3));
    assert_eq!(scan_token(b"    ", 4, b' '), (4, 0));
    assert_eq!(scan_token(b"", 0, b' '), (0, 0));
    assert_eq!(scan_token(b"a,b", 3, b','), (0, 1));
}

#[test]
fn parse_p_on_string_space() {
    let mut rt = ForthRuntime::new();
    rt.cold_start();
    rt.kernel.string_save("  hi there", 600);
    rt.kernel.push(601);
    rt.kernel.push(10);
    rt.kernel.push(32);
    rt.f_parse_p();
    assert_eq!(rt.kernel.pop(), 2);
    assert_eq!(rt.kernel.pop(), 2);
    assert_eq!(rt.kernel.pop(), 601);
    rt.kernel.push(601);
    rt.kernel.push(0);
    rt.kernel.push(32);
    rt.f_parse_p();
    assert_eq!(rt.kernel.pop(), 0);
    assert_eq!(rt.kernel.pop(), 0);
}

#[test]
fn line_editor_edits_and_returns_line() {
    let mut tui = ForthTui::new().unwrap();
    for c in "abd".chars() {
        assert!(tui.get_line(EditKey::Char(c)).done.is_none());
    }
    tui.get_line(EditKey::Left);
    tui.get_line(EditKey::Char('c'));
    tui.get_line(EditKey::End);
    tui.get_line(EditKey::Backspace);
    let r = tui.get_line(EditKey::Enter);
    assert_eq!(r.done, Some(Some("abc".to_string())));
    tui.get_line(EditKey::Up);
    let r = tui.get_line(EditKey::Enter);
    assert_eq!(r.done, Some(Some("abc".to_string())));
    let r = tui.get_line(EditKey::Esc);
    assert_eq!(r.done, Some(None));
    let mut ed = ForthLineEditor::new();
    ed.handle_key(EditKey::Char('x'));
    ed.handle_key(EditKey::Home);
    ed.handle_key(EditKey::KillToEnd);
    assert_eq!(ed.handle_key(EditKey::Enter).done, Some(Some(String::new())));
}

#[test]
fn config_defaults() {
    let c = Config::new();
    assert!(c.loaded_file.is_none());
    assert!(!c.no_core);
    assert!(c.run);
}
