use cs110l::command::{parse_address, parse_command_line, DebuggerCommand, ParsedLine};

fn cmd(tokens: &[&str]) -> Option<DebuggerCommand> {
    let v: Vec<&str> = tokens.to_vec();
    DebuggerCommand::from_tokens(&v)
}

#[test]
fn quit_words() {
    assert!(matches!(cmd(&["q"]), Some(DebuggerCommand::Quit)));
    assert!(matches!(cmd(&["quit"]), Some(DebuggerCommand::Quit)));
    assert!(matches!(cmd(&["quit", "now"]), Some(DebuggerCommand::Quit)));
}

#[test]
fn run_takes_the_remaining_words() {
    match cmd(&["r", "a", "bb"]) {
        Some(DebuggerCommand::Run(args)) => assert_eq!(args, vec!["a".to_string(), "bb".to_string()]),
        other => panic!("unexpected {:?}", other),
    }
    match cmd(&["run"]) {
        Some(DebuggerCommand::Run(args)) => assert!(args.is_empty()),
        other => panic!("unexpected {:?}", other),
    }
}

#[test]
fn continue_and_backtrace_words() {
    assert!(matches!(cmd(&["c"]), Some(DebuggerCommand::Continue)));
    assert!(matches!(cmd(&["cont"]), Some(DebuggerCommand::Continue)));
    assert!(matches!(cmd(&["bt"]), Some(DebuggerCommand::Backtrace)));
    assert!(matches!(cmd(&["back"]), Some(DebuggerCommand::Backtrace)));
    assert!(matches!(cmd(&["backtrace"]), Some(DebuggerCommand::Backtrace)));
}

#[test]
fn unknown_words() {
    assert!(cmd(&["continue"]).is_none());
    assert!(cmd(&["Q"]).is_none());
    assert!(cmd(&["x", "q"]).is_none());
}

#[test]
fn break_at_raw_address() {
    match cmd(&["b", "*0x401a2b"]) {
        Some(DebuggerCommand::Break(addr, name)) => {
            assert_eq!(addr, Some(0x401a2b));
            assert_eq!(name, "");
        }
        other => panic!("unexpected {:?}", other),
    }
    match cmd(&["break", "*ff"]) {
        Some(DebuggerCommand::Break(addr, _)) => assert_eq!(addr, Some(0xff)),
        other => panic!("unexpected {:?}", other),
    }
    match cmd(&["b", "*0xzz"]) {
        Some(DebuggerCommand::Break(addr, name)) => {
            assert_eq!(addr, None);
            assert_eq!(name, "");
        }
        other => panic!("unexpected {:?}", other),
    }
}

#[test]
fn break_at_symbol() {
    match cmd(&["b", "main"]) {
        Some(DebuggerCommand::Break(addr, name)) => {
            assert_eq!(addr, None);
            assert_eq!(name, "main");
        }
        other => panic!("unexpected {:?}", other),
    }
    match cmd(&["break", "12"]) {
        Some(DebuggerCommand::Break(None, name)) => assert_eq!(name, "12"),
        other => panic!("unexpected {:?}", other),
    }
}

#[test]
fn address_prefix_and_case() {
    assert_eq!(parse_address("0x10"), Some(16));
    assert_eq!(parse_address("0X10"), Some(16));
    assert_eq!(parse_address("10"), Some(16));
    assert_eq!(parse_address("DeadBeef"), Some(0xdeadbeef));
    assert_eq!(parse_address("+1f"), Some(31));
    assert_eq!(parse_address("0x+1f"), Some(31));
}

#[test]
fn address_rejections() {
    assert_eq!(parse_address(""), None);
    assert_eq!(parse_address("0x"), None);
    assert_eq!(parse_address("+"), None);
    assert_eq!(parse_address("-1"), None);
    assert_eq!(parse_address("0xg1"), None);
    assert_eq!(parse_address("12 34"), None);
    assert_eq!(parse_address("١٢"), None);
}

#[test]
fn address_overflow() {
    let max = format!("{:x}", usize::MAX);
    assert_eq!(parse_address(&max), Some(usize::MAX));
    let over = format!("1{}", max);
    assert_eq!(parse_address(&over), None);
    let zeros = format!("0x0000{}", max);
    assert_eq!(parse_address(&zeros), Some(usize::MAX));
}

#[test]
fn command_lines() {
    assert!(matches!(parse_command_line(""), ParsedLine::Blank));
    assert!(matches!(parse_command_line(" \t \u{3000}"), ParsedLine::Blank));
    assert!(matches!(parse_command_line("  hello there "), ParsedLine::Unrecognized));
    assert!(matches!(parse_command_line("  c "), ParsedLine::Command(DebuggerCommand::Continue)));
    match parse_command_line("run  one\ttwo\u{a0}three") {
        ParsedLine::Command(DebuggerCommand::Run(args)) => {
            assert_eq!(args, vec!["one".to_string(), "two".to_string(), "three".to_string()])
        }
        other => panic!("unexpected {:?}", other),
    }
    match parse_command_line("break *0x10 extra") {
        ParsedLine::Command(DebuggerCommand::Break(addr, _)) => assert_eq!(addr, Some(16)),
        other => panic!("unexpected {:?}", other),
    }
}
