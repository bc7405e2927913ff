use cs110l::command::DebuggerCommand;
use cs110l::inferior::{get_address_info, LineInfo, Status, SIGTRAP};
use cs110l::session::{Action, Session, StopAction};

#[test]
fn run_and_quit_report_whether_to_kill() {
    let mut s = Session::new();
    assert!(!s.is_running());
    match s.on_command(DebuggerCommand::Run(vec!["x".to_string()])) {
        Action::Start { args, kill_current } => {
            assert_eq!(args, vec!["x".to_string()]);
            assert!(!kill_current);
        }
        other => panic!("unexpected {:?}", other),
    }
    s.on_start_result(true);
    assert!(s.is_running());
    assert!(matches!(s.on_command(DebuggerCommand::Run(vec![])), Action::Start { kill_current: true, .. }));
    s.on_start_result(false);
    assert!(s.is_running());
    assert!(matches!(s.on_command(DebuggerCommand::Quit), Action::Quit { kill_current: true }));
    assert!(matches!(s.on_command(DebuggerCommand::Continue), Action::Resume));
    assert!(matches!(s.on_command(DebuggerCommand::Backtrace), Action::Backtrace));
}

#[test]
fn address_breakpoints_are_numbered_and_not_repeated() {
    let mut s = Session::new();
    assert!(matches!(
        s.on_command(DebuggerCommand::Break(Some(0x40), String::new())),
        Action::BreakpointSet { index: 0, addr: 0x40 }
    ));
    assert!(matches!(
        s.on_command(DebuggerCommand::Break(Some(0x50), String::new())),
        Action::BreakpointSet { index: 1, addr: 0x50 }
    ));
    assert!(matches!(
        s.on_command(DebuggerCommand::Break(Some(0x40), String::new())),
        Action::BreakpointExists { addr: 0x40 }
    ));
    assert_eq!(s.breakpoints(), &vec![0x40, 0x50]);
}

#[test]
fn symbolic_breakpoints_resolve_by_line_or_function() {
    let mut s = Session::new();
    assert!(matches!(s.on_command(DebuggerCommand::Break(None, "15".to_string())), Action::ResolveLine { line: 15 }));
    assert!(matches!(s.on_location_resolved(Some(0x400)), Action::BreakpointSet { index: 0, addr: 0x400 }));
    match s.on_command(DebuggerCommand::Break(None, "func".to_string())) {
        Action::ResolveFunction { name } => assert_eq!(name, "func"),
        other => panic!("unexpected {:?}", other),
    }
    assert!(matches!(s.on_location_resolved(Some(0x400)), Action::BreakpointSet { index: 1, addr: 0x400 }));
    assert!(matches!(s.on_location_resolved(None), Action::Leave));
    assert_eq!(s.breakpoints(), &vec![0x400, 0x400]);
    match s.on_command(DebuggerCommand::Break(None, String::new())) {
        Action::ResolveFunction { name } => assert_eq!(name, ""),
        other => panic!("unexpected {:?}", other),
    }
}

#[test]
fn stops_and_exits() {
    let mut s = Session::new();
    s.on_command(DebuggerCommand::Break(Some(0x1000), String::new()));
    s.on_start_result(true);
    let known = get_address_info(Some("a.c:1".to_string()), Some("main".to_string()));
    assert_eq!(
        s.on_stop(&Status::Stopped(SIGTRAP, 0x1001), &known),
        StopAction::StoppedAtBreakpoint { signal: SIGTRAP, addr: 0x1000 }
    );
    assert_eq!(s.on_stop(&Status::Stopped(2, 0x2000), &known), StopAction::Stopped(2));
    let unknown = get_address_info(None, None);
    assert_eq!(s.on_stop(&Status::Stopped(SIGTRAP, 0x1001), &unknown), StopAction::StoppedUnknown(SIGTRAP));
    assert!(s.is_running());
    assert_eq!(s.on_stop(&Status::Exited(3), &LineInfo::default()), StopAction::Exited(3));
    assert!(!s.is_running());
    s.on_start_result(true);
    assert_eq!(s.on_stop(&Status::Signaled(9), &LineInfo::default()), StopAction::Signaled(9));
    assert!(!s.is_running());
    assert_eq!(s.breakpoints(), &vec![0x1000]);
}
