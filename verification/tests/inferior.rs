use cs110l::inferior::{
    align_addr_to_word, backtrace_step, get_address_info, splice_byte, started_under_trace, FrameStep, LineInfo, Status,
    SIGTRAP,
};

const W: usize = std::mem::size_of::<usize>();

#[test]
fn align_rounds_down_to_word() {
    assert_eq!(align_addr_to_word(0), 0);
    assert_eq!(align_addr_to_word(W - 1), 0);
    assert_eq!(align_addr_to_word(W), W);
    assert_eq!(align_addr_to_word(0x401a2b), 0x401a2b - 0x401a2b % W);
    assert_eq!(align_addr_to_word(usize::MAX), usize::MAX - (W - 1));
}

#[test]
fn splice_plants_a_breakpoint() {
    let word: u64 = 0x1122_3344_5566_7788;
    let (updated, orig) = splice_byte(word, 0x1000, 0xcc);
    assert_eq!(orig, 0x88);
    assert_eq!(updated, 0x1122_3344_5566_77cc);
    let (updated, orig) = splice_byte(word, 0x1003, 0xcc);
    assert_eq!(orig, 0x55);
    assert_eq!(updated, 0x1122_3344_cc66_7788);
}

#[test]
fn splice_then_restore_gives_back_the_word() {
    let word: u64 = 0xdead_beef_0bad_f00d;
    for off in 0..W {
        let addr = 0x4000 + off;
        let (planted, orig) = splice_byte(word, addr, 0xcc);
        assert_ne!(planted, word);
        let (restored, seen) = splice_byte(planted, addr, orig);
        assert_eq!(seen, 0xcc);
        assert_eq!(restored, word);
    }
}

#[test]
fn trace_start_needs_sigtrap() {
    assert!(started_under_trace(&Status::Stopped(SIGTRAP, 0x1000)));
    assert!(!started_under_trace(&Status::Stopped(11, 0x1000)));
    assert!(!started_under_trace(&Status::Exited(0)));
    assert!(!started_under_trace(&Status::Signaled(SIGTRAP)));
}

#[test]
fn address_info_with_and_without_symbols() {
    let known = get_address_info(Some("main.c:12".to_string()), Some("main".to_string()));
    assert_eq!(known.info, "main.c:12");
    assert_eq!(known.func_name, "main");
    assert!(!known.is_unknown());
    assert_eq!(known.render(), "main (main.c:12)");
    let unknown = get_address_info(None, None);
    assert_eq!(unknown.info, "NULL");
    assert_eq!(unknown.func_name, "NULL");
    assert!(unknown.is_unknown());
    assert_eq!(unknown.render(), "NULL (NULL)");
}

#[test]
fn backtrace_steps() {
    let unknown = LineInfo::default();
    let unknown = get_address_info(None, Some(unknown.func_name));
    assert_eq!(backtrace_step(&unknown, &None, 0x7ff0), FrameStep::Unknown);
    let at_main = get_address_info(Some("m.c:3".to_string()), Some("main".to_string()));
    assert_eq!(backtrace_step(&at_main, &Some("main".to_string()), 0x7ff0), FrameStep::Last);
    let inner = get_address_info(Some("m.c:9".to_string()), Some("helper".to_string()));
    assert_eq!(
        backtrace_step(&inner, &Some("helper".to_string()), 0x7ff0),
        FrameStep::Next { return_address_at: 0x7ff8, saved_frame_at: 0x7ff0 }
    );
}
