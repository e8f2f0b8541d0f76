use procinfo::params::{
    read_outcome, start_read, step_read, LayoutSelector, RawParams, ReadEvent, ReadState,
};

fn wstr(s: &str) -> Vec<u16> {
    s.encode_utf16().collect()
}

#[test]
fn native_chain_runs_to_completion() {
    let mut st = start_read(LayoutSelector::Native);
    assert!(matches!(st, ReadState::NeedBasicInfo));
    st = step_read(st, ReadEvent::GotBasicInfo { block_addr: 0x1000 });
    assert!(matches!(st, ReadState::NeedControlBlock { block_addr: 0x1000 }));
    st = step_read(st, ReadEvent::GotControlBlock { params_addr: 0x2000 });
    assert!(matches!(st, ReadState::NeedParamBlock { params_addr: 0x2000, narrow: false }));
    st = step_read(
        st,
        ReadEvent::GotParamBlock { cmd_addr: 0x3000, cmd_len: 10, cwd_addr: 0x4000, cwd_len: 6 },
    );
    assert!(matches!(st, ReadState::NeedCommandLine { cmd_addr: 0x3000, .. }));
    st = step_read(st, ReadEvent::GotBuffer { data: wstr("a.exe") });
    assert!(matches!(st, ReadState::NeedCurrentDir { cwd_addr: 0x4000, cwd_len: 6, .. }));
    st = step_read(st, ReadEvent::GotBuffer { data: wstr("C:\\") });
    let out = read_outcome(st);
    assert_eq!(
        out,
        Some(RawParams { command_line: wstr("a.exe"), current_directory: wstr("C:\\") })
    );
}

#[test]
fn narrow_layout_skips_the_control_block_walk() {
    let st = start_read(LayoutSelector::Narrow { block_addr: 0x7000 });
    assert!(matches!(st, ReadState::NeedParamBlock { params_addr: 0x7000, narrow: true }));
}

#[test]
fn failure_mid_chain_discards_everything() {
    let mut st = start_read(LayoutSelector::Native);
    st = step_read(st, ReadEvent::GotBasicInfo { block_addr: 0x1000 });
    st = step_read(st, ReadEvent::ReadFailed);
    assert!(matches!(st, ReadState::Failed));
    assert_eq!(read_outcome(st), None);
}

#[test]
fn failure_after_one_buffer_keeps_no_partial_pair() {
    let mut st = start_read(LayoutSelector::Narrow { block_addr: 0x7000 });
    st = step_read(
        st,
        ReadEvent::GotParamBlock { cmd_addr: 0x3000, cmd_len: 10, cwd_addr: 0x4000, cwd_len: 6 },
    );
    st = step_read(st, ReadEvent::GotBuffer { data: wstr("a.exe") });
    st = step_read(st, ReadEvent::ReadFailed);
    assert!(matches!(st, ReadState::Failed));
    assert_eq!(read_outcome(st), None);
}

#[test]
fn failure_is_final() {
    let mut st = ReadState::Failed;
    st = step_read(st, ReadEvent::GotBuffer { data: wstr("x") });
    assert!(matches!(st, ReadState::Failed));
}

#[test]
fn mismatched_answer_fails_the_chain() {
    let st = start_read(LayoutSelector::Native);
    let st = step_read(st, ReadEvent::GotBuffer { data: wstr("x") });
    assert!(matches!(st, ReadState::Failed));
}
