use dgxtop::cpu::{sample_user_nice_fits, CpuCollector, CpuTimeSample};
use dgxtop::error::{parse_error, str_then_chars, DgxTopError};
use dgxtop::memory::kb_value_fits;
use dgxtop::order::chars_le;
use dgxtop::text::{chars_equal, is_whitespace, lower_ascii_char, push_decimal};
use dgxtop::ui::{
    handle, handle_filter, handle_help, handle_kill, handle_settings, handle_sort, InputAction,
    InputMode, Key, KeyCode, ProcessListing, UiEffect, UiState,
};

fn cs(s: &str) -> Vec<char> {
    s.chars().collect()
}

fn key(c: char) -> Key {
    Key { code: KeyCode::Char(c), control: false }
}

#[test]
fn character_helpers() {
    assert!(chars_equal(&cs("abc"), &cs("abc")));
    assert!(!chars_equal(&cs("abc"), &cs("abd")));
    assert!(!chars_equal(&cs("ab"), &cs("abc")));
    assert!(chars_le(&cs("ab"), &cs("b")));
    assert!(!chars_le(&cs("b"), &cs("ab")));
    assert!(is_whitespace(' '));
    assert!(is_whitespace('\u{3000}'));
    assert!(!is_whitespace('x'));
    assert_eq!(lower_ascii_char('Q'), 'q');
    assert_eq!(lower_ascii_char('É'), 'É');
    let mut out = cs("n=");
    push_decimal(40960, &mut out);
    assert_eq!(out, cs("n=40960"));
}

#[test]
fn error_texts() {
    assert_eq!(str_then_chars("got ", &cs("12")), "got 12");
    match parse_error("idle", "invalid value: ", &cs("abc")) {
        DgxTopError::Parse { field, message } => {
            assert_eq!(field, "idle");
            assert_eq!(message, "invalid value: abc");
        }
        _ => panic!("expected a parse error"),
    }
}

#[test]
fn overflow_guards() {
    assert!(kb_value_fits("MemTotal: 16384 kB"));
    assert!(!kb_value_fits("MemTotal: 18446744073709551615 kB"));
    let mut s = CpuTimeSample::default();
    assert!(sample_user_nice_fits(&s));
    s.user = u64::MAX;
    s.nice = 1;
    assert!(!sample_user_nice_fits(&s));
}

#[test]
fn collector_remembers_reading_time() {
    let mut c = CpuCollector::new();
    let at = std::time::Instant::now();
    c.advance(CpuTimeSample::default(), Vec::new(), at);
    assert_eq!(c.prev_time(), at);
}

#[test]
fn mode_handlers_directly() {
    let listing = ProcessListing { gpu_count: 1, process_count: 1, filtered_pids: vec![9] };
    let mut ui = UiState::new();
    assert_eq!(handle(key('x'), &mut ui, &listing).action, InputAction::Continue);
    ui.input_mode = InputMode::ProcessSort;
    assert_eq!(handle_sort(key('R'), &mut ui).effect, UiEffect::ResortProcesses);
    assert!(ui.process_sort_ascending);
    ui.input_mode = InputMode::ProcessFilter;
    handle_filter(key('z'), &mut ui);
    assert_eq!(ui.process_filter, "z");
    ui.input_mode = InputMode::ProcessKill;
    ui.process_kill_confirm = Some(9);
    assert_eq!(handle_kill(code_key(KeyCode::Enter), &mut ui).effect, UiEffect::Kill(9));
    ui.input_mode = InputMode::Help;
    assert_eq!(handle_help(key('x'), &mut ui).action, InputAction::Continue);
    assert_eq!(handle_help(key('q'), &mut ui).action, InputAction::Redraw);
    assert_eq!(ui.input_mode, InputMode::Normal);
    ui.input_mode = InputMode::Settings;
    handle_settings(key('q'), &mut ui);
    assert_eq!(ui.input_mode, InputMode::Normal);
}

fn code_key(code: KeyCode) -> Key {
    Key { code, control: false }
}
