use dgxtop::ui::{
    handle_key_event, theme_kind, ActiveTab, InputAction, InputMode, IntervalChange, Key, KeyCode,
    ProcessListing, ProcessSortColumn, ThemeKind, UiEffect, UiState,
};

fn key(c: char) -> Key {
    Key { code: KeyCode::Char(c), control: false }
}

fn code(k: KeyCode) -> Key {
    Key { code: k, control: false }
}

fn listing(gpus: usize, pids: &[u32]) -> ProcessListing {
    ProcessListing { gpu_count: gpus, process_count: pids.len(), filtered_pids: pids.to_vec() }
}

#[test]
fn tabs_cycle_forward_and_back() {
    assert_eq!(ActiveTab::Overview.next(), ActiveTab::GpuDetail);
    assert_eq!(ActiveTab::Processes.next(), ActiveTab::Overview);
    assert_eq!(ActiveTab::Overview.prev(), ActiveTab::Processes);
    for t in ActiveTab::all() {
        assert_eq!(t.next().prev(), *t);
        assert_eq!(t.next().next().next(), *t);
    }
    assert_eq!(ActiveTab::all().len(), 3);
    assert_eq!(ActiveTab::GpuDetail.label(), "GPU Detail");
    assert_eq!(ActiveTab::default(), ActiveTab::Overview);
}

#[test]
fn sort_columns_cycle() {
    let mut c = ProcessSortColumn::default();
    assert_eq!(c, ProcessSortColumn::GpuMemory);
    let mut labels = Vec::new();
    for _ in 0..5 {
        labels.push(c.label());
        c = c.next();
    }
    assert_eq!(c, ProcessSortColumn::GpuMemory);
    assert_eq!(labels, vec!["GPU MEM", "GPU %", "CPU %", "HOST MEM", "PID"]);
    assert_eq!(InputMode::default(), InputMode::Normal);
}

#[test]
fn quit_keys() {
    let l = listing(1, &[]);
    let mut ui = UiState::new();
    assert_eq!(handle_key_event(key('q'), &mut ui, &l).action, InputAction::Quit);
    let ctrl_c = Key { code: KeyCode::Char('c'), control: true };
    assert_eq!(handle_key_event(ctrl_c, &mut ui, &l).action, InputAction::Quit);
    assert_eq!(handle_key_event(key('c'), &mut ui, &l).action, InputAction::Continue);
}

#[test]
fn navigation_stays_in_range() {
    let l = listing(2, &[11, 22, 33]);
    let mut ui = UiState::new();
    for _ in 0..5 {
        handle_key_event(code(KeyCode::Down), &mut ui, &l);
    }
    assert_eq!(ui.process_selected_index, 2);
    handle_key_event(key('k'), &mut ui, &l);
    assert_eq!(ui.process_selected_index, 1);
    handle_key_event(key('2'), &mut ui, &l);
    assert_eq!(ui.active_tab, ActiveTab::GpuDetail);
    for _ in 0..3 {
        handle_key_event(key('l'), &mut ui, &l);
    }
    assert_eq!(ui.selected_gpu_index, 1);
    handle_key_event(code(KeyCode::Left), &mut ui, &l);
    handle_key_event(code(KeyCode::Left), &mut ui, &l);
    assert_eq!(ui.selected_gpu_index, 0);
    handle_key_event(code(KeyCode::Tab), &mut ui, &l);
    assert_eq!(ui.active_tab, ActiveTab::Processes);
    handle_key_event(code(KeyCode::BackTab), &mut ui, &l);
    assert_eq!(ui.active_tab, ActiveTab::GpuDetail);
}

#[test]
fn sort_mode_changes_column_and_order() {
    let l = listing(1, &[1]);
    let mut ui = UiState::new();
    handle_key_event(key('s'), &mut ui, &l);
    assert_eq!(ui.input_mode, InputMode::ProcessSort);
    let o = handle_key_event(key('s'), &mut ui, &l);
    assert_eq!(o.effect, UiEffect::ResortProcesses);
    assert_eq!(ui.process_sort, ProcessSortColumn::GpuUtil);
    handle_key_event(key('r'), &mut ui, &l);
    assert!(ui.process_sort_ascending);
    handle_key_event(code(KeyCode::Enter), &mut ui, &l);
    assert_eq!(ui.input_mode, InputMode::Normal);
}

#[test]
fn filter_mode_edits_text() {
    let l = listing(1, &[1, 2]);
    let mut ui = UiState::new();
    handle_key_event(key('j'), &mut ui, &l);
    assert_eq!(ui.process_selected_index, 1);
    handle_key_event(key('/'), &mut ui, &l);
    assert_eq!(ui.input_mode, InputMode::ProcessFilter);
    handle_key_event(key('p'), &mut ui, &l);
    handle_key_event(key('y'), &mut ui, &l);
    assert_eq!(ui.process_filter, "py");
    assert_eq!(ui.process_selected_index, 0);
    handle_key_event(code(KeyCode::Backspace), &mut ui, &l);
    assert_eq!(ui.process_filter, "p");
    handle_key_event(code(KeyCode::Enter), &mut ui, &l);
    assert_eq!(ui.input_mode, InputMode::Normal);
    assert_eq!(ui.process_filter, "p");
    handle_key_event(key('/'), &mut ui, &l);
    handle_key_event(code(KeyCode::Esc), &mut ui, &l);
    assert_eq!(ui.process_filter, "");
    assert_eq!(ui.input_mode, InputMode::Normal);
}

#[test]
fn kill_needs_confirmation() {
    let l = listing(1, &[100, 200]);
    let mut ui = UiState::new();
    handle_key_event(key('j'), &mut ui, &l);
    handle_key_event(key('K'), &mut ui, &l);
    assert_eq!(ui.input_mode, InputMode::ProcessKill);
    assert_eq!(ui.process_kill_confirm, Some(200));
    let o = handle_key_event(key('y'), &mut ui, &l);
    assert_eq!(o.effect, UiEffect::Kill(200));
    assert_eq!(ui.process_kill_confirm, None);
    assert_eq!(ui.input_mode, InputMode::Normal);

    handle_key_event(key('K'), &mut ui, &l);
    let o = handle_key_event(key('n'), &mut ui, &l);
    assert_eq!(o.effect, UiEffect::NoEffect);
    assert_eq!(ui.process_kill_confirm, None);

    // Nothing to kill: the key does nothing.
    let empty = listing(1, &[]);
    let mut ui2 = UiState::new();
    handle_key_event(key('K'), &mut ui2, &empty);
    assert_eq!(ui2.input_mode, InputMode::Normal);
}

#[test]
fn help_settings_and_interval_keys() {
    let l = listing(1, &[]);
    let mut ui = UiState::new();
    handle_key_event(code(KeyCode::F(1)), &mut ui, &l);
    assert_eq!(ui.input_mode, InputMode::Help);
    handle_key_event(key('?'), &mut ui, &l);
    assert_eq!(ui.input_mode, InputMode::Normal);
    let o = handle_key_event(key('+'), &mut ui, &l);
    assert_eq!(o.effect, UiEffect::AdjustInterval(IntervalChange::Faster));
    let o = handle_key_event(key('-'), &mut ui, &l);
    assert_eq!(o.effect, UiEffect::AdjustInterval(IntervalChange::Slower));
    handle_key_event(key('e'), &mut ui, &l);
    assert!(ui.show_per_core);
    ui.input_mode = InputMode::Settings;
    handle_key_event(code(KeyCode::Esc), &mut ui, &l);
    assert_eq!(ui.input_mode, InputMode::Normal);
}

#[test]
fn theme_names() {
    assert_eq!(theme_kind("green"), ThemeKind::Green);
    assert_eq!(theme_kind("amber"), ThemeKind::Amber);
    assert_eq!(theme_kind("cyan"), ThemeKind::Cyan);
    assert_eq!(theme_kind("purple"), ThemeKind::Cyan);
}

#[test]
fn escape_returns_to_normal_from_every_mode() {
    let l = listing(1, &[5]);
    for mode in [
        InputMode::Normal,
        InputMode::ProcessSort,
        InputMode::ProcessFilter,
        InputMode::ProcessKill,
        InputMode::Help,
        InputMode::Settings,
    ] {
        let mut ui = UiState::new();
        ui.input_mode = mode;
        ui.process_kill_confirm = Some(5);
        let o = handle_key_event(code(KeyCode::Esc), &mut ui, &l);
        assert_eq!(ui.input_mode, InputMode::Normal);
        assert_ne!(o.action, InputAction::Quit);
        assert_eq!(o.effect, UiEffect::NoEffect);
    }
}
