//! The interactive state of the monitor and the keyboard state machine that
//! drives it: views, input modes, process sorting and selection.
use vstd::prelude::*;

verus! {

// ---------------------------------------------------------------------
// Views
// ---------------------------------------------------------------------

/// Active tab in the main view.
#[derive(PartialEq, Eq, Structural, Clone, Copy, Debug)]
pub enum ActiveTab {
    Overview,
    GpuDetail,
    Processes,
}

impl Default for ActiveTab {
    fn default() -> (r: Self)
        ensures
            r == ActiveTab::Overview,
    {
        ActiveTab::Overview
    }
}

pub open spec fn tab_next(t: ActiveTab) -> ActiveTab {
    match t {
        ActiveTab::Overview => ActiveTab::GpuDetail,
        ActiveTab::GpuDetail => ActiveTab::Processes,
        ActiveTab::Processes => ActiveTab::Overview,
    }
}

pub open spec fn tab_prev(t: ActiveTab) -> ActiveTab {
    match t {
        ActiveTab::Overview => ActiveTab::Processes,
        ActiveTab::GpuDetail => ActiveTab::Overview,
        ActiveTab::Processes => ActiveTab::GpuDetail,
    }
}

impl ActiveTab {
    pub fn next(self) -> (r: Self)
        ensures
            r == tab_next(self),
    {
        match self {
            ActiveTab::Overview => ActiveTab::GpuDetail,
            ActiveTab::GpuDetail => ActiveTab::Processes,
            ActiveTab::Processes => ActiveTab::Overview,
        }
    }

    pub fn prev(self) -> (r: Self)
        ensures
            r == tab_prev(self),
    {
        match self {
            ActiveTab::Overview => ActiveTab::Processes,
            ActiveTab::GpuDetail => ActiveTab::Overview,
            ActiveTab::Processes => ActiveTab::GpuDetail,
        }
    }

    pub fn label(self) -> (r: &'static str)
        ensures
            r@ == match self {
                ActiveTab::Overview => "Overview"@,
                ActiveTab::GpuDetail => "GPU Detail"@,
                ActiveTab::Processes => "Processes"@,
            },
    {
        match self {
            ActiveTab::Overview => "Overview",
            ActiveTab::GpuDetail => "GPU Detail",
            ActiveTab::Processes => "Processes",
        }
    }

    /// Every tab, in display order.
    pub fn all() -> (r: &'static [ActiveTab])
        ensures
            r@ == seq![ActiveTab::Overview, ActiveTab::GpuDetail, ActiveTab::Processes],
    {
        &[ActiveTab::Overview, ActiveTab::GpuDetail, ActiveTab::Processes]
    }
}

/// Law: the tabs form a cycle of three; `prev` undoes `next` and back.
pub proof fn lemma_tab_cycle(t: ActiveTab)
    ensures
        tab_prev(tab_next(t)) == t,
        tab_next(tab_prev(t)) == t,
        tab_next(tab_next(tab_next(t))) == t,
        tab_next(t) != t,
{
}

// ---------------------------------------------------------------------
// Input modes, actions, sort order
// ---------------------------------------------------------------------

/// What the UI loop should do after handling a key event.
#[derive(PartialEq, Eq, Structural, Clone, Copy, Debug)]
pub enum InputAction {
    Continue,
    Quit,
    Redraw,
}

/// Current input mode; it decides which key handler is active.
#[derive(PartialEq, Eq, Structural, Clone, Copy, Debug)]
pub enum InputMode {
    Normal,
    ProcessSort,
    ProcessFilter,
    ProcessKill,
    Help,
    Settings,
}

impl Default for InputMode {
    fn default() -> (r: Self)
        ensures
            r == InputMode::Normal,
    {
        InputMode::Normal
    }
}

/// Sort column for the process table.
#[derive(PartialEq, Eq, Structural, Clone, Copy, Debug)]
pub enum ProcessSortColumn {
    GpuMemory,
    GpuUtil,
    CpuPercent,
    HostMemory,
    Pid,
}

impl Default for ProcessSortColumn {
    fn default() -> (r: Self)
        ensures
            r == ProcessSortColumn::GpuMemory,
    {
        ProcessSortColumn::GpuMemory
    }
}

pub open spec fn sort_next(c: ProcessSortColumn) -> ProcessSortColumn {
    match c {
        ProcessSortColumn::GpuMemory => ProcessSortColumn::GpuUtil,
        ProcessSortColumn::GpuUtil => ProcessSortColumn::CpuPercent,
        ProcessSortColumn::CpuPercent => ProcessSortColumn::HostMemory,
        ProcessSortColumn::HostMemory => ProcessSortColumn::Pid,
        ProcessSortColumn::Pid => ProcessSortColumn::GpuMemory,
    }
}

impl ProcessSortColumn {
    pub fn next(self) -> (r: Self)
        ensures
            r == sort_next(self),
    {
        match self {
            ProcessSortColumn::GpuMemory => ProcessSortColumn::GpuUtil,
            ProcessSortColumn::GpuUtil => ProcessSortColumn::CpuPercent,
            ProcessSortColumn::CpuPercent => ProcessSortColumn::HostMemory,
            ProcessSortColumn::HostMemory => ProcessSortColumn::Pid,
            ProcessSortColumn::Pid => ProcessSortColumn::GpuMemory,
        }
    }

    pub fn label(self) -> (r: &'static str)
        ensures
            r@ == match self {
                ProcessSortColumn::GpuMemory => "GPU MEM"@,
                ProcessSortColumn::GpuUtil => "GPU %"@,
                ProcessSortColumn::CpuPercent => "CPU %"@,
                ProcessSortColumn::HostMemory => "HOST MEM"@,
                ProcessSortColumn::Pid => "PID"@,
            },
    {
        match self {
            ProcessSortColumn::GpuMemory => "GPU MEM",
            ProcessSortColumn::GpuUtil => "GPU %",
            ProcessSortColumn::CpuPercent => "CPU %",
            ProcessSortColumn::HostMemory => "HOST MEM",
            ProcessSortColumn::Pid => "PID",
        }
    }
}

/// Law: cycling the sort column visits all five columns and comes back.
pub proof fn lemma_sort_cycle(c: ProcessSortColumn)
    ensures
        sort_next(sort_next(sort_next(sort_next(sort_next(c))))) == c,
        sort_next(c) != c,
{
}

// ---------------------------------------------------------------------
// Keys
// ---------------------------------------------------------------------

/// The key of a key press.
#[derive(PartialEq, Eq, Structural, Clone, Copy, Debug)]
pub enum KeyCode {
    Char(char),
    Tab,
    BackTab,
    Up,
    Down,
    Left,
    Right,
    Esc,
    Enter,
    Backspace,
    F(u8),
    Other,
}

/// A key press: the key, and whether Control was held.
#[derive(PartialEq, Eq, Structural, Clone, Copy, Debug)]
pub struct Key {
    pub code: KeyCode,
    pub control: bool,
}

// ---------------------------------------------------------------------
// Interactive state
// ---------------------------------------------------------------------

/// The interactive part of the application state.
pub struct UiState {
    pub active_tab: ActiveTab,
    pub input_mode: InputMode,
    pub process_sort: ProcessSortColumn,
    pub process_sort_ascending: bool,
    pub process_selected_index: usize,
    pub process_filter: String,
    pub selected_gpu_index: usize,
    pub process_kill_confirm: Option<u32>,
    pub show_per_core: bool,
}

/// The interactive state as a mathematical value.
pub ghost struct UiModel {
    pub active_tab: ActiveTab,
    pub input_mode: InputMode,
    pub process_sort: ProcessSortColumn,
    pub process_sort_ascending: bool,
    pub process_selected_index: usize,
    pub process_filter: Seq<char>,
    pub selected_gpu_index: usize,
    pub process_kill_confirm: Option<u32>,
    pub show_per_core: bool,
}

impl View for UiState {
    type V = UiModel;

    open spec fn view(&self) -> UiModel {
        UiModel {
            active_tab: self.active_tab,
            input_mode: self.input_mode,
            process_sort: self.process_sort,
            process_sort_ascending: self.process_sort_ascending,
            process_selected_index: self.process_selected_index,
            process_filter: self.process_filter@,
            selected_gpu_index: self.selected_gpu_index,
            process_kill_confirm: self.process_kill_confirm,
            show_per_core: self.show_per_core,
        }
    }
}

pub open spec fn initial_ui() -> UiModel {
    UiModel {
        active_tab: ActiveTab::Overview,
        input_mode: InputMode::Normal,
        process_sort: ProcessSortColumn::GpuMemory,
        process_sort_ascending: false,
        process_selected_index: 0,
        process_filter: Seq::empty(),
        selected_gpu_index: 0,
        process_kill_confirm: None,
        show_per_core: false,
    }
}

impl UiState {
    pub fn new() -> (r: Self)
        ensures
            r@ == initial_ui(),
    {
        UiState {
            active_tab: ActiveTab::Overview,
            input_mode: InputMode::Normal,
            process_sort: ProcessSortColumn::GpuMemory,
            process_sort_ascending: false,
            process_selected_index: 0,
            process_filter: String::new(),
            selected_gpu_index: 0,
            process_kill_confirm: None,
            show_per_core: false,
        }
    }
}

/// What the handlers need to know of the data on screen: how many GPUs
/// there are, how many GPU processes, and the PIDs of the processes that
/// pass the current filter, in table order.
pub struct ProcessListing {
    pub gpu_count: usize,
    pub process_count: usize,
    pub filtered_pids: Vec<u32>,
}

/// Change of the refresh interval that a key asks for.
#[derive(PartialEq, Eq, Structural, Clone, Copy, Debug)]
pub enum IntervalChange {
    /// Refresh more often: the interval shrinks by a tenth of a second.
    Faster,
    /// Refresh less often: the interval grows by a tenth of a second.
    Slower,
}

/// Work that a key asks of the application beyond the interactive state.
#[derive(PartialEq, Eq, Structural, Clone, Copy, Debug)]
pub enum UiEffect {
    NoEffect,
    /// The process table must be sorted again by the current column/order.
    ResortProcesses,
    AdjustInterval(IntervalChange),
    /// Send SIGTERM to this process.
    Kill(u32),
}

#[derive(PartialEq, Eq, Structural, Clone, Copy, Debug)]
pub struct KeyOutcome {
    pub action: InputAction,
    pub effect: UiEffect,
}

pub open spec fn outcome(action: InputAction, effect: UiEffect) -> KeyOutcome {
    KeyOutcome { action, effect }
}

pub open spec fn redraw() -> KeyOutcome {
    outcome(InputAction::Redraw, UiEffect::NoEffect)
}

pub open spec fn keep_going() -> KeyOutcome {
    outcome(InputAction::Continue, UiEffect::NoEffect)
}

// ---------------------------------------------------------------------
// The key state machine, as mathematics
// ---------------------------------------------------------------------

pub open spec fn is_char(k: Key, c: char) -> bool {
    k.code == KeyCode::Char(c)
}

/// Moving the selection one row down (process list, or GPU in the detail view).
pub open spec fn navigate_down_spec(m: UiModel, gpus: usize, filtered: nat) -> UiModel {
    match m.active_tab {
        ActiveTab::GpuDetail => {
            let max = if gpus > 0 { gpus - 1 } else { 0 };
            if m.selected_gpu_index < max {
                UiModel { selected_gpu_index: (m.selected_gpu_index + 1) as usize, ..m }
            } else {
                m
            }
        },
        _ => {
            let max = if filtered > 0 { filtered - 1 } else { 0 };
            if m.process_selected_index < max {
                UiModel { process_selected_index: (m.process_selected_index + 1) as usize, ..m }
            } else {
                m
            }
        },
    }
}

/// Moving the selection one row up.
pub open spec fn navigate_up_spec(m: UiModel) -> UiModel {
    match m.active_tab {
        ActiveTab::GpuDetail => if m.selected_gpu_index > 0 {
            UiModel { selected_gpu_index: (m.selected_gpu_index - 1) as usize, ..m }
        } else {
            m
        },
        _ => if m.process_selected_index > 0 {
            UiModel { process_selected_index: (m.process_selected_index - 1) as usize, ..m }
        } else {
            m
        },
    }
}

/// One key in Normal mode.
pub open spec fn normal_step(m: UiModel, k: Key, gpus: usize, procs: usize, filtered: Seq<u32>) -> (
    UiModel,
    KeyOutcome,
) {
    let c = k.code;
    if is_char(k, 'q') || is_char(k, 'Q') || (is_char(k, 'c') && k.control) {
        (m, outcome(InputAction::Quit, UiEffect::NoEffect))
    } else if c == KeyCode::Tab {
        (UiModel { active_tab: tab_next(m.active_tab), ..m }, redraw())
    } else if c == KeyCode::BackTab {
        (UiModel { active_tab: tab_prev(m.active_tab), ..m }, redraw())
    } else if is_char(k, '1') {
        (UiModel { active_tab: ActiveTab::Overview, ..m }, redraw())
    } else if is_char(k, '2') {
        (UiModel { active_tab: ActiveTab::GpuDetail, ..m }, redraw())
    } else if is_char(k, '3') {
        (UiModel { active_tab: ActiveTab::Processes, ..m }, redraw())
    } else if is_char(k, 'j') || c == KeyCode::Down {
        (navigate_down_spec(m, gpus, filtered.len()), redraw())
    } else if is_char(k, 'k') || c == KeyCode::Up {
        (navigate_up_spec(m), redraw())
    } else if is_char(k, 'h') || c == KeyCode::Left {
        if m.active_tab == ActiveTab::GpuDetail && m.selected_gpu_index > 0 {
            (UiModel { selected_gpu_index: (m.selected_gpu_index - 1) as usize, ..m }, redraw())
        } else {
            (m, redraw())
        }
    } else if is_char(k, 'l') || c == KeyCode::Right {
        let max = if gpus > 0 { gpus - 1 } else { 0 };
        if m.active_tab == ActiveTab::GpuDetail && m.selected_gpu_index < max {
            (UiModel { selected_gpu_index: (m.selected_gpu_index + 1) as usize, ..m }, redraw())
        } else {
            (m, redraw())
        }
    } else if is_char(k, 's') || is_char(k, 'S') {
        (UiModel { input_mode: InputMode::ProcessSort, ..m }, redraw())
    } else if is_char(k, 'K') {
        if procs > 0 {
            let confirm = if m.process_selected_index < filtered.len() {
                Some(filtered[m.process_selected_index as int])
            } else {
                m.process_kill_confirm
            };
            (
                UiModel {
                    input_mode: InputMode::ProcessKill,
                    process_kill_confirm: confirm,
                    ..m
                },
                redraw(),
            )
        } else {
            (m, redraw())
        }
    } else if is_char(k, '/') {
        (UiModel { input_mode: InputMode::ProcessFilter, ..m }, redraw())
    } else if is_char(k, '?') || c == KeyCode::F(1) {
        (UiModel { input_mode: InputMode::Help, ..m }, redraw())
    } else if is_char(k, '+') || is_char(k, '=') {
        (m, outcome(InputAction::Redraw, UiEffect::AdjustInterval(IntervalChange::Faster)))
    } else if is_char(k, '-') {
        (m, outcome(InputAction::Redraw, UiEffect::AdjustInterval(IntervalChange::Slower)))
    } else if is_char(k, 'e') {
        (UiModel { show_per_core: !m.show_per_core, ..m }, redraw())
    } else {
        (m, keep_going())
    }
}

/// One key in sort mode.
pub open spec fn sort_step(m: UiModel, k: Key) -> (UiModel, KeyOutcome) {
    let c = k.code;
    if c == KeyCode::Esc || is_char(k, 'q') {
        (UiModel { input_mode: InputMode::Normal, ..m }, redraw())
    } else if is_char(k, 's') || c == KeyCode::Tab || c == KeyCode::Right || is_char(k, 'l') {
        (
            UiModel { process_sort: sort_next(m.process_sort), ..m },
            outcome(InputAction::Redraw, UiEffect::ResortProcesses),
        )
    } else if is_char(k, 'r') || is_char(k, 'R') {
        (
            UiModel { process_sort_ascending: !m.process_sort_ascending, ..m },
            outcome(InputAction::Redraw, UiEffect::ResortProcesses),
        )
    } else if c == KeyCode::Enter {
        (UiModel { input_mode: InputMode::Normal, ..m }, redraw())
    } else {
        (m, keep_going())
    }
}

/// One key in filter mode.
pub open spec fn filter_step(m: UiModel, k: Key) -> (UiModel, KeyOutcome) {
    match k.code {
        KeyCode::Esc => (
            UiModel { process_filter: Seq::empty(), input_mode: InputMode::Normal, ..m },
            redraw(),
        ),
        KeyCode::Enter => (UiModel { input_mode: InputMode::Normal, ..m }, redraw()),
        KeyCode::Backspace => (
            UiModel {
                process_filter: if m.process_filter.len() > 0 {
                    m.process_filter.drop_last()
                } else {
                    m.process_filter
                },
                process_selected_index: 0,
                ..m
            },
            redraw(),
        ),
        KeyCode::Char(ch) => (
            UiModel {
                process_filter: m.process_filter.push(ch),
                process_selected_index: 0,
                ..m
            },
            redraw(),
        ),
        _ => (m, keep_going()),
    }
}

/// One key in kill-confirmation mode.
pub open spec fn kill_step(m: UiModel, k: Key) -> (UiModel, KeyOutcome) {
    let c = k.code;
    if c == KeyCode::Esc || is_char(k, 'n') || is_char(k, 'N') {
        (
            UiModel { process_kill_confirm: None, input_mode: InputMode::Normal, ..m },
            redraw(),
        )
    } else if c == KeyCode::Enter || is_char(k, 'y') || is_char(k, 'Y') {
        let effect = match m.process_kill_confirm {
            Some(pid) => UiEffect::Kill(pid),
            None => UiEffect::NoEffect,
        };
        (
            UiModel { process_kill_confirm: None, input_mode: InputMode::Normal, ..m },
            outcome(InputAction::Redraw, effect),
        )
    } else {
        (m, keep_going())
    }
}

/// One key in the help overlay.
pub open spec fn help_step(m: UiModel, k: Key) -> (UiModel, KeyOutcome) {
    let c = k.code;
    if c == KeyCode::Esc || is_char(k, 'q') || is_char(k, '?') || c == KeyCode::F(1) {
        (UiModel { input_mode: InputMode::Normal, ..m }, redraw())
    } else {
        (m, keep_going())
    }
}

/// One key in the settings overlay.
pub open spec fn settings_step(m: UiModel, k: Key) -> (UiModel, KeyOutcome) {
    if k.code == KeyCode::Esc || is_char(k, 'q') {
        (UiModel { input_mode: InputMode::Normal, ..m }, redraw())
    } else {
        (m, keep_going())
    }
}

/// One key, handled by the handler of the current input mode.
pub open spec fn key_step(m: UiModel, k: Key, gpus: usize, procs: usize, filtered: Seq<u32>) -> (
    UiModel,
    KeyOutcome,
) {
    match m.input_mode {
        InputMode::Normal => normal_step(m, k, gpus, procs, filtered),
        InputMode::ProcessSort => sort_step(m, k),
        InputMode::ProcessFilter => filter_step(m, k),
        InputMode::ProcessKill => kill_step(m, k),
        InputMode::Help => help_step(m, k),
        InputMode::Settings => settings_step(m, k),
    }
}

// ---------------------------------------------------------------------
// The key handlers
// ---------------------------------------------------------------------

/// Removes the last character; calls `String::pop`, which the standard
/// library documents as removing and returning the last character, and
/// returning `None` on an empty string.
#[verifier::external_body]
fn pop_char(s: &mut String) -> (r: Option<char>)
    ensures
        old(s)@.len() == 0 ==> r is None && final(s)@ == old(s)@,
        old(s)@.len() > 0 ==> r == Some(old(s)@.last()) && final(s)@ == old(s)@.drop_last(),
{
    s.pop()
}

fn navigate_down(ui: &mut UiState, listing: &ProcessListing)
    ensures
        final(ui)@ == navigate_down_spec(old(ui)@, listing.gpu_count, listing.filtered_pids@.len()),
{
    match ui.active_tab {
        ActiveTab::Processes | ActiveTab::Overview => {
            let max = listing.filtered_pids.len().saturating_sub(1);
            if ui.process_selected_index < max {
                ui.process_selected_index += 1;
            }
        },
        ActiveTab::GpuDetail => {
            let max = listing.gpu_count.saturating_sub(1);
            if ui.selected_gpu_index < max {
                ui.selected_gpu_index += 1;
            }
        },
    }
}

fn navigate_up(ui: &mut UiState)
    ensures
        final(ui)@ == navigate_up_spec(old(ui)@),
{
    match ui.active_tab {
        ActiveTab::Processes | ActiveTab::Overview => {
            if ui.process_selected_index > 0 {
                ui.process_selected_index -= 1;
            }
        },
        ActiveTab::GpuDetail => {
            if ui.selected_gpu_index > 0 {
                ui.selected_gpu_index -= 1;
            }
        },
    }
}

fn redraw_outcome() -> (r: KeyOutcome)
    ensures
        r == redraw(),
{
    KeyOutcome { action: InputAction::Redraw, effect: UiEffect::NoEffect }
}

fn continue_outcome() -> (r: KeyOutcome)
    ensures
        r == keep_going(),
{
    KeyOutcome { action: InputAction::Continue, effect: UiEffect::NoEffect }
}

/// Handles a key in Normal mode.
pub fn handle(key: Key, ui: &mut UiState, listing: &ProcessListing) -> (r: KeyOutcome)
    ensures
        (final(ui)@, r) == normal_step(
            old(ui)@,
            key,
            listing.gpu_count,
            listing.process_count,
            listing.filtered_pids@,
        ),
{
    match key.code {
        KeyCode::Char('q') | KeyCode::Char('Q') => KeyOutcome {
            action: InputAction::Quit,
            effect: UiEffect::NoEffect,
        },
        KeyCode::Char('c') if key.control => KeyOutcome {
            action: InputAction::Quit,
            effect: UiEffect::NoEffect,
        },
        KeyCode::Tab => {
            ui.active_tab = ui.active_tab.next();
            redraw_outcome()
        },
        KeyCode::BackTab => {
            ui.active_tab = ui.active_tab.prev();
            redraw_outcome()
        },
        KeyCode::Char('1') => {
            ui.active_tab = ActiveTab::Overview;
            redraw_outcome()
        },
        KeyCode::Char('2') => {
            ui.active_tab = ActiveTab::GpuDetail;
            redraw_outcome()
        },
        KeyCode::Char('3') => {
            ui.active_tab = ActiveTab::Processes;
            redraw_outcome()
        },
        KeyCode::Char('j') | KeyCode::Down => {
            navigate_down(ui, listing);
            redraw_outcome()
        },
        KeyCode::Char('k') | KeyCode::Up => {
            navigate_up(ui);
            redraw_outcome()
        },
        KeyCode::Char('h') | KeyCode::Left => {
            if ui.active_tab == ActiveTab::GpuDetail && ui.selected_gpu_index > 0 {
                ui.selected_gpu_index -= 1;
            }
            redraw_outcome()
        },
        KeyCode::Char('l') | KeyCode::Right => {
            if ui.active_tab == ActiveTab::GpuDetail {
                let max = listing.gpu_count.saturating_sub(1);
                if ui.selected_gpu_index < max {
                    ui.selected_gpu_index += 1;
                }
            }
            redraw_outcome()
        },
        KeyCode::Char('s') | KeyCode::Char('S') => {
            ui.input_mode = InputMode::ProcessSort;
            redraw_outcome()
        },
        KeyCode::Char('K') => {
            if listing.process_count > 0 {
                ui.input_mode = InputMode::ProcessKill;
                if ui.process_selected_index < listing.filtered_pids.len() {
                    ui.process_kill_confirm = Some(
                        listing.filtered_pids[ui.process_selected_index],
                    );
                }
            }
            redraw_outcome()
        },
        KeyCode::Char('/') => {
            ui.input_mode = InputMode::ProcessFilter;
            redraw_outcome()
        },
        KeyCode::Char('?') | KeyCode::F(1) => {
            ui.input_mode = InputMode::Help;
            redraw_outcome()
        },
        KeyCode::Char('+') | KeyCode::Char('=') => KeyOutcome {
            action: InputAction::Redraw,
            effect: UiEffect::AdjustInterval(IntervalChange::Faster),
        },
        KeyCode::Char('-') => KeyOutcome {
            action: InputAction::Redraw,
            effect: UiEffect::AdjustInterval(IntervalChange::Slower),
        },
        KeyCode::Char('e') => {
            ui.show_per_core = !ui.show_per_core;
            redraw_outcome()
        },
        _ => continue_outcome(),
    }
}

/// Handles a key in sort mode.
pub fn handle_sort(key: Key, ui: &mut UiState) -> (r: KeyOutcome)
    ensures
        (final(ui)@, r) == sort_step(old(ui)@, key),
{
    match key.code {
        KeyCode::Esc | KeyCode::Char('q') => {
            ui.input_mode = InputMode::Normal;
            redraw_outcome()
        },
        KeyCode::Char('s') | KeyCode::Tab | KeyCode::Right | KeyCode::Char('l') => {
            ui.process_sort = ui.process_sort.next();
            KeyOutcome { action: InputAction::Redraw, effect: UiEffect::ResortProcesses }
        },
        KeyCode::Char('r') | KeyCode::Char('R') => {
            ui.process_sort_ascending = !ui.process_sort_ascending;
            KeyOutcome { action: InputAction::Redraw, effect: UiEffect::ResortProcesses }
        },
        KeyCode::Enter => {
            ui.input_mode = InputMode::Normal;
            redraw_outcome()
        },
        _ => continue_outcome(),
    }
}

/// Handles a key in filter mode.
pub fn handle_filter(key: Key, ui: &mut UiState) -> (r: KeyOutcome)
    ensures
        (final(ui)@, r) == filter_step(old(ui)@, key),
{
    match key.code {
        KeyCode::Esc => {
            ui.process_filter = String::new();
            ui.input_mode = InputMode::Normal;
            redraw_outcome()
        },
        KeyCode::Enter => {
            ui.input_mode = InputMode::Normal;
            redraw_outcome()
        },
        KeyCode::Backspace => {
            pop_char(&mut ui.process_filter);
            ui.process_selected_index = 0;
            redraw_outcome()
        },
        KeyCode::Char(c) => {
            crate::text::push_char(&mut ui.process_filter, c);
            ui.process_selected_index = 0;
            redraw_outcome()
        },
        _ => continue_outcome(),
    }
}

/// Handles a key in kill-confirmation mode; confirming asks for the
/// selected process to be sent SIGTERM.
pub fn handle_kill(key: Key, ui: &mut UiState) -> (r: KeyOutcome)
    ensures
        (final(ui)@, r) == kill_step(old(ui)@, key),
{
    match key.code {
        KeyCode::Esc | KeyCode::Char('n') | KeyCode::Char('N') => {
            ui.process_kill_confirm = None;
            ui.input_mode = InputMode::Normal;
            redraw_outcome()
        },
        KeyCode::Enter | KeyCode::Char('y') | KeyCode::Char('Y') => {
            let effect = match ui.process_kill_confirm {
                Some(pid) => UiEffect::Kill(pid),
                None => UiEffect::NoEffect,
            };
            ui.process_kill_confirm = None;
            ui.input_mode = InputMode::Normal;
            KeyOutcome { action: InputAction::Redraw, effect }
        },
        _ => continue_outcome(),
    }
}

/// Handles a key in the help overlay.
pub fn handle_help(key: Key, ui: &mut UiState) -> (r: KeyOutcome)
    ensures
        (final(ui)@, r) == help_step(old(ui)@, key),
{
    match key.code {
        KeyCode::Esc | KeyCode::Char('q') | KeyCode::Char('?') | KeyCode::F(1) => {
            ui.input_mode = InputMode::Normal;
            redraw_outcome()
        },
        _ => continue_outcome(),
    }
}

/// Handles a key in the settings overlay.
pub fn handle_settings(key: Key, ui: &mut UiState) -> (r: KeyOutcome)
    ensures
        (final(ui)@, r) == settings_step(old(ui)@, key),
{
    match key.code {
        KeyCode::Esc | KeyCode::Char('q') => {
            ui.input_mode = InputMode::Normal;
            redraw_outcome()
        },
        _ => continue_outcome(),
    }
}

/// Dispatches a key to the handler of the current input mode.
pub fn handle_key_event(key: Key, ui: &mut UiState, listing: &ProcessListing) -> (r: KeyOutcome)
    ensures
        (final(ui)@, r) == key_step(
            old(ui)@,
            key,
            listing.gpu_count,
            listing.process_count,
            listing.filtered_pids@,
        ),
{
    match ui.input_mode {
        InputMode::Normal => handle(key, ui, listing),
        InputMode::ProcessSort => handle_sort(key, ui),
        InputMode::ProcessFilter => handle_filter(key, ui),
        InputMode::ProcessKill => handle_kill(key, ui),
        InputMode::Help => handle_help(key, ui),
        InputMode::Settings => handle_settings(key, ui),
    }
}

// ---------------------------------------------------------------------
// Laws of the key state machine
// ---------------------------------------------------------------------

pub open spec fn key(code: KeyCode) -> Key {
    Key { code, control: false }
}

/// Law: `q` quits from Normal mode and changes nothing.
pub proof fn lemma_quit_changes_nothing(m: UiModel, gpus: usize, procs: usize, filtered: Seq<u32>)
    requires
        m.input_mode == InputMode::Normal,
    ensures
        key_step(m, key(KeyCode::Char('q')), gpus, procs, filtered) == (
            m,
            outcome(InputAction::Quit, UiEffect::NoEffect),
        ),
{
}

/// Law: in Normal mode, Shift+Tab undoes Tab, and Tab undoes Shift+Tab.
pub proof fn lemma_tab_then_back_tab(m: UiModel, gpus: usize, procs: usize, filtered: Seq<u32>)
    requires
        m.input_mode == InputMode::Normal,
    ensures
        key_step(
            key_step(m, key(KeyCode::Tab), gpus, procs, filtered).0,
            key(KeyCode::BackTab),
            gpus,
            procs,
            filtered,
        ).0 == m,
        key_step(
            key_step(m, key(KeyCode::BackTab), gpus, procs, filtered).0,
            key(KeyCode::Tab),
            gpus,
            procs,
            filtered,
        ).0 == m,
{
    lemma_tab_cycle(m.active_tab);
}

/// Law: moving down and then up returns to the same selection whenever
/// there was a row (or GPU) below to move to.
pub proof fn lemma_down_then_up(m: UiModel, gpus: usize, procs: usize, filtered: Seq<u32>)
    requires
        m.input_mode == InputMode::Normal,
        m.active_tab == ActiveTab::GpuDetail ==> m.selected_gpu_index + 1 < gpus,
        m.active_tab != ActiveTab::GpuDetail ==> m.process_selected_index + 1 < filtered.len(),
        filtered.len() <= usize::MAX,
    ensures
        key_step(
            key_step(m, key(KeyCode::Down), gpus, procs, filtered).0,
            key(KeyCode::Up),
            gpus,
            procs,
            filtered,
        ).0 == m,
{
    let m1 = key_step(m, key(KeyCode::Down), gpus, procs, filtered).0;
    assert(m1 == navigate_down_spec(m, gpus, filtered.len()));
    let m2 = key_step(m1, key(KeyCode::Up), gpus, procs, filtered).0;
    assert(m2 == navigate_up_spec(m1));
    if m.active_tab == ActiveTab::GpuDetail {
        assert(m1.selected_gpu_index == m.selected_gpu_index + 1);
        assert(m2.selected_gpu_index == m.selected_gpu_index);
    } else {
        assert(m1.process_selected_index == m.process_selected_index + 1);
        assert(m2.process_selected_index == m.process_selected_index);
    }
    assert(m2 == m);
}

/// Law: in filter mode, typing a character and erasing it gives back the
/// filter text (and puts the selection on the first row).
pub proof fn lemma_type_then_erase(m: UiModel, c: char, gpus: usize, procs: usize, filtered: Seq<
    u32,
>)
    requires
        m.input_mode == InputMode::ProcessFilter,
    ensures
        ({
            let m2 = key_step(
                key_step(m, key(KeyCode::Char(c)), gpus, procs, filtered).0,
                key(KeyCode::Backspace),
                gpus,
                procs,
                filtered,
            ).0;
            m2 == UiModel { process_selected_index: 0, ..m }
        }),
{
    assert(m.process_filter.push(c).drop_last() =~= m.process_filter);
}

/// Law: `?` opens the help overlay and `?` closes it again, leaving the
/// state as it was.
pub proof fn lemma_help_toggles(m: UiModel, gpus: usize, procs: usize, filtered: Seq<u32>)
    requires
        m.input_mode == InputMode::Normal,
    ensures
        key_step(m, key(KeyCode::Char('?')), gpus, procs, filtered).0.input_mode
            == InputMode::Help,
        key_step(
            key_step(m, key(KeyCode::Char('?')), gpus, procs, filtered).0,
            key(KeyCode::Char('?')),
            gpus,
            procs,
            filtered,
        ).0 == m,
{
}

/// Law: in Normal mode the number keys jump to a view: `1` to Overview,
/// `2` to GPU Detail and `3` to Processes, changing nothing else and asking
/// for a redraw.
pub proof fn lemma_number_keys_select_views(m: UiModel, gpus: usize, procs: usize, filtered: Seq<u32>)
    requires
        m.input_mode == InputMode::Normal,
    ensures
        ({
            let (m1, r1) = key_step(m, key(KeyCode::Char('1')), gpus, procs, filtered);
            let (m2, r2) = key_step(m, key(KeyCode::Char('2')), gpus, procs, filtered);
            let (m3, r3) = key_step(m, key(KeyCode::Char('3')), gpus, procs, filtered);
            let v1 = (UiModel { active_tab: ActiveTab::Overview, ..m });
            let v2 = (UiModel { active_tab: ActiveTab::GpuDetail, ..m });
            let v3 = (UiModel { active_tab: ActiveTab::Processes, ..m });
            &&& m1 == v1 && m2 == v2 && m3 == v3
            &&& r1.action == InputAction::Redraw && r1.effect == UiEffect::NoEffect
            &&& r2.action == InputAction::Redraw && r2.effect == UiEffect::NoEffect
            &&& r3.action == InputAction::Redraw && r3.effect == UiEffect::NoEffect
        }),
{
}

/// Law: in Normal mode `s`, `/` and `?` enter sort mode, filter mode and
/// the help overlay; `e` toggles the per-core view; `+` asks for faster
/// and `-` for slower refreshing; none of them changes anything else.
pub proof fn lemma_normal_mode_keys(m: UiModel, gpus: usize, procs: usize, filtered: Seq<u32>)
    requires
        m.input_mode == InputMode::Normal,
    ensures
        ({
            let sort = (UiModel { input_mode: InputMode::ProcessSort, ..m });
            let filter = (UiModel { input_mode: InputMode::ProcessFilter, ..m });
            let help = (UiModel { input_mode: InputMode::Help, ..m });
            let cores = (UiModel { show_per_core: !m.show_per_core, ..m });
            let faster = (KeyOutcome {
                action: InputAction::Redraw,
                effect: UiEffect::AdjustInterval(IntervalChange::Faster),
            });
            let slower = (KeyOutcome {
                action: InputAction::Redraw,
                effect: UiEffect::AdjustInterval(IntervalChange::Slower),
            });
            &&& key_step(m, key(KeyCode::Char('s')), gpus, procs, filtered).0 == sort
            &&& key_step(m, key(KeyCode::Char('/')), gpus, procs, filtered).0 == filter
            &&& key_step(m, key(KeyCode::Char('?')), gpus, procs, filtered).0 == help
            &&& key_step(m, key(KeyCode::Char('e')), gpus, procs, filtered).0 == cores
            &&& key_step(m, key(KeyCode::Char('+')), gpus, procs, filtered) == (m, faster)
            &&& key_step(m, key(KeyCode::Char('-')), gpus, procs, filtered) == (m, slower)
        }),
{
}

/// Law: Esc always leads back to Normal mode, and never quits or asks for
/// a process to be killed.
pub proof fn lemma_escape_returns_to_normal(m: UiModel, gpus: usize, procs: usize, filtered: Seq<u32>)
    ensures
        ({
            let (m2, r) = key_step(m, key(KeyCode::Esc), gpus, procs, filtered);
            &&& m2.input_mode == InputMode::Normal
            &&& r.action != InputAction::Quit
            &&& r.effect == UiEffect::NoEffect
        }),
{
}

/// Law: the selections stay on the screen: a process selection inside the
/// filtered list (or at row 0) stays inside it, and a GPU selection inside
/// the GPU list stays inside it, whatever key comes.
pub proof fn lemma_selection_stays_in_range(
    m: UiModel,
    k: Key,
    gpus: usize,
    procs: usize,
    filtered: Seq<u32>,
)
    requires
        m.process_selected_index == 0 || m.process_selected_index < filtered.len(),
        m.selected_gpu_index == 0 || m.selected_gpu_index < gpus,
    ensures
        ({
            let m2 = key_step(m, k, gpus, procs, filtered).0;
            &&& m2.process_selected_index == 0 || m2.process_selected_index < filtered.len()
            &&& m2.selected_gpu_index == 0 || m2.selected_gpu_index < gpus
        }),
{
}

/// Law: a process is only ever marked for killing if it is listed, and a
/// kill is only ever asked for the process that was marked, after the
/// user confirmed it.
pub proof fn lemma_kill_only_confirmed(
    m: UiModel,
    k: Key,
    gpus: usize,
    procs: usize,
    filtered: Seq<u32>,
)
    ensures
        ({
            let (m2, r) = key_step(m, k, gpus, procs, filtered);
            &&& (m2.process_kill_confirm != m.process_kill_confirm && m2.process_kill_confirm
                is Some) ==> filtered.contains(m2.process_kill_confirm->0)
            &&& (r.effect matches UiEffect::Kill(pid) ==> m.input_mode == InputMode::ProcessKill
                && m.process_kill_confirm == Some(pid) && m2.process_kill_confirm is None)
        }),
{
    let (m2, r) = key_step(m, k, gpus, procs, filtered);
    if m2.process_kill_confirm != m.process_kill_confirm && m2.process_kill_confirm is Some {
        assert(filtered[m.process_selected_index as int] == m2.process_kill_confirm->0);
    }
}

// ---------------------------------------------------------------------
// Colour themes
// ---------------------------------------------------------------------

/// The colour themes there are.
#[derive(PartialEq, Eq, Structural, Clone, Copy, Debug)]
pub enum ThemeKind {
    Cyan,
    Green,
    Amber,
}

/// The theme a configured name selects; unknown names give cyan.
pub fn theme_kind(name: &str) -> (r: ThemeKind)
    ensures
        r == if name@ == "green"@ {
            ThemeKind::Green
        } else if name@ == "amber"@ {
            ThemeKind::Amber
        } else {
            ThemeKind::Cyan
        },
{
    let n = crate::text::chars_of(name);
    if crate::text::chars_equal(&n, &crate::text::chars_of("green")) {
        ThemeKind::Green
    } else if crate::text::chars_equal(&n, &crate::text::chars_of("amber")) {
        ThemeKind::Amber
    } else {
        ThemeKind::Cyan
    }
}

} // verus!
