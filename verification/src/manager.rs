//! What the window does in answer to each event.
//!
//! The program around the library hands each event to [`Manager::handle`] and
//! performs the actions that come back, in their order. Running an operation
//! and saving the history end with an event of their own.
use vstd::prelude::*;
use vstd::string::*;

use crate::command::{
    do_mount, do_umount, mount_args, mount_command_names_what_is_mounted, strings_of,
    thread_result, umount_args, umount_command_names_the_mount_point, Invocation, PKEXEC,
};
use crate::history::{
    clean, cleaned, entries_of, file_of, history_of, is_complete, is_distinct, is_separator,
    load_gives_back_what_was_saved, load_history, persisted, push_bounds_the_history,
    push_history, push_keeps_mounts_distinct, pushed, remount_replaces, saving_settles, EntryView,
    HistoryEntry, MAX_HISTORY,
};
use crate::markup::{error_markup, error_span, unsaved_markup, unsaved_span};
use crate::recent::{
    chosen, combo_of, label_of, rebuild_combo, rows_of, selected_entry, ComboRow, RowView,
};
use crate::text::{
    lemma_trimmed, trimmed, trimmed_string, trimming_is_idempotent, trimming_removes_the_padding,
    Padded,
};

verus! {

/// An operation that needs privileges.
#[derive(Debug)]
pub enum Operation {
    Mount { entry: HistoryEntry },
    Unmount { local: String },
}

/// What an operation holds.
pub enum OperationView {
    Mount { entry: EntryView },
    Unmount { local: Seq<char> },
}

impl View for Operation {
    type V = OperationView;

    open spec fn view(&self) -> OperationView {
        match *self {
            Operation::Mount { entry } => OperationView::Mount { entry: entry@ },
            Operation::Unmount { local } => OperationView::Unmount { local: local@ },
        }
    }
}

/// Something that happened in the window or came of an action.
#[derive(Debug)]
pub enum Event {
    /// Another row of the list of recent mounts is active.
    RecentChanged { id: Option<String> },
    /// The mount point in the form was edited.
    LocalChanged,
    RefreshClicked,
    /// The button for mounting was clicked, with these texts in the form.
    MountClicked { remote: String, local: String, options: String },
    /// The button for unmounting was clicked, with this text in the form.
    UnmountClicked { local: String },
    /// An operation ended. Without a result, the thread that ran it panicked.
    OperationFinished { operation: Operation, joined: Option<Result<(), String>> },
    /// The file that keeps the history was written, or could not be.
    HistorySaved { result: Result<(), String> },
}

/// What an event holds. The result of an operation is the message of its
/// failure, if it failed.
pub enum EventView {
    RecentChanged { id: Option<Seq<char>> },
    LocalChanged,
    RefreshClicked,
    MountClicked { remote: Seq<char>, local: Seq<char>, options: Seq<char> },
    UnmountClicked { local: Seq<char> },
    OperationFinished { operation: OperationView, failure: Option<Seq<char>> },
    HistorySaved { failure: Option<Seq<char>> },
}

/// The message of a failure.
pub open spec fn failure_in(result: Result<(), String>) -> Option<Seq<char>> {
    match result {
        Ok(_) => None,
        Err(message) => Some(message@),
    }
}

impl View for Event {
    type V = EventView;

    open spec fn view(&self) -> EventView {
        match *self {
            Event::RecentChanged { id } => EventView::RecentChanged {
                id: match id {
                    Some(id) => Some(id@),
                    None => None,
                },
            },
            Event::LocalChanged => EventView::LocalChanged,
            Event::RefreshClicked => EventView::RefreshClicked,
            Event::MountClicked { remote, local, options } => EventView::MountClicked {
                remote: remote@,
                local: local@,
                options: options@,
            },
            Event::UnmountClicked { local } => EventView::UnmountClicked { local: local@ },
            Event::OperationFinished { operation, joined } => EventView::OperationFinished {
                operation: operation@,
                failure: match joined {
                    Some(result) => failure_in(result),
                    None => Some("Thread panicked"@),
                },
            },
            Event::HistorySaved { result } => EventView::HistorySaved {
                failure: failure_in(result),
            },
        }
    }
}

/// Something that the program around the library is to do.
#[derive(Debug)]
pub enum Action {
    /// Lets the buttons be used or not.
    SetButtonsSensitive { sensitive: bool },
    /// Lets the list of recent mounts be used or not.
    SetComboSensitive { sensitive: bool },
    /// Puts the texts of an entry into the form.
    FillForm { entry: HistoryEntry },
    /// Shows the status of the mount point in the form anew.
    RefreshStatus,
    /// Shows a plain text below the form.
    ShowText { text: String },
    /// Shows markup below the form.
    ShowMarkup { markup: String },
    /// Runs an operation on a thread of its own; `OperationFinished` follows.
    Run { operation: Operation },
    /// Writes the file that keeps the history; `HistorySaved` follows.
    SaveHistory { content: String },
    /// Fills the list of recent mounts anew and makes its first row active.
    RebuildCombo { rows: Vec<ComboRow> },
}

/// What an action holds.
#[verifier::ext_equal]
pub enum ActionView {
    SetButtonsSensitive { sensitive: bool },
    SetComboSensitive { sensitive: bool },
    FillForm { entry: EntryView },
    RefreshStatus,
    ShowText { text: Seq<char> },
    ShowMarkup { markup: Seq<char> },
    Run { operation: OperationView },
    SaveHistory { content: Seq<char> },
    RebuildCombo { rows: Seq<RowView> },
}

impl View for Action {
    type V = ActionView;

    open spec fn view(&self) -> ActionView {
        match *self {
            Action::SetButtonsSensitive { sensitive } => ActionView::SetButtonsSensitive {
                sensitive,
            },
            Action::SetComboSensitive { sensitive } => ActionView::SetComboSensitive { sensitive },
            Action::FillForm { entry } => ActionView::FillForm { entry: entry@ },
            Action::RefreshStatus => ActionView::RefreshStatus,
            Action::ShowText { text } => ActionView::ShowText { text: text@ },
            Action::ShowMarkup { markup } => ActionView::ShowMarkup { markup: markup@ },
            Action::Run { operation } => ActionView::Run { operation: operation@ },
            Action::SaveHistory { content } => ActionView::SaveHistory { content: content@ },
            Action::RebuildCombo { rows } => ActionView::RebuildCombo { rows: rows_of(rows@) },
        }
    }
}

/// What a list of actions holds.
pub open spec fn actions_of(actions: Seq<Action>) -> Seq<ActionView> {
    actions.map_values(|a: Action| a@)
}

// ---------------------------------------------------------------------------
// Specifications
// ---------------------------------------------------------------------------

/// The actions that lock the window while an operation runs, or unlock it.
pub open spec fn set_locked(locked: bool) -> Seq<ActionView> {
    seq![
        ActionView::SetButtonsSensitive { sensitive: !locked },
        ActionView::SetComboSensitive { sensitive: !locked },
    ]
}

/// The actions that start an operation.
pub open spec fn started(operation: OperationView, text: Seq<char>) -> Seq<ActionView> {
    set_locked(true) + seq![ActionView::ShowText { text }, ActionView::Run { operation }]
}

/// The entry for the texts of a form.
pub open spec fn form_entry(
    remote: Seq<char>,
    local: Seq<char>,
    options: Seq<char>,
) -> EntryView {
    EntryView { remote: trimmed(remote), local: trimmed(local), options: trimmed(options) }
}

/// The answer to a click on the button for mounting.
pub open spec fn on_mount(
    remote: Seq<char>,
    local: Seq<char>,
    options: Seq<char>,
) -> Seq<ActionView> {
    let entry = form_entry(remote, local, options);
    if is_complete(entry) {
        started(OperationView::Mount { entry }, "Mounting…"@)
    } else {
        seq![ActionView::ShowText { text: "Remote and mount point are required."@ }]
    }
}

/// The answer to a click on the button for unmounting.
pub open spec fn on_unmount(local: Seq<char>) -> Seq<ActionView> {
    if trimmed(local).len() > 0 {
        started(OperationView::Unmount { local: trimmed(local) }, "Unmounting…"@)
    } else {
        seq![ActionView::ShowText { text: "Mount point is required."@ }]
    }
}

/// The history after an operation ended.
pub open spec fn history_after(
    history: Seq<EntryView>,
    operation: OperationView,
    failure: Option<Seq<char>>,
) -> Seq<EntryView> {
    match (operation, failure) {
        (OperationView::Mount { entry }, None) => pushed(history, entry),
        _ => history,
    }
}

/// The answer to the end of an operation, where `history` is the history after
/// it.
pub open spec fn on_finished(
    history: Seq<EntryView>,
    operation: OperationView,
    failure: Option<Seq<char>>,
) -> Seq<ActionView> {
    set_locked(false) + match (failure, operation) {
        (Some(message), _) => seq![ActionView::ShowMarkup { markup: error_span(message) }],
        (None, OperationView::Mount { entry }) => seq![
            ActionView::RefreshStatus,
            ActionView::SaveHistory { content: file_of(history) },
        ],
        (None, OperationView::Unmount { local }) => seq![
            ActionView::ShowText { text: seq![] },
            ActionView::RefreshStatus,
        ],
    }
}

/// The answer to the end of writing the history.
pub open spec fn on_saved(history: Seq<EntryView>, failure: Option<Seq<char>>) -> Seq<ActionView> {
    let info = match failure {
        Some(error) => ActionView::ShowMarkup { markup: unsaved_span(error) },
        None => ActionView::ShowText { text: seq![] },
    };
    seq![info, ActionView::RebuildCombo { rows: combo_of(history) }]
}

/// The answer to another row of the list of recent mounts.
pub open spec fn on_recent(history: Seq<EntryView>, id: Option<Seq<char>>) -> Seq<ActionView> {
    match chosen(history, id) {
        Some(entry) => seq![ActionView::FillForm { entry }],
        None => seq![],
    }
}

/// The history after an event.
pub open spec fn next_history(history: Seq<EntryView>, event: EventView) -> Seq<EntryView> {
    match event {
        EventView::OperationFinished { operation, failure } => history_after(
            history,
            operation,
            failure,
        ),
        _ => history,
    }
}

/// The answer to an event, where `history` is the history before it.
pub open spec fn answer(history: Seq<EntryView>, event: EventView) -> Seq<ActionView> {
    match event {
        EventView::RecentChanged { id } => on_recent(history, id),
        EventView::LocalChanged => seq![ActionView::RefreshStatus],
        EventView::RefreshClicked => seq![ActionView::RefreshStatus],
        EventView::MountClicked { remote, local, options } => on_mount(remote, local, options),
        EventView::UnmountClicked { local } => on_unmount(local),
        EventView::OperationFinished { operation, failure } => on_finished(
            history_after(history, operation, failure),
            operation,
            failure,
        ),
        EventView::HistorySaved { failure } => on_saved(history, failure),
    }
}

// ---------------------------------------------------------------------------
// Functions
// ---------------------------------------------------------------------------

impl Operation {
    /// The command that carries out this operation.
    pub fn command(&self) -> (r: Invocation)
        ensures
            r.program@ == PKEXEC@,
            strings_of(r.args@) == command_of(self@),
    {
        match self {
            Operation::Mount { entry } => do_mount(
                entry.remote.clone(),
                entry.local.clone(),
                entry.options.clone(),
            ),
            Operation::Unmount { local } => do_umount(local.clone()),
        }
    }
}

/// The arguments of the command that carries out an operation.
pub open spec fn command_of(operation: OperationView) -> Seq<Seq<char>> {
    match operation {
        OperationView::Mount { entry } => mount_args(entry.remote, entry.local, entry.options),
        OperationView::Unmount { local } => umount_args(local),
    }
}

/// The state behind the window: the history of recent mounts.
#[derive(Debug)]
pub struct Manager {
    pub history: Vec<HistoryEntry>,
}

impl View for Manager {
    type V = Seq<EntryView>;

    open spec fn view(&self) -> Seq<EntryView> {
        entries_of(self.history@)
    }
}

/// The action that lets the buttons be used, unless an operation runs.
pub fn set_busy(busy: bool) -> (r: Vec<Action>)
    ensures
        actions_of(r@) == seq![ActionView::SetButtonsSensitive { sensitive: !busy }],
{
    let mut actions: Vec<Action> = Vec::new();
    actions.push(Action::SetButtonsSensitive { sensitive: !busy });
    assert(actions_of(actions@) =~= seq![ActionView::SetButtonsSensitive { sensitive: !busy }]);
    actions
}

/// The actions that lock the window while an operation runs, or unlock it: the
/// buttons, and with them the list of recent mounts.
fn lock(locked: bool) -> (r: Vec<Action>)
    ensures
        actions_of(r@) == set_locked(locked),
{
    let mut actions = set_busy(locked);
    let ghost buttons = actions_of(actions@);
    let combo = Action::SetComboSensitive { sensitive: !locked };
    actions.push(combo);
    assert(actions_of(actions@) =~= buttons.push(combo@));
    assert(actions_of(actions@) =~= set_locked(locked));
    actions
}

/// The actions that start an operation.
fn start(operation: Operation, text: &str) -> (r: Vec<Action>)
    ensures
        actions_of(r@) == started(operation@, text@),
{
    let mut actions = lock(true);
    actions.push(Action::ShowText { text: text.to_string() });
    actions.push(Action::Run { operation });
    assert(actions_of(actions@) =~= started(operation@, text@));
    actions
}

/// The answer to a click on the button for mounting.
fn mount_clicked(remote: &str, local: &str, options: &str) -> (r: Vec<Action>)
    ensures
        actions_of(r@) == on_mount(remote@, local@, options@),
{
    let entry = HistoryEntry {
        remote: trimmed_string(remote),
        local: trimmed_string(local),
        options: trimmed_string(options),
    };
    if entry.remote.as_str().is_empty() || entry.local.as_str().is_empty() {
        return refuse("Remote and mount point are required.");
    }
    start(Operation::Mount { entry }, "Mounting…")
}

/// The answer to a click on the button for unmounting.
fn umount_clicked(local: &str) -> (r: Vec<Action>)
    ensures
        actions_of(r@) == on_unmount(local@),
{
    let local = trimmed_string(local);
    if local.as_str().is_empty() {
        return refuse("Mount point is required.");
    }
    start(Operation::Unmount { local }, "Unmounting…")
}

/// The answer to a click that starts nothing.
fn refuse(text: &str) -> (r: Vec<Action>)
    ensures
        actions_of(r@) == seq![ActionView::ShowText { text: text@ }],
{
    let mut actions: Vec<Action> = Vec::new();
    actions.push(Action::ShowText { text: text.to_string() });
    assert(actions_of(actions@) =~= seq![ActionView::ShowText { text: text@ }]);
    actions
}

impl Manager {
    /// The state at the start, from the contents of the file that keeps the
    /// history, or from `None` if it could not be read.
    pub fn new(content: Option<&str>) -> (r: Manager)
        ensures
            r@ == (match content {
                Some(content) => history_of(content@),
                None => seq![],
            }),
    {
        let history = match content {
            Some(content) => load_history(content),
            None => Vec::new(),
        };
        Manager { history }
    }

    /// The rows of the list of recent mounts.
    pub fn rows(&self) -> (r: Vec<ComboRow>)
        ensures
            rows_of(r@) == combo_of(self@),
    {
        rebuild_combo(self.history.as_slice())
    }

    /// Takes note of an event and gives the actions that it calls for.
    pub fn handle(&mut self, event: Event) -> (r: Vec<Action>)
        ensures
            final(self)@ == next_history(old(self)@, event@),
            actions_of(r@) == answer(old(self)@, event@),
    {
        match event {
            Event::RecentChanged { id } => self.recent_changed(id),
            Event::LocalChanged => refresh(),
            Event::RefreshClicked => refresh(),
            Event::MountClicked { remote, local, options } => mount_clicked(
                remote.as_str(),
                local.as_str(),
                options.as_str(),
            ),
            Event::UnmountClicked { local } => umount_clicked(local.as_str()),
            Event::OperationFinished { operation, joined } => self.operation_finished(
                operation,
                thread_result(joined),
            ),
            Event::HistorySaved { result } => self.history_saved(result),
        }
    }

    /// The answer to another row of the list of recent mounts.
    fn recent_changed(&self, id: Option<String>) -> (r: Vec<Action>)
        ensures
            actions_of(r@) == on_recent(
                self@,
                match id {
                    Some(id) => Some(id@),
                    None => None,
                },
            ),
    {
        let id = match &id {
            Some(id) => Some(id.as_str()),
            None => None,
        };
        let mut actions: Vec<Action> = Vec::new();
        assert(actions_of(actions@) =~= seq![]);
        if let Some(entry) = selected_entry(self.history.as_slice(), id) {
            actions.push(Action::FillForm { entry });
            assert(actions_of(actions@) =~= seq![ActionView::FillForm { entry: entry@ }]);
        }
        actions
    }

    /// Takes note of the end of an operation.
    fn operation_finished(&mut self, operation: Operation, result: Result<(), String>) -> (r: Vec<
        Action,
    >)
        ensures
            final(self)@ == history_after(old(self)@, operation@, failure_in(result)),
            actions_of(r@) == on_finished(final(self)@, operation@, failure_in(result)),
    {
        let mut actions = lock(false);
        match result {
            Ok(()) => match operation {
                Operation::Mount { entry } => {
                    let content = push_history(&mut self.history, entry);
                    actions.push(Action::RefreshStatus);
                    actions.push(Action::SaveHistory { content });
                },
                Operation::Unmount { local } => {
                    actions.push(Action::ShowText { text: String::new() });
                    actions.push(Action::RefreshStatus);
                },
            },
            Err(message) => {
                actions.push(Action::ShowMarkup { markup: error_markup(message.as_str()) });
            },
        }
        assert(actions_of(actions@) =~= on_finished(self@, operation@, failure_in(result)));
        actions
    }

    /// The answer to the end of writing the history.
    fn history_saved(&self, result: Result<(), String>) -> (r: Vec<Action>)
        ensures
            actions_of(r@) == on_saved(self@, failure_in(result)),
    {
        let mut actions: Vec<Action> = Vec::new();
        match &result {
            Ok(_) => {
                actions.push(Action::ShowText { text: String::new() });
            },
            Err(error) => {
                actions.push(Action::ShowMarkup { markup: unsaved_markup(error.as_str()) });
            },
        }
        actions.push(Action::RebuildCombo { rows: self.rows() });
        assert(actions_of(actions@) =~= on_saved(self@, failure_in(result)));
        actions
    }
}

/// The answer to what may have changed the status of the mount point.
fn refresh() -> (r: Vec<Action>)
    ensures
        actions_of(r@) == seq![ActionView::RefreshStatus],
{
    let mut actions: Vec<Action> = Vec::new();
    actions.push(Action::RefreshStatus);
    assert(actions_of(actions@) =~= seq![ActionView::RefreshStatus]);
    actions
}

// ---------------------------------------------------------------------------
// Laws
// ---------------------------------------------------------------------------

/// Whether an answer starts an operation.
pub open spec fn runs_something(actions: Seq<ActionView>) -> bool {
    exists|i: int| 0 <= i < actions.len() && (#[trigger] actions[i]) is Run
}

/// A click starts an operation exactly if the fields that it needs are not
/// blank. Otherwise the answer is only the text that says which are required.
/// No other event starts an operation.
pub proof fn operations_start_from_complete_forms(history: Seq<EntryView>, event: EventView)
    ensures
        runs_something(answer(history, event)) <==> match event {
            EventView::MountClicked { remote, local, options } => trimmed(remote).len() > 0
                && trimmed(local).len() > 0,
            EventView::UnmountClicked { local } => trimmed(local).len() > 0,
            _ => false,
        },
        event is MountClicked && !runs_something(answer(history, event)) ==> answer(history, event)
            == seq![ActionView::ShowText { text: "Remote and mount point are required."@ }],
        event is UnmountClicked && !runs_something(answer(history, event)) ==> answer(
            history,
            event,
        ) == seq![ActionView::ShowText { text: "Mount point is required."@ }],
{
    let actions = answer(history, event);
    match event {
        EventView::MountClicked { remote, local, options } => {
            if trimmed(remote).len() > 0 && trimmed(local).len() > 0 {
                assert(actions[3] is Run);
            }
        },
        EventView::UnmountClicked { local } => {
            if trimmed(local).len() > 0 {
                assert(actions[3] is Run);
            }
        },
        _ => {},
    }
}

/// Where an operation starts, the buttons and the list are locked before it
/// runs, and nothing behind it unlocks them.
pub proof fn running_locks_the_window(history: Seq<EntryView>, event: EventView)
    requires
        runs_something(answer(history, event)),
    ensures
        answer(history, event).take(2) == set_locked(true),
        forall|i: int|
            2 <= i < answer(history, event).len() ==> !((#[trigger] answer(
                history,
                event,
            )[i]) is SetButtonsSensitive) && !(answer(history, event)[i] is SetComboSensitive),
{
    operations_start_from_complete_forms(history, event);
    assert(answer(history, event).take(2) =~= set_locked(true));
}

/// When an operation ends, however it ends, the buttons and the list are
/// unlocked first, and nothing behind it locks them. No other event than the
/// start and the end of an operation touches them.
pub proof fn finishing_unlocks_the_window(history: Seq<EntryView>, event: EventView)
    ensures
        event is OperationFinished ==> answer(history, event).take(2) == set_locked(false),
        event is OperationFinished ==> forall|i: int|
            2 <= i < answer(history, event).len() ==> !((#[trigger] answer(
                history,
                event,
            )[i]) is SetButtonsSensitive) && !(answer(history, event)[i] is SetComboSensitive),
        !(event is OperationFinished) && !runs_something(answer(history, event)) ==> forall|i: int|
            0 <= i < answer(history, event).len() ==> !((#[trigger] answer(
                history,
                event,
            )[i]) is SetButtonsSensitive) && !(answer(history, event)[i] is SetComboSensitive),
{
    operations_start_from_complete_forms(history, event);
    if event is OperationFinished {
        assert(answer(history, event).take(2) =~= set_locked(false));
    }
}

/// The history changes only when a mount succeeds. The entry is then at its
/// head, its file is written, and the list that follows shows it first. A
/// failure is shown and changes nothing.
pub proof fn only_mounts_change_the_history(history: Seq<EntryView>, event: EventView)
    ensures
        match event {
            EventView::OperationFinished {
                operation: OperationView::Mount { entry },
                failure: None,
            } => {
                &&& next_history(history, event) == pushed(history, entry)
                &&& next_history(history, event)[0] == entry
                &&& answer(history, event).contains(
                    ActionView::SaveHistory { content: file_of(next_history(history, event)) },
                )
                &&& combo_of(next_history(history, event))[1].label == label_of(entry)
            },
            EventView::OperationFinished { operation, failure: Some(message) } => {
                &&& next_history(history, event) == history
                &&& answer(history, event).contains(
                    ActionView::ShowMarkup { markup: error_span(message) },
                )
            },
            _ => next_history(history, event) == history,
        },
{
    let actions = answer(history, event);
    match event {
        EventView::OperationFinished {
            operation: OperationView::Mount { entry },
            failure: None,
        } => {
            push_bounds_the_history(history, entry);
            assert(actions[3] == ActionView::SaveHistory {
                content: file_of(next_history(history, event)),
            });
        },
        EventView::OperationFinished { operation, failure: Some(message) } => {
            assert(actions[2] == ActionView::ShowMarkup { markup: error_span(message) });
        },
        _ => {},
    }
}

/// The status of the mount point is shown anew when the mount point is edited,
/// on request, and after each operation that succeeds.
pub proof fn status_is_kept_current(history: Seq<EntryView>, event: EventView)
    requires
        event is LocalChanged || event is RefreshClicked || (event matches
            EventView::OperationFinished { operation, failure } && failure is None),
    ensures
        answer(history, event).contains(ActionView::RefreshStatus),
{
    let actions = answer(history, event);
    match event {
        EventView::OperationFinished { operation: OperationView::Mount { entry }, failure } => {
            assert(actions[2] is RefreshStatus);
        },
        EventView::OperationFinished { operation: OperationView::Unmount { local }, failure } => {
            assert(actions[3] is RefreshStatus);
        },
        _ => {
            assert(actions[0] is RefreshStatus);
        },
    }
}

/// The history after a sequence of events.
pub open spec fn history_after_all(history: Seq<EntryView>, events: Seq<EventView>) -> Seq<
    EntryView,
>
    decreases events.len(),
{
    if events.len() == 0 {
        history
    } else {
        next_history(history_after_all(history, events.drop_last()), events.last())
    }
}

/// Whatever happens, a history of no more than `MAX_HISTORY` entries stays so,
/// and one without two entries for the same mount stays so.
pub proof fn history_stays_bounded(history: Seq<EntryView>, events: Seq<EventView>)
    ensures
        history.len() <= MAX_HISTORY ==> history_after_all(history, events).len() <= MAX_HISTORY,
        is_distinct(history) ==> is_distinct(history_after_all(history, events)),
    decreases events.len(),
{
    if events.len() > 0 {
        let before = history_after_all(history, events.drop_last());
        history_stays_bounded(history, events.drop_last());
        match events.last() {
            EventView::OperationFinished {
                operation: OperationView::Mount { entry },
                failure: None,
            } => {
                push_bounds_the_history(before, entry);
                if is_distinct(history) {
                    push_keeps_mounts_distinct(before, entry);
                }
            },
            _ => {},
        }
    }
}

/// The bound holds from one session to the next: what a session that saved at
/// most `MAX_HISTORY` entries hands on is at most as many, and stays so.
pub proof fn bound_survives_sessions(saved: Seq<EntryView>, events: Seq<EventView>)
    requires
        saved.len() <= MAX_HISTORY,
    ensures
        history_after_all(history_of(file_of(saved)), events).len() <= MAX_HISTORY,
{
    load_gives_back_what_was_saved(saved);
    saving_settles(saved);
    history_stays_bounded(history_of(file_of(saved)), events);
}

/// The command of an operation is the same whether the texts of the form are
/// trimmed before it is built or not.
pub proof fn trimming_early_changes_no_command(
    remote: Seq<char>,
    local: Seq<char>,
    options: Seq<char>,
)
    ensures
        command_of(OperationView::Mount { entry: form_entry(remote, local, options) })
            == mount_args(remote, local, options),
        command_of(OperationView::Unmount { local: trimmed(local) }) == umount_args(local),
{
    trimming_is_idempotent(remote);
    trimming_is_idempotent(local);
    trimming_is_idempotent(options);
}

/// A trimmed text that is not empty is not empty without its separators
/// either, since these are white space.
proof fn lemma_trimmed_is_not_only_separators(s: Seq<char>)
    requires
        trimmed(s).len() > 0,
    ensures
        clean(trimmed(s)).len() > 0,
{
    let t = trimmed(s);
    let keep = |c: char| !is_separator(c);
    lemma_trimmed(s);
    assert(keep(t[0]));
    t.lemma_filter_contains(keep, 0);
}

/// A mount that was started from the form and succeeded is the first that the
/// next session finds, without the separators that its texts held.
pub proof fn mounts_are_remembered(
    history: Seq<EntryView>,
    remote: Seq<char>,
    local: Seq<char>,
    options: Seq<char>,
)
    requires
        is_complete(form_entry(remote, local, options)),
    ensures
        ({
            let entry = form_entry(remote, local, options);
            let found = history_of(file_of(pushed(history, entry)));
            found.len() > 0 && found[0] == cleaned(entry)
        }),
{
    let entry = form_entry(remote, local, options);
    let after = pushed(history, entry);
    let strip = |e: EntryView| cleaned(e);
    let complete = |e: EntryView| is_complete(e);
    load_gives_back_what_was_saved(after);
    push_bounds_the_history(history, entry);
    lemma_trimmed_is_not_only_separators(remote);
    lemma_trimmed_is_not_only_separators(local);
    let all = after.map_values(strip);
    assert(all =~= seq![cleaned(entry)] + all.skip(1));
    all.skip(1).lemma_filter_prepend(cleaned(entry), complete);
    assert(persisted(after) == seq![cleaned(entry)] + all.skip(1).filter(complete));
}

/// White space around the texts of the form makes no difference to which mount
/// an entry is for.
pub proof fn blanks_make_no_new_mount(
    history: Seq<EntryView>,
    first: EntryView,
    remote: Seq<char>,
    local: Seq<char>,
    options: Seq<char>,
)
    requires
        first.remote == trimmed(remote),
        first.local == trimmed(local),
    ensures
        pushed(pushed(history, first), form_entry(remote, local, options)) == pushed(
            history,
            form_entry(remote, local, options),
        ),
{
    remount_replaces(history, first, form_entry(remote, local, options));
}

/// The command of an operation names the remote, the mount point and the
/// options of the operation itself, each of them whole and without the white
/// space around it.
pub proof fn operations_run_their_own_command(remote: Padded, local: Padded, options: Padded)
    requires
        remote.is_valid(),
        local.is_valid(),
        options.is_valid(),
    ensures
        ({
            let entry = EntryView {
                remote: remote.whole(),
                local: local.whole(),
                options: options.whole(),
            };
            let args = command_of(OperationView::Mount { entry });
            let n = args.len() as int;
            &&& n == (if options.text.len() > 0 { 7int } else { 5 })
            &&& args.take(3) == seq!["mount"@, "-t"@, "nfs"@]
            &&& options.text.len() > 0 ==> args[3] == "-o"@ && args[4] == options.text
            &&& args.skip(n - 2) == seq![remote.text, local.text]
        }),
        command_of(OperationView::Unmount { local: local.whole() }) == seq![
            "umount"@,
            local.text,
        ],
{
    mount_command_names_what_is_mounted(remote, local, options);
    umount_command_names_the_mount_point(local);
    let args = mount_args(remote.whole(), local.whole(), options.whole());
    assert(args.take(3) =~= seq!["mount"@, "-t"@, "nfs"@]);
    assert(args.skip(args.len() - 2) =~= seq![remote.text, local.text]);
    assert(umount_args(local.whole()) =~= seq!["umount"@, local.text]);
}

/// What is seen of an event is all that it holds.
pub proof fn events_are_seen_whole(event: Event)
    ensures
        match event {
            Event::RecentChanged { id: Some(id) } => event@ == (EventView::RecentChanged {
                id: Some(id@),
            }),
            Event::RecentChanged { id: None } => event@ == (EventView::RecentChanged { id: None }),
            Event::LocalChanged => event@ is LocalChanged,
            Event::RefreshClicked => event@ is RefreshClicked,
            Event::MountClicked { remote, local, options } => event@ == (EventView::MountClicked {
                remote: remote@,
                local: local@,
                options: options@,
            }),
            Event::UnmountClicked { local } => event@ == (EventView::UnmountClicked {
                local: local@,
            }),
            Event::OperationFinished { operation, joined: Some(Ok(_)) } => event@ == (
            EventView::OperationFinished { operation: operation@, failure: None }),
            Event::OperationFinished { operation, joined: Some(Err(message)) } => event@ == (
            EventView::OperationFinished { operation: operation@, failure: Some(message@) }),
            Event::OperationFinished { operation, joined: None } => event@ == (
            EventView::OperationFinished {
                operation: operation@,
                failure: Some("Thread panicked"@),
            }),
            Event::HistorySaved { result: Ok(_) } => event@ == (EventView::HistorySaved {
                failure: None,
            }),
            Event::HistorySaved { result: Err(message) } => event@ == (EventView::HistorySaved {
                failure: Some(message@),
            }),
        },
{
}

/// What is seen of an operation is all that it holds.
pub proof fn operations_are_seen_whole(operation: Operation)
    ensures
        match operation {
            Operation::Mount { entry } => operation@ == (OperationView::Mount {
                entry: EntryView {
                    remote: entry.remote@,
                    local: entry.local@,
                    options: entry.options@,
                },
            }),
            Operation::Unmount { local } => operation@ == (OperationView::Unmount {
                local: local@,
            }),
        },
{
}

/// What is seen of a list of actions is each of them with all that it holds, in
/// its place.
pub proof fn actions_are_seen_whole(actions: Seq<Action>, i: int)
    requires
        0 <= i < actions.len(),
    ensures
        actions_of(actions).len() == actions.len(),
        match actions[i] {
            Action::SetButtonsSensitive { sensitive } => actions_of(actions)[i] == (
            ActionView::SetButtonsSensitive { sensitive }),
            Action::SetComboSensitive { sensitive } => actions_of(actions)[i] == (
            ActionView::SetComboSensitive { sensitive }),
            Action::FillForm { entry } => actions_of(actions)[i] == (ActionView::FillForm {
                entry: EntryView {
                    remote: entry.remote@,
                    local: entry.local@,
                    options: entry.options@,
                },
            }),
            Action::RefreshStatus => actions_of(actions)[i] is RefreshStatus,
            Action::ShowText { text } => actions_of(actions)[i] == (ActionView::ShowText {
                text: text@,
            }),
            Action::ShowMarkup { markup } => actions_of(actions)[i] == (ActionView::ShowMarkup {
                markup: markup@,
            }),
            Action::Run { operation } => actions_of(actions)[i] == (ActionView::Run {
                operation: operation@,
            }),
            Action::SaveHistory { content } => actions_of(actions)[i] == (ActionView::SaveHistory {
                content: content@,
            }),
            Action::RebuildCombo { rows } => actions_of(actions)[i] == (ActionView::RebuildCombo {
                rows: rows_of(rows@),
            }),
        },
{
}

/// Whatever is run in answer to a click on the button for mounting is the mount
/// of the remote in the form on the mount point in the form, with the options
/// in the form, and so is its command.
#[verifier::rlimit(50)]
pub proof fn a_click_on_mount_runs_that_mount(
    history: Seq<EntryView>,
    remote: Padded,
    local: Padded,
    options: Padded,
    i: int,
)
    requires
        remote.is_valid(),
        local.is_valid(),
        options.is_valid(),
        0 <= i < answer(
            history,
            EventView::MountClicked {
                remote: remote.whole(),
                local: local.whole(),
                options: options.whole(),
            },
        ).len(),
    ensures
        answer(
            history,
            EventView::MountClicked {
                remote: remote.whole(),
                local: local.whole(),
                options: options.whole(),
            },
        )[i] matches ActionView::Run { operation } ==> {
            &&& operation == (OperationView::Mount {
                entry: EntryView {
                    remote: remote.text,
                    local: local.text,
                    options: options.text,
                },
            })
            &&& command_of(operation).take(3) == seq!["mount"@, "-t"@, "nfs"@]
            &&& command_of(operation).skip(command_of(operation).len() - 2) == seq![
                remote.text,
                local.text,
            ]
        },
{
    trimming_removes_the_padding(remote);
    trimming_removes_the_padding(local);
    trimming_removes_the_padding(options);
    lemma_mount_answer(history, remote.whole(), local.whole(), options.whole(), i);
    lemma_bare_mount_command(remote, local, options);
}

/// What is run in answer to a click on the button for mounting.
proof fn lemma_mount_answer(
    history: Seq<EntryView>,
    remote: Seq<char>,
    local: Seq<char>,
    options: Seq<char>,
    i: int,
)
    requires
        0 <= i < answer(history, EventView::MountClicked { remote, local, options }).len(),
    ensures
        answer(
            history,
            EventView::MountClicked { remote, local, options },
        )[i] matches ActionView::Run { operation } ==> operation == (OperationView::Mount {
            entry: EntryView {
                remote: trimmed(remote),
                local: trimmed(local),
                options: trimmed(options),
            },
        }),
{
    let actions = answer(history, EventView::MountClicked { remote, local, options });
    assert(actions == on_mount(remote, local, options));
    if actions.len() > 1 {
        assert(i == 0 || i == 1 || i == 2 || i == 3);
    }
}

/// What is run in answer to a click on the button for unmounting.
proof fn lemma_unmount_answer(history: Seq<EntryView>, local: Seq<char>, i: int)
    requires
        0 <= i < answer(history, EventView::UnmountClicked { local }).len(),
    ensures
        answer(
            history,
            EventView::UnmountClicked { local },
        )[i] matches ActionView::Run { operation } ==> operation == (OperationView::Unmount {
            local: trimmed(local),
        }),
{
    let actions = answer(history, EventView::UnmountClicked { local });
    assert(actions == on_unmount(local));
    if actions.len() > 1 {
        assert(i == 0 || i == 1 || i == 2 || i == 3);
    }
}

/// The command that mounts texts without white space around them.
proof fn lemma_bare_mount_command(remote: Padded, local: Padded, options: Padded)
    requires
        remote.is_valid(),
        local.is_valid(),
        options.is_valid(),
    ensures
        ({
            let entry = EntryView {
                remote: remote.text,
                local: local.text,
                options: options.text,
            };
            let args = command_of(OperationView::Mount { entry });
            &&& args.take(3) == seq!["mount"@, "-t"@, "nfs"@]
            &&& args.skip(args.len() - 2) == seq![remote.text, local.text]
        }),
{
    let none = Seq::<char>::empty();
    let r = Padded { before: none, text: remote.text, after: none };
    let l = Padded { before: none, text: local.text, after: none };
    let o = Padded { before: none, text: options.text, after: none };
    assert(r.whole() =~= remote.text);
    assert(l.whole() =~= local.text);
    assert(o.whole() =~= options.text);
    operations_run_their_own_command(r, l, o);
}

/// Whatever is run in answer to a click on the button for unmounting is the
/// unmount of the whole mount point in the form, and so is its command.
#[verifier::rlimit(50)]
pub proof fn a_click_on_unmount_runs_that_unmount(
    history: Seq<EntryView>,
    local: Padded,
    i: int,
)
    requires
        local.is_valid(),
        0 <= i < answer(history, EventView::UnmountClicked { local: local.whole() }).len(),
    ensures
        answer(
            history,
            EventView::UnmountClicked { local: local.whole() },
        )[i] matches ActionView::Run { operation } ==> operation == (OperationView::Unmount {
            local: local.text,
        }) && command_of(operation) == seq!["umount"@, local.text],
{
    trimming_removes_the_padding(local);
    lemma_unmount_answer(history, local.whole(), i);
    lemma_bare_unmount_command(local);
}

/// The command that unmounts a text without white space around it.
proof fn lemma_bare_unmount_command(local: Padded)
    requires
        local.is_valid(),
    ensures
        command_of(OperationView::Unmount { local: local.text }) == seq!["umount"@, local.text],
{
    let bare = Padded { before: Seq::empty(), text: local.text, after: Seq::empty() };
    assert(bare.whole() =~= local.text);
    umount_command_names_the_mount_point(bare);
    assert(umount_args(local.text) =~= seq!["umount"@, local.text]);
}

/// The file is written only when a mount succeeded, and whatever is written
/// then is the history with that mount.
pub proof fn only_successful_mounts_write_the_file(
    history: Seq<EntryView>,
    event: EventView,
    i: int,
)
    requires
        0 <= i < answer(history, event).len(),
    ensures
        answer(history, event)[i] matches ActionView::SaveHistory { content } ==> (event matches
            EventView::OperationFinished {
            operation: OperationView::Mount { entry },
            failure: None,
        } && content == file_of(pushed(history, entry))),
{
    match event {
        EventView::MountClicked { remote, local, options } => {
            assert(answer(history, event) == on_mount(remote, local, options));
        },
        _ => {},
    }
}

} // verus!
