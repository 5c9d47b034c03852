//! What becomes of the window, the file of the history and the privileged
//! operations when the actions in answer to an event are performed.
use vstd::prelude::*;

use crate::history::{
    file_of, has_no_separator, history_of, other_than, pushed, whole_entries_come_back, EntryView,
};
use crate::manager::{answer, ActionView, EventView, OperationView};
use crate::markup::{error_span, unsaved_span};
use crate::recent::{chosen, combo_of, RowView};
use crate::text::{trimming_removes_the_padding, Padded};

verus! {

/// What is shown below the form.
#[verifier::ext_equal]
pub enum Info {
    Text { text: Seq<char> },
    Markup { markup: Seq<char> },
}

/// An operation that was started, and whether the window was locked then.
#[verifier::ext_equal]
pub struct Started {
    pub operation: OperationView,
    pub locked: bool,
}

/// What actions act on.
#[verifier::ext_equal]
pub struct Window {
    /// Whether the buttons can be used.
    pub buttons: bool,
    /// Whether the list of recent mounts can be used.
    pub list: bool,
    /// The texts in the form.
    pub form: EntryView,
    /// What is shown below the form.
    pub info: Info,
    /// The rows of the list of recent mounts.
    pub rows: Seq<RowView>,
    /// How often the status was shown anew.
    pub refreshed: nat,
    /// The operations that were started, in their order.
    pub started: Seq<Started>,
    /// What was written to the file of the history, in its order.
    pub written: Seq<Seq<char>>,
}

/// The window after an action.
pub open spec fn done(w: Window, action: ActionView) -> Window {
    match action {
        ActionView::SetButtonsSensitive { sensitive } => Window { buttons: sensitive, ..w },
        ActionView::SetComboSensitive { sensitive } => Window { list: sensitive, ..w },
        ActionView::FillForm { entry } => Window { form: entry, ..w },
        ActionView::RefreshStatus => Window { refreshed: w.refreshed + 1, ..w },
        ActionView::ShowText { text } => Window { info: Info::Text { text }, ..w },
        ActionView::ShowMarkup { markup } => Window { info: Info::Markup { markup }, ..w },
        ActionView::Run { operation } => Window {
            started: w.started.push(Started { operation, locked: !w.buttons && !w.list }),
            ..w
        },
        ActionView::SaveHistory { content } => Window { written: w.written.push(content), ..w },
        ActionView::RebuildCombo { rows } => Window { rows, ..w },
    }
}

/// The window after actions, one after the other.
pub open spec fn performed(w: Window, actions: Seq<ActionView>) -> Window
    decreases actions.len(),
{
    if actions.len() == 0 {
        w
    } else {
        done(performed(w, actions.drop_last()), actions.last())
    }
}

/// The window after an event was answered.
pub open spec fn answered(w: Window, history: Seq<EntryView>, event: EventView) -> Window {
    performed(w, answer(history, event))
}

/// The window after the first actions of a list.
proof fn lemma_performed(w: Window, actions: Seq<ActionView>)
    ensures
        actions.len() == 0 ==> performed(w, actions) == w,
        actions.len() == 1 ==> performed(w, actions) == done(w, actions[0]),
        actions.len() == 2 ==> performed(w, actions) == done(done(w, actions[0]), actions[1]),
        actions.len() == 3 ==> performed(w, actions) == done(
            done(done(w, actions[0]), actions[1]),
            actions[2],
        ),
        actions.len() == 4 ==> performed(w, actions) == done(
            done(done(done(w, actions[0]), actions[1]), actions[2]),
            actions[3],
        ),
    decreases actions.len(),
{
    if actions.len() > 0 {
        let front = actions.drop_last();
        lemma_performed(w, front);
        assert(actions.last() == actions[actions.len() - 1]);
    }
}

/// A click on the button for mounting, with a remote and a mount point in the
/// form, locks the window, says so, and starts one operation: the mount of just
/// that remote on that mount point with those options, apart from the white
/// space around them. With a remote or a mount point that is blank it only says
/// that they are required.
pub proof fn clicking_mount_starts_the_mount(
    w: Window,
    history: Seq<EntryView>,
    remote: Padded,
    local: Padded,
    options: Padded,
)
    requires
        remote.is_valid(),
        local.is_valid(),
        options.is_valid(),
    ensures
        ({
            let event = EventView::MountClicked {
                remote: remote.whole(),
                local: local.whole(),
                options: options.whole(),
            };
            let entry = EntryView {
                remote: remote.text,
                local: local.text,
                options: options.text,
            };
            answered(w, history, event) == (if remote.text.len() > 0 && local.text.len() > 0 {
                Window {
                    buttons: false,
                    list: false,
                    info: Info::Text { text: "Mounting…"@ },
                    started: w.started.push(
                        Started { operation: OperationView::Mount { entry }, locked: true },
                    ),
                    ..w
                }
            } else {
                Window { info: Info::Text { text: "Remote and mount point are required."@ }, ..w }
            })
        }),
{
    trimming_removes_the_padding(remote);
    trimming_removes_the_padding(local);
    trimming_removes_the_padding(options);
    let event = EventView::MountClicked {
        remote: remote.whole(),
        local: local.whole(),
        options: options.whole(),
    };
    lemma_performed(w, answer(history, event));
}

/// A click on the button for unmounting, with a mount point in the form, locks
/// the window, says so, and starts one operation: the unmount of just that
/// mount point, apart from the white space around it. With a mount point that
/// is blank it only says that it is required.
pub proof fn clicking_unmount_starts_the_unmount(
    w: Window,
    history: Seq<EntryView>,
    local: Padded,
)
    requires
        local.is_valid(),
    ensures
        answered(w, history, EventView::UnmountClicked { local: local.whole() }) == (
        if local.text.len() > 0 {
            Window {
                buttons: false,
                list: false,
                info: Info::Text { text: "Unmounting…"@ },
                started: w.started.push(
                    Started {
                        operation: OperationView::Unmount { local: local.text },
                        locked: true,
                    },
                ),
                ..w
            }
        } else {
            Window { info: Info::Text { text: "Mount point is required."@ }, ..w }
        }),
{
    trimming_removes_the_padding(local);
    lemma_performed(w, answer(history, EventView::UnmountClicked { local: local.whole() }));
}

/// The end of an operation unlocks the window. A failure is shown below the
/// form. After a success the status is shown anew. After a mount the history
/// with it is written, once; after an unmount the text below the form is
/// cleared. Nothing else changes.
pub proof fn the_end_of_an_operation_unlocks_and_reports(
    w: Window,
    history: Seq<EntryView>,
    entry: EntryView,
    local: Seq<char>,
    operation: OperationView,
    message: Seq<char>,
)
    ensures
        answered(
            w,
            history,
            EventView::OperationFinished { operation, failure: Some(message) },
        ) == (Window {
            buttons: true,
            list: true,
            info: Info::Markup { markup: error_span(message) },
            ..w
        }),
        answered(
            w,
            history,
            EventView::OperationFinished {
                operation: OperationView::Mount { entry },
                failure: None,
            },
        ) == (Window {
            buttons: true,
            list: true,
            refreshed: w.refreshed + 1,
            written: w.written.push(file_of(pushed(history, entry))),
            ..w
        }),
        answered(
            w,
            history,
            EventView::OperationFinished {
                operation: OperationView::Unmount { local },
                failure: None,
            },
        ) == (Window {
            buttons: true,
            list: true,
            info: Info::Text { text: Seq::empty() },
            refreshed: w.refreshed + 1,
            ..w
        }),
{
    lemma_performed(
        w,
        answer(history, EventView::OperationFinished { operation, failure: Some(message) }),
    );
    lemma_performed(
        w,
        answer(
            history,
            EventView::OperationFinished {
                operation: OperationView::Mount { entry },
                failure: None,
            },
        ),
    );
    lemma_performed(
        w,
        answer(
            history,
            EventView::OperationFinished {
                operation: OperationView::Unmount { local },
                failure: None,
            },
        ),
    );
}

/// After the history was written, the list shows it. The text below the form is
/// cleared, or tells that the history could not be written. Nothing else
/// changes.
pub proof fn the_list_follows_the_history(
    w: Window,
    history: Seq<EntryView>,
    error: Seq<char>,
)
    ensures
        answered(w, history, EventView::HistorySaved { failure: None }) == (Window {
            info: Info::Text { text: Seq::empty() },
            rows: combo_of(history),
            ..w
        }),
        answered(w, history, EventView::HistorySaved { failure: Some(error) }) == (Window {
            info: Info::Markup { markup: unsaved_span(error) },
            rows: combo_of(history),
            ..w
        }),
{
    lemma_performed(w, answer(history, EventView::HistorySaved { failure: None }));
    lemma_performed(w, answer(history, EventView::HistorySaved { failure: Some(error) }));
}

/// Another row of the list puts its entry into the form; a row without an entry
/// changes nothing. Editing the mount point and asking for it show the status
/// anew and change nothing else.
pub proof fn the_form_follows_the_list(
    w: Window,
    history: Seq<EntryView>,
    id: Option<Seq<char>>,
)
    ensures
        chosen(history, id) matches Some(entry) ==> answered(
            w,
            history,
            EventView::RecentChanged { id },
        ) == (Window { form: entry, ..w }),
        chosen(history, id) is None ==> answered(w, history, EventView::RecentChanged { id }) == w,
        answered(w, history, EventView::LocalChanged) == (Window {
            refreshed: w.refreshed + 1,
            ..w
        }),
        answered(w, history, EventView::RefreshClicked) == (Window {
            refreshed: w.refreshed + 1,
            ..w
        }),
{
    lemma_performed(w, answer(history, EventView::RecentChanged { id }));
    lemma_performed(w, answer(history, EventView::LocalChanged));
    lemma_performed(w, answer(history, EventView::RefreshClicked));
}

/// Whether an entry names a remote and a mount point, and none of its fields
/// holds a tab or a line end.
pub open spec fn is_whole(entry: EntryView) -> bool {
    &&& entry.remote.len() > 0
    &&& entry.local.len() > 0
    &&& has_no_separator(entry.remote)
    &&& has_no_separator(entry.local)
    &&& has_no_separator(entry.options)
}

/// What stands in the file after a mount is what the next session loads: the
/// history with that mount.
pub proof fn the_next_session_loads_what_was_written(
    w: Window,
    history: Seq<EntryView>,
    entry: EntryView,
)
    requires
        forall|i: int| 0 <= i < history.len() ==> is_whole(#[trigger] history[i]),
        is_whole(entry),
    ensures
        ({
            let after = answered(
                w,
                history,
                EventView::OperationFinished {
                    operation: OperationView::Mount { entry },
                    failure: None,
                },
            );
            &&& after.written.len() == w.written.len() + 1
            &&& history_of(after.written.last()) == pushed(history, entry)
        }),
{
    let all = pushed(history, entry);
    let kept = history.filter(other_than(entry));
    the_end_of_an_operation_unlocks_and_reports(
        w,
        history,
        entry,
        Seq::empty(),
        OperationView::Mount { entry },
        Seq::empty(),
    );
    assert forall|i: int| 0 <= i < all.len() implies is_whole(#[trigger] all[i]) by {
        if i > 0 {
            assert(all[i] == kept[i - 1]);
            assert(kept.contains(kept[i - 1]));
            history.lemma_filter_contains_rev(other_than(entry), kept[i - 1]);
            let j = choose|j: int| 0 <= j < history.len() && history[j] == kept[i - 1];
            assert(is_whole(history[j]));
        }
    }
    assert forall|i: int| 0 <= i < all.len() implies (#[trigger] all[i]).remote.len() > 0
        && all[i].local.len() > 0 && has_no_separator(all[i].remote) && has_no_separator(
        all[i].local,
    ) && has_no_separator(all[i].options) by {
        assert(is_whole(all[i]));
    }
    whole_entries_come_back(all);
}

} // verus!
