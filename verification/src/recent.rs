//! The list from which a recent mount is chosen.
use vstd::prelude::*;
use vstd::string::*;

use crate::decimal::{decimal, format_usize, parse_usize, parsed, parsing_undoes_formatting};
use crate::history::{entries_of, EntryView, HistoryEntry};

verus! {

/// A row of the list: the identifier of the entry that it stands for, and the
/// text that it shows.
#[derive(Debug)]
pub struct ComboRow {
    pub id: Option<String>,
    pub label: String,
}

/// What a row holds.
#[verifier::ext_equal]
pub struct RowView {
    pub id: Option<Seq<char>>,
    pub label: Seq<char>,
}

impl View for ComboRow {
    type V = RowView;

    open spec fn view(&self) -> RowView {
        RowView {
            id: match self.id {
                Some(id) => Some(id@),
                None => None,
            },
            label: self.label@,
        }
    }
}

/// What a list of rows holds.
pub open spec fn rows_of(rows: Seq<ComboRow>) -> Seq<RowView> {
    rows.map_values(|r: ComboRow| r@)
}

/// The text that a row shows for an entry.
pub open spec fn label_of(entry: EntryView) -> Seq<char> {
    let mount = entry.remote + "  →  "@ + entry.local;
    if entry.options.len() == 0 {
        mount
    } else {
        mount + "  ("@ + entry.options + ")"@
    }
}

/// The first row, which stands for no entry.
pub open spec fn heading() -> RowView {
    RowView { id: None, label: "— recent mounts —"@ }
}

/// The row of the entry at position `i`.
pub open spec fn row_of(history: Seq<EntryView>, i: int) -> RowView {
    RowView { id: Some(decimal(i as nat)), label: label_of(history[i]) }
}

/// The rows of the list: the heading, then one for each entry in its order.
pub open spec fn combo_of(history: Seq<EntryView>) -> Seq<RowView> {
    seq![heading()] + Seq::new(history.len(), |i: int| row_of(history, i))
}

/// The entry that the row with the identifier `id` stands for.
pub open spec fn chosen(history: Seq<EntryView>, id: Option<Seq<char>>) -> Option<EntryView> {
    match id {
        Some(id) => match parsed(id) {
            Some(i) => if i < history.len() {
                Some(history[i as int])
            } else {
                None
            },
            None => None,
        },
        None => None,
    }
}

/// The text that a row shows for an entry.
fn label(entry: &HistoryEntry) -> (r: String)
    ensures
        r@ == label_of(entry@),
{
    let mut out = entry.remote.clone();
    out.append("  →  ");
    out.append(entry.local.as_str());
    if !entry.options.as_str().is_empty() {
        out.append("  (");
        out.append(entry.options.as_str());
        out.append(")");
    }
    out
}

/// The rows of the list for a history. The first of them is the active one.
pub fn rebuild_combo(history: &[HistoryEntry]) -> (r: Vec<ComboRow>)
    ensures
        rows_of(r@) == combo_of(entries_of(history@)),
{
    let ghost all = entries_of(history@);
    let mut rows: Vec<ComboRow> = Vec::new();
    rows.push(ComboRow { id: None, label: "— recent mounts —".to_string() });
    let mut i: usize = 0;
    assert(rows_of(rows@) =~= combo_of(all).take(1));
    while i < history.len()
        invariant
            i <= history@.len(),
            all == entries_of(history@),
            rows_of(rows@) == combo_of(all).take(i + 1),
        decreases history@.len() - i,
    {
        let ghost before = rows_of(rows@);
        let e = &history[i];
        let row = ComboRow { id: Some(format_usize(i)), label: label(e) };
        assert(all[i as int] == e@);
        assert(row@ == row_of(all, i as int));
        rows.push(row);
        assert(rows_of(rows@) =~= before.push(row@));
        assert(rows_of(rows@) =~= combo_of(all).take(i + 2));
        i += 1;
    }
    assert(combo_of(all).take(i + 1) =~= combo_of(all));
    rows
}

/// The entry that the row with the identifier `id` stands for.
pub fn selected_entry(history: &[HistoryEntry], id: Option<&str>) -> (r: Option<HistoryEntry>)
    ensures
        (match r {
            Some(entry) => Some(entry@),
            None => None,
        }) == chosen(
            entries_of(history@),
            match id {
                Some(id) => Some(id@),
                None => None,
            },
        ),
{
    match id {
        Some(id) => match parse_usize(id) {
            Some(i) => if i < history.len() {
                assert(entries_of(history@)[i as int] == history@[i as int]@);
                Some(history[i].clone())
            } else {
                None
            },
            None => None,
        },
        None => None,
    }
}

/// Choosing a row gives the entry that it shows, and the heading gives none.
pub proof fn rows_stand_for_their_entries(history: Seq<EntryView>, row: int)
    requires
        0 <= row < combo_of(history).len(),
        history.len() <= usize::MAX,
    ensures
        row == 0 ==> chosen(history, combo_of(history)[row].id) is None,
        row > 0 ==> chosen(history, combo_of(history)[row].id) == Some(history[row - 1])
            && combo_of(history)[row].label == label_of(history[row - 1]),
{
    if row > 0 {
        parsing_undoes_formatting((row - 1) as usize);
    }
}

/// The list has a heading and then one row for each entry. A row has the
/// position of its entry for an identifier, and shows the remote, the mount
/// point and, if there are any, the options, all of them whole.
pub proof fn rows_show_whole_entries(history: Seq<EntryView>, i: int)
    requires
        0 <= i < history.len(),
    ensures
        combo_of(history).len() == history.len() + 1,
        combo_of(history)[0].id is None,
        combo_of(history)[0].label == "— recent mounts —"@,
        combo_of(history)[i + 1].id == Some(decimal(i as nat)),
        history[i].options.len() == 0 ==> combo_of(history)[i + 1].label == history[i].remote
            + "  →  "@ + history[i].local,
        history[i].options.len() > 0 ==> combo_of(history)[i + 1].label == history[i].remote
            + "  →  "@ + history[i].local + "  ("@ + history[i].options + ")"@,
{
}

/// An identifier gives the entry at the position that it is the number of. One
/// that is no number, or that of no entry, gives none; so does no identifier.
pub proof fn identifiers_are_positions(history: Seq<EntryView>, id: Seq<char>, i: usize)
    ensures
        parsed(id) == Some(i) && i < history.len() ==> chosen(history, Some(id)) == Some(
            history[i as int],
        ),
        parsed(id) == Some(i) && i >= history.len() ==> chosen(history, Some(id)) is None,
        parsed(id) is None ==> chosen(history, Some(id)) is None,
        chosen(history, None) is None,
{
}

/// What is seen of the rows is each of them, whole and in its place.
pub proof fn rows_are_seen_whole(rows: Seq<ComboRow>)
    ensures
        rows_of(rows).len() == rows.len(),
        forall|i: int|
            0 <= i < rows.len() ==> (#[trigger] rows_of(rows)[i]).label == rows[i].label@
                && (rows[i].id is None ==> rows_of(rows)[i].id is None) && (rows[i].id matches Some(
                id,
            ) ==> rows_of(rows)[i].id == Some(id@)),
{
}

} // verus!
