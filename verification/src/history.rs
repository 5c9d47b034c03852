//! The history of recent mounts and the file that keeps it: one line for each
//! entry, with a tab between its fields.
use vstd::prelude::*;
use vstd::slice::slice_subrange;

use crate::text::{
    chars_of, find, joined, lemma_find, lemma_find_is, lemma_lines_cons, lines,
    lines_end_at_line_ends, lines_of, position, string_of,
};

verus! {

/// The largest number of entries that the history keeps.
pub const MAX_HISTORY: usize = 10;

/// A mount that was made before.
#[derive(Debug)]
pub struct HistoryEntry {
    pub remote: String,
    pub local: String,
    pub options: String,
}

/// What an entry holds.
#[verifier::ext_equal]
pub struct EntryView {
    pub remote: Seq<char>,
    pub local: Seq<char>,
    pub options: Seq<char>,
}

impl View for HistoryEntry {
    type V = EntryView;

    open spec fn view(&self) -> EntryView {
        EntryView { remote: self.remote@, local: self.local@, options: self.options@ }
    }
}

impl Clone for HistoryEntry {
    fn clone(&self) -> (r: Self)
        ensures
            r == *self,
    {
        HistoryEntry {
            remote: self.remote.clone(),
            local: self.local.clone(),
            options: self.options.clone(),
        }
    }
}

// ---------------------------------------------------------------------------
// Specifications
// ---------------------------------------------------------------------------

/// What a list of entries holds.
pub open spec fn entries_of(history: Seq<HistoryEntry>) -> Seq<EntryView> {
    history.map_values(|e: HistoryEntry| e@)
}

/// Whether two entries are for the same remote and the same mount point.
pub open spec fn same_mount(a: EntryView, b: EntryView) -> bool {
    a.remote == b.remote && a.local == b.local
}

/// The test for entries that are not for the same mount as `entry`.
pub open spec fn other_than(entry: EntryView) -> spec_fn(EntryView) -> bool {
    |e: EntryView| !same_mount(e, entry)
}

/// The history after a mount: the new entry first, then the earlier ones for
/// other mounts in their order, and no more than `MAX_HISTORY` in all.
pub open spec fn pushed(history: Seq<EntryView>, entry: EntryView) -> Seq<EntryView> {
    let all = seq![entry] + history.filter(other_than(entry));
    if all.len() > MAX_HISTORY {
        all.take(MAX_HISTORY as int)
    } else {
        all
    }
}

/// The characters that separate fields or end lines in the file.
pub open spec fn is_separator(c: char) -> bool {
    c == '\t' || c == '\n' || c == '\r'
}

/// `s` without the characters that have a meaning in the file.
pub open spec fn clean(s: Seq<char>) -> Seq<char> {
    s.filter(|c: char| !is_separator(c))
}

/// `entry` with each field clean.
pub open spec fn cleaned(entry: EntryView) -> EntryView {
    EntryView {
        remote: clean(entry.remote),
        local: clean(entry.local),
        options: clean(entry.options),
    }
}

/// The line of the file for an entry.
pub open spec fn entry_line(entry: EntryView) -> Seq<char> {
    clean(entry.remote).push('\t') + clean(entry.local).push('\t') + clean(entry.options)
}

/// The contents of the file for a history.
pub open spec fn file_of(history: Seq<EntryView>) -> Seq<char> {
    joined(history.map_values(|e: EntryView| entry_line(e)), '\n')
}

/// Whether the fields that an entry must have are there.
pub open spec fn is_complete(entry: EntryView) -> bool {
    entry.remote.len() > 0 && entry.local.len() > 0
}

/// The fields of a line: the texts before the first tab, between the first and
/// the second, and behind the second. The third may be missing and is then
/// empty; without a tab there is no entry.
pub open spec fn fields_of(line: Seq<char>) -> Option<EntryView> {
    let i = find(line, '\t') as int;
    let rest = line.skip(i + 1);
    let j = find(rest, '\t') as int;
    if i >= line.len() {
        None
    } else if j >= rest.len() {
        Some(EntryView { remote: line.take(i), local: rest, options: seq![] })
    } else {
        Some(EntryView { remote: line.take(i), local: rest.take(j), options: rest.skip(j + 1) })
    }
}

/// The entry that a line of the file stands for, if it is complete.
pub open spec fn entry_of(line: Seq<char>) -> Option<EntryView> {
    match fields_of(line) {
        Some(entry) => if is_complete(entry) {
            Some(entry)
        } else {
            None
        },
        None => None,
    }
}

/// The history that the contents of the file stand for.
pub open spec fn history_of(content: Seq<char>) -> Seq<EntryView> {
    lines_of(content).filter_map(|line: Seq<char>| entry_of(line))
}

// ---------------------------------------------------------------------------
// Functions
// ---------------------------------------------------------------------------

/// The directories and the file name, below the user's configuration
/// directory, of the file that keeps the history.
pub fn history_path() -> (r: Vec<&'static str>)
    ensures
        r@.len() == 2,
        r@[0]@ == "nfs-mount"@,
        r@[1]@ == "history"@,
{
    vec!["nfs-mount", "history"]
}

/// Reads the history from the contents of its file.
pub fn load_history(content: &str) -> (r: Vec<HistoryEntry>)
    ensures
        entries_of(r@) == history_of(content@),
{
    let chars = chars_of(content);
    let rows = lines(chars.as_slice());
    let ghost all = lines_of(content@);
    let ghost f = |line: Seq<char>| entry_of(line);
    let mut out: Vec<HistoryEntry> = Vec::new();
    let mut i: usize = 0;
    assert(all.take(0).filter_map(f) =~= entries_of(out@));
    while i < rows.len()
        invariant
            i <= rows@.len(),
            all == lines_of(content@),
            rows@.map_values(|l: &[char]| l@) == all,
            f == (|line: Seq<char>| entry_of(line)),
            entries_of(out@) == all.take(i as int).filter_map(f),
        decreases rows@.len() - i,
    {
        let row = rows[i];
        let ghost before = entries_of(out@);
        assert(all[i as int] == row@);
        if let Some(entry) = parse_line(row) {
            out.push(entry);
            assert(entries_of(out@) =~= before + seq![entry@]);
        }
        proof {
            all.lemma_filter_map_take_succ(f, i as int);
        }
        i += 1;
    }
    assert(all.take(i as int) =~= all);
    out
}

/// Reads one line of the file.
fn parse_line(line: &[char]) -> (r: Option<HistoryEntry>)
    ensures
        match r {
            Some(entry) => entry_of(line@) == Some(entry@),
            None => entry_of(line@) is None,
        },
{
    proof {
        lemma_find(line@, '\t');
    }
    let i = position(line, '\t');
    if i >= line.len() {
        return None;
    }
    let remote = slice_subrange(line, 0, i);
    let rest = slice_subrange(line, i + 1, line.len());
    proof {
        lemma_find(rest@, '\t');
        assert(remote@ =~= line@.take(i as int));
        assert(rest@ =~= line@.skip(i + 1));
    }
    let j = position(rest, '\t');
    let local = slice_subrange(rest, 0, j);
    let options = if j < rest.len() {
        string_of(slice_subrange(rest, j + 1, rest.len()))
    } else {
        String::new()
    };
    assert(local@ =~= rest@.take(j as int));
    assert(j >= rest@.len() ==> local@ =~= rest@);
    assert(j < rest@.len() ==> options@ =~= rest@.skip(j + 1));
    if remote.len() == 0 || local.len() == 0 {
        return None;
    }
    Some(HistoryEntry { remote: string_of(remote), local: string_of(local), options })
}

/// Appends the characters of `s` that have no meaning in the file.
fn append_clean(out: &mut String, s: &str)
    ensures
        final(out)@ == old(out)@ + clean(s@),
{
    let chars = chars_of(s);
    let ghost before = out@;
    let ghost keep = |c: char| !is_separator(c);
    let mut i: usize = 0;
    proof {
        reveal(Seq::filter);
        assert(before + chars@.take(0).filter(keep) =~= out@);
    }
    while i < chars.len()
        invariant
            i <= chars@.len(),
            keep == (|c: char| !is_separator(c)),
            out@ == before + chars@.take(i as int).filter(keep),
        decreases chars@.len() - i,
    {
        let c = chars[i];
        proof {
            assert(chars@.take(i + 1) =~= chars@.take(i as int).push(c));
            chars@.take(i as int).lemma_filter_push(c, keep);
        }
        if c != '\t' && c != '\n' && c != '\r' {
            let ghost kept = chars@.take(i as int).filter(keep);
            out.push(c);
            assert(before + kept.push(c) =~= (before + kept).push(c));
        }
        i += 1;
    }
    assert(chars@.take(i as int) =~= s@);
}

/// The contents of the file that keeps the given history.
pub fn save_history(history: &[HistoryEntry]) -> (r: String)
    ensures
        r@ == file_of(entries_of(history@)),
{
    let ghost f = |e: EntryView| entry_line(e);
    let ghost all = entries_of(history@).map_values(f);
    let mut out = String::new();
    let mut i: usize = 0;
    assert(out@ + lines_left(all, 0) =~= joined(all, '\n'));
    while i < history.len()
        invariant
            i <= history@.len(),
            f == (|e: EntryView| entry_line(e)),
            all == entries_of(history@).map_values(f),
            out@ + lines_left(all, i as int) == joined(all, '\n'),
        decreases history@.len() - i,
    {
        let ghost before = out@;
        let e = &history[i];
        assert(all[i as int] == entry_line(e@));
        if i > 0 {
            out.push('\n');
        }
        append_clean(&mut out, e.remote.as_str());
        out.push('\t');
        append_clean(&mut out, e.local.as_str());
        out.push('\t');
        append_clean(&mut out, e.options.as_str());
        proof {
            let lead: Seq<char> = if i > 0 { seq!['\n'] } else { seq![] };
            assert(out@ =~= before + lead + all[i as int]);
            assert(all.skip(i as int).skip(1) =~= all.skip(i + 1));
            assert(lines_left(all, i as int) =~= lead + all[i as int] + lines_left(all, i + 1));
            assert(before + (lead + all[i as int] + lines_left(all, i + 1)) =~= out@ + lines_left(
                all,
                i + 1,
            ));
        }
        i += 1;
    }
    assert(out@ + lines_left(all, i as int) =~= out@);
    out
}

/// What follows in the file behind the first `i` of its lines.
spec fn lines_left(all: Seq<Seq<char>>, i: int) -> Seq<char> {
    if i == 0 {
        joined(all, '\n')
    } else if i >= all.len() {
        seq![]
    } else {
        seq!['\n'] + joined(all.skip(i), '\n')
    }
}

/// Puts `entry` at the head of the history, and gives the new contents of the
/// file that keeps it.
pub fn push_history(history: &mut Vec<HistoryEntry>, entry: HistoryEntry) -> (r: String)
    ensures
        entries_of(final(history)@) == pushed(entries_of(old(history)@), entry@),
        r@ == file_of(entries_of(final(history)@)),
{
    remove_mount(history, &entry);
    let ghost kept = entries_of(history@);
    history.insert(0, entry);
    assert(entries_of(history@) =~= seq![entry@] + kept);
    history.truncate(MAX_HISTORY);
    assert(entries_of(history@) =~= pushed(entries_of(old(history)@), entry@));
    save_history(history.as_slice())
}

/// Removes the entries for the same mount as `entry`.
fn remove_mount(history: &mut Vec<HistoryEntry>, entry: &HistoryEntry)
    ensures
        entries_of(final(history)@) == entries_of(old(history)@).filter(other_than(entry@)),
{
    let ghost keep = other_than(entry@);
    let ghost wanted = entries_of(history@).filter(keep);
    let mut i: usize = 0;
    while i < history.len()
        invariant
            i <= history@.len(),
            keep == other_than(entry@),
            entries_of(history@).filter(keep) == wanted,
            forall|j: int| 0 <= j < i ==> keep(#[trigger] entries_of(history@)[j]),
        decreases history@.len() - i,
    {
        let ghost before = entries_of(history@);
        assert(before[i as int] == history@[i as int]@);
        if history[i].remote == entry.remote && history[i].local == entry.local {
            let _ = history.remove(i);
            proof {
                let head = before.take(i as int);
                let tail = before.skip(i + 1);
                let x = before[i as int];
                assert(before =~= head + (seq![x] + tail));
                assert(entries_of(history@) =~= head + tail);
                Seq::filter_distributes_over_add(head, seq![x] + tail, keep);
                Seq::filter_distributes_over_add(head, tail, keep);
                tail.lemma_filter_prepend(x, keep);
                assert(head.filter(keep) + (Seq::<EntryView>::empty() + tail.filter(keep))
                    =~= head.filter(keep) + tail.filter(keep));
                assert forall|j: int| 0 <= j < i implies keep(
                    #[trigger] entries_of(history@)[j],
                ) by {
                    assert(entries_of(history@)[j] == before[j]);
                }
            }
        } else {
            i += 1;
        }
    }
    proof {
        lemma_filter_all(entries_of(history@), keep);
    }
}

// ---------------------------------------------------------------------------
// Laws
// ---------------------------------------------------------------------------

/// Filtering a sequence that satisfies the test keeps all of it.
proof fn lemma_filter_all<A>(s: Seq<A>, keep: spec_fn(A) -> bool)
    requires
        forall|i: int| 0 <= i < s.len() ==> keep(#[trigger] s[i]),
    ensures
        s.filter(keep) == s,
    decreases s.len(),
{
    reveal(Seq::filter);
    if s.len() > 0 {
        lemma_filter_all(s.drop_last(), keep);
        assert(s.drop_last().push(s.last()) =~= s);
    }
}

/// Whether no two entries are for the same mount.
pub open spec fn is_distinct(history: Seq<EntryView>) -> bool {
    forall|i: int, j: int|
        0 <= i < j < history.len() ==> !same_mount(#[trigger] history[i], #[trigger] history[j])
}

/// After a mount the history holds at most `MAX_HISTORY` entries, whatever it
/// held before. The new entry comes first and no other is for its mount.
pub proof fn push_bounds_the_history(history: Seq<EntryView>, entry: EntryView)
    ensures
        1 <= pushed(history, entry).len() <= MAX_HISTORY,
        pushed(history, entry)[0] == entry,
        forall|i: int|
            1 <= i < pushed(history, entry).len() ==> !same_mount(
                #[trigger] pushed(history, entry)[i],
                entry,
            ),
{
    let kept = history.filter(other_than(entry));
    assert forall|i: int| 1 <= i < pushed(history, entry).len() implies !same_mount(
        #[trigger] pushed(history, entry)[i],
        entry,
    ) by {
        history.lemma_filter_pred(other_than(entry), i - 1);
        assert(pushed(history, entry)[i] == kept[i - 1]);
    }
}

/// Filtering keeps the entries for different mounts apart.
proof fn lemma_filter_distinct(history: Seq<EntryView>, keep: spec_fn(EntryView) -> bool)
    requires
        is_distinct(history),
    ensures
        is_distinct(history.filter(keep)),
    decreases history.len(),
{
    reveal(Seq::filter);
    if history.len() > 0 {
        let front = history.drop_last();
        let kept = front.filter(keep);
        lemma_filter_distinct(front, keep);
        assert forall|i: int| 0 <= i < kept.len() implies !same_mount(
            #[trigger] kept[i],
            history.last(),
        ) by {
            front.lemma_filter_contains_rev(keep, kept[i]);
            let j = choose|j: int| 0 <= j < front.len() && front[j] == kept[i];
            assert(!same_mount(history[j], history[history.len() - 1]));
        }
    }
}

/// A history without two entries for the same mount stays so.
pub proof fn push_keeps_mounts_distinct(history: Seq<EntryView>, entry: EntryView)
    requires
        is_distinct(history),
    ensures
        is_distinct(pushed(history, entry)),
{
    let after = pushed(history, entry);
    let kept = history.filter(other_than(entry));
    lemma_filter_distinct(history, other_than(entry));
    push_bounds_the_history(history, entry);
    assert forall|i: int, j: int| 0 <= i < j < after.len() implies !same_mount(
        #[trigger] after[i],
        #[trigger] after[j],
    ) by {
        if i > 0 {
            assert(after[i] == kept[i - 1] && after[j] == kept[j - 1]);
        }
    }
}

/// A second mount of the same remote on the same directory replaces the entry
/// of the first: the history is as if only the second had been made.
pub proof fn remount_replaces(history: Seq<EntryView>, first: EntryView, second: EntryView)
    requires
        same_mount(first, second),
    ensures
        pushed(pushed(history, first), second) == pushed(history, second),
{
    let keep = other_than(second);
    assert(other_than(first) =~= keep);
    let kept = history.filter(keep);
    let limit = MAX_HISTORY as int - 1;
    let n: int = if kept.len() > limit { limit } else { kept.len() as int };
    let rest = kept.take(n);
    lemma_pushed_is(history, first, n);
    lemma_pushed_is(history, second, n);
    assert forall|i: int| 0 <= i < rest.len() implies keep(#[trigger] rest[i]) by {
        history.lemma_filter_pred(keep, i);
    }
    lemma_filter_all(rest, keep);
    rest.lemma_filter_prepend(first, keep);
    assert((seq![first] + rest).filter(keep) =~= rest);
}

/// The new entry and the first `n` of the others, where `n` is as many as fit.
proof fn lemma_pushed_is(history: Seq<EntryView>, entry: EntryView, n: int)
    requires
        0 <= n < MAX_HISTORY,
        n <= history.filter(other_than(entry)).len(),
        n < MAX_HISTORY - 1 ==> n == history.filter(other_than(entry)).len(),
    ensures
        pushed(history, entry) == seq![entry] + history.filter(other_than(entry)).take(n),
{
    let kept = history.filter(other_than(entry));
    assert(pushed(history, entry) =~= seq![entry] + kept.take(n));
}

/// Cleaning removes every separator and nothing else.
proof fn lemma_clean(s: Seq<char>)
    ensures
        forall|i: int| 0 <= i < clean(s).len() ==> !is_separator(#[trigger] clean(s)[i]),
        clean(clean(s)) == clean(s),
        (forall|i: int| 0 <= i < s.len() ==> !is_separator(#[trigger] s[i])) ==> clean(s) == s,
{
    let keep = |c: char| !is_separator(c);
    assert forall|i: int| 0 <= i < clean(s).len() implies !is_separator(
        #[trigger] clean(s)[i],
    ) by {
        s.lemma_filter_pred(keep, i);
    }
    lemma_filter_all(clean(s), keep);
    if forall|i: int| 0 <= i < s.len() ==> !is_separator(#[trigger] s[i]) {
        lemma_filter_all(s, keep);
    }
}

/// The line of an entry holds no line end, is not empty, and does not end with
/// a carriage return.
proof fn lemma_entry_line(entry: EntryView)
    ensures
        entry_line(entry).len() > 0,
        !entry_line(entry).contains('\n'),
        entry_line(entry).last() != '\r',
{
    let line = entry_line(entry);
    let r = clean(entry.remote);
    let l = clean(entry.local);
    let o = clean(entry.options);
    lemma_clean(entry.remote);
    lemma_clean(entry.local);
    lemma_clean(entry.options);
    assert forall|i: int| 0 <= i < line.len() implies #[trigger] line[i] != '\n' && line[i]
        != '\r' by {
        if i < r.len() {
            assert(line[i] == r[i]);
        } else if r.len() < i < r.len() + 1 + l.len() {
            assert(line[i] == l[i - r.len() - 1]);
        } else if i > r.len() + 1 + l.len() {
            assert(line[i] == o[i - r.len() - l.len() - 2]);
        }
    }
}

/// The file has one line for each entry, whatever the fields hold.
pub proof fn file_has_one_line_per_entry(history: Seq<EntryView>)
    ensures
        lines_of(file_of(history)) == history.map_values(|e: EntryView| entry_line(e)),
    decreases history.len(),
{
    let f = |e: EntryView| entry_line(e);
    let all = history.map_values(f);
    if history.len() == 0 {
        assert(all =~= seq![]);
    } else {
        lemma_entry_line(history[0]);
        let line = entry_line(history[0]);
        assert(all[0] == line);
        if history.len() == 1 {
            assert forall|i: int| 0 <= i < line.len() implies #[trigger] line[i] != '\n' by {
                assert(line.contains(line[i]));
            }
            lemma_find_is(line, '\n', line.len());
            assert(all =~= seq![line]);
        } else {
            let rest = history.skip(1);
            file_has_one_line_per_entry(rest);
            assert(all.skip(1) =~= rest.map_values(f));
            lemma_lines_cons(line, file_of(rest));
            assert(seq![line] + rest.map_values(f) =~= all);
        }
    }
}

/// Reading the line of an entry gives its clean fields, if they are complete.
proof fn lemma_entry_of_line(entry: EntryView)
    ensures
        entry_of(entry_line(entry)) == (if is_complete(cleaned(entry)) {
            Some(cleaned(entry))
        } else {
            None
        }),
{
    let line = entry_line(entry);
    let r = clean(entry.remote);
    let l = clean(entry.local);
    let o = clean(entry.options);
    lemma_clean(entry.remote);
    lemma_clean(entry.local);
    lemma_clean(entry.options);
    assert forall|i: int| 0 <= i < r.len() implies #[trigger] line[i] != '\t' by {
        assert(line[i] == r[i]);
    }
    lemma_find_is(line, '\t', r.len());
    assert(line.take(r.len() as int) =~= r);
    let rest = line.skip(r.len() as int + 1);
    assert(rest =~= l.push('\t') + o);
    assert forall|i: int| 0 <= i < l.len() implies #[trigger] rest[i] != '\t' by {
        assert(rest[i] == l[i]);
    }
    lemma_find_is(rest, '\t', l.len());
    assert(rest.take(l.len() as int) =~= l);
    assert(rest.skip(l.len() as int + 1) =~= o);
}

/// What the next session finds of a history: the entries without the
/// characters that separate them in the file, as far as they are complete.
pub open spec fn persisted(history: Seq<EntryView>) -> Seq<EntryView> {
    history.map_values(|e: EntryView| cleaned(e)).filter(|e: EntryView| is_complete(e))
}

/// Loading what was saved gives back the history: every entry in its place,
/// without the separators that its fields held, except those of which a
/// required field is then empty.
pub proof fn load_gives_back_what_was_saved(history: Seq<EntryView>)
    ensures
        history_of(file_of(history)) == persisted(history),
{
    file_has_one_line_per_entry(history);
    lemma_read_lines(history);
}

/// Reading the lines of the entries one by one.
proof fn lemma_read_lines(history: Seq<EntryView>)
    ensures
        history.map_values(|e: EntryView| entry_line(e)).filter_map(
            |line: Seq<char>| entry_of(line),
        ) == persisted(history),
    decreases history.len(),
{
    let line = |e: EntryView| entry_line(e);
    let read = |l: Seq<char>| entry_of(l);
    let strip = |e: EntryView| cleaned(e);
    let complete = |e: EntryView| is_complete(e);
    reveal(Seq::filter);
    if history.len() == 0 {
        assert(history.map_values(line).filter_map(read) =~= history.map_values(strip).filter(
            complete,
        ));
    } else {
        let front = history.drop_last();
        let last = history.last();
        lemma_read_lines(front);
        lemma_entry_of_line(last);
        assert(history.map_values(line).drop_last() =~= front.map_values(line));
        assert(history.map_values(strip).drop_last() =~= front.map_values(strip));
        assert(history.map_values(line).last() == entry_line(last));
        assert(history.map_values(strip).last() == cleaned(last));
        assert(history.map_values(line).filter_map(read) =~= history.map_values(strip).filter(
            complete,
        ));
    }
}

/// Whether an entry survives saving as it is: it is complete and its fields
/// hold no separator.
pub open spec fn is_storable(entry: EntryView) -> bool {
    is_complete(entry) && cleaned(entry) == entry
}

/// A history of complete entries without separators comes back unchanged.
pub proof fn storable_history_survives(history: Seq<EntryView>)
    requires
        forall|i: int| 0 <= i < history.len() ==> is_storable(#[trigger] history[i]),
    ensures
        history_of(file_of(history)) == history,
{
    load_gives_back_what_was_saved(history);
    assert(history.map_values(|e: EntryView| cleaned(e)) =~= history);
    lemma_filter_all(history, |e: EntryView| is_complete(e));
}

/// What was saved and loaded once is storable, so that saving and loading it
/// again changes nothing. No session finds more entries than were saved.
pub proof fn saving_settles(history: Seq<EntryView>)
    ensures
        persisted(history).len() <= history.len(),
        forall|i: int|
            0 <= i < persisted(history).len() ==> is_storable(#[trigger] persisted(history)[i]),
        history_of(file_of(persisted(history))) == persisted(history),
{
    let strip = |e: EntryView| cleaned(e);
    let complete = |e: EntryView| is_complete(e);
    let all = history.map_values(strip);
    let after = persisted(history);
    all.lemma_filter_len(complete);
    assert forall|i: int| 0 <= i < after.len() implies is_storable(#[trigger] after[i]) by {
        all.lemma_filter_pred(complete, i);
        assert(after.contains(after[i]));
        all.lemma_filter_contains_rev(complete, after[i]);
        let j = choose|j: int| 0 <= j < all.len() && all[j] == after[i];
        lemma_clean(history[j].remote);
        lemma_clean(history[j].local);
        lemma_clean(history[j].options);
    }
    storable_history_survives(after);
}

/// Every entry that is loaded, from whatever file, is complete.
pub proof fn loaded_entries_are_complete(content: Seq<char>)
    ensures
        forall|i: int|
            0 <= i < history_of(content).len() ==> is_complete(#[trigger] history_of(content)[i]),
{
    let read = |line: Seq<char>| entry_of(line);
    let loaded = history_of(content);
    assert forall|i: int| 0 <= i < loaded.len() implies is_complete(#[trigger] loaded[i]) by {
        assert(loaded.contains(loaded[i]));
        lines_of(content).lemma_filter_map_contains(read, loaded[i]);
    }
}

/// The earlier entries for other mounts stay, whatever their options: all of
/// them that differ from the new one in the remote or in the mount point, in
/// their order and as often as before, as far as they fit.
pub proof fn push_keeps_the_other_mounts(history: Seq<EntryView>, entry: EntryView)
    ensures
        ({
            let others = history.filter(
                |e: EntryView| e.remote != entry.remote || e.local != entry.local,
            );
            let after = pushed(history, entry);
            &&& after[0] == entry
            &&& others.len() < MAX_HISTORY ==> after.skip(1) == others
            &&& others.len() >= MAX_HISTORY ==> after.len() == MAX_HISTORY && after.skip(1)
                == others.take(MAX_HISTORY - 1)
        }),
{
    let other = |e: EntryView| e.remote != entry.remote || e.local != entry.local;
    assert(other =~= other_than(entry));
    let others = history.filter(other);
    let after = pushed(history, entry);
    if others.len() < MAX_HISTORY {
        assert(after.skip(1) =~= others);
    } else {
        assert(after.skip(1) =~= others.take(MAX_HISTORY - 1));
    }
}

/// A mount that is new to the history goes before all that is there; only what
/// no longer fits is dropped, from the end.
pub proof fn push_of_a_new_mount_adds_it(history: Seq<EntryView>, entry: EntryView)
    requires
        forall|i: int|
            0 <= i < history.len() ==> (#[trigger] history[i]).remote != entry.remote
                || history[i].local != entry.local,
    ensures
        history.len() < MAX_HISTORY ==> pushed(history, entry) == seq![entry] + history,
        history.len() >= MAX_HISTORY ==> pushed(history, entry) == seq![entry] + history.take(
            MAX_HISTORY - 1,
        ),
{
    lemma_filter_all(history, other_than(entry));
    if history.len() >= MAX_HISTORY {
        assert(pushed(history, entry) =~= seq![entry] + history.take(MAX_HISTORY - 1));
    }
}

/// An earlier entry for the same remote and mount point makes no difference,
/// wherever it stands and whatever its options.
pub proof fn push_forgets_the_same_mount(
    before: Seq<EntryView>,
    same: EntryView,
    after: Seq<EntryView>,
    entry: EntryView,
)
    requires
        same.remote == entry.remote,
        same.local == entry.local,
    ensures
        pushed(before + seq![same] + after, entry) == pushed(before + after, entry),
{
    let keep = other_than(entry);
    assert(before + seq![same] + after =~= before + (seq![same] + after));
    Seq::filter_distributes_over_add(before, seq![same] + after, keep);
    Seq::filter_distributes_over_add(before, after, keep);
    after.lemma_filter_prepend(same, keep);
    assert(Seq::<EntryView>::empty() + after.filter(keep) =~= after.filter(keep));
}

/// Whether `s` holds none of the characters that have a meaning in the file.
pub open spec fn has_no_separator(s: Seq<char>) -> bool {
    !s.contains('\t') && !s.contains('\n') && !s.contains('\r')
}

/// Cleaning takes exactly the tabs, line feeds and carriage returns away.
pub proof fn cleaning_removes_only_separators(a: Seq<char>, c: char, b: Seq<char>)
    ensures
        c == '\t' || c == '\n' || c == '\r' ==> clean(a + seq![c] + b) == clean(a + b),
        has_no_separator(a) ==> clean(a) == a,
        has_no_separator(clean(a)),
{
    let keep = |c: char| !is_separator(c);
    assert(a + seq![c] + b =~= a + (seq![c] + b));
    Seq::filter_distributes_over_add(a, seq![c] + b, keep);
    Seq::filter_distributes_over_add(a, b, keep);
    b.lemma_filter_prepend(c, keep);
    assert(Seq::<char>::empty() + b.filter(keep) =~= b.filter(keep));
    lemma_clean(a);
    if has_no_separator(a) {
        assert forall|i: int| 0 <= i < a.len() implies !is_separator(#[trigger] a[i]) by {
            assert(a.contains(a[i]));
        }
    }
}

/// The file holds the entries one after the other, each with its three fields
/// in their order, tabs between the fields and a line feed between the entries.
pub proof fn file_holds_the_entries_in_order(entry: EntryView, rest: Seq<EntryView>)
    ensures
        file_of(Seq::empty()) == Seq::<char>::empty(),
        file_of(seq![entry]) == clean(entry.remote) + seq!['\t'] + clean(entry.local) + seq!['\t']
            + clean(entry.options),
        rest.len() > 0 ==> file_of(seq![entry] + rest) == file_of(seq![entry]) + seq!['\n']
            + file_of(rest),
{
    let f = |e: EntryView| entry_line(e);
    assert(Seq::<EntryView>::empty().map_values(f) =~= seq![]);
    assert(seq![entry].map_values(f) =~= seq![entry_line(entry)]);
    assert(entry_line(entry) =~= clean(entry.remote) + seq!['\t'] + clean(entry.local) + seq!['\t']
        + clean(entry.options));
    if rest.len() > 0 {
        let all = (seq![entry] + rest).map_values(f);
        assert(all.skip(1) =~= rest.map_values(f));
        assert(all[0] == entry_line(entry));
        assert(entry_line(entry).push('\n') + file_of(rest) =~= entry_line(entry) + seq!['\n']
            + file_of(rest));
    }
}

/// The file is read line by line, and each line for itself. Lines end with a
/// line feed, or with a carriage return and a line feed.
pub proof fn load_goes_line_by_line(line: Seq<char>, rest: Seq<char>)
    requires
        !line.contains('\n'),
    ensures
        history_of(Seq::empty()) == Seq::<EntryView>::empty(),
        history_of(line + seq!['\r', '\n'] + rest) == history_of(line) + history_of(rest),
        line.len() == 0 || line.last() != '\r' ==> history_of(line + seq!['\n'] + rest)
            == history_of(line) + history_of(rest),
{
    let f = |line: Seq<char>| entry_of(line);
    lines_end_at_line_ends(line, rest);
    lemma_filter_map_cons(line, lines_of(rest), f);
    lemma_one_line_history(line);
    assert(history_of(Seq::empty()) =~= Seq::<EntryView>::empty());
}

/// Reading a first line and then the others.
proof fn lemma_filter_map_cons(
    first: Seq<char>,
    others: Seq<Seq<char>>,
    f: spec_fn(Seq<char>) -> Option<EntryView>,
)
    ensures
        (seq![first] + others).filter_map(f) == (match f(first) {
            Some(e) => seq![e],
            None => Seq::empty(),
        }) + others.filter_map(f),
    decreases others.len(),
{
    let all = seq![first] + others;
    let head: Seq<EntryView> = match f(first) {
        Some(e) => seq![e],
        None => Seq::empty(),
    };
    if others.len() == 0 {
        assert(all =~= seq![first]);
        Seq::lemma_filter_map_singleton(first, f);
        assert(head + others.filter_map(f) =~= head);
    } else {
        assert(all.drop_last() =~= seq![first] + others.drop_last());
        assert(all.last() == others.last());
        lemma_filter_map_cons(first, others.drop_last(), f);
        assert(all.filter_map(f) =~= head + others.filter_map(f));
    }
}

/// The history of a single line.
proof fn lemma_one_line_history(line: Seq<char>)
    requires
        !line.contains('\n'),
    ensures
        history_of(line) == (match entry_of(line) {
            Some(e) => seq![e],
            None => Seq::empty(),
        }),
{
    let f = |line: Seq<char>| entry_of(line);
    lines_end_at_line_ends(line, Seq::empty());
    if line.len() > 0 {
        Seq::lemma_filter_map_singleton(line, f);
    } else {
        assert(line =~= Seq::<char>::empty());
        assert(history_of(line) =~= Seq::<EntryView>::empty());
    }
}

/// A line of two or more fields is an entry, unless the remote or the mount
/// point is empty: the first field is the remote, the second the mount point,
/// and all that is behind the second tab the options. A line of one field is
/// none.
pub proof fn lines_are_read_as_fields(remote: Seq<char>, local: Seq<char>, options: Seq<char>)
    requires
        !remote.contains('\t') && !remote.contains('\n'),
        !local.contains('\t') && !local.contains('\n'),
        !options.contains('\n'),
    ensures
        history_of(remote) == Seq::<EntryView>::empty(),
        remote.len() > 0 && local.len() > 0 ==> history_of(remote + seq!['\t'] + local) == seq![
            EntryView { remote, local, options: seq![] },
        ],
        remote.len() > 0 && local.len() > 0 ==> history_of(
            remote + seq!['\t'] + local + seq!['\t'] + options,
        ) == seq![EntryView { remote, local, options }],
        remote.len() == 0 || local.len() == 0 ==> history_of(remote + seq!['\t'] + local)
            == Seq::<EntryView>::empty() && history_of(
            remote + seq!['\t'] + local + seq!['\t'] + options,
        ) == Seq::<EntryView>::empty(),
{
    let two = remote + seq!['\t'] + local;
    let end = local + seq!['\t'] + options;
    let three = remote + seq!['\t'] + local + seq!['\t'] + options;
    assert forall|i: int| 0 <= i < remote.len() implies #[trigger] remote[i] != '\t' by {
        assert(remote.contains(remote[i]));
    }
    assert forall|i: int| 0 <= i < local.len() implies #[trigger] local[i] != '\t' by {
        assert(local.contains(local[i]));
    }
    assert forall|i: int| 0 <= i < two.len() implies #[trigger] two[i] != '\n' by {
        if i < remote.len() {
            assert(remote.contains(two[i]));
        } else if i > remote.len() {
            assert(two[i] == local[i - remote.len() - 1]);
            assert(local.contains(two[i]));
        }
    }
    assert forall|i: int| 0 <= i < three.len() implies #[trigger] three[i] != '\n' by {
        if i < two.len() {
            assert(three[i] == two[i]);
        } else if i > two.len() {
            assert(three[i] == options[i - two.len() - 1]);
            assert(options.contains(three[i]));
        }
    }
    lemma_one_line_history(remote);
    lemma_one_line_history(two);
    lemma_one_line_history(three);
    lemma_find_is(remote, '\t', remote.len());
    lemma_find_is(two, '\t', remote.len());
    lemma_find_is(three, '\t', remote.len());
    lemma_find_is(local, '\t', local.len());
    lemma_find_is(end, '\t', local.len());
    let n = remote.len() as int;
    assert(two.take(n) =~= remote);
    assert(two.skip(n + 1) =~= local);
    assert(three.take(n) =~= remote);
    assert(three.skip(n + 1) =~= end);
    assert(end.take(local.len() as int) =~= local);
    assert(end.skip(local.len() as int + 1) =~= options);
}

/// A history whose entries are complete and hold no separators comes back from
/// its file as it was.
pub proof fn whole_entries_come_back(history: Seq<EntryView>)
    requires
        forall|i: int|
            0 <= i < history.len() ==> (#[trigger] history[i]).remote.len() > 0
                && history[i].local.len() > 0 && has_no_separator(history[i].remote)
                && has_no_separator(history[i].local) && has_no_separator(history[i].options),
    ensures
        history_of(file_of(history)) == history,
{
    assert forall|i: int| 0 <= i < history.len() implies is_storable(#[trigger] history[i]) by {
        cleaning_removes_only_separators(history[i].remote, ' ', Seq::empty());
        cleaning_removes_only_separators(history[i].local, ' ', Seq::empty());
        cleaning_removes_only_separators(history[i].options, ' ', Seq::empty());
    }
    storable_history_survives(history);
}

/// What is seen of a history is each entry with each of its fields, whole and
/// in its place.
pub proof fn entries_are_seen_whole(history: Seq<HistoryEntry>)
    ensures
        entries_of(history).len() == history.len(),
        forall|i: int|
            0 <= i < history.len() ==> (#[trigger] entries_of(history)[i]).remote
                == history[i].remote@ && entries_of(history)[i].local == history[i].local@
                && entries_of(history)[i].options == history[i].options@,
{
}

} // verus!
