use nfs_mount::history::{
    history_path, load_history, push_history, save_history, HistoryEntry, MAX_HISTORY,
};
use nfs_mount::recent::{rebuild_combo, selected_entry};

fn entry(remote: &str, local: &str, options: &str) -> HistoryEntry {
    HistoryEntry {
        remote: remote.to_string(),
        local: local.to_string(),
        options: options.to_string(),
    }
}

fn fields(history: &[HistoryEntry]) -> Vec<(String, String, String)> {
    history
        .iter()
        .map(|e| (e.remote.clone(), e.local.clone(), e.options.clone()))
        .collect()
}

#[test]
fn history_is_kept_below_the_configuration_directory() {
    assert_eq!(history_path(), vec!["nfs-mount", "history"]);
}

#[test]
fn lines_are_read() {
    let history = load_history("nas:/a\t/mnt/a\tvers=4,rw\nnas:/b\t/mnt/b\t\r\nnas:/c\t/mnt/c");
    assert_eq!(
        fields(&history),
        fields(&[
            entry("nas:/a", "/mnt/a", "vers=4,rw"),
            entry("nas:/b", "/mnt/b", ""),
            entry("nas:/c", "/mnt/c", ""),
        ])
    );
}

#[test]
fn incomplete_lines_are_skipped() {
    assert!(load_history("").is_empty());
    assert!(load_history("\n\nno tab\n\t/mnt/a\trw\nnas:/a\t\trw\n\t\t\n").is_empty());
}

#[test]
fn the_third_field_takes_the_rest() {
    assert_eq!(
        fields(&load_history("r\tl\ta\tb\t\n")),
        fields(&[entry("r", "l", "a\tb\t")])
    );
}

#[test]
fn a_long_file_is_read_whole() {
    let mut content = String::new();
    for i in 0..12 {
        content.push_str(&format!("r{}\tl\n", i));
    }
    assert_eq!(load_history(&content).len(), 12);
}

#[test]
fn the_file_has_a_line_for_each_entry() {
    assert_eq!(save_history(&[]), "");
    assert_eq!(
        save_history(&[entry("r1", "l1", "o1"), entry("r2", "l2", "")]),
        "r1\tl1\to1\nr2\tl2\t"
    );
}

#[test]
fn separators_are_left_out_of_the_file() {
    assert_eq!(
        save_history(&[entry("r\t1", "l\n1", "o\r1"), entry("\t", "l", "")]),
        "r1\tl1\to1\n\tl\t"
    );
}

#[test]
fn what_was_saved_is_loaded_again() {
    let history = [
        entry("nas:/a b", "/mnt/a", "vers=4"),
        entry("nas:/é", "/mnt/→", ""),
        entry("nas:/c", "/mnt/c", "rw"),
    ];
    assert_eq!(fields(&load_history(&save_history(&history))), fields(&history));
}

#[test]
fn what_cannot_be_kept_is_cleaned_or_left_out() {
    let history = [
        entry("a\tb", "/m\r\n", "x\ny"),
        entry("\t\n", "/m", ""),
        entry("c", "/m", ""),
    ];
    let once = load_history(&save_history(&history));
    assert_eq!(fields(&once), fields(&[entry("ab", "/m", "xy"), entry("c", "/m", "")]));
    assert_eq!(fields(&load_history(&save_history(&once))), fields(&once));
}

#[test]
fn a_new_mount_comes_first() {
    let mut history = vec![entry("a", "/a", ""), entry("b", "/b", "")];
    let content = push_history(&mut history, entry("c", "/c", "rw"));
    assert_eq!(
        fields(&history),
        fields(&[entry("c", "/c", "rw"), entry("a", "/a", ""), entry("b", "/b", "")])
    );
    assert_eq!(content, "c\t/c\trw\na\t/a\t\nb\t/b\t");
}

#[test]
fn a_second_mount_replaces_the_first() {
    let mut history = vec![
        entry("a", "/a", ""),
        entry("b", "/b", "old"),
        entry("b", "/c", ""),
        entry("b", "/b", ""),
    ];
    push_history(&mut history, entry("b", "/b", "new"));
    assert_eq!(
        fields(&history),
        fields(&[entry("b", "/b", "new"), entry("a", "/a", ""), entry("b", "/c", "")])
    );
    push_history(&mut history, entry("b", "/b", "newer"));
    assert_eq!(history.len(), 3);
    assert_eq!(history[0].options, "newer");
}

#[test]
fn no_more_than_ten_are_kept() {
    assert_eq!(MAX_HISTORY, 10);
    let mut history: Vec<HistoryEntry> = Vec::new();
    for i in 0..15 {
        push_history(&mut history, entry(&format!("r{}", i), "/m", ""));
        assert_eq!(history.len(), (i + 1).min(10));
    }
    assert_eq!(history[0].remote, "r14");
    assert_eq!(history[9].remote, "r5");
    push_history(&mut history, entry("r5", "/m", ""));
    assert_eq!(history.len(), 10);
    assert_eq!(history[0].remote, "r5");
    assert_eq!(history[9].remote, "r6");
}

#[test]
fn rows_show_the_entries() {
    let rows = rebuild_combo(&[entry("r", "l", ""), entry("r2", "l2", "ro")]);
    assert_eq!(rows.len(), 3);
    assert_eq!(rows[0].id, None);
    assert_eq!(rows[0].label, "— recent mounts —");
    assert_eq!(rows[1].id.as_deref(), Some("0"));
    assert_eq!(rows[1].label, "r  →  l");
    assert_eq!(rows[2].id.as_deref(), Some("1"));
    assert_eq!(rows[2].label, "r2  →  l2  (ro)");
    assert_eq!(rebuild_combo(&[]).len(), 1);
}

#[test]
fn rows_give_their_entries() {
    let mut history: Vec<HistoryEntry> = Vec::new();
    for i in 0..12 {
        history.push(entry(&format!("r{}", i), "l", ""));
    }
    let rows = rebuild_combo(&history);
    assert!(selected_entry(&history, rows[0].id.as_deref()).is_none());
    for i in 0..12 {
        let chosen = selected_entry(&history, rows[i + 1].id.as_deref()).unwrap();
        assert_eq!(chosen.remote, history[i].remote);
    }
}

#[test]
fn other_identifiers_give_none() {
    let history = [entry("r", "l", "")];
    for id in ["1", "", "x", "-0", "18446744073709551616"] {
        assert!(selected_entry(&history, Some(id)).is_none());
    }
    assert!(selected_entry(&history, Some("+0")).is_some());
    assert!(selected_entry(&history, None).is_none());
}
