use nfs_mount::command::{
    do_mount, do_umount, failure_message, privileged_result, run_privileged, thread_result,
    Outcome, PKEXEC,
};
use nfs_mount::history::HistoryEntry;
use nfs_mount::manager::{set_busy, Action, Event, Manager, Operation};

fn s(text: &str) -> String {
    text.to_string()
}

fn exited(success: bool, stdout: &[u8], stderr: &[u8]) -> Outcome {
    Outcome::Exited { success, stdout: stdout.to_vec(), stderr: stderr.to_vec() }
}

fn mount_clicked(remote: &str, local: &str, options: &str) -> Event {
    Event::MountClicked { remote: s(remote), local: s(local), options: s(options) }
}

fn mount(remote: &str, local: &str, options: &str) -> Operation {
    Operation::Mount {
        entry: HistoryEntry { remote: s(remote), local: s(local), options: s(options) },
    }
}

/// The actions in a form that can be compared.
fn shown(actions: &[Action]) -> Vec<String> {
    actions
        .iter()
        .map(|action| match action {
            Action::SetButtonsSensitive { sensitive } => format!("buttons {}", sensitive),
            Action::SetComboSensitive { sensitive } => format!("combo {}", sensitive),
            Action::FillForm { entry } => {
                format!("fill {}|{}|{}", entry.remote, entry.local, entry.options)
            }
            Action::RefreshStatus => s("refresh"),
            Action::ShowText { text } => format!("text {}", text),
            Action::ShowMarkup { markup } => format!("markup {}", markup),
            Action::Run { operation } => format!("run {}", operation.command().args.join(" ")),
            Action::SaveHistory { content } => format!("save {}", content),
            Action::RebuildCombo { rows } => {
                let labels: Vec<String> = rows.iter().map(|r| r.label.clone()).collect();
                format!("rows {}", labels.join("|"))
            }
        })
        .collect()
}

#[test]
fn mount_command() {
    let plain = do_mount(s(" nas:/a \n"), s("\t/mnt/a "), s("  "));
    assert_eq!(plain.program, "/usr/bin/pkexec");
    assert_eq!(plain.args, vec!["mount", "-t", "nfs", "nas:/a", "/mnt/a"]);
    let options = do_mount(s("nas:/a"), s("/mnt/a"), s(" vers=4,rw "));
    assert_eq!(options.args, vec!["mount", "-t", "nfs", "-o", "vers=4,rw", "nas:/a", "/mnt/a"]);
}

#[test]
fn umount_command() {
    let command = do_umount(s(" /mnt/a b "));
    assert_eq!(command.program, PKEXEC);
    assert_eq!(command.args, vec!["umount", "/mnt/a b"]);
    assert_eq!(run_privileged(vec![s("x")]).args, vec!["x"]);
}

#[test]
fn operations_have_the_commands_of_the_form() {
    assert_eq!(mount("r", "l", "o").command().args, do_mount(s(" r "), s("l "), s(" o")).args);
    assert_eq!(Operation::Unmount { local: s("l") }.command().args, do_umount(s(" l ")).args);
}

#[test]
fn success_has_no_message() {
    assert_eq!(privileged_result(&exited(true, b"out", b"err")), Ok(()));
}

#[test]
fn failures_tell_what_was_written() {
    assert_eq!(privileged_result(&exited(false, b"out", b" err\n")), Err(s("err")));
    assert_eq!(privileged_result(&exited(false, b"out\n", b" \n")), Err(s("out")));
    assert_eq!(privileged_result(&exited(false, b"\n", b"")), Err(s("Command failed")));
    assert_eq!(failure_message("", ""), "Command failed");
    assert_eq!(failure_message(" e ", "o"), "e");
    assert_eq!(failure_message(" ", " o "), "o");
}

#[test]
fn messages_are_decoded() {
    assert_eq!(
        privileged_result(&exited(false, b"", "größe → x".as_bytes())),
        Err(s("größe → x"))
    );
    assert_eq!(
        privileged_result(&exited(false, b"", b"a\xffb")),
        Err(s("a\u{fffd}b"))
    );
}

#[test]
fn a_program_that_does_not_start() {
    assert_eq!(
        privileged_result(&Outcome::NotLaunched { error: s("No such file") }),
        Err(s("Failed to launch pkexec: No such file"))
    );
}

#[test]
fn a_thread_that_panics() {
    assert_eq!(thread_result(None), Err(s("Thread panicked")));
    assert_eq!(thread_result(Some(Ok(()))), Ok(()));
    assert_eq!(thread_result(Some(Err(s("e")))), Err(s("e")));
}

#[test]
fn only_the_buttons_follow_busy() {
    assert_eq!(shown(&set_busy(true)), vec!["buttons false"]);
    assert_eq!(shown(&set_busy(false)), vec!["buttons true"]);
}

#[test]
fn the_window_is_locked_and_unlocked() {
    let mut manager = Manager::new(None);
    let started = manager.handle(Event::UnmountClicked { local: s("/m") });
    assert_eq!(shown(&started)[..2], ["buttons false", "combo false"]);
    let operation = Operation::Unmount { local: s("/m") };
    let finished = manager.handle(Event::OperationFinished { operation, joined: None });
    assert_eq!(shown(&finished)[..2], ["buttons true", "combo true"]);
}

#[test]
fn the_history_is_read_at_the_start() {
    assert!(Manager::new(None).history.is_empty());
    let manager = Manager::new(Some("r\tl\to\n"));
    assert_eq!(manager.history.len(), 1);
    assert_eq!(manager.rows().len(), 2);
}

#[test]
fn blank_forms_are_refused() {
    let mut manager = Manager::new(Some("r\tl\n"));
    let required = vec!["text Remote and mount point are required."];
    assert_eq!(shown(&manager.handle(mount_clicked(" ", "/m", ""))), required);
    assert_eq!(shown(&manager.handle(mount_clicked("r", "\t", ""))), required);
    assert_eq!(
        shown(&manager.handle(Event::UnmountClicked { local: s("  ") })),
        vec!["text Mount point is required."]
    );
    assert_eq!(manager.history.len(), 1);
}

#[test]
fn a_mount_from_click_to_list() {
    let mut manager = Manager::new(None);
    let mut actions = manager.handle(mount_clicked(" nas:/a ", "/m ", " ro"));
    assert_eq!(
        shown(&actions),
        vec![
            "buttons false",
            "combo false",
            "text Mounting…",
            "run mount -t nfs -o ro nas:/a /m"
        ]
    );
    assert!(manager.history.is_empty());
    let operation = match actions.pop() {
        Some(Action::Run { operation }) => operation,
        _ => panic!("nothing runs"),
    };
    let actions = manager.handle(Event::OperationFinished { operation, joined: Some(Ok(())) });
    assert_eq!(
        shown(&actions),
        vec!["buttons true", "combo true", "refresh", "save nas:/a\t/m\tro"]
    );
    assert_eq!(manager.history.len(), 1);
    assert_eq!(
        shown(&manager.handle(Event::HistorySaved { result: Ok(()) })),
        vec!["text ", "rows — recent mounts —|nas:/a  →  /m  (ro)"]
    );
    assert_eq!(
        shown(&manager.handle(Event::HistorySaved { result: Err(s("disk <full>")) }))[0],
        "markup <span color='#e01b24'>Mounted, but failed to save history: disk &lt;full&gt;</span>"
    );
}

#[test]
fn blanks_around_the_texts_make_no_new_entry() {
    let mut manager = Manager::new(Some("nas:/a\t/m\told\n"));
    let mut actions = manager.handle(mount_clicked("  nas:/a", "/m\t", "new"));
    if let Some(Action::Run { operation }) = actions.pop() {
        manager.handle(Event::OperationFinished { operation, joined: Some(Ok(())) });
    }
    assert_eq!(manager.history.len(), 1);
    assert_eq!(manager.history[0].options, "new");
}

#[test]
fn the_next_session_finds_the_mount() {
    let mut manager = Manager::new(None);
    let operation = mount("n\tas", "/m", "");
    let event = Event::OperationFinished { operation, joined: Some(Ok(())) };
    match manager.handle(event).pop() {
        Some(Action::SaveHistory { content }) => {
            let next = Manager::new(Some(&content));
            assert_eq!(next.history.len(), 1);
            assert_eq!(next.history[0].remote, "nas");
        }
        _ => panic!("nothing is saved"),
    }
}

#[test]
fn a_mount_that_fails_changes_nothing() {
    let mut manager = Manager::new(Some("r\tl\n"));
    for (joined, message) in [(Some(Err(s("a & b"))), "a &amp; b"), (None, "Thread panicked")] {
        let event = Event::OperationFinished { operation: mount("x", "y", ""), joined };
        assert_eq!(
            shown(&manager.handle(event)),
            vec![
                s("buttons true"),
                s("combo true"),
                format!("markup <span color='#e01b24'>{}</span>", message)
            ]
        );
    }
    assert_eq!(manager.history.len(), 1);
    assert_eq!(manager.history[0].remote, "r");
}

#[test]
fn an_unmount_from_click_to_end() {
    let mut manager = Manager::new(Some("r\tl\n"));
    assert_eq!(
        shown(&manager.handle(Event::UnmountClicked { local: s(" /m ") })),
        vec!["buttons false", "combo false", "text Unmounting…", "run umount /m"]
    );
    let operation = Operation::Unmount { local: s("/m") };
    assert_eq!(
        shown(&manager.handle(Event::OperationFinished { operation, joined: Some(Ok(())) })),
        vec!["buttons true", "combo true", "text ", "refresh"]
    );
    assert_eq!(manager.history.len(), 1);
}

#[test]
fn the_status_follows_the_form() {
    let mut manager = Manager::new(None);
    assert_eq!(shown(&manager.handle(Event::LocalChanged)), vec!["refresh"]);
    assert_eq!(shown(&manager.handle(Event::RefreshClicked)), vec!["refresh"]);
}

#[test]
fn a_recent_mount_fills_the_form() {
    let mut manager = Manager::new(Some("r\tl\to\nr2\tl2\n"));
    assert_eq!(
        shown(&manager.handle(Event::RecentChanged { id: Some(s("1")) })),
        vec!["fill r2|l2|"]
    );
    assert!(manager.handle(Event::RecentChanged { id: Some(s("2")) }).is_empty());
    assert!(manager.handle(Event::RecentChanged { id: None }).is_empty());
}

#[test]
fn many_mounts_stay_within_the_bound() {
    let mut manager = Manager::new(None);
    for i in 0..25 {
        let operation = mount(&format!("r{}", i % 13), "/m", "");
        manager.handle(Event::OperationFinished { operation, joined: Some(Ok(())) });
        assert!(manager.history.len() <= 10);
    }
    assert_eq!(manager.history.len(), 10);
}
