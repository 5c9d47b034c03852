use nfs_mount::mounts::{decode_proc_path, is_mounted, MOUNTS_FILE};
use nfs_mount::status::{needs_table, refresh_status, Status};

const TABLE: &str = "sysfs /sys sysfs rw,nosuid 0 0\n\
    nas:/exports/share /mnt/my\\040nas nfs4 rw,vers=4.2 0 0\n\
    /dev/sda1 / ext4 rw,relatime 0 0\n\
    nas:/odd /mnt/a\\011b\\134c\\012d nfs rw 0 0\n";

/// A path as the kernel writes it into the table.
fn encode(path: &str) -> String {
    let mut out = String::new();
    for c in path.chars() {
        if matches!(c, ' ' | '\t' | '\n' | '\\' | '#') {
            out.push_str(&format!("\\{:03o}", c as u32));
        } else {
            out.push(c);
        }
    }
    out
}

#[test]
fn plain_paths_are_unchanged() {
    assert_eq!(decode_proc_path("/mnt/data"), "/mnt/data");
    assert_eq!(decode_proc_path("/mnt/größe→"), "/mnt/größe→");
    assert_eq!(decode_proc_path(""), "");
}

#[test]
fn octal_escapes_are_decoded() {
    assert_eq!(decode_proc_path("/mnt/my\\040nas"), "/mnt/my nas");
    assert_eq!(decode_proc_path("\\011\\012\\134"), "\t\n\\");
    assert_eq!(decode_proc_path("\\134040"), "\\040");
    assert_eq!(decode_proc_path("\\000\\377\\777"), "\u{0}\u{ff}\u{1ff}");
}

#[test]
fn what_is_no_escape_stays() {
    assert_eq!(decode_proc_path("\\"), "\\");
    assert_eq!(decode_proc_path("a\\04"), "a\\04");
    assert_eq!(decode_proc_path("\\048x"), "\\048x");
    assert_eq!(decode_proc_path("\\x\\040"), "\\x\\040");
    assert_eq!(decode_proc_path("\\abc\\040"), "\\abc ");
    assert_eq!(decode_proc_path("\\\\\\\\\\040"), "\\\\\\\\ ");
}

#[test]
fn decoding_undoes_the_escapes_of_the_kernel() {
    for path in ["/a b", "/\\040", "/tab\there", "/new\nline", "/#hash", "\\\\\\", "/ä ö\\ü"] {
        assert_eq!(decode_proc_path(&encode(path)), path);
    }
}

#[test]
fn mount_points_are_found_in_the_table() {
    assert_eq!(is_mounted("/sys", Some(TABLE)), Some(true));
    assert_eq!(is_mounted("/mnt/my nas", Some(TABLE)), Some(true));
    assert_eq!(is_mounted("/mnt/a\tb\\c\nd", Some(TABLE)), Some(true));
    assert_eq!(is_mounted("/mnt/my\\040nas", Some(TABLE)), Some(false));
    assert_eq!(is_mounted("/mnt/my", Some(TABLE)), Some(false));
    assert_eq!(is_mounted("/mnt", Some(TABLE)), Some(false));
    assert_eq!(is_mounted("sysfs", Some(TABLE)), Some(false));
    assert_eq!(is_mounted("/sys", Some("")), Some(false));
}

#[test]
fn slashes_at_the_end_do_not_matter() {
    assert_eq!(is_mounted("/sys/", Some(TABLE)), Some(true));
    assert_eq!(is_mounted("/sys///", Some(TABLE)), Some(true));
    assert_eq!(is_mounted("/", Some(TABLE)), Some(true));
    assert_eq!(is_mounted("", Some(TABLE)), Some(true));
    assert_eq!(is_mounted("/a", Some("dev /a// nfs")), Some(true));
}

#[test]
fn a_table_that_cannot_be_read_says_nothing() {
    assert_eq!(is_mounted("/sys", None), None);
}

#[test]
fn short_lines_list_nothing() {
    assert_eq!(is_mounted("/a", Some("\n   \n/a\ndev")), Some(false));
    assert_eq!(is_mounted("/a", Some("  dev\t/a")), Some(true));
    assert_eq!(is_mounted("/a", Some("dev /b\r\ndev /a\r\n")), Some(true));
}

#[test]
fn status_of_the_mount_point() {
    assert_eq!(refresh_status("   ", Some(TABLE)), Status::NoMountPoint);
    assert_eq!(refresh_status("", None), Status::NoMountPoint);
    assert_eq!(refresh_status(" /sys\t", Some(TABLE)), Status::Mounted);
    assert_eq!(refresh_status("/none", Some(TABLE)), Status::NotMounted);
    assert_eq!(refresh_status("/sys", None), Status::Unknown);
}

#[test]
fn the_table_is_needed_only_for_a_mount_point() {
    assert!(!needs_table(""));
    assert!(!needs_table(" \t\u{a0}"));
    assert!(needs_table(" /mnt"));
    assert_eq!(MOUNTS_FILE, "/proc/mounts");
}

#[test]
fn status_markup() {
    assert_eq!(
        Status::NoMountPoint.markup(),
        "<span color='gray'>● enter a mount point above</span>"
    );
    assert_eq!(
        Status::Mounted.markup(),
        "<span color='#2ec27e' weight='bold'>● Mounted</span>"
    );
    assert_eq!(Status::NotMounted.markup(), "<span color='#e01b24'>● Not mounted</span>");
    assert_eq!(Status::Unknown.markup(), "<span color='gray'>● status unknown</span>");
}
