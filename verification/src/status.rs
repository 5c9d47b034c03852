//! What the window shows of the state of the mount point.
use vstd::prelude::*;

use crate::mounts::{
    is_escape_set, is_mounted, mounted_iff_in_table, mounted_in, table_text, well_formed, MountLine,
};
use crate::text::{
    trimmed, trimmed_string, trimming_removes_the_padding, without_trailing, Padded,
};

verus! {

/// What is known of the mount point in the form.
#[derive(Debug, Clone, Copy, PartialEq, Eq, Structural)]
pub enum Status {
    /// The form names no mount point.
    NoMountPoint,
    Mounted,
    NotMounted,
    /// The table of mounts could not be read.
    Unknown,
}

/// What is known of the mount point `text` from the table of mounts, if there
/// is one.
pub open spec fn status_of(text: Seq<char>, table: Option<Seq<char>>) -> Status {
    if trimmed(text).len() == 0 {
        Status::NoMountPoint
    } else {
        match table {
            Some(table) => if mounted_in(table, trimmed(text)) {
                Status::Mounted
            } else {
                Status::NotMounted
            },
            None => Status::Unknown,
        }
    }
}

/// The markup that the window shows for a status.
pub open spec fn status_span(status: Status) -> Seq<char> {
    match status {
        Status::NoMountPoint => "<span color='gray'>● enter a mount point above</span>"@,
        Status::Mounted => "<span color='#2ec27e' weight='bold'>● Mounted</span>"@,
        Status::NotMounted => "<span color='#e01b24'>● Not mounted</span>"@,
        Status::Unknown => "<span color='gray'>● status unknown</span>"@,
    }
}

impl Status {
    /// The markup that shows this status.
    pub fn markup(self) -> (r: &'static str)
        ensures
            r@ == status_span(self),
    {
        match self {
            Status::NoMountPoint => "<span color='gray'>● enter a mount point above</span>",
            Status::Mounted => "<span color='#2ec27e' weight='bold'>● Mounted</span>",
            Status::NotMounted => "<span color='#e01b24'>● Not mounted</span>",
            Status::Unknown => "<span color='gray'>● status unknown</span>",
        }
    }
}

/// Whether the table of mounts is needed to tell the status of `text`.
pub fn needs_table(text: &str) -> (r: bool)
    ensures
        r == (trimmed(text@).len() > 0),
        !r ==> forall|table: Option<Seq<char>>| #[trigger]
            status_of(text@, table) == Status::NoMountPoint,
{
    !trimmed_string(text).as_str().is_empty()
}

/// The status of the mount point `text`, from the table of mounts or from
/// `None` if it could not be read.
pub fn refresh_status(text: &str, table: Option<&str>) -> (r: Status)
    ensures
        r == status_of(
            text@,
            match table {
                Some(table) => Some(table@),
                None => None,
            },
        ),
{
    let mp = trimmed_string(text);
    if mp.as_str().is_empty() {
        return Status::NoMountPoint;
    }
    match is_mounted(mp.as_str(), table) {
        Some(true) => Status::Mounted,
        Some(false) => Status::NotMounted,
        None => Status::Unknown,
    }
}

/// Each status looks different from the others, so that an unreadable table is
/// never taken for a mount point that is not mounted.
pub proof fn statuses_look_different(a: Status, b: Status)
    ensures
        status_span(a) == status_span(b) <==> a == b,
{
    reveal_strlit("<span color='gray'>● enter a mount point above</span>");
    reveal_strlit("<span color='#2ec27e' weight='bold'>● Mounted</span>");
    reveal_strlit("<span color='#e01b24'>● Not mounted</span>");
    reveal_strlit("<span color='gray'>● status unknown</span>");
    assert(status_span(Status::NoMountPoint).len() == 53);
    assert(status_span(Status::Mounted).len() == 52);
    assert(status_span(Status::NotMounted).len() == 42);
    assert(status_span(Status::Unknown).len() == 42);
    assert(status_span(Status::NotMounted)[13] == '#');
    assert(status_span(Status::Unknown)[13] == 'g');
}

/// The status speaks of the whole text of the form, apart from the white space
/// around it: without a text there is no mount point, without a table nothing
/// is known, and with a table it is mounted exactly if the table lists it.
pub proof fn status_is_that_of_the_whole_mount_point(p: Padded, table: Seq<char>)
    requires
        p.is_valid(),
    ensures
        p.text.len() == 0 ==> status_of(p.whole(), Some(table)) == Status::NoMountPoint
            && status_of(p.whole(), None) == Status::NoMountPoint,
        p.text.len() > 0 ==> status_of(p.whole(), None) == Status::Unknown,
        p.text.len() > 0 && mounted_in(table, p.text) ==> status_of(p.whole(), Some(table))
            == Status::Mounted,
        p.text.len() > 0 && !mounted_in(table, p.text) ==> status_of(p.whole(), Some(table))
            == Status::NotMounted,
{
    trimming_removes_the_padding(p);
}

/// With a table that the kernel wrote, a mount point is shown as mounted
/// exactly if it is the path of one of the lines, apart from slashes at the end
/// of either, and otherwise as not mounted.
pub proof fn status_tells_whether_the_kernel_lists_it(
    table: Seq<MountLine>,
    special: Set<char>,
    p: Padded,
)
    requires
        is_escape_set(special),
        forall|i: int| 0 <= i < table.len() ==> well_formed(#[trigger] table[i], special),
        p.is_valid(),
        p.text.len() > 0,
    ensures
        status_of(p.whole(), Some(table_text(table, special))) == (if exists|i: int|
            0 <= i < table.len() && without_trailing((#[trigger] table[i]).path, '/')
                == without_trailing(p.text, '/') {
            Status::Mounted
        } else {
            Status::NotMounted
        }),
{
    trimming_removes_the_padding(p);
    mounted_iff_in_table(table, special, p.text);
}

} // verus!
