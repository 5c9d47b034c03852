# NFS Mount Manager

A small window for mounting and unmounting NFS shares on Linux, whose logic is
verified with Verus.

- `src/` is the library. Each function states its behaviour in a contract that
  Verus proves. Three contracts are trusted instead, since they speak of the
  standard library: those of `String::push` in `text`, of `char::from_u32` in
  `mounts`, and of `from_utf8_lossy` in `command`, which calls
  `String::from_utf8_lossy`.
  - `text`: trimming, lines and words; `decimal`: numbers as text.
  - `history`: the recent mounts, up to ten, and the file that keeps them from
    one session to the next.
  - `mounts`: the kernel's table of mounts and its escapes; `status`: what the
    window shows of the mount point.
  - `command`: the `mount` and `umount` commands that `pkexec` runs, and the
    messages of those that fail.
  - `markup`: text in the markup of labels.
  - `recent`: the list from which a recent mount is chosen.
  - `manager`: what the window does in answer to each event.
- `app/` is the program: widgets (GTK 4 and libadwaita), files and processes.
- `tests/` run the library on concrete values.

The history is kept in `nfs-mount/history` below the user's configuration
directory, one line for each mount, with a tab between the remote, the mount
point and the options.
