//! The commands that need privileges, and what became of them.
use vstd::prelude::*;
use vstd::string::*;
use vstd::utf8::{decode_utf8, valid_utf8};

use crate::text::{trimmed, trimmed_string, trimming_removes_the_padding, Padded};

verus! {

/// The program that runs a command with privileges, by its full path, so that
/// the search path has no say in which program it is.
pub const PKEXEC: &'static str = "/usr/bin/pkexec";

/// A program to run and its arguments.
#[derive(Debug)]
pub struct Invocation {
    pub program: String,
    pub args: Vec<String>,
}

/// What became of an invocation.
#[derive(Debug)]
pub enum Outcome {
    /// The program could not be started.
    NotLaunched { error: String },
    /// The program ended, with success or not, and wrote this.
    Exited { success: bool, stdout: Vec<u8>, stderr: Vec<u8> },
}

// ---------------------------------------------------------------------------
// Specifications
// ---------------------------------------------------------------------------

/// What a list of strings holds.
pub open spec fn strings_of(v: Seq<String>) -> Seq<Seq<char>> {
    v.map_values(|s: String| s@)
}

/// The arguments of the command that mounts `remote` on `local`.
pub open spec fn mount_args(
    remote: Seq<char>,
    local: Seq<char>,
    options: Seq<char>,
) -> Seq<Seq<char>> {
    let opts: Seq<Seq<char>> = if trimmed(options).len() > 0 {
        seq!["-o"@, trimmed(options)]
    } else {
        seq![]
    };
    seq!["mount"@, "-t"@, "nfs"@] + opts + seq![trimmed(remote), trimmed(local)]
}

/// The arguments of the command that unmounts `local`.
pub open spec fn umount_args(local: Seq<char>) -> Seq<Seq<char>> {
    seq!["umount"@, trimmed(local)]
}

/// What a command that failed has to say: what it wrote to its error output,
/// or else to its output, or else only that it failed.
pub open spec fn failure_text(stderr: Seq<char>, stdout: Seq<char>) -> Seq<char> {
    if trimmed(stderr).len() > 0 {
        trimmed(stderr)
    } else if trimmed(stdout).len() > 0 {
        trimmed(stdout)
    } else {
        "Command failed"@
    }
}

/// The text that bytes stand for in UTF-8, where bytes that are not valid are
/// replaced.
pub uninterp spec fn lossy_text(bytes: Seq<u8>) -> Seq<char>;

/// The message of an outcome that is a failure.
pub open spec fn failure_of(outcome: Outcome) -> Option<Seq<char>> {
    match outcome {
        Outcome::NotLaunched { error } => Some("Failed to launch pkexec: "@ + error@),
        Outcome::Exited { success, stdout, stderr } => if success {
            None
        } else {
            Some(failure_text(lossy_text(stderr@), lossy_text(stdout@)))
        },
    }
}

// ---------------------------------------------------------------------------
// Functions
// ---------------------------------------------------------------------------

/// `String::from_utf8_lossy` decodes UTF-8. Bytes that are valid UTF-8 give
/// exactly the text that they encode. In others it puts the replacement
/// character in place of what is not valid; where and how often is left to the
/// name `lossy_text`.
#[verifier::external_body]
fn from_utf8_lossy(bytes: &[u8]) -> (r: String)
    ensures
        r@ == lossy_text(bytes@),
        valid_utf8(bytes@) ==> r@ == decode_utf8(bytes@),
        !valid_utf8(bytes@) ==> r@.contains('\u{fffd}'),
{
    String::from_utf8_lossy(bytes).into_owned()
}

/// The command that mounts `remote` on `local`.
pub fn do_mount(remote: String, local: String, options: String) -> (r: Invocation)
    ensures
        r.program@ == PKEXEC@,
        strings_of(r.args@) == mount_args(remote@, local@, options@),
{
    let mut args: Vec<String> = Vec::new();
    args.push("mount".to_string());
    args.push("-t".to_string());
    args.push("nfs".to_string());
    let opts = trimmed_string(options.as_str());
    if !opts.as_str().is_empty() {
        args.push("-o".to_string());
        args.push(opts);
    }
    args.push(trimmed_string(remote.as_str()));
    args.push(trimmed_string(local.as_str()));
    assert(strings_of(args@) =~= mount_args(remote@, local@, options@));
    run_privileged(args)
}

/// The command that unmounts `local`.
pub fn do_umount(local: String) -> (r: Invocation)
    ensures
        r.program@ == PKEXEC@,
        strings_of(r.args@) == umount_args(local@),
{
    let mut args: Vec<String> = Vec::new();
    args.push("umount".to_string());
    args.push(trimmed_string(local.as_str()));
    assert(strings_of(args@) =~= umount_args(local@));
    run_privileged(args)
}

/// The invocation that runs a command with privileges.
pub fn run_privileged(args: Vec<String>) -> (r: Invocation)
    ensures
        r.program@ == PKEXEC@,
        r.args == args,
{
    Invocation { program: PKEXEC.to_string(), args }
}

/// The message of a command that failed, from what it wrote.
pub fn failure_message(stderr: &str, stdout: &str) -> (r: String)
    ensures
        r@ == failure_text(stderr@, stdout@),
{
    let err = trimmed_string(stderr);
    if !err.as_str().is_empty() {
        return err;
    }
    let out = trimmed_string(stdout);
    if !out.as_str().is_empty() {
        return out;
    }
    "Command failed".to_string()
}

/// The result of a command that was run with privileges.
pub fn privileged_result(outcome: &Outcome) -> (r: Result<(), String>)
    ensures
        match r {
            Ok(()) => failure_of(*outcome) is None,
            Err(message) => failure_of(*outcome) == Some(message@),
        },
        match *outcome {
            Outcome::Exited { success, stdout, stderr } => !success && valid_utf8(stdout@)
                && valid_utf8(stderr@) ==> (r matches Err(message) && message@ == failure_text(
                decode_utf8(stderr@),
                decode_utf8(stdout@),
            )),
            Outcome::NotLaunched { error } => true,
        },
{
    match outcome {
        Outcome::NotLaunched { error } => {
            let mut message = "Failed to launch pkexec: ".to_string();
            message.append(error.as_str());
            Err(message)
        },
        Outcome::Exited { success, stdout, stderr } => {
            if *success {
                return Ok(());
            }
            let err = from_utf8_lossy(stderr.as_slice());
            let out = from_utf8_lossy(stdout.as_slice());
            Err(failure_message(err.as_str(), out.as_str()))
        },
    }
}

/// The result of an operation that ran on a thread of its own, where `None`
/// stands for a thread that panicked.
pub fn thread_result(joined: Option<Result<(), String>>) -> (r: Result<(), String>)
    ensures
        joined matches Some(result) ==> r == result,
        joined is None ==> (r matches Err(message) && message@ == "Thread panicked"@),
{
    match joined {
        Some(result) => result,
        None => Err("Thread panicked".to_string()),
    }
}

// ---------------------------------------------------------------------------
// Laws
// ---------------------------------------------------------------------------

/// A failure always has something to say.
pub proof fn failures_are_not_silent(outcome: Outcome)
    ensures
        failure_of(outcome) matches Some(message) ==> message.len() > 0,
{
    reveal_strlit("Failed to launch pkexec: ");
    reveal_strlit("Command failed");
}

/// The command that mounts names the type, the options if there are any, the
/// remote and the mount point, each of them whole and without the white space
/// around it.
pub proof fn mount_command_names_what_is_mounted(remote: Padded, local: Padded, options: Padded)
    requires
        remote.is_valid(),
        local.is_valid(),
        options.is_valid(),
    ensures
        ({
            let args = mount_args(remote.whole(), local.whole(), options.whole());
            let n = args.len() as int;
            &&& n == (if options.text.len() > 0 { 7int } else { 5 })
            &&& args[0] == "mount"@
            &&& args[1] == "-t"@
            &&& args[2] == "nfs"@
            &&& options.text.len() > 0 ==> args[3] == "-o"@ && args[4] == options.text
            &&& args[n - 2] == remote.text
            &&& args[n - 1] == local.text
        }),
{
    trimming_removes_the_padding(remote);
    trimming_removes_the_padding(local);
    trimming_removes_the_padding(options);
}

/// The command that unmounts names the whole mount point, without the white
/// space around it.
pub proof fn umount_command_names_the_mount_point(local: Padded)
    requires
        local.is_valid(),
    ensures
        umount_args(local.whole()).len() == 2,
        umount_args(local.whole())[0] == "umount"@,
        umount_args(local.whole())[1] == local.text,
{
    trimming_removes_the_padding(local);
}

/// A command that failed is reported with all that it wrote to its error
/// output, without the white space around it; if that is blank, with all that
/// it wrote to its output; if that is blank too, with a text of its own.
pub proof fn failures_tell_all_that_was_written(stderr: Padded, stdout: Padded)
    requires
        stderr.is_valid(),
        stdout.is_valid(),
    ensures
        stderr.text.len() > 0 ==> failure_text(stderr.whole(), stdout.whole()) == stderr.text,
        stderr.text.len() == 0 && stdout.text.len() > 0 ==> failure_text(
            stderr.whole(),
            stdout.whole(),
        ) == stdout.text,
        stderr.text.len() == 0 && stdout.text.len() == 0 ==> failure_text(
            stderr.whole(),
            stdout.whole(),
        ) == "Command failed"@,
{
    trimming_removes_the_padding(stderr);
    trimming_removes_the_padding(stdout);
}

/// A command fails exactly if it was not launched or ended without success,
/// whatever it wrote. If it was not launched, the message ends with the whole
/// reason.
pub proof fn commands_fail_without_success(outcome: Outcome)
    ensures
        match outcome {
            Outcome::NotLaunched { error } => failure_of(outcome) == Some(
                "Failed to launch pkexec: "@ + error@,
            ),
            Outcome::Exited { success, stdout, stderr } => {
                &&& success <==> failure_of(outcome) is None
                &&& failure_of(outcome) matches Some(message) ==> message == failure_text(
                    lossy_text(stderr@),
                    lossy_text(stdout@),
                )
            },
        },
{
}

/// What is seen of a list of strings is each of them, whole and in its place.
pub proof fn strings_are_seen_whole(v: Seq<String>)
    ensures
        strings_of(v).len() == v.len(),
        forall|i: int| 0 <= i < v.len() ==> #[trigger] strings_of(v)[i] == v[i]@,
{
}

} // verus!
