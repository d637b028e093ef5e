//! The invocation of the client for one session, and what its exit status
//! means.

use crate::error::Error;
use crate::text::texts;
use vstd::prelude::*;
use vstd::string::StringExecFns;

verus! {

/// The option that places the control socket in the state directory. The
/// client itself fills in user, host and port.
pub open spec fn control_path(folder: Seq<char>) -> Seq<char> {
    "ControlPath="@ + folder + "/%r@%h:%p"@
}

/// The arguments of the client: a master connection is set up where there
/// is none, its socket is in the state directory, and it stays for later
/// sessions; a detached session runs in the background without a shell or a
/// terminal; the alias comes last.
pub open spec fn client_arguments(alias: Seq<char>, detached: bool, folder: Seq<char>) -> Seq<
    Seq<char>,
> {
    seq!["-o"@, "ControlMaster=auto"@, "-o"@, control_path(folder), "-o"@, "ControlPersist=yes"@]
        + (if detached {
        seq!["-fN"@, "-T"@]
    } else {
        Seq::empty()
    }) + seq![alias]
}

/// The name of the client's executable.
pub fn client_program() -> (program: String)
    ensures
        program@ == "ssh"@,
{
    "ssh".to_owned()
}

/// The arguments with which the client is run for a session with `alias`.
pub fn session_arguments(alias: &str, detached: bool, folder: &str) -> (out: Vec<String>)
    ensures
        texts(out@) == client_arguments(alias@, detached, folder@),
{
    let mut path = "ControlPath=".to_owned();
    path.append(folder);
    path.append("/%r@%h:%p");
    let mut out: Vec<String> = Vec::new();
    out.push("-o".to_owned());
    out.push("ControlMaster=auto".to_owned());
    out.push("-o".to_owned());
    out.push(path);
    out.push("-o".to_owned());
    out.push("ControlPersist=yes".to_owned());
    if detached {
        out.push("-fN".to_owned());
        out.push("-T".to_owned());
    }
    out.push(alias.to_owned());
    assert(texts(out@) == client_arguments(alias@, detached, folder@));
    out
}

/// What the client's exit means: success for the code 0, and a failure
/// that carries the code for any other, or for an end without a code.
pub fn session_outcome(code: Option<i32>) -> (r: Result<(), Error>)
    ensures
        code == Some(0i32) ==> r == Ok::<(), Error>(()),
        code != Some(0i32) ==> r == Err::<(), Error>(Error::Session { code }),
{
    match code {
        Some(0) => Ok(()),
        _ => Err(Error::Session { code }),
    }
}

} // verus!
