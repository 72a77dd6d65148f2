//! Ephemeral filesystem resources: the temporary script files and named
//! pipes (FIFOs) that exist only for the duration of one run.
//!
//! The engine itself never touches the filesystem. It picks a fresh,
//! unique path under the scratch directory for every resource, hands the
//! paths out in a [`crate::engine::StartPlan`], and later says which
//! paths are to be removed. The embedding program creates and deletes
//! the objects.

use vstd::prelude::*;
use vstd::string::StringExecFns;

verus! {

/// File mode for a materialized script: read/write/execute for the
/// owner, read for everyone else.
pub const SCRIPT_MODE: u32 = 0o744;

/// File mode for a named pipe: read/write/execute for the owner only.
pub const PIPE_MODE: u32 = 0o700;

/// A temporary executable file materialized from a node's script text.
/// Holds the file's path under the scratch directory.
#[derive(Clone, Debug)]
pub struct Script(pub String);

/// A named pipe (FIFO) serving exactly one edge of the graph for one
/// run. Holds the FIFO's path under the scratch directory.
#[derive(Clone, Debug)]
pub struct Pipe(pub String);

/// One filesystem object of the current run, script or pipe, and
/// whether it is still held by some live process. A resource is created
/// at run start and is to be removed exactly once, when the last
/// process holding it is dropped.
#[derive(Clone, Debug)]
pub struct Resource {
    /// The object's path on disk.
    pub path: String,
    /// True while some live process still holds the resource; cleared
    /// exactly once, when the engine reports the path for deletion.
    pub alive: bool,
}

/// Relies on `uuid::Uuid::new_v4` and its `Display` form: a freshly
/// generated random identifier, rendered hyphenated as 36 characters.
#[verifier::external_body]
fn fresh_name() -> (r: String)
    ensures
        r@.len() == 36,
{
    uuid::Uuid::new_v4().to_string()
}

/// A fresh path for one ephemeral resource: the scratch directory, a
/// path separator, and a random 36-character name.
pub fn fresh_path(scratch: &str) -> (r: String)
    ensures
        r@.len() == scratch@.len() + 37,
        exists|name: Seq<char>|
            name.len() == 36 && r@ == scratch@ + "/"@ + name,
{
    let name = fresh_name();
    let mut r = String::from_str(scratch);
    r.append("/");
    r.append(name.as_str());
    proof {
        reveal_strlit("/");
        assert(r@ == scratch@ + "/"@ + name@);
    }
    r
}

} // verus!
