//! The development server: prove requests, their sandboxes, and the rows it
//! answers with.
use vstd::prelude::*;

use crate::ids::{is_hyphenated_uuid, new_uuid};
use crate::job::Job;
use crate::report::rows_of;
use crate::text::{ends_with, has_suffix};
use crate::view::{row_fields, shows_minutes, Row};

verus! {

/// A program and its specification, to be proved.
pub struct ProveRequest {
    pub program: String,
    pub spec: String,
}

/// Jobs whose rows are asked for again.
pub struct ReloadRequest {
    pub job_ids: Vec<i32>,
}

/// The rows of the jobs of a request.
pub struct ProveResponse {
    pub jobs: Vec<Row>,
}

/// Seconds that the prover gets for a job submitted through the server.
pub const DEV_TIMEOUT_SEC: i32 = 10800;

/// The response for the given jobs: their rows, in order.
pub fn get_response<F: Fn(i64) -> String>(jobs: &Vec<Job>, minutes: &F) -> (r: ProveResponse)
    requires
        forall|k: int| 0 <= k < jobs@.len() ==> (#[trigger] jobs@[k]).wf(),
        forall|x: i64| minutes.requires((x,)),
    ensures
        r.jobs@.len() == jobs@.len(),
        forall|k: int| 0 <= k < jobs@.len() ==> row_fields(#[trigger] jobs@[k], r.jobs@[k]),
        forall|k: int| 0 <= k < jobs@.len() ==> shows_minutes(#[trigger] jobs@[k], r.jobs@[k], minutes),
{
    ProveResponse { jobs: rows_of(jobs, minutes) }
}

/// A generated file that holds a specification to prove.
pub fn is_spec_file(file_name: &str) -> (r: bool)
    ensures
        r == has_suffix(file_name@, "spec.k"@),
{
    ends_with(file_name, "spec.k")
}

/// The directories and files of one prove request.
pub struct Sandbox {
    pub tmp_dir: String,
    pub sandbox_dir: String,
    pub program_dir: String,
    pub generated_dir: String,
    pub program_file: String,
    pub spec_file: String,
}

/// The layout of a sandbox under `/tmp`, named by `id`.
pub open spec fn sandbox_layout(id: Seq<char>, s: Sandbox) -> bool {
    let tmp = "/tmp/kdev-"@ + id;
    let sandbox = tmp + "/sandbox"@;
    let program = sandbox + "/program"@;
    &&& s.tmp_dir@ == tmp
    &&& s.sandbox_dir@ == sandbox
    &&& s.program_dir@ == program
    &&& s.generated_dir@ == program + "/generated"@
    &&& s.program_file@ == program + "/program.sol"@
    &&& s.spec_file@ == program + "/spec.ini"@
}

fn joined(a: &String, b: &str) -> (r: String)
    ensures
        r@ == a@ + b@,
{
    let mut r = a.clone();
    r.append(b);
    r
}

/// The sandbox named by `id`.
pub fn sandbox_with(id: &String) -> (s: Sandbox)
    ensures
        sandbox_layout(id@, s),
{
    let mut tmp_dir = String::from_str("/tmp/kdev-");
    tmp_dir.append(id.as_str());
    let sandbox_dir = joined(&tmp_dir, "/sandbox");
    let program_dir = joined(&sandbox_dir, "/program");
    let generated_dir = joined(&program_dir, "/generated");
    let program_file = joined(&program_dir, "/program.sol");
    let spec_file = joined(&program_dir, "/spec.ini");
    Sandbox { tmp_dir, sandbox_dir, program_dir, generated_dir, program_file, spec_file }
}

/// A fresh sandbox, named by a random UUID.
pub fn new_sandbox() -> (s: Sandbox)
    ensures
        exists|id: Seq<char>| is_hyphenated_uuid(id) && sandbox_layout(id, s),
{
    let id = new_uuid();
    sandbox_with(&id)
}

} // verus!
