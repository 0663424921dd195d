//! The scratch files of a session, all under its scratch directory.

use vstd::prelude::*;
use vstd::string::StringExecFns;

verus! {

/// Retrieves the path to the goal file given the path to its directory.
pub fn goal_file(tmp_dir: &String) -> (r: String)
    ensures
        r@ == tmp_dir@ + "/goal"@,
{
    let mut r = tmp_dir.clone();
    r.append("/goal");
    r
}

/// Retrieves the path to the result file given its directory.
pub fn result_file(tmp_dir: &String) -> (r: String)
    ensures
        r@ == tmp_dir@ + "/result"@,
{
    let mut r = tmp_dir.clone();
    r.append("/result");
    r
}

/// Retrieves the file where all logging is done.
pub fn log_file(tmp_dir: &String) -> (r: String)
    ensures
        r@ == tmp_dir@ + "/log"@,
{
    let mut r = tmp_dir.clone();
    r.append("/log");
    r
}

} // verus!
