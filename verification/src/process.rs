//! The data half of the process gateway: the outcome of one external
//! invocation, the fixed commands of the validate-then-apply sequence, and
//! the interpretation of the captured validation step.  The spawning itself
//! is outside this library; every decision about an outcome is made here.

use vstd::prelude::*;

use crate::text::strs_view;
use vstd::string::StrSliceExecFns;
use vstd::string::StringExecFns;

verus! {

/// The outcome of one external invocation: the exit code, and the captured
/// streams (empty in interactive mode, where the streams are inherited).
#[derive(Debug, PartialEq)]
pub struct ProcessResult {
    pub exit_code: i32,
    pub stdout: String,
    pub stderr: String,
}

/// The position of the first line break at or after `i`.
pub open spec fn find_nl(s: Seq<char>, i: int) -> Option<int>
    decreases s.len() - i,
{
    if i < 0 || i >= s.len() {
        Option::None
    } else if s[i] == '\n' {
        Option::Some(i)
    } else {
        find_nl(s, i + 1)
    }
}

/// Everything after the first line: empty when there is no line break.
pub open spec fn drop_first_line(s: Seq<char>) -> Seq<char> {
    match find_nl(s, 0) {
        Option::Some(i) => s.subrange(i + 1, s.len() as int),
        Option::None => Seq::empty(),
    }
}

fn find_newline_from(s: &str, i: usize) -> (r: Option<usize>)
    ensures
        (match r {
            Option::Some(j) => find_nl(s@, i as int) == Option::Some(j as int) && j < s@.len()
                && s@[j as int] == '\n',
            Option::None => find_nl(s@, i as int) is None,
        }),
    decreases s@.len() - i,
{
    let n = s.unicode_len();
    if i >= n {
        Option::None
    } else if s.get_char(i) == '\n' {
        Option::Some(i)
    } else {
        find_newline_from(s, i + 1)
    }
}

/// The tool's report without its first line.
pub fn stderr_tail(s: &str) -> (t: String)
    ensures
        t@ == drop_first_line(s@),
{
    let n = s.unicode_len();
    match find_newline_from(s, 0) {
        Option::Some(j) => String::from_str(s.substring_char(j + 1, n)),
        Option::None => String::new(),
    }
}

/// The staging artifact's fixed path.
pub fn staging_path() -> (s: String)
    ensures
        s@ == "./tmp.yaml"@,
{
    String::from_str("./tmp.yaml")
}

/// The external orchestration tool's name.
pub fn compose_program() -> (s: String)
    ensures
        s@ == "docker-compose"@,
{
    String::from_str("docker-compose")
}

/// The argument list of the captured dry-run validation step.
pub fn config_check_args() -> (v: Vec<String>)
    ensures
        strs_view(v@) == seq!["-f"@, "./tmp.yaml"@, "config"@],
{
    let mut v: Vec<String> = Vec::new();
    v.push(String::from_str("-f"));
    v.push(String::from_str("./tmp.yaml"));
    v.push(String::from_str("config"));
    proof {
        assert(strs_view(v@) =~= seq!["-f"@, "./tmp.yaml"@, "config"@]);
    }
    v
}

/// The argument list of the interactive bring-up step.
pub fn up_args() -> (v: Vec<String>)
    ensures
        strs_view(v@) == seq!["-f"@, "./tmp.yaml"@, "up"@, "-d"@],
{
    let mut v: Vec<String> = Vec::new();
    v.push(String::from_str("-f"));
    v.push(String::from_str("./tmp.yaml"));
    v.push(String::from_str("up"));
    v.push(String::from_str("-d"));
    proof {
        assert(strs_view(v@) =~= seq!["-f"@, "./tmp.yaml"@, "up"@, "-d"@]);
    }
    v
}

/// Interprets the captured validation step: exit code zero passes; any other
/// exit code fails with the tool's report minus its first line.
pub fn config_check_outcome(r: &ProcessResult) -> (res: Result<(), String>)
    ensures
        r.exit_code == 0 ==> res is Ok,
        r.exit_code != 0 ==> (res matches Err(m) && m@ == drop_first_line(r.stderr@)),
{
    if r.exit_code == 0 {
        Ok(())
    } else {
        Err(stderr_tail(r.stderr.as_str()))
    }
}

/// After the captured validation step, the bring-up command is issued exactly
/// when that step exited zero; any other exit code stops the sequence.
pub fn plan_after_config(r: &ProcessResult) -> (p: Option<Vec<String>>)
    ensures
        (r.exit_code == 0) <==> (p is Some),
        (match p {
            Option::Some(args) => strs_view(args@) == seq!["-f"@, "./tmp.yaml"@, "up"@, "-d"@],
            Option::None => true,
        }),
{
    if r.exit_code == 0 {
        Option::Some(up_args())
    } else {
        Option::None
    }
}

} // verus!
