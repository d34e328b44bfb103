//! How one run of a candidate solution on one test case is judged, from what
//! the run printed and how it ended.
use vstd::prelude::*;
use crate::text::{trim_end, trim_end_chars, chars_eq};
use crate::tokenizer::{chars_of, string_of};

verus! {

/// Outcome of one test case.
#[derive(Debug)]
pub enum TestResult {
    Success,
    UnableToRun { error_msg: String },
    WrongOutput { stdout: String, stderr: String },
    RuntimeError { stdout: String, stderr: String },
    Timeout { stdout: String, stderr: String },
}

impl TestResult {
    pub fn is_success(&self) -> (r: bool)
        ensures
            r == (self is Success),
    {
        match self {
            TestResult::Success => true,
            _ => false,
        }
    }
}

/// `s[i..]` with each `\r\n` turned into `\n`.
pub open spec fn crlf_from(s: Seq<char>, i: int) -> Seq<char>
    decreases s.len() - i,
{
    if i < 0 || i >= s.len() {
        Seq::empty()
    } else if i + 1 < s.len() && s[i] == '\r' && s[i + 1] == '\n' {
        seq!['\n'] + crlf_from(s, i + 2)
    } else {
        seq![s[i]] + crlf_from(s, i + 1)
    }
}

/// What a program printed, as it is compared: line ends made `\n`, trailing
/// whitespace removed.
pub open spec fn normalized(s: Seq<char>) -> Seq<char> {
    trim_end(crlf_from(s, 0))
}

fn normalize(s: &Vec<char>) -> (r: Vec<char>)
    ensures
        r@ == normalized(s@),
{
    let mut out: Vec<char> = Vec::new();
    let mut i: usize = 0;
    let n: usize = s.len();
    while i < n
        invariant
            n == s@.len(),
            i <= n,
            out@ + crlf_from(s@, i as int) == crlf_from(s@, 0),
        decreases n - i,
    {
        let ghost prev = out@;
        if i + 1 < n && s[i] == '\r' && s[i + 1] == '\n' {
            out.push('\n');
            assert(prev + crlf_from(s@, i as int) =~= out@ + crlf_from(s@, i + 2));
            i = i + 2;
        } else {
            out.push(s[i]);
            assert(prev + crlf_from(s@, i as int) =~= out@ + crlf_from(s@, i + 1));
            i = i + 1;
        }
    }
    assert(out@ + crlf_from(s@, i as int) =~= out@);
    trim_end_chars(&out)
}

/// The verdict on one run, as a code: 0 where the output matches the expected
/// one (both compared without trailing whitespace), else 1 where the run timed
/// out, else 2 where it exited with success (wrong output), else 3 (it failed).
pub open spec fn verdict(
    stdout: Seq<char>,
    expected: Seq<char>,
    timed_out: bool,
    exited_ok: bool,
) -> int {
    if normalized(stdout) == trim_end(expected) {
        0
    } else if timed_out {
        1
    } else if exited_ok {
        2
    } else {
        3
    }
}

/// Judges one finished run from what it printed and how it ended.
pub fn get_result(
    stdout: &str,
    stderr: &str,
    expected: &str,
    timed_out: bool,
    exited_ok: bool,
) -> (r: TestResult)
    ensures
        verdict(stdout@, expected@, timed_out, exited_ok) == 0 <==> r is Success,
        verdict(stdout@, expected@, timed_out, exited_ok) == 1 <==> (r matches TestResult::Timeout {
            stdout: o,
            stderr: e,
        } && o@ == normalized(stdout@) && e@ == stderr@),
        verdict(stdout@, expected@, timed_out, exited_ok) == 2 <==> (
        r matches TestResult::WrongOutput { stdout: o, stderr: e } && o@ == normalized(stdout@)
            && e@ == stderr@),
        verdict(stdout@, expected@, timed_out, exited_ok) == 3 <==> (
        r matches TestResult::RuntimeError { stdout: o, stderr: e } && o@ == normalized(stdout@)
            && e@ == stderr@),
{
    let out = normalize(&chars_of(stdout));
    let exp = trim_end_chars(&chars_of(expected));
    if chars_eq(&out, &exp) {
        TestResult::Success
    } else {
        let o = string_of(&out);
        let e = string_of(&chars_of(stderr));
        if timed_out {
            TestResult::Timeout { stdout: o, stderr: e }
        } else if exited_ok {
            TestResult::WrongOutput { stdout: o, stderr: e }
        } else {
            TestResult::RuntimeError { stdout: o, stderr: e }
        }
    }
}

} // verus!
