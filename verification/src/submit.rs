//! Decisions around submission: whether the operator's answer authorizes
//! it, the exact argument list of each per-issue tracker invocation, and
//! which issues a batch of outcomes reports as failed. Performing the
//! invocations — spawning the tracker client — is the caller's business.

use vstd::prelude::*;
use vstd::string::StrSliceExecFns;
use vstd::string::StringExecFns;
use crate::model::{Document, Issue, IssueModel, ParseError};

verus! {

/// The characters with the Unicode `White_Space` property.
pub open spec fn is_white_space(c: char) -> bool {
    c == '\u{0009}' || c == '\u{000A}' || c == '\u{000B}' || c == '\u{000C}' || c == '\u{000D}'
        || c == '\u{0020}' || c == '\u{0085}' || c == '\u{00A0}' || c == '\u{1680}'
        || c == '\u{2000}' || c == '\u{2001}' || c == '\u{2002}' || c == '\u{2003}'
        || c == '\u{2004}' || c == '\u{2005}' || c == '\u{2006}' || c == '\u{2007}'
        || c == '\u{2008}' || c == '\u{2009}' || c == '\u{200A}' || c == '\u{2028}'
        || c == '\u{2029}' || c == '\u{202F}' || c == '\u{205F}' || c == '\u{3000}'
}

/// Whether a character has the Unicode `White_Space` property.
fn white_space(c: char) -> (r: bool)
    ensures
        r == is_white_space(c),
{
    c == '\u{0009}' || c == '\u{000A}' || c == '\u{000B}' || c == '\u{000C}' || c == '\u{000D}'
        || c == '\u{0020}' || c == '\u{0085}' || c == '\u{00A0}' || c == '\u{1680}'
        || c == '\u{2000}' || c == '\u{2001}' || c == '\u{2002}' || c == '\u{2003}'
        || c == '\u{2004}' || c == '\u{2005}' || c == '\u{2006}' || c == '\u{2007}'
        || c == '\u{2008}' || c == '\u{2009}' || c == '\u{200A}' || c == '\u{2028}'
        || c == '\u{2029}' || c == '\u{202F}' || c == '\u{205F}' || c == '\u{3000}'
}

/// The non-whitespace characters of a text, in order.
pub open spec fn non_space(s: Seq<char>) -> Seq<char>
    decreases s.len(),
{
    if s.len() == 0 {
        Seq::empty()
    } else {
        non_space(s.drop_last()) + (if is_white_space(s.last()) {
            Seq::empty()
        } else {
            seq![s.last()]
        })
    }
}

/// An affirmative operator answer: exactly `y`, case-insensitive, around
/// Unicode whitespace — what is left of the answer once every white-space
/// character is removed is exactly `y` or `Y`. (For a single remaining
/// letter, that is the answer trimmed at both ends.) Anything else aborts
/// submission.
pub open spec fn affirmative_spec(s: Seq<char>) -> bool {
    non_space(s) == seq!['y'] || non_space(s) == seq!['Y']
}

/// Whether the operator's answer authorizes submission.
pub fn is_affirmative(answer: &str) -> (r: bool)
    ensures
        r == affirmative_spec(answer@),
{
    let n = answer.unicode_len();
    let mut count: usize = 0;
    let mut c0: char = ' ';
    let mut i: usize = 0;
    proof {
        assert(answer@.take(0) =~= Seq::<char>::empty());
    }
    while i < n
        invariant
            0 <= i <= n,
            n == answer@.len(),
            count <= 2,
            count == 0 ==> non_space(answer@.take(i as int)) =~= Seq::<char>::empty(),
            count == 1 ==> non_space(answer@.take(i as int)) =~= seq![c0],
            count == 2 ==> non_space(answer@.take(i as int)).len() >= 2,
        decreases n - i,
    {
        let c = answer.get_char(i);
        proof {
            assert(answer@.take(i + 1).drop_last() =~= answer@.take(i as int));
            assert(answer@.take(i + 1).last() == answer@[i as int]);
        }
        if !white_space(c) {
            if count == 0 {
                c0 = c;
                count = 1;
            } else {
                count = 2;
            }
        }
        i += 1;
    }
    proof {
        assert(answer@.take(n as int) =~= answer@);
    }
    if count == 1 {
        if c0 == 'y' || c0 == 'Y' {
            true
        } else {
            proof {
                assert(non_space(answer@)[0] == c0);
            }
            false
        }
    } else {
        proof {
            assert(seq!['y'].len() == 1);
            assert(seq!['Y'].len() == 1);
        }
        false
    }
}

/// The argument list of one per-issue tracker invocation: the fixed create
/// action, the board, the list, the fixed position indicator, then the
/// issue's title and description — each a separate argument, never
/// concatenated or shell-interpolated.
pub open spec fn submit_args_spec(board: Seq<char>, list: Seq<char>, issue: IssueModel) -> Seq<
    Seq<char>,
> {
    seq![
        "add-card"@,
        "-b"@,
        board,
        "-l"@,
        list,
        "-p"@,
        "bottom"@,
        issue.title,
        issue.description,
    ]
}

/// Build the argument list for one issue.
pub fn submission_args(board: &str, list: &str, issue: &Issue) -> (r: Vec<String>)
    ensures
        r@.map_values(|a: String| a@) == submit_args_spec(board@, list@, issue@),
{
    let mut r: Vec<String> = Vec::new();
    r.push("add-card".to_owned());
    r.push("-b".to_owned());
    r.push(board.to_owned());
    r.push("-l".to_owned());
    r.push(list.to_owned());
    r.push("-p".to_owned());
    r.push("bottom".to_owned());
    r.push(issue.title.clone());
    r.push(issue.description.clone());
    proof {
        assert(r@.map_values(|a: String| a@) =~= submit_args_spec(board@, list@, issue@));
    }
    r
}

/// Plan a run of submissions: none at all unless the operator's answer is
/// affirmative, else exactly one invocation per issue, in document order —
/// a failure of one never removes another from the plan.
pub fn plan_submissions(board: &str, list: &str, doc: &Document, answer: &str) -> (r: Vec<
    Vec<String>,
>)
    ensures
        !affirmative_spec(answer@) ==> r@.len() == 0,
        affirmative_spec(answer@) ==> r@.len() == doc@.issues.len() && forall|i: int|
            0 <= i < r@.len() ==> (#[trigger] r@[i])@.map_values(|a: String| a@)
                == submit_args_spec(board@, list@, doc@.issues[i]),
{
    let mut r: Vec<Vec<String>> = Vec::new();
    if !is_affirmative(answer) {
        return r;
    }
    let mut i: usize = 0;
    while i < doc.issues.len()
        invariant
            0 <= i <= doc.issues@.len(),
            r@.len() == i,
            forall|j: int| 0 <= j < i ==> (#[trigger] r@[j])@.map_values(|a: String| a@)
                == submit_args_spec(board@, list@, doc.issues@[j]@),
        decreases doc.issues@.len() - i,
    {
        r.push(submission_args(board, list, &doc.issues[i]));
        i += 1;
    }
    proof {
        assert(doc@.issues.len() == doc.issues@.len());
        assert(forall|j: int| 0 <= j < doc.issues@.len() ==> doc@.issues[j] == doc.issues@[j]@);
    }
    r
}

/// Whether one submission outcome is a failure: the tracker wrote
/// something to its error stream.
pub fn submission_failed(stderr: &Vec<u8>) -> (r: bool)
    ensures
        r == (stderr@.len() > 0),
{
    stderr.len() > 0
}

/// The titles of the failed outcomes of a batch: an outcome is a title with
/// the text the tracker wrote to its error stream, and non-empty error text
/// is the failure signal.
pub open spec fn failed_spec(rs: Seq<(Seq<char>, Seq<u8>)>) -> Seq<Seq<char>>
    decreases rs.len(),
{
    if rs.len() == 0 {
        Seq::empty()
    } else {
        failed_spec(rs.drop_last()) + (if rs.last().1.len() > 0 {
            seq![rs.last().0]
        } else {
            Seq::empty()
        })
    }
}

/// Report the failed issues of a batch of submission outcomes, in order.
/// Exactly the outcomes with non-empty error text are reported; the others
/// are untouched.
pub fn failed_titles(results: &Vec<(String, Vec<u8>)>) -> (r: Vec<String>)
    ensures
        r@.map_values(|t: String| t@) == failed_spec(
            results@.map_values(|p: (String, Vec<u8>)| (p.0@, p.1@)),
        ),
{
    let ghost rv = results@.map_values(|p: (String, Vec<u8>)| (p.0@, p.1@));
    let mut r: Vec<String> = Vec::new();
    let mut i: usize = 0;
    proof {
        assert(rv.take(0) =~= Seq::<(Seq<char>, Seq<u8>)>::empty());
    }
    while i < results.len()
        invariant
            0 <= i <= results@.len(),
            rv == results@.map_values(|p: (String, Vec<u8>)| (p.0@, p.1@)),
            r@.map_values(|t: String| t@) == failed_spec(rv.take(i as int)),
        decreases results@.len() - i,
    {
        let ghost rm0 = r@.map_values(|t: String| t@);
        proof {
            assert(rv.take(i + 1).drop_last() =~= rv.take(i as int));
            assert(rv.take(i + 1).last() == rv[i as int]);
        }
        if results[i].1.len() > 0 {
            r.push(results[i].0.clone());
            proof {
                assert(r@.map_values(|t: String| t@) =~= rm0 + seq![rv[i as int].0]);
            }
        } else {
            proof {
                assert(rm0 + Seq::<Seq<char>>::empty() =~= rm0);
            }
        }
        i += 1;
    }
    proof {
        assert(rv.take(results@.len() as int) =~= rv);
    }
    r
}

/// Options of the gitlab target, which is not wired to a tracker yet.
#[derive(Debug, Clone, Copy, PartialEq, Eq, Structural)]
pub struct GitlabOpt {}

/// The gitlab command: no work to perform, always succeeds.
pub fn cmd_gitlab(_opt: GitlabOpt) -> (r: Result<(), ParseError>)
    ensures
        r is Ok,
{
    Result::Ok(())
}

} // verus!
