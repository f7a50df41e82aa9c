//! The operator confirmation gate's decision logic: only the tokens `yes`
//! and `y`, case-insensitively and up to surrounding white space, count as
//! approval; every other reply, the empty one included, declines.

use crate::text::{str_chars, trim_spec, trimmed_bounds};
use vstd::prelude::*;
use vstd::string::StringExecFns;

verus! {

/// The reply approves the command: after trimming, it is `yes` or `y` in any
/// letter case.
pub open spec fn approves(input: Seq<char>) -> bool {
    let t = trim_spec(input);
    ||| (t.len() == 3 && (t[0] == 'y' || t[0] == 'Y') && (t[1] == 'e' || t[1] == 'E') && (t[2]
        == 's' || t[2] == 'S'))
    ||| (t.len() == 1 && (t[0] == 'y' || t[0] == 'Y'))
}

/// Decides whether one line of operator input approves the pending command.
pub fn is_approval(input: &str) -> (b: bool)
    ensures
        b == approves(input@),
{
    let v = str_chars(input);
    let (lo, hi) = trimmed_bounds(&v, 0, v.len());
    proof {
        assert(v@.subrange(0, v@.len() as int) =~= v@);
    }
    let ghost t = trim_spec(input@);
    proof {
        assert(t.len() == hi - lo);
        assert(forall|k: int| 0 <= k < t.len() ==> t[k] == v@[lo + k]);
    }
    if hi - lo == 3 {
        (v[lo] == 'y' || v[lo] == 'Y') && (v[lo + 1] == 'e' || v[lo + 1] == 'E') && (v[lo + 2]
            == 's' || v[lo + 2] == 'S')
    } else if hi - lo == 1 {
        v[lo] == 'y' || v[lo] == 'Y'
    } else {
        false
    }
}

/// The text shown before a command awaiting approval.
pub open spec fn prompt_prefix() -> Seq<char> {
    "You are about to run the command: "@
}

/// The yes/no question that follows it.
pub open spec fn proceed_question() -> Seq<char> {
    "Do you want to proceed? (yes/no)"@
}

/// The prompt that presents `code` to the operator for approval.
pub fn approval_prompt(code: &str) -> (r: String)
    ensures
        r@ == prompt_prefix() + code@,
{
    let mut r = String::from_str("You are about to run the command: ");
    r.append(code);
    r
}

/// The yes/no question, for the line below the prompt.
pub fn proceed_question_text() -> (r: String)
    ensures
        r@ == proceed_question(),
{
    String::from_str("Do you want to proceed? (yes/no)")
}

} // verus!
