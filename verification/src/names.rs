//! The names of services and keys.

use crate::text;
use vstd::prelude::*;

verus! {

/// The largest size of a name, in characters.
pub const MAX_NAME: usize = 128;

/// The characters of names: ASCII letters and digits, hyphen, underscore, dot.
pub open spec fn name_char(c: char) -> bool {
    ||| 'a' <= c <= 'z'
    ||| 'A' <= c <= 'Z'
    ||| '0' <= c <= '9'
    ||| c == '-'
    ||| c == '_'
    ||| c == '.'
}

/// A text of such characters only.
pub open spec fn name_chars(s: Seq<char>) -> bool {
    forall|i: int| 0 <= i < s.len() ==> name_char(#[trigger] s[i])
}

/// Whether every character of a text may stand in a name.
pub fn is_name_text(s: &str) -> (r: bool)
    ensures
        r == name_chars(s@),
{
    let v = text::chars_of(s);
    let mut i: usize = 0;
    while i < v.len()
        invariant
            v@ == s@,
            i <= v@.len(),
            forall|j: int| 0 <= j < i ==> name_char(#[trigger] s@[j]),
        decreases v@.len() - i,
    {
        let c = v[i];
        let fits = ('a' <= c && c <= 'z') || ('A' <= c && c <= 'Z') || ('0' <= c && c <= '9') || c
            == '-' || c == '_' || c == '.';
        if !fits {
            assert(!name_char(s@[i as int]));
            return false;
        }
        i += 1;
    }
    true
}

/// What is wrong with a name.
#[derive(Clone, Copy, Debug, PartialEq, Eq, Structural)]
pub enum NameProblem {
    Empty,
    TooLong,
    Characters,
}

/// What is wrong with a name, if anything is: it has 1 to 128 characters, and
/// only those of names.
pub open spec fn name_problem(name: Seq<char>) -> Option<NameProblem> {
    if name.len() == 0 {
        Some(NameProblem::Empty)
    } else if name.len() > MAX_NAME {
        Some(NameProblem::TooLong)
    } else if !name_chars(name) {
        Some(NameProblem::Characters)
    } else {
        None
    }
}

/// What is said of a name with something wrong.
pub open spec fn problem_text(label: Seq<char>, problem: NameProblem) -> Seq<char> {
    label + match problem {
        NameProblem::Empty => " name cannot be empty"@,
        NameProblem::TooLong => " name too long (max 128 characters)"@,
        NameProblem::Characters =>
            " name may only contain alphanumeric characters, hyphens, underscores and dots"@,
    }
}

/// Finds what is wrong with a name.
pub fn check_name(name: &str) -> (r: Option<NameProblem>)
    ensures
        r == name_problem(name@),
{
    let v = text::chars_of(name);
    if v.len() == 0 {
        Some(NameProblem::Empty)
    } else if v.len() > MAX_NAME {
        Some(NameProblem::TooLong)
    } else if !is_name_text(name) {
        Some(NameProblem::Characters)
    } else {
        None
    }
}

/// Accepts a proper name; of any other it says what is wrong, under the label
/// of what the name is for.
pub fn validate_name(name: &str, label: &str) -> (r: Result<(), String>)
    ensures
        r is Ok <==> name_problem(name@) is None,
        r matches Err(msg) ==> msg@ == problem_text(label@, name_problem(name@)->0),
{
    match check_name(name) {
        None => Ok(()),
        Some(problem) => {
            let mut msg = label.to_owned();
            msg.append(
                match problem {
                    NameProblem::Empty => " name cannot be empty",
                    NameProblem::TooLong => " name too long (max 128 characters)",
                    NameProblem::Characters =>
                        " name may only contain alphanumeric characters, hyphens, underscores and dots",
                },
            );
            Err(msg)
        },
    }
}

// ---------------------------------------------------------------------------
// Laws
// ---------------------------------------------------------------------------

/// Proper names are those of 1 to 128 ASCII letters, digits, hyphens,
/// underscores and dots, and no others; of any other name it is said whether it
/// is empty, too long, or has other characters.
pub proof fn law_proper_names(name: Seq<char>)
    ensures
        name_problem(name) is None <==> 1 <= name.len() <= 128 && forall|i: int|
            0 <= i < name.len() ==> {
                ||| 'a' <= #[trigger] name[i] <= 'z'
                ||| 'A' <= name[i] <= 'Z'
                ||| '0' <= name[i] <= '9'
                ||| name[i] == '-'
                ||| name[i] == '_'
                ||| name[i] == '.'
            },
        name_problem(name) == Some(NameProblem::Empty) <==> name.len() == 0,
        name_problem(name) == Some(NameProblem::TooLong) <==> name.len() > 128,
{
    if forall|i: int|
        0 <= i < name.len() ==> {
            ||| 'a' <= #[trigger] name[i] <= 'z'
            ||| 'A' <= name[i] <= 'Z'
            ||| '0' <= name[i] <= '9'
            ||| name[i] == '-'
            ||| name[i] == '_'
            ||| name[i] == '.'
        } {
        assert(name_chars(name));
    }
}

/// A beginning of a proper name, unless it is empty, is a proper name.
pub proof fn law_beginnings_of_names_are_names(name: Seq<char>, n: int)
    requires
        name_problem(name) is None,
        0 < n <= name.len(),
    ensures
        name_problem(name.take(n)) is None,
{
}

/// What is said of an improper name starts with what the name is for.
pub proof fn law_problems_name_their_label(label: Seq<char>, problem: NameProblem)
    ensures
        problem_text(label, problem).take(label.len() as int) == label,
{
    assert(problem_text(label, problem).take(label.len() as int) =~= label);
}

/// What is said tells the problems apart.
pub proof fn law_problems_are_told_apart(label: Seq<char>, problem: NameProblem)
    ensures
        problem is Empty ==> text::holds(problem_text(label, problem), "cannot be empty"@),
        problem is TooLong ==> text::holds(problem_text(label, problem), "too long (max 128 "@),
        problem is Characters ==> text::holds(problem_text(label, problem), "may only contain"@),
{
    let tail = match problem {
        NameProblem::Empty => " name cannot be empty"@,
        NameProblem::TooLong => " name too long (max 128 characters)"@,
        NameProblem::Characters =>
            " name may only contain alphanumeric characters, hyphens, underscores and dots"@,
    };
    let part = match problem {
        NameProblem::Empty => "cannot be empty"@,
        NameProblem::TooLong => "too long (max 128 "@,
        NameProblem::Characters => "may only contain"@,
    };
    assert(tail =~= tail.take(6) + part + tail.skip(6int + part.len())) by {
        reveal_strlit(" name cannot be empty");
        reveal_strlit(" name too long (max 128 characters)");
        reveal_strlit(
            " name may only contain alphanumeric characters, hyphens, underscores and dots",
        );
        reveal_strlit("cannot be empty");
        reveal_strlit("too long (max 128 ");
        reveal_strlit("may only contain");
    }
    let t = problem_text(label, problem);
    let a = label + tail.take(6);
    let b = tail.skip(6int + part.len());
    assert(t =~= a + part + b);
    text::law_what_a_text_holds(a, part, b);
}

} // verus!
