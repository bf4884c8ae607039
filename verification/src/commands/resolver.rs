//! Finds the executable file that a command name refers to.
use crate::text::{chars_of, strings_view};
use vstd::prelude::*;

verus! {

/// Whether `s` ends with `suffix`.
pub open spec fn ends_with(s: Seq<char>, suffix: Seq<char>) -> bool {
    suffix.len() <= s.len() && s.subrange(s.len() - suffix.len(), s.len() as int) == suffix
}

/// The position of the first path, at or after `from`, that ends with `/` and the command
/// name.
pub open spec fn first_executable_for(paths: Seq<Seq<char>>, command: Seq<char>, from: int) -> Option<
    int,
>
    decreases paths.len() - from,
{
    if from < 0 || from >= paths.len() {
        None
    } else if ends_with(paths[from], seq!['/'] + command) {
        Some(from)
    } else {
        first_executable_for(paths, command, from + 1)
    }
}

/// The first path that ends with `/` and the command name.
pub open spec fn resolved_executable(paths: Seq<Seq<char>>, command: Seq<char>) -> Option<
    Seq<char>,
> {
    match first_executable_for(paths, command, 0) {
        Some(k) => Some(paths[k]),
        None => None,
    }
}

fn ends_with_chars(s: &Vec<char>, suffix: &Vec<char>) -> (ends: bool)
    ensures
        ends == ends_with(s@, suffix@),
{
    if suffix.len() > s.len() {
        return false;
    }
    let n = s.len();
    let offset = n - suffix.len();
    let mut i: usize = 0;
    while i < suffix.len()
        invariant
            n == s@.len(),
            offset + suffix@.len() == n,
            i <= suffix@.len(),
            forall|k: int| 0 <= k < i ==> s@[offset + k] == suffix@[k],
        decreases suffix@.len() - i,
    {
        if s[offset + i] != suffix[i] {
            proof {
                assert(s@.subrange(offset as int, s@.len() as int)[i as int] != suffix@[i as int]);
            }
            return false;
        }
        i = i + 1;
    }
    proof {
        assert(s@.subrange(offset as int, s@.len() as int) =~= suffix@);
    }
    true
}

/// The first of the executables whose path ends with `/` and the command name.
pub fn resolve_executable(command: &str, executables: &Vec<String>) -> (path: Option<String>)
    ensures
        match path {
            Some(p) => resolved_executable(strings_view(executables@), command@) == Some(p@),
            None => resolved_executable(strings_view(executables@), command@) is None,
        },
{
    let ghost paths = strings_view(executables@);
    let mut suffix: Vec<char> = Vec::new();
    suffix.push('/');
    let name = chars_of(command);
    let mut j: usize = 0;
    while j < name.len()
        invariant
            j <= name@.len(),
            suffix@ == seq!['/'] + name@.take(j as int),
        decreases name@.len() - j,
    {
        suffix.push(name[j]);
        j = j + 1;
        proof {
            assert(suffix@ =~= seq!['/'] + name@.take(j as int));
        }
    }
    proof {
        assert(name@.take(name@.len() as int) =~= name@);
    }
    let mut i: usize = 0;
    while i < executables.len()
        invariant
            i <= executables@.len(),
            paths == strings_view(executables@),
            suffix@ == seq!['/'] + command@,
            first_executable_for(paths, command@, i as int) == first_executable_for(
                paths,
                command@,
                0,
            ),
        decreases executables@.len() - i,
    {
        let path = chars_of(executables[i].as_str());
        proof {
            assert(paths[i as int] == executables@[i as int]@);
        }
        if ends_with_chars(&path, &suffix) {
            return Some(executables[i].clone());
        }
        i = i + 1;
    }
    None
}

} // verus!
