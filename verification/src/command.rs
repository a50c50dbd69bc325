//! The shell command that runs the size profiler, derived from the command
//! that the build system runs for the project.

use vstd::prelude::*;
use vstd::slice::slice_subrange;
use vstd::string::StringSliceAdditionalSpecFns;

verus! {

/// `needle` stands in `hay` at position `at`.
pub open spec fn occurs_at(hay: Seq<u8>, needle: Seq<u8>, at: int) -> bool {
    0 <= at && at + needle.len() <= hay.len() && hay.subrange(at, at + needle.len()) == needle
}

/// `at` is the leftmost position at which `needle` stands in `hay`.
pub open spec fn is_first_occurrence(hay: Seq<u8>, needle: Seq<u8>, at: int) -> bool {
    occurs_at(hay, needle, at) && forall|earlier: int|
        0 <= earlier < at ==> !occurs_at(hay, needle, earlier)
}

/// The leftmost position at which `needle` stands in `hay`, if it does.
pub open spec fn first_occurrence(hay: Seq<u8>, needle: Seq<u8>) -> Option<int> {
    if exists|at: int| is_first_occurrence(hay, needle, at) {
        Some(choose|at: int| is_first_occurrence(hay, needle, at))
    } else {
        None
    }
}

/// What stands in `hay` before the leftmost `needle`: all of it where there
/// is none.
pub open spec fn up_to(hay: Seq<u8>, needle: Seq<u8>) -> Seq<u8> {
    match first_occurrence(hay, needle) {
        Some(at) => hay.subrange(0, at),
        None => hay,
    }
}

/// The word that separates the build command's prefix from its arguments.
pub open spec fn cargo_word() -> Seq<u8> {
    " cargo ".spec_bytes()
}

/// What ends the build command's arguments.
pub open spec fn command_end() -> Seq<u8> {
    " &&".spec_bytes()
}

/// The profiler's call, which takes the place of the build's.
pub open spec fn profiler_call() -> Seq<u8> {
    "cargo bloat --crates -n 100000 --message-format json".spec_bytes()
}

/// How many bytes of the line stand before the command: the build file
/// writes `  command = ` there.
pub open spec fn command_offset() -> int {
    12
}

/// The profiler's command for a line of the build file. The line is cut at
/// its first ` cargo `. What stands before it, without the first twelve
/// bytes, is the command's prefix. What follows it, up to the next ` cargo `
/// and then up to the first ` &&`, is appended to the profiler's call. There
/// is no command where the line holds no ` cargo ` or holds it before the
/// twelfth byte.
pub open spec fn profiler_command_of(line: Seq<u8>) -> Option<Seq<u8>> {
    match first_occurrence(line, cargo_word()) {
        Some(at) => if at >= command_offset() {
            let arguments = line.subrange(at + cargo_word().len(), line.len() as int);
            Some(
                line.subrange(command_offset(), at) + " ".spec_bytes() + profiler_call() + up_to(
                    up_to(arguments, cargo_word()),
                    command_end(),
                ),
            )
        } else {
            None
        },
        None => None,
    }
}

proof fn lemma_first_occurrence_found(hay: Seq<u8>, needle: Seq<u8>, at: int)
    requires
        is_first_occurrence(hay, needle, at),
    ensures
        first_occurrence(hay, needle) == Some(at),
{
    let chosen = choose|c: int| is_first_occurrence(hay, needle, c);
    if chosen < at {
        assert(!occurs_at(hay, needle, chosen));
    } else if at < chosen {
        assert(!occurs_at(hay, needle, at));
    }
}

fn stands_at(hay: &[u8], needle: &[u8], at: usize) -> (stands: bool)
    requires
        at + needle.len() <= hay.len(),
    ensures
        stands == occurs_at(hay@, needle@, at as int),
{
    let mut k: usize = 0;
    while k < needle.len()
        invariant
            0 <= k <= needle.len(),
            at + needle.len() <= hay.len(),
            forall|b: int| 0 <= b < k ==> hay@[at + b] == needle@[b],
        decreases needle.len() - k,
    {
        if hay[at + k] != needle[k] {
            proof {
                assert(hay@.subrange(at as int, at + needle.len())[k as int] != needle@[k as int]);
            }
            return false;
        }
        k += 1;
    }
    proof {
        assert(hay@.subrange(at as int, at + needle.len()) =~= needle@);
    }
    true
}

/// The leftmost position at which `needle` stands in `hay`.
pub fn find(hay: &[u8], needle: &[u8]) -> (found: Option<usize>)
    ensures
        match found {
            Some(at) => first_occurrence(hay@, needle@) == Some(at as int) && is_first_occurrence(
                hay@,
                needle@,
                at as int,
            ),
            None => first_occurrence(hay@, needle@).is_none(),
        },
{
    if needle.len() > hay.len() {
        return None;
    }
    let last = hay.len() - needle.len();
    let mut at: usize = 0;
    while at < last
        invariant
            0 <= at <= last,
            last == hay.len() - needle.len(),
            forall|earlier: int| 0 <= earlier < at ==> !occurs_at(hay@, needle@, earlier),
        decreases last - at,
    {
        if stands_at(hay, needle, at) {
            proof {
                lemma_first_occurrence_found(hay@, needle@, at as int);
            }
            return Some(at);
        }
        at += 1;
    }
    if stands_at(hay, needle, last) {
        proof {
            lemma_first_occurrence_found(hay@, needle@, last as int);
        }
        return Some(last);
    }
    None
}

/// What stands in `hay` before the leftmost `needle`.
fn prefix_up_to<'a>(hay: &'a [u8], needle: &[u8]) -> (prefix: &'a [u8])
    ensures
        prefix@ == up_to(hay@, needle@),
{
    match find(hay, needle) {
        Some(at) => slice_subrange(hay, 0, at),
        None => hay,
    }
}

/// The profiler's command for the line of the build file that holds the
/// build's command, if the line has the shape of one.
pub fn profiler_command(line: &[u8]) -> (command: Option<Vec<u8>>)
    ensures
        match command {
            Some(bytes) => profiler_command_of(line@) == Some(bytes@),
            None => profiler_command_of(line@).is_none(),
        },
{
    let cargo = " cargo ".as_bytes();
    let at = match find(line, cargo) {
        Some(at) => at,
        None => {
            return None;
        },
    };
    if at < 12 {
        return None;
    }
    let end = line.len();
    let arguments = slice_subrange(line, at + cargo.len(), end);
    let kept = prefix_up_to(prefix_up_to(arguments, cargo), " &&".as_bytes());
    let mut command: Vec<u8> = Vec::new();
    command.extend_from_slice(slice_subrange(line, 12, at));
    command.extend_from_slice(" ".as_bytes());
    command.extend_from_slice("cargo bloat --crates -n 100000 --message-format json".as_bytes());
    command.extend_from_slice(kept);
    proof {
        assert(command@ =~= profiler_command_of(line@).unwrap());
    }
    Some(command)
}

} // verus!
