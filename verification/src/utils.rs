//! Command-line validation and the destination-creation decision.
//!
//! `parse_args` validates the raw argument list. Whether the source path
//! exists and whether it is a plain file are facts of the filesystem, so the
//! caller checks them and passes the two answers in; the validation policy
//! itself is decided and proved here.
//!
//! `plan_destination` decides what to do about a missing destination from
//! the operator's answer to the confirmation prompt: only an affirmative
//! single `y` or `Y`, after trimming surrounding Unicode whitespace,
//! proceeds.

use vstd::prelude::*;
use vstd::string::StringExecFns;
use vstd::string::StrSliceExecFns;

verus! {

/// What to do about the destination root before reconciling.
#[derive(Clone, Copy, PartialEq, Eq, Structural, Debug)]
pub enum DestinationPlan {
    /// The destination already exists; proceed into it.
    UseExisting,
    /// The destination is missing and the operator confirmed: create it.
    Create,
    /// The destination is missing and the operator declined: do nothing.
    Abort,
}

/// A Unicode whitespace character: the White_Space code points, as
/// `str::trim` removes them — the ASCII whitespace characters (tab through
/// carriage return, space), next line, no-break space, ogham space mark, the
/// en-quad..hair-space range, line and paragraph separators, narrow no-break
/// space, medium mathematical space and ideographic space.
pub open spec fn is_space(c: char) -> bool {
    let u = c as u32;
    (9 <= u && u <= 13) || u == 32 || u == 0x85 || u == 0xA0 || u == 0x1680 || (0x2000 <= u && u
        <= 0x200A) || u == 0x2028 || u == 0x2029 || u == 0x202F || u == 0x205F || u == 0x3000
}

/// Tests a character against the White_Space set `is_space` describes.
fn is_space_char(c: char) -> (r: bool)
    ensures
        r == is_space(c),
{
    let u = c as u32;
    (9 <= u && u <= 13) || u == 32 || u == 0x85 || u == 0xA0 || u == 0x1680 || (0x2000 <= u && u
        <= 0x200A) || u == 0x2028 || u == 0x2029 || u == 0x202F || u == 0x205F || u == 0x3000
}

/// `s` without its leading whitespace.
pub open spec fn drop_leading(s: Seq<char>) -> Seq<char>
    decreases s.len(),
{
    if s.len() > 0 && is_space(s[0]) {
        drop_leading(s.subrange(1, s.len() as int))
    } else {
        s
    }
}

/// `s` without its trailing whitespace.
pub open spec fn drop_trailing(s: Seq<char>) -> Seq<char>
    decreases s.len(),
{
    if s.len() > 0 && is_space(s[s.len() - 1]) {
        drop_trailing(s.subrange(0, s.len() - 1))
    } else {
        s
    }
}

/// `s` without surrounding whitespace.
pub open spec fn trimmed(s: Seq<char>) -> Seq<char> {
    drop_trailing(drop_leading(s))
}

/// The operator's line confirms creation: it trims to a single `y` or `Y`.
pub open spec fn affirmative(s: Seq<char>) -> bool {
    trimmed(s) == seq!['y'] || trimmed(s) == seq!['Y']
}

proof fn lemma_drop_leading(s: Seq<char>, lo: int)
    requires
        0 <= lo <= s.len(),
        forall|k: int| 0 <= k < lo ==> is_space(s[k]),
        lo < s.len() ==> !is_space(s[lo]),
    ensures
        drop_leading(s) == s.subrange(lo, s.len() as int),
    decreases lo,
{
    if lo == 0 {
        assert(s.subrange(0, s.len() as int) =~= s);
    } else {
        let t = s.subrange(1, s.len() as int);
        lemma_drop_leading(t, lo - 1);
        assert(t.subrange(lo - 1, t.len() as int) =~= s.subrange(lo, s.len() as int));
    }
}

proof fn lemma_drop_trailing(s: Seq<char>, hi: int)
    requires
        0 <= hi <= s.len(),
        forall|k: int| hi <= k < s.len() ==> is_space(s[k]),
        hi > 0 ==> !is_space(s[hi - 1]),
    ensures
        drop_trailing(s) == s.subrange(0, hi),
    decreases s.len(),
{
    if hi == s.len() {
        assert(s.subrange(0, s.len() as int) =~= s);
    } else {
        let t = s.subrange(0, s.len() - 1);
        lemma_drop_trailing(t, hi);
        assert(t.subrange(0, hi) =~= s.subrange(0, hi));
    }
}

/// Tests whether the operator's input line confirms creation.
pub fn is_affirmative(input: &String) -> (r: bool)
    ensures
        r == affirmative(input@),
{
    let s = input.as_str();
    let n: usize = s.unicode_len();
    let mut lo: usize = 0;
    while lo < n && is_space_char(s.get_char(lo))
        invariant
            0 <= lo <= n,
            n == input@.len(),
            s@ == input@,
            forall|k: int| 0 <= k < lo ==> is_space(input@[k]),
        decreases n - lo,
    {
        lo = lo + 1;
    }
    let mut hi: usize = n;
    while hi > lo && is_space_char(s.get_char(hi - 1))
        invariant
            lo <= hi <= n,
            n == input@.len(),
            s@ == input@,
            forall|k: int| 0 <= k < lo ==> is_space(input@[k]),
            forall|k: int| hi <= k < n ==> is_space(input@[k]),
        decreases hi,
    {
        hi = hi - 1;
    }
    proof {
        lemma_drop_leading(input@, lo as int);
        let t = input@.subrange(lo as int, n as int);
        lemma_drop_trailing(t, hi - lo);
        assert(trimmed(input@) =~= input@.subrange(lo as int, hi as int));
    }
    if hi - lo == 1 {
        let c = s.get_char(lo);
        if c == 'y' || c == 'Y' {
            proof {
                if input@[lo as int] == 'y' {
                    assert(trimmed(input@) =~= seq!['y']);
                } else {
                    assert(trimmed(input@) =~= seq!['Y']);
                }
            }
            return true;
        }
    }
    proof {
        if affirmative(input@) {
            assert(input@.subrange(lo as int, hi as int).len() == 1);
            assert(input@.subrange(lo as int, hi as int)[0] == input@[lo as int]);
        }
    }
    false
}

/// Decides what to do about the destination root. An existing destination is
/// used as it is; a missing one is created only on an affirmative answer,
/// and otherwise nothing is touched.
pub fn plan_destination(dest_exists: bool, input: &String) -> (r: DestinationPlan)
    ensures
        dest_exists ==> r == DestinationPlan::UseExisting,
        !dest_exists && affirmative(input@) ==> r == DestinationPlan::Create,
        !dest_exists && !affirmative(input@) ==> r == DestinationPlan::Abort,
{
    if dest_exists {
        DestinationPlan::UseExisting
    } else if is_affirmative(input) {
        DestinationPlan::Create
    } else {
        DestinationPlan::Abort
    }
}

/// Validates the raw command line: exactly two path tokens after the
/// program name, optionally followed by `-r` and nothing else. The
/// existence and kind of the source path are filesystem facts supplied by
/// the caller as `source_exists` and `source_is_file`. On success the
/// result carries the source path, the destination path, and whether extra
/// destination files are to be removed.
pub fn parse_args(args: &Vec<String>, source_exists: bool, source_is_file: bool) -> (r: Result<
    (String, String, bool),
    String,
>)
    ensures
        r is Ok <==> 3 <= args@.len() <= 4 && source_exists && !source_is_file && (args@.len()
            == 4 ==> args@[3]@ == "-r"@),
        r matches Ok(t) ==> t.0@ == args@[1]@ && t.1@ == args@[2]@ && t.2 == (args@.len() == 4),
        args@.len() < 3 || args@.len() > 4 ==> (r matches Err(m) && m@
            == "Use as: folder-sync <source> <destination> [-r]"@),
        3 <= args@.len() <= 4 && !source_exists ==> (r matches Err(m) && m@ == "Source folder "@
            + args@[1]@ + " does not exist"@),
        3 <= args@.len() <= 4 && source_exists && source_is_file ==> (r matches Err(m) && m@
            == "Source "@ + args@[1]@ + " must be a folder"@),
        args@.len() == 4 && source_exists && !source_is_file && args@[3]@ != "-r"@ ==> (r
            matches Err(m) && m@ == "Invalid option. Only '-r' is supported."@),
{
    if args.len() < 3 || args.len() > 4 {
        return Err(String::from_str("Use as: folder-sync <source> <destination> [-r]"));
    }
    let source = &args[1];
    let destination = &args[2];
    if !source_exists {
        return Err(
            String::from_str("Source folder ").concat(source.as_str()).concat(" does not exist"),
        );
    }
    if source_is_file {
        return Err(String::from_str("Source ").concat(source.as_str()).concat(" must be a folder"));
    }
    if args.len() == 4 {
        let option = String::from_str("-r");
        if !args[3].eq(&option) {
            return Err(String::from_str("Invalid option. Only '-r' is supported."));
        }
        return Ok((source.clone(), destination.clone(), true));
    }
    Ok((source.clone(), destination.clone(), false))
}

} // verus!
