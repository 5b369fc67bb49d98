//! How the program was started, read from the process listing.
use vstd::prelude::*;
use crate::models::opt_view;
use crate::text::{
    contains, contains_str, lines, lines_exec, lowercase, parse_u32, parse_u32_chars, split,
    split_exec, starts_with, starts_with_chars, to_chars, to_lowercase_chars, trim, trim_chars,
    views,
};

verus! {

/// The parent process id in `wmic ... get ParentProcessId /value` output: the first
/// `ParentProcessId=` line, the field after its first '=', trimmed; 0 where there is
/// no such number.
pub open spec fn parent_pid_of(ls: Seq<Seq<char>>) -> u32
    decreases ls.len(),
{
    if ls.len() == 0 {
        0
    } else if starts_with(ls[0], "ParentProcessId="@) {
        let parts = split(ls[0], '=');
        if parts.len() >= 2 {
            match parse_u32(trim(parts[1])) {
                Some(v) => v,
                None => 0,
            }
        } else {
            0
        }
    } else {
        parent_pid_of(ls.drop_first())
    }
}

/// The parent process id that the process listing gives, or 0.
pub fn parent_process_id(text: &str) -> (r: u32)
    ensures
        r == parent_pid_of(lines(text@)),
{
    let chars = to_chars(text);
    let ls = lines_exec(&chars);
    let ghost lv = views(ls@);
    let mut k: usize = 0;
    assert(lv.skip(0) =~= lv);
    while k < ls.len()
        invariant
            k <= ls@.len(),
            lv == views(ls@),
            lv == lines(text@),
            parent_pid_of(lv) == parent_pid_of(lv.skip(k as int)),
        decreases ls@.len() - k,
    {
        assert(lv.skip(k as int)[0] == ls@[k as int]@);
        if starts_with_chars(&ls[k], "ParentProcessId=") {
            let parts = split_exec(&ls[k], '=');
            if parts.len() >= 2 {
                assert(parts[1]@ == split(ls@[k as int]@, '=')[1]);
                return match parse_u32_chars(&trim_chars(&parts[1])) {
                    Some(v) => v,
                    None => 0,
                };
            } else {
                return 0;
            }
        }
        assert(lv.skip(k as int).drop_first() =~= lv.skip(k + 1));
        k = k + 1;
    }
    0
}

/// The process name in `wmic ... get Name /value` output is Explorer's.
pub fn names_explorer(text: &str) -> (b: bool)
    ensures
        b == contains(lowercase(text@), "explorer.exe"@),
{
    contains_str(&to_lowercase_chars(&to_chars(text)), "explorer.exe")
}

/// The parent process to look up next, given the output of the parent id query
/// (none where the query did not run): none where there is no such output or it
/// gives no parent id (0), so that no second query is made.
pub open spec fn parent_to_look_up(first: Option<Seq<char>>) -> Option<u32> {
    match first {
        Some(t) => {
            let p = parent_pid_of(lines(t));
            if p != 0 {
                Some(p)
            } else {
                None
            }
        },
        None => None,
    }
}

/// The program was started from Explorer: the parent id query ran and gave a
/// parent, the name query on that parent ran, and the name it gives is Explorer's.
pub open spec fn started_by_explorer(first: Option<Seq<char>>, second: Option<Seq<char>>) -> bool {
    &&& parent_to_look_up(first) is Some
    &&& match second {
        Some(t) => contains(lowercase(t), "explorer.exe"@),
        None => false,
    }
}

/// The parent process whose name is to be asked for next, as `parent_to_look_up` says.
pub fn parent_to_query(first: &Option<String>) -> (r: Option<u32>)
    ensures
        r == parent_to_look_up(opt_view(*first)),
{
    match first {
        Some(t) => {
            let p = parent_process_id(t.as_str());
            if p != 0 {
                Some(p)
            } else {
                None
            }
        },
        None => None,
    }
}

/// Whether the program was started by double-clicking in Explorer, from the output
/// of the parent id query and of the name query on that parent (none where a query
/// did not run or was not made).
pub fn launched_from_explorer(first: &Option<String>, second: &Option<String>) -> (b: bool)
    ensures
        b == started_by_explorer(opt_view(*first), opt_view(*second)),
{
    match parent_to_query(first) {
        None => false,
        Some(_) => match second {
            Some(t) => names_explorer(t.as_str()),
            None => false,
        },
    }
}

} // verus!