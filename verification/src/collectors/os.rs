//! The operating system: its name, version and build.
use vstd::prelude::*;
use crate::models::{opt_view, OsInfo, OsInfoView};
use crate::text::{
    contains, contains_str, from_chars, lines, lines_exec, to_chars, trim, trim_str, views,
    words, words_exec,
};

verus! {

pub open spec fn opt_os(o: Option<OsInfo>) -> Option<OsInfoView> {
    match o {
        Some(i) => Some(i@),
        None => None,
    }
}

/// The operating system: none without its long name.
pub open spec fn os_of(
    long_name: Option<Seq<char>>,
    version: Option<Seq<char>>,
    build: Option<Seq<char>>,
) -> Option<OsInfoView> {
    match long_name {
        None => None,
        Some(name) => Some(
            OsInfoView {
                name,
                version: match version {
                    Some(v) => v,
                    None => seq![],
                },
                build,
            },
        ),
    }
}

/// The operating system, from its long name (e.g. "Windows 11 Pro"), its version and
/// its build number; none without the long name.
pub fn collect(long_name: Option<String>, version: Option<String>, build: Option<String>) -> (r:
    Option<OsInfo>)
    ensures
        opt_os(r) == os_of(opt_view(long_name), opt_view(version), opt_view(build)),
{
    match long_name {
        None => None,
        Some(name) => {
            let version = match version {
                Some(v) => v,
                None => from_chars(&Vec::new()),
            };
            Some(OsInfo { name, version, build })
        },
    }
}

/// The build number in the output of `reg query ... /v CurrentBuild`: the last word
/// of the first line that mentions CurrentBuild.
pub open spec fn reg_build(ls: Seq<Seq<char>>) -> Option<Seq<char>>
    decreases ls.len(),
{
    if ls.len() == 0 {
        None
    } else if contains(ls[0], "CurrentBuild"@) {
        let w = words(ls[0]);
        if w.len() > 0 {
            Some(w.last())
        } else {
            None
        }
    } else {
        reg_build(ls.drop_first())
    }
}

/// The Windows build number in the output of the registry query.
pub fn build_from_reg_query(text: &str) -> (r: Option<String>)
    ensures
        opt_view(r) == reg_build(lines(text@)),
{
    let chars = to_chars(text);
    let ls = lines_exec(&chars);
    let ghost lv = views(ls@);
    let mut k: usize = 0;
    assert(lv.skip(0) =~= lv);
    while k < ls.len()
        invariant
            k <= ls@.len(),
            lv == views(ls@),
            lv == lines(text@),
            reg_build(lv) == reg_build(lv.skip(k as int)),
        decreases ls@.len() - k,
    {
        assert(lv.skip(k as int)[0] == ls@[k as int]@);
        if contains_str(&ls[k], "CurrentBuild") {
            let w = words_exec(&ls[k]);
            if w.len() > 0 {
                let n = w.len();
                assert(w[n - 1]@ == words(ls@[k as int]@).last());
                return Some(from_chars(&w[n - 1]));
            } else {
                return None;
            }
        }
        assert(lv.skip(k as int).drop_first() =~= lv.skip(k + 1));
        k = k + 1;
    }
    None
}

/// The build (or kernel release) that `uname -r` or `sw_vers -buildVersion` writes, trimmed.
pub fn build_from_output(text: &str) -> (r: String)
    ensures
        r@ == trim(text@),
{
    from_chars(&trim_str(text))
}

} // verus!
