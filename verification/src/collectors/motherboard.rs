//! The motherboard and its BIOS.
use vstd::prelude::*;
use crate::models::{opt_view, MotherboardInfo, MotherboardInfoView};
use crate::text::{
    after_char, after_char_exec, eq_str, from_chars, lemma_trim_idempotent, lines, lines_exec,
    starts_with, starts_with_chars, to_chars, trim, trim_chars, views,
};

verus! {

/// The value of the first `Field: value` line (trimmed) that starts with `field` and
/// has a value that is neither empty nor "Not Specified".
pub open spec fn dmi_field(ls: Seq<Seq<char>>, field: Seq<char>) -> Option<Seq<char>>
    decreases ls.len(),
{
    if ls.len() == 0 {
        None
    } else {
        let t = trim(ls[0]);
        let here = if starts_with(t, field) {
            match after_char(t, ':') {
                Some(v) => if trim(v).len() > 0 && trim(v) != "Not Specified"@ {
                    Some(trim(v))
                } else {
                    None
                },
                None => None,
            }
        } else {
            None
        };
        match here {
            Some(v) => Some(v),
            None => dmi_field(ls.drop_first(), field),
        }
    }
}

/// The value of the first line (trimmed) that starts with `field`: the text after
/// its first ':', trimmed, or none where it has no ':'.
pub open spec fn sp_field(ls: Seq<Seq<char>>, field: Seq<char>) -> Option<Seq<char>>
    decreases ls.len(),
{
    if ls.len() == 0 {
        None
    } else {
        let t = trim(ls[0]);
        if starts_with(t, field) {
            match after_char(t, ':') {
                Some(v) => Some(trim(v)),
                None => None,
            }
        } else {
            sp_field(ls.drop_first(), field)
        }
    }
}

/// A field of `dmidecode` output, as `dmi_field` says.
pub fn extract_dmi_field(text: &str, field: &str) -> (r: Option<String>)
    ensures
        opt_view(r) == dmi_field(lines(text@), field@),
{
    let chars = to_chars(text);
    let ls = lines_exec(&chars);
    let ghost lv = views(ls@);
    let mut k: usize = 0;
    assert(lv.skip(0) =~= lv);
    while k < ls.len()
        invariant
            k <= ls@.len(),
            lv == views(ls@),
            lv == lines(text@),
            dmi_field(lv, field@) == dmi_field(lv.skip(k as int), field@),
        decreases ls@.len() - k,
    {
        assert(lv.skip(k as int)[0] == ls@[k as int]@);
        let t = trim_chars(&ls[k]);
        if starts_with_chars(&t, field) {
            match after_char_exec(&t, ':') {
                Some(v) => {
                    let clean = trim_chars(&v);
                    if clean.len() > 0 && !eq_str(&clean, "Not Specified") {
                        return Some(from_chars(&clean));
                    }
                },
                None => {},
            }
        }
        assert(lv.skip(k as int).drop_first() =~= lv.skip(k + 1));
        k = k + 1;
    }
    None
}

/// A field of `system_profiler` output, as `sp_field` says.
pub fn extract_sp_field(text: &str, field: &str) -> (r: Option<String>)
    ensures
        opt_view(r) == sp_field(lines(text@), field@),
{
    let chars = to_chars(text);
    let ls = lines_exec(&chars);
    let ghost lv = views(ls@);
    let mut k: usize = 0;
    assert(lv.skip(0) =~= lv);
    while k < ls.len()
        invariant
            k <= ls@.len(),
            lv == views(ls@),
            lv == lines(text@),
            sp_field(lv, field@) == sp_field(lv.skip(k as int), field@),
        decreases ls@.len() - k,
    {
        assert(lv.skip(k as int)[0] == ls@[k as int]@);
        let t = trim_chars(&ls[k]);
        if starts_with_chars(&t, field) {
            return match after_char_exec(&t, ':') {
                Some(v) => Some(from_chars(&trim_chars(&v))),
                None => None,
            };
        }
        assert(lv.skip(k as int).drop_first() =~= lv.skip(k + 1));
        k = k + 1;
    }
    None
}

/// Where the board's description comes from on each platform.
pub enum BoardSource {
    /// Windows, where the board is not read yet.
    Windows,
    /// The output of `dmidecode -t baseboard` and of `dmidecode -t bios`, each where it
    /// ran, succeeded and was UTF-8.
    Dmidecode(Option<String>, Option<String>),
    /// The output of `system_profiler SPHardwareDataType`, where it ran and was UTF-8.
    SystemProfiler(Option<String>),
}

pub open spec fn opt_board(o: Option<MotherboardInfo>) -> Option<MotherboardInfoView> {
    match o {
        Some(m) => Some(m@),
        None => None,
    }
}

/// The board that the platform's description gives: on Linux its maker and product
/// name are needed and the BIOS fields are optional; on macOS it is an Apple board
/// named by its model identifier.
pub open spec fn board_of(source: BoardSource) -> Option<MotherboardInfoView> {
    match source {
        BoardSource::Dmidecode(Some(board), bios) => {
            let bl = lines(board@);
            match (dmi_field(bl, "Manufacturer"@), dmi_field(bl, "Product Name"@)) {
                (Some(manufacturer), Some(model)) => Some(
                    MotherboardInfoView {
                        manufacturer,
                        model,
                        bios_vendor: match bios {
                            Some(b) => dmi_field(lines(b@), "Vendor"@),
                            None => None,
                        },
                        bios_version: match bios {
                            Some(b) => dmi_field(lines(b@), "Version"@),
                            None => None,
                        },
                        bios_date: match bios {
                            Some(b) => dmi_field(lines(b@), "Release Date"@),
                            None => None,
                        },
                    },
                ),
                _ => None,
            }
        },
        BoardSource::SystemProfiler(Some(t)) => match sp_field(lines(t@), "Model Identifier"@) {
            Some(model) => Some(
                MotherboardInfoView {
                    manufacturer: "Apple"@,
                    model,
                    bios_vendor: None,
                    bios_version: None,
                    bios_date: None,
                },
            ),
            None => None,
        },
        _ => None,
    }
}

/// The motherboard of the machine, from the platform's description.
pub fn collect(source: &BoardSource) -> (r: Option<MotherboardInfo>)
    ensures
        opt_board(r) == board_of(*source),
{
    match source {
        BoardSource::Dmidecode(Some(board), bios) => {
            let manufacturer = match extract_dmi_field(board.as_str(), "Manufacturer") {
                Some(m) => m,
                None => return None,
            };
            let model = match extract_dmi_field(board.as_str(), "Product Name") {
                Some(m) => m,
                None => return None,
            };
            let (bios_vendor, bios_version, bios_date) = match bios {
                Some(b) => (
                    extract_dmi_field(b.as_str(), "Vendor"),
                    extract_dmi_field(b.as_str(), "Version"),
                    extract_dmi_field(b.as_str(), "Release Date"),
                ),
                None => (None, None, None),
            };
            Some(MotherboardInfo { manufacturer, model, bios_vendor, bios_version, bios_date })
        },
        BoardSource::SystemProfiler(Some(t)) => {
            let model = match extract_sp_field(t.as_str(), "Model Identifier") {
                Some(m) => m,
                None => return None,
            };
            Some(
                MotherboardInfo {
                    manufacturer: from_chars(&to_chars("Apple")),
                    model,
                    bios_vendor: None,
                    bios_version: None,
                    bios_date: None,
                },
            )
        },
        _ => None,
    }
}

/// The line, trimmed, starts with `field` and the text after its first ':', trimmed,
/// is `v`.
pub open spec fn line_gives(line: Seq<char>, field: Seq<char>, v: Seq<char>) -> bool {
    match after_char(trim(line), ':') {
        Some(w) => starts_with(trim(line), field) && trim(w) == v,
        None => false,
    }
}

/// A field read out of `dmidecode` output is never a placeholder: it is non-empty,
/// already trimmed, and not "Not Specified", and a line that starts with the field
/// gives it.
pub proof fn lemma_dmi_field_is_usable(ls: Seq<Seq<char>>, field: Seq<char>)
    ensures
        dmi_field(ls, field) matches Some(v) ==> {
            &&& v.len() > 0
            &&& trim(v) == v
            &&& v != "Not Specified"@
            &&& exists|i: int| 0 <= i < ls.len() && line_gives(ls[i], field, v)
        },
    decreases ls.len(),
{
    if ls.len() > 0 {
        lemma_dmi_field_is_usable(ls.drop_first(), field);
        let t = trim(ls[0]);
        if let Some(v) = dmi_field(ls, field) {
            let here = starts_with(t, field) && match after_char(t, ':') {
                Some(w) => trim(w).len() > 0 && trim(w) != "Not Specified"@,
                None => false,
            };
            if here {
                let w = after_char(t, ':')->0;
                lemma_trim_idempotent(w);
                assert(line_gives(ls[0], field, v));
            } else {
                let rest = ls.drop_first();
                let i = choose|i: int| 0 <= i < rest.len() && line_gives(rest[i], field, v);
                assert(ls[i + 1] == rest[i]);
            }
        }
    }
}

} // verus!