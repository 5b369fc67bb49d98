//! Memory sticks, from the platform's memory inventory.
use vstd::prelude::*;
use crate::models::{opt_view, RamStick, RamStickView};
use crate::text::{
    after_char, after_char_exec, contains, contains_str, ends_with, ends_with_chars, eq_chars,
    eq_str, from_chars, lines, lines_exec, parse_u32, parse_u32_chars, parse_u64,
    parse_u64_chars, push_all, push_str, starts_with, starts_with_chars, to_chars,
    to_uppercase_chars, trim, trim_chars, trim_end_char, trim_end_char_exec, trim_str,
    uppercase, views, words, words_exec,
};

verus! {

/// One row of the Windows memory inventory (`Win32_PhysicalMemory`), as plain values.
pub struct MemoryRecord {
    pub device_locator: Option<String>,
    pub bank_label: Option<String>,
    pub manufacturer: Option<String>,
    pub part_number: Option<String>,
    pub capacity: Option<u64>,
    pub speed: Option<u32>,
    pub smbios_memory_type: Option<u16>,
    pub configured_clock_speed: Option<u32>,
}

pub struct MemoryRecordView {
    pub device_locator: Option<Seq<char>>,
    pub bank_label: Option<Seq<char>>,
    pub manufacturer: Option<Seq<char>>,
    pub part_number: Option<Seq<char>>,
    pub capacity: Option<u64>,
    pub speed: Option<u32>,
    pub smbios_memory_type: Option<u16>,
    pub configured_clock_speed: Option<u32>,
}

impl View for MemoryRecord {
    type V = MemoryRecordView;

    open spec fn view(&self) -> MemoryRecordView {
        MemoryRecordView {
            device_locator: opt_view(self.device_locator),
            bank_label: opt_view(self.bank_label),
            manufacturer: opt_view(self.manufacturer),
            part_number: opt_view(self.part_number),
            capacity: self.capacity,
            speed: self.speed,
            smbios_memory_type: self.smbios_memory_type,
            configured_clock_speed: self.configured_clock_speed,
        }
    }
}

/// The DDR generation that an SMBIOS memory type code names.
pub open spec fn memory_type_name(code: u16) -> Option<Seq<char>> {
    if code == 24 {
        Some("DDR3"@)
    } else if code == 26 {
        Some("DDR4"@)
    } else if code == 34 || code == 35 {
        Some("DDR5"@)
    } else {
        None
    }
}

/// The maker that a JEDEC bank/manufacturer id names; any other text comes back
/// upper-cased and trimmed.
pub open spec fn manufacturer_name(raw: Seq<char>) -> Seq<char> {
    maker_of_id(uppercase(raw))
}

/// The maker that an upper-cased JEDEC bank/manufacturer id names, once trimmed; any
/// other text comes back trimmed.
pub open spec fn maker_of_id(upper: Seq<char>) -> Seq<char> {
    let u = trim(upper);
    if u == "80CE"@ || u == "CE80"@ {
        "Samsung"@
    } else if u == "AD00"@ || u == "80AD"@ || u == "AD80"@ {
        "SK Hynix"@
    } else if u == "2C00"@ || u == "802C"@ || u == "2C80"@ {
        "Micron"@
    } else if u == "0198"@ || u == "9801"@ {
        "Kingston"@
    } else if u == "04CD"@ || u == "CD04"@ {
        "G.Skill"@
    } else if u == "0420"@ || u == "2004"@ {
        "Corsair"@
    } else if u == "1B85"@ || u == "851B"@ {
        "ADATA"@
    } else {
        u
    }
}

/// The slot label: bank and locator joined when they differ, else whichever is known.
pub open spec fn slot_label(bank: Option<Seq<char>>, dev: Option<Seq<char>>) -> Option<Seq<char>> {
    match (bank, dev) {
        (Some(b), Some(d)) => if b != d {
            Some(trim(b) + " / "@ + trim(d))
        } else {
            Some(trim(d))
        },
        (None, Some(d)) => Some(trim(d)),
        (Some(b), None) => Some(trim(b)),
        (None, None) => None,
    }
}

/// The maker of a stick, unless it is empty or a placeholder.
pub open spec fn maker_of(o: Option<Seq<char>>) -> Option<Seq<char>> {
    match o {
        Some(m) => {
            let r = manufacturer_name(trim(m));
            if r.len() == 0 || r == "Unknown"@ || r == "Not Specified"@ {
                None
            } else {
                Some(r)
            }
        },
        None => None,
    }
}

/// The part number of a stick, unless it is empty or a placeholder.
pub open spec fn part_of(o: Option<Seq<char>>) -> Option<Seq<char>> {
    match o {
        Some(p) => {
            let t = trim(p);
            if t.len() == 0 || t == "Unknown"@ {
                None
            } else {
                Some(t)
            }
        },
        None => None,
    }
}

/// The number of bytes in a MB as the inventory counts it.
pub open spec fn mib() -> u64 {
    1048576
}

/// The stick that a row of the Windows inventory describes.
pub open spec fn stick_of_record(r: MemoryRecordView) -> RamStickView {
    RamStickView {
        slot: slot_label(r.bank_label, r.device_locator),
        manufacturer: maker_of(r.manufacturer),
        part_number: part_of(r.part_number),
        capacity_mb: (match r.capacity {
            Some(c) => c,
            None => 0u64,
        }) / mib(),
        speed_mhz: match r.configured_clock_speed {
            Some(s) => Some(s),
            None => r.speed,
        },
        memory_type: memory_type_name(
            match r.smbios_memory_type {
                Some(c) => c,
                None => 0u16,
            },
        ),
        cas_latency: None,
        trcd: None,
        trp: None,
        tras: None,
    }
}

/// The sticks of the Windows inventory that have a capacity of at least one MB, in order.
pub open spec fn sticks_of_records(rs: Seq<MemoryRecordView>) -> Seq<RamStickView>
    decreases rs.len(),
{
    if rs.len() == 0 {
        seq![]
    } else {
        let s = stick_of_record(rs.last());
        sticks_of_records(rs.drop_last()) + if s.capacity_mb > 0 {
            seq![s]
        } else {
            seq![]
        }
    }
}

pub open spec fn stick_views(v: Seq<RamStick>) -> Seq<RamStickView> {
    v.map_values(|s: RamStick| s@)
}

pub open spec fn record_views(v: Seq<MemoryRecord>) -> Seq<MemoryRecordView> {
    v.map_values(|r: MemoryRecord| r@)
}

/// The DDR generation that an SMBIOS memory type code names.
pub fn smbios_memory_type(code: u16) -> (r: Option<String>)
    ensures
        opt_view(r) == memory_type_name(code),
{
    if code == 24 {
        Some(from_chars(&to_chars("DDR3")))
    } else if code == 26 {
        Some(from_chars(&to_chars("DDR4")))
    } else if code == 34 || code == 35 {
        Some(from_chars(&to_chars("DDR5")))
    } else {
        None
    }
}

fn manufacturer_chars(raw: &Vec<char>) -> (r: Vec<char>)
    ensures
        r@ == manufacturer_name(raw@),
{
    maker_id_chars(&to_uppercase_chars(raw))
}

fn maker_id_chars(upper: &Vec<char>) -> (r: Vec<char>)
    ensures
        r@ == maker_of_id(upper@),
{
    let u = trim_chars(upper);
    if eq_str(&u, "80CE") || eq_str(&u, "CE80") {
        to_chars("Samsung")
    } else if eq_str(&u, "AD00") || eq_str(&u, "80AD") || eq_str(&u, "AD80") {
        to_chars("SK Hynix")
    } else if eq_str(&u, "2C00") || eq_str(&u, "802C") || eq_str(&u, "2C80") {
        to_chars("Micron")
    } else if eq_str(&u, "0198") || eq_str(&u, "9801") {
        to_chars("Kingston")
    } else if eq_str(&u, "04CD") || eq_str(&u, "CD04") {
        to_chars("G.Skill")
    } else if eq_str(&u, "0420") || eq_str(&u, "2004") {
        to_chars("Corsair")
    } else if eq_str(&u, "1B85") || eq_str(&u, "851B") {
        to_chars("ADATA")
    } else {
        u
    }
}

/// The maker that an upper-cased JEDEC bank/manufacturer id names: the rule of
/// `resolve_manufacturer_id` after the case mapping.
pub fn maker_of_upper_id(upper: &str) -> (r: String)
    ensures
        r@ == maker_of_id(upper@),
{
    from_chars(&maker_id_chars(&to_chars(upper)))
}

/// Turns a JEDEC bank/manufacturer id, as the inventory sometimes reports it, into
/// the maker's name.
pub fn resolve_manufacturer_id(raw: &str) -> (r: String)
    ensures
        r@ == manufacturer_name(raw@),
{
    from_chars(&manufacturer_chars(&to_chars(raw)))
}

fn opt_chars(o: &Option<String>) -> (r: Option<Vec<char>>)
    ensures
        r matches Some(v) ==> opt_view(*o) == Some(v@),
        r is None ==> o is None,
{
    match o {
        Some(s) => Some(to_chars(s.as_str())),
        None => None,
    }
}

fn slot_of(bank: &Option<String>, dev: &Option<String>) -> (r: Option<String>)
    ensures
        opt_view(r) == slot_label(opt_view(*bank), opt_view(*dev)),
{
    match (opt_chars(bank), opt_chars(dev)) {
        (Some(b), Some(d)) => {
            if !eq_chars(&b, &d) {
                let mut v = trim_chars(&b);
                push_str(&mut v, " / ");
                push_all(&mut v, &trim_chars(&d));
                Some(from_chars(&v))
            } else {
                Some(from_chars(&trim_chars(&d)))
            }
        },
        (None, Some(d)) => Some(from_chars(&trim_chars(&d))),
        (Some(b), None) => Some(from_chars(&trim_chars(&b))),
        (None, None) => None,
    }
}

fn maker(o: &Option<String>) -> (r: Option<String>)
    ensures
        opt_view(r) == maker_of(opt_view(*o)),
{
    match o {
        Some(m) => {
            let r = manufacturer_chars(&trim_str(m.as_str()));
            if r.len() == 0 || eq_str(&r, "Unknown") || eq_str(&r, "Not Specified") {
                None
            } else {
                Some(from_chars(&r))
            }
        },
        None => None,
    }
}

fn part(o: &Option<String>) -> (r: Option<String>)
    ensures
        opt_view(r) == part_of(opt_view(*o)),
{
    match o {
        Some(p) => {
            let t = trim_str(p.as_str());
            if t.len() == 0 || eq_str(&t, "Unknown") {
                None
            } else {
                Some(from_chars(&t))
            }
        },
        None => None,
    }
}

/// The stick that a row of the Windows inventory describes.
pub fn stick_from_record(r: &MemoryRecord) -> (s: RamStick)
    ensures
        s@ == stick_of_record(r@),
{
    let capacity_mb = match r.capacity {
        Some(c) => c,
        None => 0,
    } / 1048576;
    let speed_mhz = match r.configured_clock_speed {
        Some(s) => Some(s),
        None => r.speed,
    };
    let memory_type = smbios_memory_type(
        match r.smbios_memory_type {
            Some(c) => c,
            None => 0,
        },
    );
    RamStick {
        slot: slot_of(&r.bank_label, &r.device_locator),
        manufacturer: maker(&r.manufacturer),
        part_number: part(&r.part_number),
        capacity_mb,
        speed_mhz,
        memory_type,
        cas_latency: None,
        trcd: None,
        trp: None,
        tras: None,
    }
}

/// The sticks of the Windows memory inventory: one per row, without the rows of no capacity.
pub fn sticks_from_records(records: &Vec<MemoryRecord>) -> (r: Vec<RamStick>)
    ensures
        stick_views(r@) == sticks_of_records(record_views(records@)),
{
    let ghost rv = record_views(records@);
    let mut out: Vec<RamStick> = Vec::new();
    let mut k: usize = 0;
    while k < records.len()
        invariant
            k <= records@.len(),
            rv == record_views(records@),
            stick_views(out@) == sticks_of_records(rv.take(k as int)),
        decreases records@.len() - k,
    {
        let s = stick_from_record(&records[k]);
        assert(rv.take(k + 1).drop_last() =~= rv.take(k as int));
        assert(rv.take(k + 1).last() == records@[k as int]@);
        let ghost before = out@;
        if s.capacity_mb > 0 {
            out.push(s);
            assert(stick_views(out@) =~= stick_views(before) + seq![s@]);
        } else {
            assert(stick_views(out@) =~= stick_views(before) + seq![]);
        }
        k = k + 1;
    }
    assert(rv.take(records@.len() as int) =~= rv);
    out
}


/// The value of a `Field: value` line: the line starts with `field` and a ':' right
/// after it ("Type Detail: ..." is no "Type" line); the value is what follows, trimmed.
pub open spec fn field_value(line: Seq<char>, field: Seq<char>) -> Option<Seq<char>> {
    if starts_with(line, field.push(':')) {
        match after_char(line, ':') {
            Some(v) => Some(trim(v)),
            None => None,
        }
    } else {
        None
    }
}

/// A size such as "16384 MB" or "16 GB", in MB (a GB counts 1024 MB, wrapping as
/// the machine's arithmetic does).
pub open spec fn size_to_mb(val: Seq<char>) -> Option<u64> {
    let parts = words(val);
    if parts.len() < 2 {
        None
    } else {
        match parse_u64(parts[0]) {
            None => None,
            Some(n) => mb_in_unit(n, uppercase(parts[1])),
        }
    }
}

/// A count `n` of the (upper-cased) unit in MB: MB as they are, GB as 1024 MB each
/// (wrapping as the machine's arithmetic does), any other unit none.
pub open spec fn mb_in_unit(n: u64, unit: Seq<char>) -> Option<u64> {
    if unit == "MB"@ {
        Some(n)
    } else if unit == "GB"@ {
        Some(((n as nat * 1024) % 0x1_0000_0000_0000_0000) as u64)
    } else {
        None
    }
}

/// The number that the first word of a value writes, such as the "3200" of "3200 MT/s".
pub open spec fn first_word_u32(val: Seq<char>) -> Option<u32> {
    let w = words(val);
    if w.len() == 0 {
        None
    } else {
        parse_u32(w[0])
    }
}

pub open spec fn empty_stick() -> RamStickView {
    RamStickView {
        slot: None,
        manufacturer: None,
        part_number: None,
        capacity_mb: 0,
        speed_mhz: None,
        memory_type: None,
        cas_latency: None,
        trcd: None,
        trp: None,
        tras: None,
    }
}

/// The sticks found so far and the stick being read, if any.
pub struct ScanState {
    pub sticks: Seq<RamStickView>,
    pub current: Option<RamStickView>,
}

/// The sticks, with the stick being read added when it has a capacity.
pub open spec fn flush(sticks: Seq<RamStickView>, cur: Option<RamStickView>) -> Seq<RamStickView> {
    match cur {
        Some(s) => if s.capacity_mb > 0 {
            sticks.push(s)
        } else {
            sticks
        },
        None => sticks,
    }
}

/// A stick of the dmidecode listing, updated by one of its (trimmed) lines.
pub open spec fn dmi_update(s: RamStickView, t: Seq<char>) -> RamStickView {
    if let Some(v) = field_value(t, "Locator"@) {
        RamStickView { slot: Some(v), ..s }
    } else if let Some(v) = field_value(t, "Manufacturer"@) {
        if v != "Not Specified"@ {
            RamStickView { manufacturer: Some(v), ..s }
        } else {
            s
        }
    } else if let Some(v) = field_value(t, "Part Number"@) {
        if v != "Not Specified"@ {
            RamStickView { part_number: Some(trim(v)), ..s }
        } else {
            s
        }
    } else if let Some(v) = field_value(t, "Size"@) {
        RamStickView {
            capacity_mb: match size_to_mb(v) {
                Some(m) => m,
                None => 0,
            },
            ..s
        }
    } else if let Some(v) = field_value(t, "Speed"@) {
        RamStickView { speed_mhz: first_word_u32(v), ..s }
    } else if let Some(v) = field_value(t, "Type"@) {
        RamStickView { memory_type: Some(v), ..s }
    } else {
        s
    }
}

pub open spec fn dmi_step(st: ScanState, line: Seq<char>) -> ScanState {
    let t = trim(line);
    if t == "Memory Device"@ {
        ScanState { sticks: flush(st.sticks, st.current), current: Some(empty_stick()) }
    } else {
        match st.current {
            Some(s) => ScanState { sticks: st.sticks, current: Some(dmi_update(s, t)) },
            None => st,
        }
    }
}

pub open spec fn dmi_fold(ls: Seq<Seq<char>>) -> ScanState
    decreases ls.len(),
{
    if ls.len() == 0 {
        ScanState { sticks: seq![], current: None }
    } else {
        dmi_step(dmi_fold(ls.drop_last()), ls.last())
    }
}

/// The sticks that a `dmidecode -t memory` listing describes, in order, without
/// those of no capacity.
pub open spec fn dmidecode_sticks(text: Seq<char>) -> Seq<RamStickView> {
    let st = dmi_fold(lines(text));
    flush(st.sticks, st.current)
}

/// A stick of the system_profiler listing, updated by one of its (trimmed) lines.
pub open spec fn sp_update(s: RamStickView, t: Seq<char>) -> RamStickView {
    if let Some(v) = field_value(t, "Size"@) {
        RamStickView {
            capacity_mb: match size_to_mb(v) {
                Some(m) => m,
                None => 0,
            },
            ..s
        }
    } else if let Some(v) = field_value(t, "Speed"@) {
        RamStickView { speed_mhz: first_word_u32(v), ..s }
    } else if let Some(v) = field_value(t, "Type"@) {
        RamStickView { memory_type: Some(v), ..s }
    } else if let Some(v) = field_value(t, "Manufacturer"@) {
        RamStickView { manufacturer: Some(v), ..s }
    } else if let Some(v) = field_value(t, "Part Number"@) {
        RamStickView { part_number: Some(v), ..s }
    } else {
        s
    }
}

/// A slot header of the system_profiler listing, such as "DIMM0/J1:" or "Bank 0/DIMM0:".
pub open spec fn is_slot_header(t: Seq<char>) -> bool {
    ends_with(t, ":"@) && (contains(t, "DIMM"@) || contains(t, "Bank"@))
}

pub open spec fn sp_step(st: ScanState, line: Seq<char>) -> ScanState {
    let t = trim(line);
    if is_slot_header(t) {
        ScanState {
            sticks: flush(st.sticks, st.current),
            current: Some(RamStickView { slot: Some(trim_end_char(t, ':')), ..empty_stick() }),
        }
    } else {
        match st.current {
            Some(s) => ScanState { sticks: st.sticks, current: Some(sp_update(s, t)) },
            None => st,
        }
    }
}

pub open spec fn sp_fold(ls: Seq<Seq<char>>) -> ScanState
    decreases ls.len(),
{
    if ls.len() == 0 {
        ScanState { sticks: seq![], current: None }
    } else {
        sp_step(sp_fold(ls.drop_last()), ls.last())
    }
}

/// The sticks that a `system_profiler SPMemoryDataType` listing describes, in order,
/// without those of no capacity.
pub open spec fn system_profiler_sticks(text: Seq<char>) -> Seq<RamStickView> {
    let st = sp_fold(lines(text));
    flush(st.sticks, st.current)
}

/// The value of a `Field: value` line, as `field_value` says.
pub fn field_val(line: &Vec<char>, field: &str) -> (r: Option<Vec<char>>)
    ensures
        r matches Some(v) ==> field_value(line@, field@) == Some(v@),
        r is None ==> field_value(line@, field@) is None,
{
    let f = to_chars(field);
    let n = f.len();
    let labelled = starts_with_chars(line, field) && n < line.len() && line[n] == ':';
    proof {
        let fc = field@.push(':');
        if labelled {
            assert(line@.subrange(0, n + 1) =~= line@.subrange(0, n as int).push(line@[n as int]));
            assert(line@.subrange(0, fc.len() as int) =~= fc);
        }
        if starts_with(line@, fc) {
            assert(line@.subrange(0, n as int) =~= line@.subrange(0, fc.len() as int).subrange(0, n as int));
            assert(fc.subrange(0, n as int) =~= field@);
            assert(starts_with(line@, field@));
            assert(line@[n as int] == line@.subrange(0, fc.len() as int)[n as int]);
            assert(labelled);
        }
    }
    if labelled {
        match after_char_exec(line, ':') {
            Some(v) => Some(trim_chars(&v)),
            None => None,
        }
    } else {
        None
    }
}

/// A size such as "16 GB" in MB.
pub fn parse_size_to_mb(val: &Vec<char>) -> (r: Option<u64>)
    ensures
        r == size_to_mb(val@),
{
    let parts = words_exec(val);
    if parts.len() < 2 {
        return None;
    }
    assert(parts[0]@ == words(val@)[0] && parts[1]@ == words(val@)[1]);
    match parse_u64_chars(&parts[0]) {
        None => None,
        Some(n) => mb_in_unit_chars(n, &to_uppercase_chars(&parts[1])),
    }
}

fn mb_in_unit_chars(n: u64, unit: &Vec<char>) -> (r: Option<u64>)
    ensures
        r == mb_in_unit(n, unit@),
{
    if eq_str(unit, "MB") {
        Some(n)
    } else if eq_str(unit, "GB") {
        Some(n.wrapping_mul(1024))
    } else {
        None
    }
}

/// A count of an upper-cased unit ("MB", "GB") in MB: the unit rule of
/// `parse_size_to_mb` after the case mapping.
pub fn size_in_unit(n: u64, unit: &str) -> (r: Option<u64>)
    ensures
        r == mb_in_unit(n, unit@),
{
    mb_in_unit_chars(n, &to_chars(unit))
}

fn first_word_number(val: &Vec<char>) -> (r: Option<u32>)
    ensures
        r == first_word_u32(val@),
{
    let w = words_exec(val);
    if w.len() == 0 {
        None
    } else {
        assert(w[0]@ == words(val@)[0]);
        parse_u32_chars(&w[0])
    }
}

fn new_stick() -> (s: RamStick)
    ensures
        s@ == empty_stick(),
{
    RamStick {
        slot: None,
        manufacturer: None,
        part_number: None,
        capacity_mb: 0,
        speed_mhz: None,
        memory_type: None,
        cas_latency: None,
        trcd: None,
        trp: None,
        tras: None,
    }
}

fn flush_exec(sticks: &mut Vec<RamStick>, cur: Option<RamStick>)
    ensures
        stick_views(final(sticks)@) == flush(stick_views(old(sticks)@), match cur {
            Some(s) => Some(s@),
            None => None,
        }),
{
    let ghost before = sticks@;
    match cur {
        Some(s) => {
            if s.capacity_mb > 0 {
                sticks.push(s);
                assert(stick_views(sticks@) =~= stick_views(before).push(s@));
            }
        },
        None => {},
    }
}

fn dmi_update_exec(s: RamStick, t: &Vec<char>) -> (r: RamStick)
    ensures
        r@ == dmi_update(s@, t@),
{
    if let Some(v) = field_val(t, "Locator") {
        RamStick { slot: Some(from_chars(&v)), ..s }
    } else if let Some(v) = field_val(t, "Manufacturer") {
        if !eq_str(&v, "Not Specified") {
            RamStick { manufacturer: Some(from_chars(&v)), ..s }
        } else {
            s
        }
    } else if let Some(v) = field_val(t, "Part Number") {
        if !eq_str(&v, "Not Specified") {
            RamStick { part_number: Some(from_chars(&trim_chars(&v))), ..s }
        } else {
            s
        }
    } else if let Some(v) = field_val(t, "Size") {
        RamStick {
            capacity_mb: match parse_size_to_mb(&v) {
                Some(m) => m,
                None => 0,
            },
            ..s
        }
    } else if let Some(v) = field_val(t, "Speed") {
        RamStick { speed_mhz: first_word_number(&v), ..s }
    } else if let Some(v) = field_val(t, "Type") {
        RamStick { memory_type: Some(from_chars(&v)), ..s }
    } else {
        s
    }
}

pub open spec fn opt_stick_view(o: Option<RamStick>) -> Option<RamStickView> {
    match o {
        Some(s) => Some(s@),
        None => None,
    }
}

/// Reads the memory sticks out of a `dmidecode -t memory` listing: each
/// "Memory Device" block is one stick, kept when its size is known and non-zero.
pub fn parse_dmidecode_memory(text: &str) -> (r: Vec<RamStick>)
    ensures
        stick_views(r@) == dmidecode_sticks(text@),
{
    let chars = to_chars(text);
    let ls = lines_exec(&chars);
    let ghost lv = views(ls@);
    let mut sticks: Vec<RamStick> = Vec::new();
    let mut current: Option<RamStick> = None;
    let mut k: usize = 0;
    assert(lv.take(0) =~= Seq::<Seq<char>>::empty());
    assert(stick_views(sticks@) =~= Seq::<RamStickView>::empty());
    while k < ls.len()
        invariant
            k <= ls@.len(),
            lv == views(ls@),
            lv == lines(text@),
            dmi_fold(lv.take(k as int)) == (ScanState {
                sticks: stick_views(sticks@),
                current: opt_stick_view(current),
            }),
        decreases ls@.len() - k,
    {
        assert(lv.take(k + 1).drop_last() =~= lv.take(k as int));
        assert(lv.take(k + 1).last() == ls@[k as int]@);
        let t = trim_chars(&ls[k]);
        if eq_str(&t, "Memory Device") {
            let cur = current;
            flush_exec(&mut sticks, cur);
            current = Some(new_stick());
        } else {
            match current {
                Some(s) => {
                    current = Some(dmi_update_exec(s, &t));
                },
                None => {
                    current = None;
                },
            }
        }
        k = k + 1;
    }
    assert(lv.take(ls@.len() as int) =~= lv);
    flush_exec(&mut sticks, current);
    sticks
}

fn sp_update_exec(s: RamStick, t: &Vec<char>) -> (r: RamStick)
    ensures
        r@ == sp_update(s@, t@),
{
    if let Some(v) = field_val(t, "Size") {
        RamStick {
            capacity_mb: match parse_size_to_mb(&v) {
                Some(m) => m,
                None => 0,
            },
            ..s
        }
    } else if let Some(v) = field_val(t, "Speed") {
        RamStick { speed_mhz: first_word_number(&v), ..s }
    } else if let Some(v) = field_val(t, "Type") {
        RamStick { memory_type: Some(from_chars(&v)), ..s }
    } else if let Some(v) = field_val(t, "Manufacturer") {
        RamStick { manufacturer: Some(from_chars(&v)), ..s }
    } else if let Some(v) = field_val(t, "Part Number") {
        RamStick { part_number: Some(from_chars(&v)), ..s }
    } else {
        s
    }
}

/// Reads the memory sticks out of a `system_profiler SPMemoryDataType` listing:
/// each slot header ("DIMM0/J1:", "Bank 0/DIMM0:") opens a stick, kept when its
/// size is known and non-zero.
pub fn parse_system_profiler_memory(text: &str) -> (r: Vec<RamStick>)
    ensures
        stick_views(r@) == system_profiler_sticks(text@),
{
    let chars = to_chars(text);
    let ls = lines_exec(&chars);
    let ghost lv = views(ls@);
    let mut sticks: Vec<RamStick> = Vec::new();
    let mut current: Option<RamStick> = None;
    let mut k: usize = 0;
    assert(lv.take(0) =~= Seq::<Seq<char>>::empty());
    assert(stick_views(sticks@) =~= Seq::<RamStickView>::empty());
    while k < ls.len()
        invariant
            k <= ls@.len(),
            lv == views(ls@),
            lv == lines(text@),
            sp_fold(lv.take(k as int)) == (ScanState {
                sticks: stick_views(sticks@),
                current: opt_stick_view(current),
            }),
        decreases ls@.len() - k,
    {
        assert(lv.take(k + 1).drop_last() =~= lv.take(k as int));
        assert(lv.take(k + 1).last() == ls@[k as int]@);
        let t = trim_chars(&ls[k]);
        if ends_with_chars(&t, ":") && (contains_str(&t, "DIMM") || contains_str(&t, "Bank")) {
            let cur = current;
            flush_exec(&mut sticks, cur);
            let slot = trim_end_char_exec(&t, ':');
            current = Some(RamStick { slot: Some(from_chars(&slot)), ..new_stick() });
        } else {
            match current {
                Some(s) => {
                    current = Some(sp_update_exec(s, &t));
                },
                None => {
                    current = None;
                },
            }
        }
        k = k + 1;
    }
    assert(lv.take(ls@.len() as int) =~= lv);
    flush_exec(&mut sticks, current);
    sticks
}


/// Where the memory inventory comes from on each platform, as the platform handed it out.
pub enum MemorySource {
    /// The rows of the Windows memory inventory (none where the query failed).
    Inventory(Vec<MemoryRecord>),
    /// The output of `dmidecode -t memory`, where it ran, succeeded and was UTF-8.
    Dmidecode(Option<String>),
    /// The output of `system_profiler SPMemoryDataType`, where it ran and was UTF-8.
    SystemProfiler(Option<String>),
}

/// The sticks that a memory inventory describes.
pub open spec fn sticks_of_source(source: MemorySource) -> Seq<RamStickView> {
    match source {
        MemorySource::Inventory(rs) => sticks_of_records(record_views(rs@)),
        MemorySource::Dmidecode(Some(t)) => dmidecode_sticks(t@),
        MemorySource::SystemProfiler(Some(t)) => system_profiler_sticks(t@),
        _ => seq![],
    }
}

/// The memory sticks of the machine, from the platform's inventory.
pub fn collect(source: &MemorySource) -> (r: Vec<RamStick>)
    ensures
        stick_views(r@) == sticks_of_source(*source),
{
    match source {
        MemorySource::Inventory(rs) => sticks_from_records(rs),
        MemorySource::Dmidecode(Some(t)) => parse_dmidecode_memory(t.as_str()),
        MemorySource::SystemProfiler(Some(t)) => parse_system_profiler_memory(t.as_str()),
        _ => {
            let r: Vec<RamStick> = Vec::new();
            assert(stick_views(r@) =~= seq![]);
            r
        },
    }
}

pub open spec fn all_have_capacity(s: Seq<RamStickView>) -> bool {
    forall|i: int| 0 <= i < s.len() ==> #[trigger] s[i].capacity_mb > 0
}

proof fn lemma_flush_capacity(sticks: Seq<RamStickView>, cur: Option<RamStickView>)
    requires
        all_have_capacity(sticks),
    ensures
        all_have_capacity(flush(sticks, cur)),
{
    if let Some(s) = cur {
        if s.capacity_mb > 0 {
            assert forall|i: int| 0 <= i < sticks.push(s).len() implies #[trigger] sticks.push(
                s,
            )[i].capacity_mb > 0 by {
                if i < sticks.len() {
                    assert(sticks.push(s)[i] == sticks[i]);
                }
            }
        }
    }
}

proof fn lemma_dmi_fold_capacity(ls: Seq<Seq<char>>)
    ensures
        all_have_capacity(dmi_fold(ls).sticks),
    decreases ls.len(),
{
    if ls.len() > 0 {
        lemma_dmi_fold_capacity(ls.drop_last());
        let st = dmi_fold(ls.drop_last());
        lemma_flush_capacity(st.sticks, st.current);
    }
}

proof fn lemma_sp_fold_capacity(ls: Seq<Seq<char>>)
    ensures
        all_have_capacity(sp_fold(ls).sticks),
    decreases ls.len(),
{
    if ls.len() > 0 {
        lemma_sp_fold_capacity(ls.drop_last());
        let st = sp_fold(ls.drop_last());
        lemma_flush_capacity(st.sticks, st.current);
    }
}

proof fn lemma_records_capacity(rs: Seq<MemoryRecordView>)
    ensures
        all_have_capacity(sticks_of_records(rs)),
    decreases rs.len(),
{
    if rs.len() > 0 {
        lemma_records_capacity(rs.drop_last());
        let prev = sticks_of_records(rs.drop_last());
        let s = stick_of_record(rs.last());
        if s.capacity_mb > 0 {
            lemma_flush_capacity(prev, Some(s));
            assert(sticks_of_records(rs) =~= prev.push(s));
        } else {
            assert(sticks_of_records(rs) =~= prev);
        }
    }
}

/// Every stick that the inventory yields has a capacity of at least one MB: empty
/// slots and sticks of unknown size are left out on every platform.
pub proof fn lemma_collected_sticks_have_capacity(source: MemorySource)
    ensures
        all_have_capacity(sticks_of_source(source)),
{
    match source {
        MemorySource::Inventory(rs) => lemma_records_capacity(record_views(rs@)),
        MemorySource::Dmidecode(Some(t)) => {
            let st = dmi_fold(lines(t@));
            lemma_dmi_fold_capacity(lines(t@));
            lemma_flush_capacity(st.sticks, st.current);
        },
        MemorySource::SystemProfiler(Some(t)) => {
            let st = sp_fold(lines(t@));
            lemma_sp_fold_capacity(lines(t@));
            lemma_flush_capacity(st.sticks, st.current);
        },
        _ => {},
    }
}

/// The number of "Memory Device" lines (once trimmed) among the lines.
pub open spec fn device_blocks(ls: Seq<Seq<char>>) -> nat
    decreases ls.len(),
{
    if ls.len() == 0 {
        0
    } else {
        device_blocks(ls.drop_last()) + if trim(ls.last()) == "Memory Device"@ {
            1nat
        } else {
            0nat
        }
    }
}

/// A stick without any timing: dmidecode's memory listing gives none.
pub open spec fn no_timings(s: RamStickView) -> bool {
    s.cas_latency is None && s.trcd is None && s.trp is None && s.tras is None
}

proof fn lemma_dmi_fold_shape(ls: Seq<Seq<char>>)
    ensures
        dmi_fold(ls).sticks.len() + (if dmi_fold(ls).current is Some {
            1nat
        } else {
            0nat
        }) <= device_blocks(ls),
        forall|i: int|
            0 <= i < dmi_fold(ls).sticks.len() ==> no_timings(#[trigger] dmi_fold(ls).sticks[i]),
        dmi_fold(ls).current matches Some(c) ==> no_timings(c),
    decreases ls.len(),
{
    if ls.len() > 0 {
        lemma_dmi_fold_shape(ls.drop_last());
        let st = dmi_fold(ls.drop_last());
        let nx = dmi_fold(ls);
        let t = trim(ls.last());
        if t == "Memory Device"@ {
            assert forall|i: int| 0 <= i < nx.sticks.len() implies no_timings(
                #[trigger] nx.sticks[i],
            ) by {
                if i < st.sticks.len() {
                    assert(nx.sticks[i] == st.sticks[i]);
                }
            }
        } else {
            if let Some(c) = st.current {
                assert(no_timings(dmi_update(c, t)));
            }
        }
    }
}

/// The sticks of a dmidecode memory listing have a capacity and no timings, and
/// there are at most as many as the listing has "Memory Device" blocks.
pub proof fn lemma_dmidecode_sticks_shape(text: Seq<char>)
    ensures
        dmidecode_sticks(text).len() <= device_blocks(lines(text)),
        forall|i: int|
            0 <= i < dmidecode_sticks(text).len() ==> #[trigger] dmidecode_sticks(text)[i].capacity_mb
                > 0 && no_timings(dmidecode_sticks(text)[i]),
{
    let ls = lines(text);
    let st = dmi_fold(ls);
    lemma_dmi_fold_shape(ls);
    lemma_dmi_fold_capacity(ls);
    lemma_flush_capacity(st.sticks, st.current);
    let r = dmidecode_sticks(text);
    assert forall|i: int| 0 <= i < r.len() implies #[trigger] r[i].capacity_mb > 0 && no_timings(
        r[i],
    ) by {
        if i < st.sticks.len() {
            assert(r[i] == st.sticks[i]);
        }
    }
}

/// The "Memory Device" blocks of a dmidecode listing, in order: for each "Memory
/// Device" line (once trimmed), the lines after it up to the next one. Lines before
/// the first block belong to none.
pub open spec fn device_block_lines(ls: Seq<Seq<char>>) -> Seq<Seq<Seq<char>>>
    decreases ls.len(),
{
    if ls.len() == 0 {
        seq![]
    } else {
        let b = device_block_lines(ls.drop_last());
        if trim(ls.last()) == "Memory Device"@ {
            b.push(seq![])
        } else if b.len() > 0 {
            b.update(b.len() - 1, b.last().push(ls.last()))
        } else {
            b
        }
    }
}

/// The stick that one block describes: an empty stick, updated by each of the
/// block's lines (trimmed) in turn.
pub open spec fn stick_of_block(block: Seq<Seq<char>>) -> RamStickView
    decreases block.len(),
{
    if block.len() == 0 {
        empty_stick()
    } else {
        dmi_update(stick_of_block(block.drop_last()), trim(block.last()))
    }
}

/// The sticks of the blocks, in block order, without those of no capacity.
pub open spec fn block_sticks(bs: Seq<Seq<Seq<char>>>) -> Seq<RamStickView>
    decreases bs.len(),
{
    if bs.len() == 0 {
        seq![]
    } else {
        let s = stick_of_block(bs.last());
        block_sticks(bs.drop_last()) + if s.capacity_mb > 0 {
            seq![s]
        } else {
            seq![]
        }
    }
}

proof fn lemma_dmi_fold_blocks(ls: Seq<Seq<char>>)
    ensures
        ({
            let bs = device_block_lines(ls);
            let st = dmi_fold(ls);
            &&& bs.len() == 0 ==> st.sticks == Seq::<RamStickView>::empty() && st.current is None
            &&& bs.len() > 0 ==> st.sticks == block_sticks(bs.drop_last()) && st.current == Some(
                stick_of_block(bs.last()),
            )
        }),
    decreases ls.len(),
{
    if ls.len() > 0 {
        lemma_dmi_fold_blocks(ls.drop_last());
        let b = device_block_lines(ls.drop_last());
        let t = trim(ls.last());
        if t == "Memory Device"@ {
            let nb = b.push(seq![]);
            assert(nb.drop_last() =~= b);
            assert(stick_of_block(nb.last()) == empty_stick());
            if b.len() > 0 {
                let s = stick_of_block(b.last());
                assert(block_sticks(b) == block_sticks(b.drop_last()) + if s.capacity_mb > 0 {
                    seq![s]
                } else {
                    seq![]
                });
                if s.capacity_mb > 0 {
                    assert(block_sticks(b.drop_last()).push(s) =~= block_sticks(b.drop_last())
                        + seq![s]);
                } else {
                    assert(block_sticks(b.drop_last()) =~= block_sticks(b.drop_last()) + seq![]);
                }
            } else {
                assert(b =~= Seq::<Seq<Seq<char>>>::empty());
            }
        } else if b.len() > 0 {
            let nb = b.update(b.len() - 1, b.last().push(ls.last()));
            assert(nb.drop_last() =~= b.drop_last());
            assert(nb.last() == b.last().push(ls.last()));
            assert(b.last().push(ls.last()).drop_last() =~= b.last());
        }
    }
}

/// A dmidecode memory listing gives the sticks of its "Memory Device" blocks in block
/// order, one per block whose size is known and non-zero, each made of its own
/// block's lines.
pub proof fn lemma_dmidecode_block_order(text: Seq<char>)
    ensures
        dmidecode_sticks(text) == block_sticks(device_block_lines(lines(text))),
{
    let ls = lines(text);
    let bs = device_block_lines(ls);
    lemma_dmi_fold_blocks(ls);
    let st = dmi_fold(ls);
    if bs.len() > 0 {
        let s = stick_of_block(bs.last());
        assert(bs.drop_last().push(bs.last()) =~= bs);
        if s.capacity_mb > 0 {
            assert(block_sticks(bs) =~= block_sticks(bs.drop_last()).push(s));
        } else {
            assert(block_sticks(bs) =~= block_sticks(bs.drop_last()));
        }
    }
}

/// The JEDEC id table: each listed bank/manufacturer id, in either byte order and
/// however it is padded with whitespace, names its maker.
pub proof fn lemma_jedec_ids_name_makers(upper: Seq<char>)
    ensures
        trim(upper) == "80CE"@ ==> maker_of_id(upper) == "Samsung"@,
        trim(upper) == "CE80"@ ==> maker_of_id(upper) == "Samsung"@,
        trim(upper) == "AD00"@ ==> maker_of_id(upper) == "SK Hynix"@,
        trim(upper) == "80AD"@ ==> maker_of_id(upper) == "SK Hynix"@,
        trim(upper) == "AD80"@ ==> maker_of_id(upper) == "SK Hynix"@,
        trim(upper) == "2C00"@ ==> maker_of_id(upper) == "Micron"@,
        trim(upper) == "802C"@ ==> maker_of_id(upper) == "Micron"@,
        trim(upper) == "2C80"@ ==> maker_of_id(upper) == "Micron"@,
        trim(upper) == "0198"@ ==> maker_of_id(upper) == "Kingston"@,
        trim(upper) == "9801"@ ==> maker_of_id(upper) == "Kingston"@,
        trim(upper) == "04CD"@ ==> maker_of_id(upper) == "G.Skill"@,
        trim(upper) == "CD04"@ ==> maker_of_id(upper) == "G.Skill"@,
        trim(upper) == "0420"@ ==> maker_of_id(upper) == "Corsair"@,
        trim(upper) == "2004"@ ==> maker_of_id(upper) == "Corsair"@,
        trim(upper) == "1B85"@ ==> maker_of_id(upper) == "ADATA"@,
        trim(upper) == "851B"@ ==> maker_of_id(upper) == "ADATA"@,
{
    reveal_strlit("Samsung");
    reveal_strlit("80CE");
    reveal_strlit("CE80");
    reveal_strlit("SK Hynix");
    reveal_strlit("AD00");
    reveal_strlit("80AD");
    reveal_strlit("AD80");
    reveal_strlit("Micron");
    reveal_strlit("2C00");
    reveal_strlit("802C");
    reveal_strlit("2C80");
    reveal_strlit("Kingston");
    reveal_strlit("0198");
    reveal_strlit("9801");
    reveal_strlit("G.Skill");
    reveal_strlit("04CD");
    reveal_strlit("CD04");
    reveal_strlit("Corsair");
    reveal_strlit("0420");
    reveal_strlit("2004");
    reveal_strlit("ADATA");
    reveal_strlit("1B85");
    reveal_strlit("851B");
    assert("CE80"@[0] != "80CE"@[0]);
    assert("AD00"@[0] != "80CE"@[0]);
    assert("AD00"@[0] != "CE80"@[0]);
    assert("80AD"@[2] != "80CE"@[2]);
    assert("80AD"@[0] != "CE80"@[0]);
    assert("80AD"@[0] != "AD00"@[0]);
    assert("AD80"@[0] != "80CE"@[0]);
    assert("AD80"@[0] != "CE80"@[0]);
    assert("AD80"@[2] != "AD00"@[2]);
    assert("AD80"@[0] != "80AD"@[0]);
    assert("2C00"@[0] != "80CE"@[0]);
    assert("2C00"@[0] != "CE80"@[0]);
    assert("2C00"@[0] != "AD00"@[0]);
    assert("2C00"@[0] != "80AD"@[0]);
    assert("2C00"@[0] != "AD80"@[0]);
    assert("802C"@[2] != "80CE"@[2]);
    assert("802C"@[0] != "CE80"@[0]);
    assert("802C"@[0] != "AD00"@[0]);
    assert("802C"@[2] != "80AD"@[2]);
    assert("802C"@[0] != "AD80"@[0]);
    assert("802C"@[0] != "2C00"@[0]);
    assert("2C80"@[0] != "80CE"@[0]);
    assert("2C80"@[0] != "CE80"@[0]);
    assert("2C80"@[0] != "AD00"@[0]);
    assert("2C80"@[0] != "80AD"@[0]);
    assert("2C80"@[0] != "AD80"@[0]);
    assert("2C80"@[2] != "2C00"@[2]);
    assert("2C80"@[0] != "802C"@[0]);
    assert("0198"@[0] != "80CE"@[0]);
    assert("0198"@[0] != "CE80"@[0]);
    assert("0198"@[0] != "AD00"@[0]);
    assert("0198"@[0] != "80AD"@[0]);
    assert("0198"@[0] != "AD80"@[0]);
    assert("0198"@[0] != "2C00"@[0]);
    assert("0198"@[0] != "802C"@[0]);
    assert("0198"@[0] != "2C80"@[0]);
    assert("9801"@[0] != "80CE"@[0]);
    assert("9801"@[0] != "CE80"@[0]);
    assert("9801"@[0] != "AD00"@[0]);
    assert("9801"@[0] != "80AD"@[0]);
    assert("9801"@[0] != "AD80"@[0]);
    assert("9801"@[0] != "2C00"@[0]);
    assert("9801"@[0] != "802C"@[0]);
    assert("9801"@[0] != "2C80"@[0]);
    assert("9801"@[0] != "0198"@[0]);
    assert("04CD"@[0] != "80CE"@[0]);
    assert("04CD"@[0] != "CE80"@[0]);
    assert("04CD"@[0] != "AD00"@[0]);
    assert("04CD"@[0] != "80AD"@[0]);
    assert("04CD"@[0] != "AD80"@[0]);
    assert("04CD"@[0] != "2C00"@[0]);
    assert("04CD"@[0] != "802C"@[0]);
    assert("04CD"@[0] != "2C80"@[0]);
    assert("04CD"@[1] != "0198"@[1]);
    assert("04CD"@[0] != "9801"@[0]);
    assert("CD04"@[0] != "80CE"@[0]);
    assert("CD04"@[1] != "CE80"@[1]);
    assert("CD04"@[0] != "AD00"@[0]);
    assert("CD04"@[0] != "80AD"@[0]);
    assert("CD04"@[0] != "AD80"@[0]);
    assert("CD04"@[0] != "2C00"@[0]);
    assert("CD04"@[0] != "802C"@[0]);
    assert("CD04"@[0] != "2C80"@[0]);
    assert("CD04"@[0] != "0198"@[0]);
    assert("CD04"@[0] != "9801"@[0]);
    assert("CD04"@[0] != "04CD"@[0]);
    assert("0420"@[0] != "80CE"@[0]);
    assert("0420"@[0] != "CE80"@[0]);
    assert("0420"@[0] != "AD00"@[0]);
    assert("0420"@[0] != "80AD"@[0]);
    assert("0420"@[0] != "AD80"@[0]);
    assert("0420"@[0] != "2C00"@[0]);
    assert("0420"@[0] != "802C"@[0]);
    assert("0420"@[0] != "2C80"@[0]);
    assert("0420"@[1] != "0198"@[1]);
    assert("0420"@[0] != "9801"@[0]);
    assert("0420"@[2] != "04CD"@[2]);
    assert("0420"@[0] != "CD04"@[0]);
    assert("2004"@[0] != "80CE"@[0]);
    assert("2004"@[0] != "CE80"@[0]);
    assert("2004"@[0] != "AD00"@[0]);
    assert("2004"@[0] != "80AD"@[0]);
    assert("2004"@[0] != "AD80"@[0]);
    assert("2004"@[1] != "2C00"@[1]);
    assert("2004"@[0] != "802C"@[0]);
    assert("2004"@[1] != "2C80"@[1]);
    assert("2004"@[0] != "0198"@[0]);
    assert("2004"@[0] != "9801"@[0]);
    assert("2004"@[0] != "04CD"@[0]);
    assert("2004"@[0] != "CD04"@[0]);
    assert("2004"@[0] != "0420"@[0]);
    assert("1B85"@[0] != "80CE"@[0]);
    assert("1B85"@[0] != "CE80"@[0]);
    assert("1B85"@[0] != "AD00"@[0]);
    assert("1B85"@[0] != "80AD"@[0]);
    assert("1B85"@[0] != "AD80"@[0]);
    assert("1B85"@[0] != "2C00"@[0]);
    assert("1B85"@[0] != "802C"@[0]);
    assert("1B85"@[0] != "2C80"@[0]);
    assert("1B85"@[0] != "0198"@[0]);
    assert("1B85"@[0] != "9801"@[0]);
    assert("1B85"@[0] != "04CD"@[0]);
    assert("1B85"@[0] != "CD04"@[0]);
    assert("1B85"@[0] != "0420"@[0]);
    assert("1B85"@[0] != "2004"@[0]);
    assert("851B"@[1] != "80CE"@[1]);
    assert("851B"@[0] != "CE80"@[0]);
    assert("851B"@[0] != "AD00"@[0]);
    assert("851B"@[1] != "80AD"@[1]);
    assert("851B"@[0] != "AD80"@[0]);
    assert("851B"@[0] != "2C00"@[0]);
    assert("851B"@[1] != "802C"@[1]);
    assert("851B"@[0] != "2C80"@[0]);
    assert("851B"@[0] != "0198"@[0]);
    assert("851B"@[0] != "9801"@[0]);
    assert("851B"@[0] != "04CD"@[0]);
    assert("851B"@[0] != "CD04"@[0]);
    assert("851B"@[0] != "0420"@[0]);
    assert("851B"@[0] != "2004"@[0]);
    assert("851B"@[0] != "1B85"@[0]);
}

/// A raw manufacturer field whose upper-cased, trimmed text is a listed JEDEC id
/// names the id's maker, whatever the case of its letters.
pub proof fn lemma_raw_jedec_id_names_maker(raw: Seq<char>)
    ensures
        trim(uppercase(raw)) == "80CE"@ ==> manufacturer_name(raw) == "Samsung"@,
        trim(uppercase(raw)) == "CE80"@ ==> manufacturer_name(raw) == "Samsung"@,
        trim(uppercase(raw)) == "AD00"@ ==> manufacturer_name(raw) == "SK Hynix"@,
        trim(uppercase(raw)) == "80AD"@ ==> manufacturer_name(raw) == "SK Hynix"@,
        trim(uppercase(raw)) == "AD80"@ ==> manufacturer_name(raw) == "SK Hynix"@,
        trim(uppercase(raw)) == "2C00"@ ==> manufacturer_name(raw) == "Micron"@,
        trim(uppercase(raw)) == "802C"@ ==> manufacturer_name(raw) == "Micron"@,
        trim(uppercase(raw)) == "2C80"@ ==> manufacturer_name(raw) == "Micron"@,
        trim(uppercase(raw)) == "0198"@ ==> manufacturer_name(raw) == "Kingston"@,
        trim(uppercase(raw)) == "9801"@ ==> manufacturer_name(raw) == "Kingston"@,
        trim(uppercase(raw)) == "04CD"@ ==> manufacturer_name(raw) == "G.Skill"@,
        trim(uppercase(raw)) == "CD04"@ ==> manufacturer_name(raw) == "G.Skill"@,
        trim(uppercase(raw)) == "0420"@ ==> manufacturer_name(raw) == "Corsair"@,
        trim(uppercase(raw)) == "2004"@ ==> manufacturer_name(raw) == "Corsair"@,
        trim(uppercase(raw)) == "1B85"@ ==> manufacturer_name(raw) == "ADATA"@,
        trim(uppercase(raw)) == "851B"@ ==> manufacturer_name(raw) == "ADATA"@,
{
    lemma_jedec_ids_name_makers(uppercase(raw));
}

} // verus!