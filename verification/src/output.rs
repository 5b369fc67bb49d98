//! The plain-text report of a system snapshot.
use vstd::prelude::*;
use crate::models::{
    opt_board_view, opt_cpu_view, opt_os_view, opt_view, CpuInfo, CpuInfoView, DisplayInfo,
    DisplayInfoView, GpuInfo, GpuInfoView, MotherboardInfo, MotherboardInfoView, OsInfo,
    OsInfoView, PeripheralDevice, PeripheralDeviceView, RamStick, RamStickView, StorageDevice,
    StorageDeviceView, StorageType, SystemSnapshot, SystemSnapshotView,
};
use crate::rounding::{
    exp2, lemma_exp2_values, lemma_round_bounds, nearest_double, nearest_double_exec,
    round_half_even, round_half_even_exec,
};
use crate::text::{
    dec, dec_chars, digit_char, ends_with, eq_str, from_chars, push_all, push_str, starts_with,
};

verus! {

/// An optional string, or `d` where it is absent.
pub open spec fn or_else(o: Option<Seq<char>>, d: Seq<char>) -> Seq<char> {
    match o {
        Some(s) => s,
        None => d,
    }
}

/// A size in KB as the report prints it: whole MB from 1024 KB up, else KB.
pub open spec fn cache_text(kb: u64) -> Seq<char> {
    if kb >= 1024 {
        dec((kb / 1024) as nat) + " MB"@
    } else {
        dec(kb as nat) + " KB"@
    }
}

/// A size in MB as the report prints it: whole GB from 1024 MB up, else MB.
pub open spec fn ram_size_text(mb: u64) -> Seq<char> {
    if mb >= 1024 {
        dec((mb / 1024) as nat) + " GB"@
    } else {
        dec(mb as nat) + " MB"@
    }
}

/// The memory timings of a stick: all four when all are known, else the CAS
/// latency alone when it is known, else nothing.
pub open spec fn timings_text(s: RamStickView) -> Seq<char> {
    match (s.cas_latency, s.trcd, s.trp, s.tras) {
        (Some(cl), Some(rcd), Some(rp), Some(ras)) => " CL"@ + dec(cl as nat) + "-"@ + dec(
            rcd as nat,
        ) + "-"@ + dec(rp as nat) + "-"@ + dec(ras as nat),
        (Some(cl), _, _, _) => " CL"@ + dec(cl as nat),
        _ => seq![],
    }
}

/// A clock of `mhz` MHz in hundredths of a GHz, as the report rounds it: the MHz as
/// a binary64 number, divided by 1000 in binary64 arithmetic, then printed with two
/// decimals (the exact value of that number rounded, a tie going to the even digit).
pub open spec fn mhz_hundredths(mhz: u64) -> nat {
    let x = nearest_double(mhz as nat, 1);
    let y = nearest_double(x.0, x.1 * 1000);
    round_half_even(y.0 * 100, y.1)
}

/// A clock of `khz` kHz in hundredths of a GHz, as the report rounds it: the kHz as a
/// binary64 number, divided by 1000 into MHz and by 1000 again into GHz in binary64
/// arithmetic, then printed with two decimals.
pub open spec fn khz_hundredths(khz: u64) -> nat {
    let a = nearest_double(khz as nat, 1);
    let b = nearest_double(a.0, a.1 * 1000);
    let c = nearest_double(b.0, b.1 * 1000);
    round_half_even(c.0 * 100, c.1)
}

/// A count of hundredths written with two decimals ("4.70").
pub open spec fn hundredths_text(h: nat) -> Seq<char> {
    dec(h / 100) + "."@ + seq![digit_char((h % 100) / 10), digit_char(h % 10)]
}

/// A size in bytes as the report prints it in whole GB: the size as a binary64
/// number, divided by 2^30 (which binary64 division does exactly), then rounded to
/// the nearest whole number, a tie going to the even one.
pub open spec fn gb_rounded(bytes: u64) -> nat {
    let x = nearest_double(bytes as nat, 1);
    round_half_even(x.0, x.1 * exp2(30))
}

pub open spec fn os_section(o: Option<OsInfoView>) -> Seq<char> {
    match o {
        None => seq![],
        Some(os) => "[ OS ]\n"@ + "  "@ + os.name + (match os.build {
            Some(b) => " (Build "@ + b + ")"@,
            None => seq![],
        }) + "\n\n"@,
    }
}

/// The brand, core and base clock lines of a CPU.
pub open spec fn cpu_head(c: CpuInfoView) -> Seq<char> {
    "  "@ + c.brand + "\n"@ + "  Cores / Threads: "@ + dec(c.cores as nat) + " / "@ + dec(
        c.threads as nat,
    ) + "\n"@ + "  Base Clock:  "@ + hundredths_text(mhz_hundredths(c.base_clock_mhz)) + " GHz\n"@
}

pub open spec fn boost_line(o: Option<u64>) -> Seq<char> {
    match o {
        Some(b) => "  Boost Clock: "@ + hundredths_text(khz_hundredths(b)) + " GHz\n"@,
        None => seq![],
    }
}

pub open spec fn cache_line(label: Seq<char>, o: Option<u64>) -> Seq<char> {
    match o {
        Some(k) => label + cache_text(k) + "\n"@,
        None => seq![],
    }
}

pub open spec fn cpu_section(o: Option<CpuInfoView>) -> Seq<char> {
    match o {
        None => seq![],
        Some(c) => "[ CPU ]\n"@ + cpu_head(c) + boost_line(c.boost_clock_khz) + cache_line(
            "  L2 Cache:    "@,
            c.cache_l2_kb,
        ) + cache_line("  L3 Cache:    "@, c.cache_l3_kb) + "\n"@,
    }
}

/// The BIOS line of a board, present when its version or date is known.
pub open spec fn bios_line(m: MotherboardInfoView) -> Seq<char> {
    if m.bios_version is Some || m.bios_date is Some {
        "  BIOS: "@ + or_else(m.bios_vendor, seq![]) + " "@ + or_else(m.bios_version, "?"@) + " ("@
            + or_else(m.bios_date, "?"@) + ")\n"@
    } else {
        seq![]
    }
}

pub open spec fn board_section(o: Option<MotherboardInfoView>) -> Seq<char> {
    match o {
        None => seq![],
        Some(m) => "[ MOTHERBOARD ]\n"@ + "  "@ + m.manufacturer + " "@ + m.model + "\n"@
            + bios_line(m) + "\n"@,
    }
}

/// The maker and part number of a stick, each present only when non-empty.
pub open spec fn ident_text(s: RamStickView) -> Seq<char> {
    let m = or_else(s.manufacturer, seq![]);
    let p = or_else(s.part_number, seq![]);
    if m.len() == 0 && p.len() == 0 {
        seq![]
    } else if m.len() == 0 {
        " "@ + p
    } else if p.len() == 0 {
        " "@ + m
    } else {
        " "@ + m + " "@ + p
    }
}

pub open spec fn stick_line(s: RamStickView) -> Seq<char> {
    "  Slot "@ + or_else(s.slot, "?"@) + ": "@ + ram_size_text(s.capacity_mb) + " "@ + or_else(
        s.memory_type,
        "DDR"@,
    ) + ident_text(s) + (match s.speed_mhz {
        Some(v) => " @ "@ + dec(v as nat) + "MHz"@,
        None => seq![],
    }) + timings_text(s) + "\n"@
}

pub open spec fn stick_lines(s: Seq<RamStickView>) -> Seq<char>
    decreases s.len(),
{
    if s.len() == 0 {
        seq![]
    } else {
        stick_lines(s.drop_last()) + stick_line(s.last())
    }
}

/// The total capacity of the sticks, in MB.
pub open spec fn total_mb(s: Seq<RamStickView>) -> nat
    decreases s.len(),
{
    if s.len() == 0 {
        0
    } else {
        total_mb(s.drop_last()) + s.last().capacity_mb as nat
    }
}

pub open spec fn ram_section(s: Seq<RamStickView>) -> Seq<char> {
    if s.len() == 0 {
        seq![]
    } else {
        "[ RAM ]\n"@ + "  Total: "@ + ram_size_text(total_mb(s) as u64) + "\n"@ + stick_lines(s)
            + "\n"@
    }
}

pub open spec fn discrete_entry(g: GpuInfoView) -> Seq<char> {
    "  "@ + g.name + "\n"@ + (match g.vram_mb {
        Some(v) => "  VRAM: "@ + ram_size_text(v) + (match g.vram_usable_mb {
            Some(u) => " ("@ + ram_size_text(u) + " usable)"@,
            None => seq![],
        }) + "\n"@,
        None => seq![],
    }) + (match g.driver_version {
        Some(d) => "  Driver: "@ + d + "\n"@,
        None => seq![],
    })
}

pub open spec fn integrated_entry(g: GpuInfoView) -> Seq<char> {
    "  "@ + g.name + "\n"@ + (match g.shared_memory_mb {
        Some(v) => "  Shared Memory: "@ + ram_size_text(v) + "\n"@,
        None => seq![],
    })
}

/// The entries of the GPUs whose `is_integrated` is `integrated`, in their order.
pub open spec fn gpu_entries(s: Seq<GpuInfoView>, integrated: bool) -> Seq<char>
    decreases s.len(),
{
    if s.len() == 0 {
        seq![]
    } else {
        gpu_entries(s.drop_last(), integrated) + if s.last().is_integrated != integrated {
            seq![]
        } else if integrated {
            integrated_entry(s.last())
        } else {
            discrete_entry(s.last())
        }
    }
}

pub open spec fn has_gpu(s: Seq<GpuInfoView>, integrated: bool) -> bool {
    exists|i: int| 0 <= i < s.len() && s[i].is_integrated == integrated
}

pub open spec fn gpu_section(s: Seq<GpuInfoView>, integrated: bool) -> Seq<char> {
    if !has_gpu(s, integrated) {
        seq![]
    } else {
        (if integrated {
            "[ INTEGRATED GRAPHICS ]\n"@
        } else {
            "[ GPU ]\n"@
        }) + gpu_entries(s, integrated) + "\n"@
    }
}

/// The title line of the display at position `i` (counted from zero).
pub open spec fn display_title(i: nat, d: DisplayInfoView) -> Seq<char> {
    "  Display "@ + dec(i + 1) + ": "@ + or_else(d.name, "Unknown Monitor"@) + (if d.is_primary {
        " (Primary)"@
    } else {
        seq![]
    }) + "\n"@
}

/// The mode line of a display: its resolution and refresh rate.
pub open spec fn display_mode(d: DisplayInfoView) -> Seq<char> {
    "    "@ + dec(d.resolution_w as nat) + "x"@ + dec(d.resolution_h as nat) + (
    match d.refresh_rate_hz {
        Some(r) => " @ "@ + dec(r as nat) + "Hz"@,
        None => seq![],
    }) + "\n"@
}

/// The two lines of the display at position `i` (counted from zero).
pub open spec fn display_entry(i: nat, d: DisplayInfoView) -> Seq<char> {
    display_title(i, d) + display_mode(d)
}

pub open spec fn display_entries(s: Seq<DisplayInfoView>) -> Seq<char>
    decreases s.len(),
{
    if s.len() == 0 {
        seq![]
    } else {
        display_entries(s.drop_last()) + display_entry((s.len() - 1) as nat, s.last())
    }
}

pub open spec fn display_section(s: Seq<DisplayInfoView>) -> Seq<char> {
    if s.len() == 0 {
        seq![]
    } else {
        "[ DISPLAYS ]\n"@ + display_entries(s) + "\n"@
    }
}

pub open spec fn kind_text(t: StorageType) -> Seq<char> {
    match t {
        StorageType::NvmeSsd => "NVMe SSD"@,
        StorageType::SataSsd => "SATA SSD"@,
        StorageType::Hdd => "HDD"@,
        StorageType::Unknown => "Storage"@,
    }
}

/// The interface label, shown only where it says more than the kind already does.
pub open spec fn iface_text(i: Option<Seq<char>>) -> Seq<char> {
    match i {
        Some(s) => if s == "NVMe"@ || s == "SATA"@ || s == "SCSI"@ || s == "IDE"@ {
            seq![]
        } else {
            " ["@ + s + "]"@
        },
        None => seq![],
    }
}

pub open spec fn storage_entry(d: StorageDeviceView) -> Seq<char> {
    "  "@ + kind_text(d.device_type) + " | "@ + d.model + " | "@ + dec(gb_rounded(d.capacity_bytes))
        + " GB"@ + iface_text(d.interface) + "\n"@
}

pub open spec fn storage_entries(s: Seq<StorageDeviceView>) -> Seq<char>
    decreases s.len(),
{
    if s.len() == 0 {
        seq![]
    } else {
        storage_entries(s.drop_last()) + storage_entry(s.last())
    }
}

pub open spec fn storage_section(s: Seq<StorageDeviceView>) -> Seq<char> {
    if s.len() == 0 {
        seq![]
    } else {
        "[ STORAGE ]\n"@ + storage_entries(s) + "\n"@
    }
}

pub open spec fn peripheral_entries(s: Seq<PeripheralDeviceView>) -> Seq<char>
    decreases s.len(),
{
    if s.len() == 0 {
        seq![]
    } else {
        peripheral_entries(s.drop_last()) + "  "@ + s.last().name + "\n"@
    }
}

pub open spec fn peripheral_section(s: Seq<PeripheralDeviceView>) -> Seq<char> {
    if s.len() == 0 {
        seq![]
    } else {
        "[ PERIPHERALS ]\n"@ + peripheral_entries(s) + "\n"@
    }
}

/// The report of a snapshot.
pub open spec fn report(s: SystemSnapshotView) -> Seq<char> {
    "=== SYSTEM SPECS ===\n\n"@ + os_section(s.os) + cpu_section(s.cpu) + board_section(
        s.motherboard,
    ) + ram_section(s.ram) + gpu_section(s.gpus, false) + gpu_section(s.gpus, true)
        + display_section(s.displays) + storage_section(s.storage) + peripheral_section(
        s.peripherals,
    ) + "===================\n"@
}


fn cache_chars(kb: u64) -> (r: Vec<char>)
    ensures
        r@ == cache_text(kb),
{
    let mut r;
    if kb >= 1024 {
        r = dec_chars(kb / 1024);
        push_str(&mut r, " MB");
    } else {
        r = dec_chars(kb);
        push_str(&mut r, " KB");
    }
    r
}

fn ram_size_chars(mb: u64) -> (r: Vec<char>)
    ensures
        r@ == ram_size_text(mb),
{
    let mut r;
    if mb >= 1024 {
        r = dec_chars(mb / 1024);
        push_str(&mut r, " GB");
    } else {
        r = dec_chars(mb);
        push_str(&mut r, " MB");
    }
    r
}

fn timings_chars(stick: &RamStick) -> (r: Vec<char>)
    ensures
        r@ == timings_text(stick@),
{
    let mut r: Vec<char> = Vec::new();
    match (stick.cas_latency, stick.trcd, stick.trp, stick.tras) {
        (Some(cl), Some(rcd), Some(rp), Some(ras)) => {
            push_str(&mut r, " CL");
            push_all(&mut r, &dec_chars(cl as u64));
            push_str(&mut r, "-");
            push_all(&mut r, &dec_chars(rcd as u64));
            push_str(&mut r, "-");
            push_all(&mut r, &dec_chars(rp as u64));
            push_str(&mut r, "-");
            push_all(&mut r, &dec_chars(ras as u64));
        },
        (Some(cl), _, _, _) => {
            push_str(&mut r, " CL");
            push_all(&mut r, &dec_chars(cl as u64));
        },
        _ => {},
    }
    r
}

/// A size in KB as the report prints it ("12 MB", "512 KB").
pub fn format_cache(kb: u64) -> (r: String)
    ensures
        r@ == cache_text(kb),
{
    from_chars(&cache_chars(kb))
}

/// A size in MB as the report prints it ("32 GB", "512 MB").
pub fn format_ram_size(mb: u64) -> (r: String)
    ensures
        r@ == ram_size_text(mb),
{
    from_chars(&ram_size_chars(mb))
}

/// The timings of a stick as the report prints them (" CL30-36-36-76", " CL30" or "").
pub fn format_timings(stick: &RamStick) -> (r: String)
    ensures
        r@ == timings_text(stick@),
{
    from_chars(&timings_chars(stick))
}

proof fn lemma_round_at_most(a: nat, b: nat)
    requires
        b >= 1,
    ensures
        round_half_even(a, b) <= a + 1,
{
    assert(a < (a + 1) * b) by (nonlinear_arith)
        requires
            b >= 1,
    ;
    lemma_round_bounds(a, b, 0, a + 1);
}

/// A clock of `mhz` MHz in hundredths of a GHz, as `mhz_hundredths` says.
fn mhz_hundredths_exec(mhz: u64) -> (h: u64)
    ensures
        h == mhz_hundredths(mhz),
{
    proof {
        lemma_exp2_values();
    }
    let x = nearest_double_exec(mhz as u128, 1);
    proof {
        assert(x.1 < 0x20_0000_0000_0000u128) by (nonlinear_arith)
            requires
                x.1 == 1 || (x.1 as nat) * (mhz as nat) < 0x20_0000_0000_0000,
                mhz > 0 || x.1 == 1,
        ;
    }
    let y = nearest_double_exec(x.0, x.1 * 1000);
    proof {
        assert(x.0 <= 0x2_0000_0000_0000_0000u128);
        if !(y.0 <= 0x20_0000_0000_0000) {
            assert((y.0 as nat) * 1000 <= (y.0 as nat) * ((x.1 * 1000) as nat)) by (nonlinear_arith)
                requires
                    x.1 >= 1,
            ;
        }
        lemma_round_at_most((y.0 * 100) as nat, y.1 as nat);
    }
    let h = round_half_even_exec(y.0 * 100, y.1);
    h as u64
}

/// A clock of `khz` kHz in hundredths of a GHz, as `khz_hundredths` says.
fn khz_hundredths_exec(khz: u64) -> (h: u64)
    ensures
        h == khz_hundredths(khz),
{
    proof {
        lemma_exp2_values();
    }
    let a = nearest_double_exec(khz as u128, 1);
    proof {
        assert(a.1 < 0x20_0000_0000_0000u128) by (nonlinear_arith)
            requires
                a.1 == 1 || (a.1 as nat) * (khz as nat) < 0x20_0000_0000_0000,
                khz > 0 || a.1 == 1,
        ;
    }
    let b = nearest_double_exec(a.0, a.1 * 1000);
    proof {
        assert(b.1 < 0x1_0000_0000_0000_0000u128) by (nonlinear_arith)
            requires
                b.1 == 1 || (b.1 as nat) * (a.0 as nat) < 0x20_0000_0000_0000 * ((a.1 * 1000) as nat),
                a.0 > 0 ==> a.0 >= 0x10_0000_0000_0000,
                a.0 == 0 ==> b.1 == 1,
                a.1 < 0x20_0000_0000_0000u128,
        ;
        assert(a.0 <= 0x2_0000_0000_0000_0000u128);
        if !(b.0 <= 0x20_0000_0000_0000) {
            assert((b.0 as nat) * 1000 <= (b.0 as nat) * ((a.1 * 1000) as nat)) by (nonlinear_arith)
                requires
                    a.1 >= 1,
            ;
        }
    }
    let c = nearest_double_exec(b.0, b.1 * 1000);
    proof {
        if !(c.0 <= 0x20_0000_0000_0000) {
            assert((c.0 as nat) * 1000 <= (c.0 as nat) * ((b.1 * 1000) as nat)) by (nonlinear_arith)
                requires
                    b.1 >= 1,
            ;
        }
        lemma_round_at_most((c.0 * 100) as nat, c.1 as nat);
    }
    let h = round_half_even_exec(c.0 * 100, c.1);
    h as u64
}

fn hundredths_chars(h: u64) -> (r: Vec<char>)
    ensures
        r@ == hundredths_text(h as nat),
{
    let mut r = dec_chars(h / 100);
    push_str(&mut r, ".");
    let t = (h % 100) / 10;
    let u = h % 10;
    r.push(digit_of(t));
    r.push(digit_of(u));
    assert(r@ =~= hundredths_text(h as nat));
    r
}

fn digit_of(d: u64) -> (c: char)
    requires
        d < 10,
    ensures
        c == digit_char(d as nat),
{
    let v = dec_chars(d);
    assert(v@ == dec(d as nat));
    v[0]
}

fn opt_push(out: &mut Vec<char>, o: &Option<String>)
    ensures
        final(out)@ == old(out)@ + or_else(opt_view(*o), seq![]),
{
    match o {
        Some(s) => push_str(out, s.as_str()),
        None => {},
    }
}

fn opt_push_or(out: &mut Vec<char>, o: &Option<String>, d: &str)
    ensures
        final(out)@ == old(out)@ + or_else(opt_view(*o), d@),
{
    match o {
        Some(s) => push_str(out, s.as_str()),
        None => push_str(out, d),
    }
}

fn push_os(out: &mut Vec<char>, os: &Option<OsInfo>)
    ensures
        final(out)@ == old(out)@ + os_section(opt_os_view(*os)),
{
    let ghost o0 = out@;
    match os {
        Some(os) => {
            push_str(out, "[ OS ]\n");
            push_str(out, "  ");
            push_str(out, os.name.as_str());
            match &os.build {
                Some(b) => {
                    push_str(out, " (Build ");
                    push_str(out, b.as_str());
                    push_str(out, ")");
                },
                None => {},
            }
            push_str(out, "\n\n");
            assert(out@ =~= o0 + os_section(opt_os_view(Some(*os))));
        },
        None => {
            assert(out@ =~= o0 + os_section(opt_os_view(*os)));
        },
    }
}

fn push_cpu_head(out: &mut Vec<char>, c: &CpuInfo)
    ensures
        final(out)@ == old(out)@ + cpu_head(c@),
{
    let ghost o0 = out@;
    push_str(out, "  ");
    push_str(out, c.brand.as_str());
    push_str(out, "\n");
    push_str(out, "  Cores / Threads: ");
    push_all(out, &dec_chars(c.cores as u64));
    push_str(out, " / ");
    push_all(out, &dec_chars(c.threads as u64));
    push_str(out, "\n");
    push_str(out, "  Base Clock:  ");
    push_all(out, &hundredths_chars(mhz_hundredths_exec(c.base_clock_mhz)));
    push_str(out, " GHz\n");
    assert(out@ =~= o0 + cpu_head(c@));
}

fn push_boost(out: &mut Vec<char>, o: Option<u64>)
    ensures
        final(out)@ == old(out)@ + boost_line(o),
{
    let ghost o0 = out@;
    match o {
        Some(b) => {
            push_str(out, "  Boost Clock: ");
            push_all(out, &hundredths_chars(khz_hundredths_exec(b)));
            push_str(out, " GHz\n");
        },
        None => {},
    }
    assert(out@ =~= o0 + boost_line(o));
}

fn push_cache(out: &mut Vec<char>, label: &str, o: Option<u64>)
    ensures
        final(out)@ == old(out)@ + cache_line(label@, o),
{
    let ghost o0 = out@;
    match o {
        Some(k) => {
            push_str(out, label);
            push_all(out, &cache_chars(k));
            push_str(out, "\n");
        },
        None => {},
    }
    assert(out@ =~= o0 + cache_line(label@, o));
}

fn push_cpu(out: &mut Vec<char>, cpu: &Option<CpuInfo>)
    ensures
        final(out)@ == old(out)@ + cpu_section(opt_cpu_view(*cpu)),
{
    let ghost o0 = out@;
    match cpu {
        Some(c) => {
            push_str(out, "[ CPU ]\n");
            push_cpu_head(out, c);
            push_boost(out, c.boost_clock_khz);
            push_cache(out, "  L2 Cache:    ", c.cache_l2_kb);
            push_cache(out, "  L3 Cache:    ", c.cache_l3_kb);
            push_str(out, "\n");
            assert(out@ =~= o0 + cpu_section(opt_cpu_view(Some(*c))));
        },
        None => {
            assert(out@ =~= o0 + cpu_section(opt_cpu_view(*cpu)));
        },
    }
}

fn push_bios(out: &mut Vec<char>, m: &MotherboardInfo)
    ensures
        final(out)@ == old(out)@ + bios_line(m@),
{
    let ghost o0 = out@;
    if m.bios_version.is_some() || m.bios_date.is_some() {
        push_str(out, "  BIOS: ");
        opt_push(out, &m.bios_vendor);
        push_str(out, " ");
        opt_push_or(out, &m.bios_version, "?");
        push_str(out, " (");
        opt_push_or(out, &m.bios_date, "?");
        push_str(out, ")\n");
    }
    assert(out@ =~= o0 + bios_line(m@));
}

fn push_board(out: &mut Vec<char>, mb: &Option<MotherboardInfo>)
    ensures
        final(out)@ == old(out)@ + board_section(opt_board_view(*mb)),
{
    let ghost o0 = out@;
    match mb {
        Some(m) => {
            push_str(out, "[ MOTHERBOARD ]\n");
            push_str(out, "  ");
            push_str(out, m.manufacturer.as_str());
            push_str(out, " ");
            push_str(out, m.model.as_str());
            push_str(out, "\n");
            push_bios(out, m);
            push_str(out, "\n");
            assert(out@ =~= o0 + board_section(opt_board_view(Some(*m))));
        },
        None => {
            assert(out@ =~= o0 + board_section(opt_board_view(*mb)));
        },
    }
}

fn ident_chars(stick: &RamStick) -> (r: Vec<char>)
    ensures
        r@ == ident_text(stick@),
{
    let mut m: Vec<char> = Vec::new();
    opt_push(&mut m, &stick.manufacturer);
    let mut p: Vec<char> = Vec::new();
    opt_push(&mut p, &stick.part_number);
    assert(m@ =~= or_else(stick@.manufacturer, seq![]));
    assert(p@ =~= or_else(stick@.part_number, seq![]));
    let mut r: Vec<char> = Vec::new();
    if m.len() == 0 && p.len() == 0 {
    } else if m.len() == 0 {
        push_str(&mut r, " ");
        push_all(&mut r, &p);
    } else if p.len() == 0 {
        push_str(&mut r, " ");
        push_all(&mut r, &m);
    } else {
        push_str(&mut r, " ");
        push_all(&mut r, &m);
        push_str(&mut r, " ");
        push_all(&mut r, &p);
    }
    assert(r@ =~= ident_text(stick@));
    r
}

fn push_stick(out: &mut Vec<char>, stick: &RamStick)
    ensures
        final(out)@ == old(out)@ + stick_line(stick@),
{
    let ghost o0 = out@;
    push_str(out, "  Slot ");
    opt_push_or(out, &stick.slot, "?");
    push_str(out, ": ");
    push_all(out, &ram_size_chars(stick.capacity_mb));
    push_str(out, " ");
    opt_push_or(out, &stick.memory_type, "DDR");
    push_all(out, &ident_chars(stick));
    match stick.speed_mhz {
        Some(v) => {
            push_str(out, " @ ");
            push_all(out, &dec_chars(v as u64));
            push_str(out, "MHz");
        },
        None => {},
    }
    push_all(out, &timings_chars(stick));
    push_str(out, "\n");
    assert(out@ =~= o0 + stick_line(stick@));
}

pub open spec fn ram_views(v: Seq<RamStick>) -> Seq<RamStickView> {
    v.map_values(|r: RamStick| r@)
}

fn push_ram(out: &mut Vec<char>, ram: &Vec<RamStick>)
    requires
        total_mb(ram_views(ram@)) <= u64::MAX,
    ensures
        final(out)@ == old(out)@ + ram_section(ram_views(ram@)),
{
    let ghost o0 = out@;
    let ghost rv = ram_views(ram@);
    if ram.len() == 0 {
        assert(out@ =~= o0 + ram_section(rv));
        return;
    }
    let mut total: u64 = 0;
    let mut k: usize = 0;
    while k < ram.len()
        invariant
            k <= ram@.len(),
            rv == ram_views(ram@),
            total_mb(rv) <= u64::MAX,
            total as nat == total_mb(rv.take(k as int)),
        decreases ram@.len() - k,
    {
        assert(rv.take(k + 1).drop_last() =~= rv.take(k as int));
        proof {
            lemma_total_prefix(rv, k + 1);
        }
        total = total + ram[k].capacity_mb;
        k = k + 1;
    }
    assert(rv.take(ram@.len() as int) =~= rv);
    push_str(out, "[ RAM ]\n");
    push_str(out, "  Total: ");
    push_all(out, &ram_size_chars(total));
    push_str(out, "\n");
    let ghost o1 = out@;
    let mut k: usize = 0;
    while k < ram.len()
        invariant
            k <= ram@.len(),
            rv == ram_views(ram@),
            out@ == o1 + stick_lines(rv.take(k as int)),
        decreases ram@.len() - k,
    {
        push_stick(out, &ram[k]);
        assert(rv.take(k + 1).drop_last() =~= rv.take(k as int));
        k = k + 1;
    }
    assert(rv.take(ram@.len() as int) =~= rv);
    push_str(out, "\n");
    assert(out@ =~= o0 + ram_section(rv));
}

proof fn lemma_total_prefix(s: Seq<RamStickView>, k: int)
    requires
        0 <= k <= s.len(),
    ensures
        total_mb(s.take(k)) <= total_mb(s),
    decreases s.len(),
{
    if k < s.len() {
        assert(s.drop_last().take(k) =~= s.take(k));
        lemma_total_prefix(s.drop_last(), k);
    } else {
        assert(s.take(k) =~= s);
    }
}


pub open spec fn gpu_views(v: Seq<GpuInfo>) -> Seq<GpuInfoView> {
    v.map_values(|g: GpuInfo| g@)
}

fn push_gpu_entry(out: &mut Vec<char>, g: &GpuInfo, integrated: bool)
    requires
        g.is_integrated == integrated,
    ensures
        final(out)@ == old(out)@ + if integrated {
            integrated_entry(g@)
        } else {
            discrete_entry(g@)
        },
{
    let ghost o0 = out@;
    push_str(out, "  ");
    push_str(out, g.name.as_str());
    push_str(out, "\n");
    if integrated {
        match g.shared_memory_mb {
            Some(v) => {
                push_str(out, "  Shared Memory: ");
                push_all(out, &ram_size_chars(v));
                push_str(out, "\n");
            },
            None => {},
        }
        assert(out@ =~= o0 + integrated_entry(g@));
    } else {
        match g.vram_mb {
            Some(v) => {
                push_str(out, "  VRAM: ");
                push_all(out, &ram_size_chars(v));
                match g.vram_usable_mb {
                    Some(u) => {
                        push_str(out, " (");
                        push_all(out, &ram_size_chars(u));
                        push_str(out, " usable)");
                    },
                    None => {},
                }
                push_str(out, "\n");
            },
            None => {},
        }
        match &g.driver_version {
            Some(d) => {
                push_str(out, "  Driver: ");
                push_str(out, d.as_str());
                push_str(out, "\n");
            },
            None => {},
        }
        assert(out@ =~= o0 + discrete_entry(g@));
    }
}

fn push_gpus(out: &mut Vec<char>, gpus: &Vec<GpuInfo>, integrated: bool)
    ensures
        final(out)@ == old(out)@ + gpu_section(gpu_views(gpus@), integrated),
{
    let ghost gv = gpu_views(gpus@);
    let mut body: Vec<char> = Vec::new();
    let mut found = false;
    let mut k: usize = 0;
    while k < gpus.len()
        invariant
            k <= gpus@.len(),
            gv == gpu_views(gpus@),
            body@ == gpu_entries(gv.take(k as int), integrated),
            found == exists|i: int| 0 <= i < k && gv[i].is_integrated == integrated,
        decreases gpus@.len() - k,
    {
        assert(gv.take(k + 1).drop_last() =~= gv.take(k as int));
        if gpus[k].is_integrated == integrated {
            push_gpu_entry(&mut body, &gpus[k], integrated);
            found = true;
        }
        assert(gv[k as int] == gpus@[k as int]@);
        k = k + 1;
    }
    assert(gv.take(gpus@.len() as int) =~= gv);
    let ghost o0 = out@;
    if found {
        if integrated {
            push_str(out, "[ INTEGRATED GRAPHICS ]\n");
        } else {
            push_str(out, "[ GPU ]\n");
        }
        push_all(out, &body);
        push_str(out, "\n");
        assert(out@ =~= o0 + gpu_section(gv, integrated));
    } else {
        assert(out@ =~= o0 + gpu_section(gv, integrated));
    }
}

pub open spec fn display_views(v: Seq<DisplayInfo>) -> Seq<DisplayInfoView> {
    v.map_values(|d: DisplayInfo| d@)
}

fn push_display_title(out: &mut Vec<char>, i: usize, d: &DisplayInfo)
    requires
        i < usize::MAX,
    ensures
        final(out)@ == old(out)@ + display_title(i as nat, d@),
{
    let ghost o0 = out@;
    push_str(out, "  Display ");
    push_all(out, &dec_chars((i + 1) as u64));
    push_str(out, ": ");
    opt_push_or(out, &d.name, "Unknown Monitor");
    if d.is_primary {
        push_str(out, " (Primary)");
    }
    push_str(out, "\n");
    assert(out@ =~= o0 + display_title(i as nat, d@));
}

fn push_display_mode(out: &mut Vec<char>, d: &DisplayInfo)
    ensures
        final(out)@ == old(out)@ + display_mode(d@),
{
    let ghost o0 = out@;
    push_str(out, "    ");
    push_all(out, &dec_chars(d.resolution_w as u64));
    push_str(out, "x");
    push_all(out, &dec_chars(d.resolution_h as u64));
    match d.refresh_rate_hz {
        Some(r) => {
            push_str(out, " @ ");
            push_all(out, &dec_chars(r as u64));
            push_str(out, "Hz");
        },
        None => {},
    }
    push_str(out, "\n");
    assert(out@ =~= o0 + display_mode(d@));
}

fn push_display(out: &mut Vec<char>, i: usize, d: &DisplayInfo)
    requires
        i < usize::MAX,
    ensures
        final(out)@ == old(out)@ + display_entry(i as nat, d@),
{
    let ghost o0 = out@;
    push_display_title(out, i, d);
    push_display_mode(out, d);
    assert(out@ =~= o0 + display_entry(i as nat, d@));
}

fn push_displays(out: &mut Vec<char>, displays: &Vec<DisplayInfo>)
    ensures
        final(out)@ == old(out)@ + display_section(display_views(displays@)),
{
    let ghost dv = display_views(displays@);
    let ghost o0 = out@;
    if displays.len() == 0 {
        assert(out@ =~= o0 + display_section(dv));
        return;
    }
    push_str(out, "[ DISPLAYS ]\n");
    let ghost o1 = out@;
    let mut k: usize = 0;
    while k < displays.len()
        invariant
            k <= displays@.len(),
            dv == display_views(displays@),
            out@ == o1 + display_entries(dv.take(k as int)),
        decreases displays@.len() - k,
    {
        push_display(out, k, &displays[k]);
        assert(dv.take(k + 1).drop_last() =~= dv.take(k as int));
        k = k + 1;
    }
    assert(dv.take(displays@.len() as int) =~= dv);
    push_str(out, "\n");
    assert(out@ =~= o0 + display_section(dv));
}

fn gb_rounded_exec(bytes: u64) -> (r: u64)
    ensures
        r == gb_rounded(bytes),
{
    proof {
        lemma_exp2_values();
        reveal_with_fuel(exp2, 31);
        assert(exp2(30) == 0x4000_0000);
    }
    let x = nearest_double_exec(bytes as u128, 1);
    proof {
        assert(x.1 < 0x20_0000_0000_0000u128) by (nonlinear_arith)
            requires
                x.1 == 1 || (x.1 as nat) * (bytes as nat) < 0x20_0000_0000_0000,
                bytes > 0 || x.1 == 1,
        ;
        assert(x.0 <= 0x2_0000_0000_0000_0000u128);
        let d = (x.1 * 0x4000_0000) as nat;
        assert(d >= 0x4000_0000) by (nonlinear_arith)
            requires
                x.1 >= 1,
                d == x.1 * 0x4000_0000,
        ;
        assert(x.0 < (0x10_0000_0000 as nat) * d) by (nonlinear_arith)
            requires
                x.0 <= 0x2_0000_0000_0000_0000u128,
                d >= 0x4000_0000,
        ;
        lemma_round_bounds(x.0 as nat, d, 0, 0x10_0000_0000);
    }
    let g = round_half_even_exec(x.0, x.1 * 0x4000_0000);
    g as u64
}

fn push_storage_entry(out: &mut Vec<char>, d: &StorageDevice)
    ensures
        final(out)@ == old(out)@ + storage_entry(d@),
{
    let ghost o0 = out@;
    push_str(out, "  ");
    match d.device_type {
        StorageType::NvmeSsd => push_str(out, "NVMe SSD"),
        StorageType::SataSsd => push_str(out, "SATA SSD"),
        StorageType::Hdd => push_str(out, "HDD"),
        StorageType::Unknown => push_str(out, "Storage"),
    }
    push_str(out, " | ");
    push_str(out, d.model.as_str());
    push_str(out, " | ");
    push_all(out, &dec_chars(gb_rounded_exec(d.capacity_bytes)));
    push_str(out, " GB");
    let ghost o1 = out@;
    match &d.interface {
        Some(i) => {
            let iv = crate::text::to_chars(i.as_str());
            if !(eq_str(&iv, "NVMe") || eq_str(&iv, "SATA") || eq_str(&iv, "SCSI") || eq_str(
                &iv,
                "IDE",
            )) {
                push_str(out, " [");
                push_all(out, &iv);
                push_str(out, "]");
            }
        },
        None => {},
    }
    assert(out@ =~= o1 + iface_text(d@.interface));
    push_str(out, "\n");
    assert(out@ =~= o0 + storage_entry(d@));
}

pub open spec fn storage_views(v: Seq<StorageDevice>) -> Seq<StorageDeviceView> {
    v.map_values(|d: StorageDevice| d@)
}

fn push_storage(out: &mut Vec<char>, storage: &Vec<StorageDevice>)
    ensures
        final(out)@ == old(out)@ + storage_section(storage_views(storage@)),
{
    let ghost sv = storage_views(storage@);
    let ghost o0 = out@;
    if storage.len() == 0 {
        assert(out@ =~= o0 + storage_section(sv));
        return;
    }
    push_str(out, "[ STORAGE ]\n");
    let ghost o1 = out@;
    let mut k: usize = 0;
    while k < storage.len()
        invariant
            k <= storage@.len(),
            sv == storage_views(storage@),
            out@ == o1 + storage_entries(sv.take(k as int)),
        decreases storage@.len() - k,
    {
        push_storage_entry(out, &storage[k]);
        assert(sv.take(k + 1).drop_last() =~= sv.take(k as int));
        k = k + 1;
    }
    assert(sv.take(storage@.len() as int) =~= sv);
    push_str(out, "\n");
    assert(out@ =~= o0 + storage_section(sv));
}

pub open spec fn peripheral_views(v: Seq<PeripheralDevice>) -> Seq<PeripheralDeviceView> {
    v.map_values(|p: PeripheralDevice| p@)
}

fn push_peripherals(out: &mut Vec<char>, ps: &Vec<PeripheralDevice>)
    ensures
        final(out)@ == old(out)@ + peripheral_section(peripheral_views(ps@)),
{
    let ghost pv = peripheral_views(ps@);
    let ghost o0 = out@;
    if ps.len() == 0 {
        assert(out@ =~= o0 + peripheral_section(pv));
        return;
    }
    push_str(out, "[ PERIPHERALS ]\n");
    let ghost o1 = out@;
    let mut k: usize = 0;
    while k < ps.len()
        invariant
            k <= ps@.len(),
            pv == peripheral_views(ps@),
            out@ == o1 + peripheral_entries(pv.take(k as int)),
        decreases ps@.len() - k,
    {
        push_str(out, "  ");
        push_str(out, ps[k].name.as_str());
        push_str(out, "\n");
        assert(pv.take(k + 1).drop_last() =~= pv.take(k as int));
        assert(out@ =~= o1 + peripheral_entries(pv.take(k + 1)));
        k = k + 1;
    }
    assert(pv.take(ps@.len() as int) =~= pv);
    push_str(out, "\n");
    assert(out@ =~= o0 + peripheral_section(pv));
}

/// Formats the whole snapshot as plain text, ready to paste into a forum post:
/// a title, then a section for each part that holds data, then a closing rule.
pub fn format_snapshot(snap: &SystemSnapshot) -> (r: String)
    requires
        total_mb(snap@.ram) <= u64::MAX,
    ensures
        r@ == report(snap@),
{
    let mut out: Vec<char> = Vec::new();
    push_str(&mut out, "=== SYSTEM SPECS ===\n\n");
    push_os(&mut out, &snap.os);
    push_cpu(&mut out, &snap.cpu);
    push_board(&mut out, &snap.motherboard);
    assert(ram_views(snap.ram@) == snap@.ram);
    push_ram(&mut out, &snap.ram);
    push_gpus(&mut out, &snap.gpus, false);
    push_gpus(&mut out, &snap.gpus, true);
    push_displays(&mut out, &snap.displays);
    push_storage(&mut out, &snap.storage);
    push_peripherals(&mut out, &snap.peripherals);
    push_str(&mut out, "===================\n");
    assert(out@ =~= report(snap@));
    from_chars(&out)
}

proof fn lemma_prefix_kept(a: Seq<char>, b: Seq<char>, h: Seq<char>)
    requires
        starts_with(a, h),
    ensures
        starts_with(a + b, h),
{
    assert((a + b).subrange(0, h.len() as int) =~= a.subrange(0, h.len() as int));
}

proof fn lemma_suffix_added(a: Seq<char>, t: Seq<char>)
    ensures
        ends_with(a + t, t),
{
    assert((a + t).subrange(a.len() as int, (a + t).len() as int) =~= t);
}

/// Whatever the snapshot holds, the report opens with its title and closes with its
/// rule, with the sections in between.
pub proof fn lemma_report_framed(s: SystemSnapshotView)
    ensures
        starts_with(report(s), "=== SYSTEM SPECS ===\n\n"@),
        ends_with(report(s), "===================\n"@),
{
    let h = "=== SYSTEM SPECS ===\n\n"@;
    let t = "===================\n"@;
    assert(starts_with(h, h)) by {
        assert(h.subrange(0, h.len() as int) =~= h);
    }
    let a1 = h + os_section(s.os);
    lemma_prefix_kept(h, os_section(s.os), h);
    let a2 = a1 + cpu_section(s.cpu);
    lemma_prefix_kept(a1, cpu_section(s.cpu), h);
    let a3 = a2 + board_section(s.motherboard);
    lemma_prefix_kept(a2, board_section(s.motherboard), h);
    let a4 = a3 + ram_section(s.ram);
    lemma_prefix_kept(a3, ram_section(s.ram), h);
    let a5 = a4 + gpu_section(s.gpus, false);
    lemma_prefix_kept(a4, gpu_section(s.gpus, false), h);
    let a6 = a5 + gpu_section(s.gpus, true);
    lemma_prefix_kept(a5, gpu_section(s.gpus, true), h);
    let a7 = a6 + display_section(s.displays);
    lemma_prefix_kept(a6, display_section(s.displays), h);
    let a8 = a7 + storage_section(s.storage);
    lemma_prefix_kept(a7, storage_section(s.storage), h);
    let a9 = a8 + peripheral_section(s.peripherals);
    lemma_prefix_kept(a8, peripheral_section(s.peripherals), h);
    lemma_prefix_kept(a9, t, h);
    lemma_suffix_added(a9, t);
    assert(report(s) == a9 + t);
}

/// A section that is present starts with its title and is not empty.
pub open spec fn titled(section: Seq<char>, title: Seq<char>) -> bool {
    section.len() > 0 && starts_with(section, title)
}

/// The report is its title, then the sections in this order: OS, CPU, MOTHERBOARD,
/// RAM, GPU, INTEGRATED GRAPHICS, DISPLAYS, STORAGE, PERIPHERALS, then its closing
/// rule. Each section is there (not empty, and starting with its title line) exactly
/// when its part holds data, and is empty otherwise.
pub proof fn lemma_report_sections(s: SystemSnapshotView)
    ensures
        report(s) == "=== SYSTEM SPECS ===\n\n"@ + os_section(s.os) + cpu_section(s.cpu)
            + board_section(s.motherboard) + ram_section(s.ram) + gpu_section(s.gpus, false)
            + gpu_section(s.gpus, true) + display_section(s.displays) + storage_section(
            s.storage,
        ) + peripheral_section(s.peripherals) + "===================\n"@,
        if s.os is Some {
            titled(os_section(s.os), "[ OS ]\n"@)
        } else {
            os_section(s.os).len() == 0
        },
        if s.cpu is Some {
            titled(cpu_section(s.cpu), "[ CPU ]\n"@)
        } else {
            cpu_section(s.cpu).len() == 0
        },
        if s.motherboard is Some {
            titled(board_section(s.motherboard), "[ MOTHERBOARD ]\n"@)
        } else {
            board_section(s.motherboard).len() == 0
        },
        if s.ram.len() > 0 {
            titled(ram_section(s.ram), "[ RAM ]\n"@)
        } else {
            ram_section(s.ram).len() == 0
        },
        if has_gpu(s.gpus, false) {
            titled(gpu_section(s.gpus, false), "[ GPU ]\n"@)
        } else {
            gpu_section(s.gpus, false).len() == 0
        },
        if has_gpu(s.gpus, true) {
            titled(gpu_section(s.gpus, true), "[ INTEGRATED GRAPHICS ]\n"@)
        } else {
            gpu_section(s.gpus, true).len() == 0
        },
        if s.displays.len() > 0 {
            titled(display_section(s.displays), "[ DISPLAYS ]\n"@)
        } else {
            display_section(s.displays).len() == 0
        },
        if s.storage.len() > 0 {
            titled(storage_section(s.storage), "[ STORAGE ]\n"@)
        } else {
            storage_section(s.storage).len() == 0
        },
        if s.peripherals.len() > 0 {
            titled(peripheral_section(s.peripherals), "[ PERIPHERALS ]\n"@)
        } else {
            peripheral_section(s.peripherals).len() == 0
        },
{
    reveal_strlit("[ OS ]\n");
    reveal_strlit("[ CPU ]\n");
    reveal_strlit("[ MOTHERBOARD ]\n");
    reveal_strlit("[ RAM ]\n");
    reveal_strlit("[ GPU ]\n");
    reveal_strlit("[ INTEGRATED GRAPHICS ]\n");
    reveal_strlit("[ DISPLAYS ]\n");
    reveal_strlit("[ STORAGE ]\n");
    reveal_strlit("[ PERIPHERALS ]\n");
    if let Some(o) = s.os {
        let x = os_section(s.os);
        let t = "[ OS ]\n"@;
        assert(x.subrange(0, t.len() as int) =~= t);
    }
    if let Some(c) = s.cpu {
        let x = cpu_section(s.cpu);
        let t = "[ CPU ]\n"@;
        assert(x.subrange(0, t.len() as int) =~= t);
    }
    if let Some(m) = s.motherboard {
        let x = board_section(s.motherboard);
        let t = "[ MOTHERBOARD ]\n"@;
        assert(x.subrange(0, t.len() as int) =~= t);
    }
    if s.ram.len() > 0 {
        let x = ram_section(s.ram);
        let t = "[ RAM ]\n"@;
        assert(x.subrange(0, t.len() as int) =~= t);
    }
    if has_gpu(s.gpus, false) {
        let x = gpu_section(s.gpus, false);
        let t = "[ GPU ]\n"@;
        assert(x.subrange(0, t.len() as int) =~= t);
    }
    if has_gpu(s.gpus, true) {
        let x = gpu_section(s.gpus, true);
        let t = "[ INTEGRATED GRAPHICS ]\n"@;
        assert(x.subrange(0, t.len() as int) =~= t);
    }
    if s.displays.len() > 0 {
        let x = display_section(s.displays);
        let t = "[ DISPLAYS ]\n"@;
        assert(x.subrange(0, t.len() as int) =~= t);
    }
    if s.storage.len() > 0 {
        let x = storage_section(s.storage);
        let t = "[ STORAGE ]\n"@;
        assert(x.subrange(0, t.len() as int) =~= t);
    }
    if s.peripherals.len() > 0 {
        let x = peripheral_section(s.peripherals);
        let t = "[ PERIPHERALS ]\n"@;
        assert(x.subrange(0, t.len() as int) =~= t);
    }
}

/// A display's title line carries the primary mark exactly as the display is the
/// primary one, wherever it stands in the list: the title of a primary display is the
/// title it would have if it were not primary, with " (Primary)" before its line end;
/// a display that is not primary has a title that ends in its name (or "Unknown
/// Monitor") and the line end.
pub proof fn lemma_display_primary_mark(i: nat, d: DisplayInfoView)
    ensures
        d.is_primary ==> ends_with(display_title(i, d), " (Primary)\n"@),
        display_title(i, DisplayInfoView { is_primary: true, ..d }) == display_title(
            i,
            DisplayInfoView { is_primary: false, ..d },
        ).drop_last() + " (Primary)\n"@,
        !d.is_primary ==> ends_with(
            display_title(i, d),
            or_else(d.name, "Unknown Monitor"@) + "\n"@,
        ),
{
    reveal_strlit("\n");
    reveal_strlit(" (Primary)");
    reveal_strlit(" (Primary)\n");
    let base = "  Display "@ + dec(i + 1) + ": "@ + or_else(d.name, "Unknown Monitor"@);
    let p = display_title(i, DisplayInfoView { is_primary: true, ..d });
    let q = display_title(i, DisplayInfoView { is_primary: false, ..d });
    assert(q =~= base + seq![] + "\n"@);
    assert(q.drop_last() =~= base);
    assert(p =~= base + " (Primary)\n"@);
    if d.is_primary {
        assert(display_title(i, d) == p);
        assert(p.subrange(p.len() - 11, p.len() as int) =~= " (Primary)\n"@);
    } else {
        assert(display_title(i, d) == q);
        let t = or_else(d.name, "Unknown Monitor"@) + "\n"@;
        assert(q.subrange(q.len() - t.len(), q.len() as int) =~= t);
    }
}

} // verus!