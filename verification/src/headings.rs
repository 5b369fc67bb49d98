//! Where the section titles of the report stand: each title opens its section, and
//! no other text of the report opens a title, so long as the snapshot's texts hold no
//! '[' and no storage interface that the report shows begins with a space.
use vstd::prelude::*;
use crate::models::{
    CpuInfoView, DisplayInfoView, GpuInfoView, MotherboardInfoView, OsInfoView,
    PeripheralDeviceView, RamStickView, StorageDeviceView, SystemSnapshotView,
};
use crate::output::{
    board_section, boost_line, bios_line, cache_line, cache_text, cpu_head, cpu_section,
    discrete_entry, display_entries, display_entry, display_mode, display_section,
    display_title, gpu_entries, gpu_section, has_gpu, hundredths_text, iface_text,
    ident_text, integrated_entry, kind_text, or_else, os_section, peripheral_entries,
    peripheral_section, ram_section, ram_size_text, report, stick_line, stick_lines,
    storage_entries, storage_entry, storage_section, timings_text,
};
use crate::text::{contains, dec, digit_char, is_digit, lemma_dec_digits, occurs_at, starts_with};

verus! {

/// The text holds no '['.
pub open spec fn no_bracket(x: Seq<char>) -> bool {
    forall|i: int| 0 <= i < x.len() ==> x[i] != '['
}

/// At position `i` of the text, a '[' and a space open a title, with a third
/// character after them.
pub open spec fn mark(x: Seq<char>, i: int) -> bool {
    0 <= i && i + 2 < x.len() && x[i] == '[' && x[i + 1] == ' '
}

/// The text does not end in the first part of a title opening ("[" or "[ ").
pub open spec fn ends_safe(x: Seq<char>) -> bool {
    &&& (x.len() > 0 ==> x.last() != '[')
    &&& (x.len() > 1 ==> !(x[x.len() - 2] == '[' && x.last() == ' '))
}

/// The text opens no title and does not end in the first part of an opening.
pub open spec fn calm(x: Seq<char>) -> bool {
    &&& ends_safe(x)
    &&& forall|i: int| !mark(x, i)
}

/// The text opens a title at its start only, one whose first letter is `c`.
pub open spec fn titled_by(x: Seq<char>, c: char) -> bool {
    &&& ends_safe(x)
    &&& forall|i: int| mark(x, i) ==> i == 0 && x[2] == c
}

/// Where titles are opened in `a + b`: where `a` opens them, and where `b` does,
/// shifted; no title straddles the two when `a` does not end in the first part of
/// an opening.
proof fn lemma_marks_split(a: Seq<char>, b: Seq<char>)
    requires
        ends_safe(a),
    ensures
        forall|i: int|
            #[trigger] mark(a + b, i) ==> (i < a.len() && mark(a, i) && (a + b)[i + 2] == a[i
                + 2]) || (i >= a.len() && mark(b, i - a.len()) && (a + b)[i + 2] == b[i + 2
                - a.len()]),
{
    assert forall|i: int| #[trigger] mark(a + b, i) implies (i < a.len() && mark(a, i) && (a
        + b)[i + 2] == a[i + 2]) || (i >= a.len() && mark(b, i - a.len()) && (a + b)[i + 2]
        == b[i + 2 - a.len()]) by {
        let x = a + b;
        if i < a.len() {
            assert(x[i] == a[i]);
            if i + 1 >= a.len() {
                assert(a.last() == a[i]);
            } else if i + 2 >= a.len() {
                assert(a[a.len() - 2] == x[i] && a.last() == x[i + 1]);
            } else {
                assert(x[i + 1] == a[i + 1]);
            }
        } else {
            assert(x[i] == b[i - a.len()]);
            assert(x[i + 1] == b[i + 1 - a.len()]);
        }
    }
}

proof fn lemma_ends_safe_add(a: Seq<char>, b: Seq<char>)
    requires
        ends_safe(a),
        ends_safe(b),
    ensures
        ends_safe(a + b),
{
    let x = a + b;
    if b.len() == 1 && a.len() > 0 {
        assert(x[x.len() - 2] == a.last());
    } else if b.len() >= 2 {
        assert(x[x.len() - 2] == b[b.len() - 2]);
    } else if b.len() == 0 {
        assert(x =~= a);
    }
}

pub broadcast proof fn lemma_calm_add(a: Seq<char>, b: Seq<char>)
    requires
        calm(a),
        calm(b),
    ensures
        #[trigger] calm(a + b),
{
    lemma_marks_split(a, b);
    lemma_ends_safe_add(a, b);
}

pub broadcast proof fn lemma_titled_add(a: Seq<char>, b: Seq<char>, c: char)
    requires
        titled_by(a, c),
        calm(b),
    ensures
        #[trigger] titled_by(a + b, c),
{
    lemma_marks_split(a, b);
    lemma_ends_safe_add(a, b);
    assert forall|i: int| mark(a + b, i) implies i == 0 && (a + b)[2] == c by {
        if i == 0 {
            assert((a + b)[2] == a[2]);
        }
    }
}

pub broadcast proof fn lemma_clean_calm(x: Seq<char>)
    requires
        no_bracket(x),
    ensures
        #[trigger] calm(x),
{
}

pub broadcast proof fn lemma_dec_clean(n: nat)
    ensures
        #[trigger] no_bracket(dec(n)),
{
    lemma_dec_digits(n);
    assert forall|i: int| 0 <= i < dec(n).len() implies dec(n)[i] != '[' by {
        assert(is_digit(dec(n)[i]));
    }
}

proof fn lemma_digits_clean(a: nat, b: nat)
    requires
        a < 10,
        b < 10,
    ensures
        no_bracket(seq![digit_char(a), digit_char(b)]),
{
    let x = seq![digit_char(a), digit_char(b)];
    assert(x[0] == digit_char(a) && x[1] == digit_char(b));
}

/// The fixed pieces of the report's section bodies hold no '['.
proof fn lemma_pieces()
    ensures
        no_bracket("    "@), no_bracket("  "@), no_bracket("  BIOS: "@),
        no_bracket("  Base Clock:  "@), no_bracket("  Boost Clock: "@),
        no_bracket("  Cores / Threads: "@), no_bracket("  Display "@),
        no_bracket("  Driver: "@), no_bracket("  L2 Cache:    "@),
        no_bracket("  L3 Cache:    "@), no_bracket("  Shared Memory: "@),
        no_bracket("  Slot "@), no_bracket("  Total: "@), no_bracket("  VRAM: "@),
        no_bracket(" "@), no_bracket(" ("@), no_bracket(" (Build "@),
        no_bracket(" (Primary)"@), no_bracket(" / "@), no_bracket(" @ "@),
        no_bracket(" CL"@), no_bracket(" GB"@), no_bracket(" GHz\n"@), no_bracket(" KB"@),
        no_bracket(" MB"@), no_bracket(" usable)"@), no_bracket(" | "@), no_bracket(")"@),
        no_bracket(")\n"@), no_bracket("-"@), no_bracket("."@), no_bracket(": "@),
        no_bracket("?"@), no_bracket("DDR"@), no_bracket("HDD"@), no_bracket("Hz"@),
        no_bracket("MHz"@), no_bracket("NVMe SSD"@), no_bracket("SATA SSD"@),
        no_bracket("Storage"@), no_bracket("Unknown Monitor"@), no_bracket("\n"@),
        no_bracket("\n\n"@), no_bracket("]"@), no_bracket("x"@),
        no_bracket("=== SYSTEM SPECS ===\n\n"@), no_bracket("===================\n"@),
        no_bracket(seq![]),
{
    reveal_strlit("    ");
    reveal_strlit("  ");
    reveal_strlit("  BIOS: ");
    reveal_strlit("  Base Clock:  ");
    reveal_strlit("  Boost Clock: ");
    reveal_strlit("  Cores / Threads: ");
    reveal_strlit("  Display ");
    reveal_strlit("  Driver: ");
    reveal_strlit("  L2 Cache:    ");
    reveal_strlit("  L3 Cache:    ");
    reveal_strlit("  Shared Memory: ");
    reveal_strlit("  Slot ");
    reveal_strlit("  Total: ");
    reveal_strlit("  VRAM: ");
    reveal_strlit(" ");
    reveal_strlit(" (");
    reveal_strlit(" (Build ");
    reveal_strlit(" (Primary)");
    reveal_strlit(" / ");
    reveal_strlit(" @ ");
    reveal_strlit(" CL");
    reveal_strlit(" GB");
    reveal_strlit(" GHz\n");
    reveal_strlit(" KB");
    reveal_strlit(" MB");
    reveal_strlit(" usable)");
    reveal_strlit(" | ");
    reveal_strlit(")");
    reveal_strlit(")\n");
    reveal_strlit("-");
    reveal_strlit(".");
    reveal_strlit(": ");
    reveal_strlit("?");
    reveal_strlit("DDR");
    reveal_strlit("HDD");
    reveal_strlit("Hz");
    reveal_strlit("MHz");
    reveal_strlit("NVMe SSD");
    reveal_strlit("SATA SSD");
    reveal_strlit("Storage");
    reveal_strlit("Unknown Monitor");
    reveal_strlit("\n");
    reveal_strlit("\n\n");
    reveal_strlit("]");
    reveal_strlit("x");
    reveal_strlit("=== SYSTEM SPECS ===\n\n");
    reveal_strlit("===================\n");
}

/// Each section title opens a title at its start only, with its own first letter.
proof fn lemma_titles()
    ensures
        titled_by("[ OS ]\n"@, 'O'),
        titled_by("[ CPU ]\n"@, 'C'),
        titled_by("[ MOTHERBOARD ]\n"@, 'M'),
        titled_by("[ RAM ]\n"@, 'R'),
        titled_by("[ GPU ]\n"@, 'G'),
        titled_by("[ INTEGRATED GRAPHICS ]\n"@, 'I'),
        titled_by("[ DISPLAYS ]\n"@, 'D'),
        titled_by("[ STORAGE ]\n"@, 'S'),
        titled_by("[ PERIPHERALS ]\n"@, 'P'),
{
    reveal_strlit("[ OS ]\n");
    reveal_strlit("[ CPU ]\n");
    reveal_strlit("[ MOTHERBOARD ]\n");
    reveal_strlit("[ RAM ]\n");
    reveal_strlit("[ GPU ]\n");
    reveal_strlit("[ INTEGRATED GRAPHICS ]\n");
    reveal_strlit("[ DISPLAYS ]\n");
    reveal_strlit("[ STORAGE ]\n");
    reveal_strlit("[ PERIPHERALS ]\n");
}

/// An optional text holds no '[' where it is there.
pub open spec fn clean(o: Option<Seq<char>>) -> bool {
    o matches Some(x) ==> no_bracket(x)
}

pub open spec fn clean_os(o: Option<OsInfoView>) -> bool {
    o matches Some(v) ==> no_bracket(v.name) && clean(v.build)
}

pub open spec fn clean_cpu(o: Option<CpuInfoView>) -> bool {
    o matches Some(c) ==> no_bracket(c.brand)
}

pub open spec fn clean_board(o: Option<MotherboardInfoView>) -> bool {
    o matches Some(m) ==> no_bracket(m.manufacturer) && no_bracket(m.model) && clean(
        m.bios_vendor,
    ) && clean(m.bios_version) && clean(m.bios_date)
}

pub open spec fn clean_stick(s: RamStickView) -> bool {
    clean(s.slot) && clean(s.manufacturer) && clean(s.part_number) && clean(s.memory_type)
}

pub open spec fn clean_gpu(g: GpuInfoView) -> bool {
    no_bracket(g.name) && clean(g.driver_version)
}

pub open spec fn clean_display(d: DisplayInfoView) -> bool {
    clean(d.name)
}

/// A disk's texts hold no '[', and its interface, where it has one, does not begin
/// with a space (the report shows it as " [interface]").
pub open spec fn clean_disk(d: StorageDeviceView) -> bool {
    &&& no_bracket(d.model)
    &&& clean(d.interface)
    &&& (d.interface matches Some(i) ==> i.len() == 0 || i[0] != ' ')
}

pub open spec fn clean_peripheral(p: PeripheralDeviceView) -> bool {
    no_bracket(p.name)
}

/// The texts of the snapshot that the report shows hold no '[', and no storage
/// interface begins with a space.
pub open spec fn clean_snapshot(s: SystemSnapshotView) -> bool {
    &&& clean_os(s.os)
    &&& clean_cpu(s.cpu)
    &&& clean_board(s.motherboard)
    &&& forall|i: int| 0 <= i < s.ram.len() ==> clean_stick(#[trigger] s.ram[i])
    &&& forall|i: int| 0 <= i < s.gpus.len() ==> clean_gpu(#[trigger] s.gpus[i])
    &&& forall|i: int| 0 <= i < s.displays.len() ==> clean_display(#[trigger] s.displays[i])
    &&& forall|i: int| 0 <= i < s.storage.len() ==> clean_disk(#[trigger] s.storage[i])
    &&& forall|i: int| 0 <= i < s.peripherals.len() ==> clean_peripheral(
        #[trigger] s.peripherals[i],
    )
}

proof fn lemma_or_else_calm(o: Option<Seq<char>>, d: Seq<char>)
    requires
        clean(o),
        calm(d),
    ensures
        calm(or_else(o, d)),
{
}

proof fn lemma_hundredths_calm(h: nat)
    ensures
        calm(hundredths_text(h)),
{
    broadcast use lemma_calm_add, lemma_clean_calm, lemma_dec_clean;

    lemma_pieces();
    lemma_digits_clean((h % 100) / 10, h % 10);
}

proof fn lemma_sizes_calm(k: u64)
    ensures
        calm(cache_text(k)),
        calm(ram_size_text(k)),
{
    broadcast use lemma_calm_add, lemma_clean_calm, lemma_dec_clean;

    lemma_pieces();
}

proof fn lemma_os_section(o: Option<OsInfoView>)
    requires
        clean_os(o),
    ensures
        o is Some ==> titled_by(os_section(o), 'O'),
{
    broadcast use lemma_calm_add, lemma_titled_add, lemma_clean_calm, lemma_dec_clean;

    lemma_pieces();
    lemma_titles();
    if let Some(v) = o {
        if let Some(b) = v.build {
            assert(calm(" (Build "@ + b + ")"@));
        }
    }
}

proof fn lemma_cpu_section(o: Option<CpuInfoView>)
    requires
        clean_cpu(o),
    ensures
        o is Some ==> titled_by(cpu_section(o), 'C'),
{
    broadcast use lemma_calm_add, lemma_titled_add, lemma_clean_calm, lemma_dec_clean;

    lemma_pieces();
    lemma_titles();
    if let Some(c) = o {
        lemma_hundredths_calm(crate::output::mhz_hundredths(c.base_clock_mhz));
        assert(calm(cpu_head(c)));
        if let Some(b) = c.boost_clock_khz {
            lemma_hundredths_calm(crate::output::khz_hundredths(b));
        }
        assert(calm(boost_line(c.boost_clock_khz)));
        if let Some(k) = c.cache_l2_kb {
            lemma_sizes_calm(k);
        }
        if let Some(k) = c.cache_l3_kb {
            lemma_sizes_calm(k);
        }
        assert(calm(cache_line("  L2 Cache:    "@, c.cache_l2_kb)));
        assert(calm(cache_line("  L3 Cache:    "@, c.cache_l3_kb)));
    }
}

proof fn lemma_board_section(o: Option<MotherboardInfoView>)
    requires
        clean_board(o),
    ensures
        o is Some ==> titled_by(board_section(o), 'M'),
{
    broadcast use lemma_calm_add, lemma_titled_add, lemma_clean_calm, lemma_dec_clean;

    lemma_pieces();
    lemma_titles();
    if let Some(m) = o {
        lemma_or_else_calm(m.bios_vendor, seq![]);
        lemma_or_else_calm(m.bios_version, "?"@);
        lemma_or_else_calm(m.bios_date, "?"@);
        assert(calm(bios_line(m)));
    }
}

proof fn lemma_stick_line(s: RamStickView)
    requires
        clean_stick(s),
    ensures
        calm(stick_line(s)),
{
    broadcast use lemma_calm_add, lemma_titled_add, lemma_clean_calm, lemma_dec_clean;

    lemma_pieces();
    lemma_sizes_calm(s.capacity_mb);
    lemma_or_else_calm(s.slot, "?"@);
    lemma_or_else_calm(s.memory_type, "DDR"@);
    lemma_or_else_calm(s.manufacturer, seq![]);
    lemma_or_else_calm(s.part_number, seq![]);
    assert(calm(ident_text(s)));
    assert(calm(timings_text(s)));
    if let Some(v) = s.speed_mhz {
        assert(calm(" @ "@ + dec(v as nat) + "MHz"@));
    }
}

proof fn lemma_stick_lines(s: Seq<RamStickView>)
    requires
        forall|i: int| 0 <= i < s.len() ==> clean_stick(#[trigger] s[i]),
    ensures
        calm(stick_lines(s)),
    decreases s.len(),
{
    broadcast use lemma_calm_add, lemma_clean_calm;

    lemma_pieces();
    if s.len() > 0 {
        lemma_stick_lines(s.drop_last());
        lemma_stick_line(s.last());
    }
}

proof fn lemma_ram_section(s: Seq<RamStickView>)
    requires
        forall|i: int| 0 <= i < s.len() ==> clean_stick(#[trigger] s[i]),
    ensures
        s.len() > 0 ==> titled_by(ram_section(s), 'R'),
{
    broadcast use lemma_calm_add, lemma_titled_add, lemma_clean_calm;

    lemma_pieces();
    lemma_titles();
    lemma_stick_lines(s);
    lemma_sizes_calm(crate::output::total_mb(s) as u64);
}

proof fn lemma_gpu_entries(s: Seq<GpuInfoView>, integrated: bool)
    requires
        forall|i: int| 0 <= i < s.len() ==> clean_gpu(#[trigger] s[i]),
    ensures
        calm(gpu_entries(s, integrated)),
    decreases s.len(),
{
    broadcast use lemma_calm_add, lemma_clean_calm;

    lemma_pieces();
    if s.len() > 0 {
        lemma_gpu_entries(s.drop_last(), integrated);
        let g = s.last();
        if let Some(v) = g.vram_mb {
            lemma_sizes_calm(v);
            if let Some(u) = g.vram_usable_mb {
                lemma_sizes_calm(u);
            }
        }
        if let Some(v) = g.shared_memory_mb {
            lemma_sizes_calm(v);
        }
        assert(calm(discrete_entry(g)));
        assert(calm(integrated_entry(g)));
    }
}

proof fn lemma_gpu_section(s: Seq<GpuInfoView>, integrated: bool)
    requires
        forall|i: int| 0 <= i < s.len() ==> clean_gpu(#[trigger] s[i]),
    ensures
        has_gpu(s, integrated) ==> titled_by(
            gpu_section(s, integrated),
            if integrated {
                'I'
            } else {
                'G'
            },
        ),
{
    broadcast use lemma_calm_add, lemma_titled_add, lemma_clean_calm;

    lemma_pieces();
    lemma_titles();
    lemma_gpu_entries(s, integrated);
}

proof fn lemma_display_entries(s: Seq<DisplayInfoView>)
    requires
        forall|i: int| 0 <= i < s.len() ==> clean_display(#[trigger] s[i]),
    ensures
        calm(display_entries(s)),
    decreases s.len(),
{
    broadcast use lemma_calm_add, lemma_clean_calm, lemma_dec_clean;

    lemma_pieces();
    if s.len() > 0 {
        lemma_display_entries(s.drop_last());
        let d = s.last();
        lemma_or_else_calm(d.name, "Unknown Monitor"@);
        assert(calm(display_title((s.len() - 1) as nat, d)));
        assert(calm(display_mode(d)));
        assert(calm(display_entry((s.len() - 1) as nat, d)));
    }
}

proof fn lemma_display_section(s: Seq<DisplayInfoView>)
    requires
        forall|i: int| 0 <= i < s.len() ==> clean_display(#[trigger] s[i]),
    ensures
        s.len() > 0 ==> titled_by(display_section(s), 'D'),
{
    broadcast use lemma_calm_add, lemma_titled_add, lemma_clean_calm;

    lemma_pieces();
    lemma_titles();
    lemma_display_entries(s);
}

proof fn lemma_iface_calm(i: Option<Seq<char>>)
    requires
        clean(i),
        i matches Some(x) ==> x.len() == 0 || x[0] != ' ',
    ensures
        calm(iface_text(i)),
{
    broadcast use lemma_calm_add, lemma_clean_calm;

    lemma_pieces();
    if let Some(x) = i {
        reveal_strlit(" [");
        reveal_strlit("]");
        let y = " ["@ + x + "]"@;
        if iface_text(i) == y {
            assert forall|k: int| !mark(y, k) by {
                if mark(y, k) {
                    if k == 1 {
                        if x.len() > 0 {
                            assert(y[2] == x[0]);
                        } else {
                            assert(y[2] == ']');
                        }
                    } else if k == 0 {
                    } else {
                        assert(y[k] == x[k - 2]);
                    }
                }
            }
            assert(y.last() == ']');
            if x.len() == 0 {
                assert(y[y.len() - 2] == '[');
            } else {
                assert(y[y.len() - 2] == x.last());
            }
        }
    }
}

proof fn lemma_storage_entries(s: Seq<StorageDeviceView>)
    requires
        forall|i: int| 0 <= i < s.len() ==> clean_disk(#[trigger] s[i]),
    ensures
        calm(storage_entries(s)),
    decreases s.len(),
{
    broadcast use lemma_calm_add, lemma_clean_calm, lemma_dec_clean;

    lemma_pieces();
    if s.len() > 0 {
        lemma_storage_entries(s.drop_last());
        let d = s.last();
        lemma_iface_calm(d.interface);
        assert(calm(kind_text(d.device_type)));
        assert(calm(storage_entry(d)));
    }
}

proof fn lemma_storage_section(s: Seq<StorageDeviceView>)
    requires
        forall|i: int| 0 <= i < s.len() ==> clean_disk(#[trigger] s[i]),
    ensures
        s.len() > 0 ==> titled_by(storage_section(s), 'S'),
{
    broadcast use lemma_calm_add, lemma_titled_add, lemma_clean_calm;

    lemma_pieces();
    lemma_titles();
    lemma_storage_entries(s);
}

proof fn lemma_peripheral_entries(s: Seq<PeripheralDeviceView>)
    requires
        forall|i: int| 0 <= i < s.len() ==> clean_peripheral(#[trigger] s[i]),
    ensures
        calm(peripheral_entries(s)),
    decreases s.len(),
{
    broadcast use lemma_calm_add, lemma_clean_calm;

    lemma_pieces();
    if s.len() > 0 {
        lemma_peripheral_entries(s.drop_last());
    }
}

proof fn lemma_peripheral_section(s: Seq<PeripheralDeviceView>)
    requires
        forall|i: int| 0 <= i < s.len() ==> clean_peripheral(#[trigger] s[i]),
    ensures
        s.len() > 0 ==> titled_by(peripheral_section(s), 'P'),
{
    broadcast use lemma_calm_add, lemma_titled_add, lemma_clean_calm;

    lemma_pieces();
    lemma_titles();
    lemma_peripheral_entries(s);
}

/// The nine sections of the report of `s`, in order (each empty where its part holds
/// no data).
pub open spec fn sections(s: SystemSnapshotView) -> Seq<Seq<char>> {
    seq![
        os_section(s.os),
        cpu_section(s.cpu),
        board_section(s.motherboard),
        ram_section(s.ram),
        gpu_section(s.gpus, false),
        gpu_section(s.gpus, true),
        display_section(s.displays),
        storage_section(s.storage),
        peripheral_section(s.peripherals),
    ]
}

/// The title of section `k`, as a line of the report holds it.
pub open spec fn section_title(k: int) -> Seq<char> {
    if k == 0 {
        "[ OS ]"@
    } else if k == 1 {
        "[ CPU ]"@
    } else if k == 2 {
        "[ MOTHERBOARD ]"@
    } else if k == 3 {
        "[ RAM ]"@
    } else if k == 4 {
        "[ GPU ]"@
    } else if k == 5 {
        "[ INTEGRATED GRAPHICS ]"@
    } else if k == 6 {
        "[ DISPLAYS ]"@
    } else if k == 7 {
        "[ STORAGE ]"@
    } else {
        "[ PERIPHERALS ]"@
    }
}

pub open spec fn section_letter(k: int) -> char {
    if k == 0 {
        'O'
    } else if k == 1 {
        'C'
    } else if k == 2 {
        'M'
    } else if k == 3 {
        'R'
    } else if k == 4 {
        'G'
    } else if k == 5 {
        'I'
    } else if k == 6 {
        'D'
    } else if k == 7 {
        'S'
    } else {
        'P'
    }
}

/// Section `k` is in the report: its part of the snapshot holds data.
pub open spec fn has_section(s: SystemSnapshotView, k: int) -> bool {
    if k == 0 {
        s.os is Some
    } else if k == 1 {
        s.cpu is Some
    } else if k == 2 {
        s.motherboard is Some
    } else if k == 3 {
        s.ram.len() > 0
    } else if k == 4 {
        has_gpu(s.gpus, false)
    } else if k == 5 {
        has_gpu(s.gpus, true)
    } else if k == 6 {
        s.displays.len() > 0
    } else if k == 7 {
        s.storage.len() > 0
    } else {
        s.peripherals.len() > 0
    }
}

/// The report's title followed by its first `m` sections.
pub open spec fn report_prefix(s: SystemSnapshotView, m: int) -> Seq<char>
    decreases m,
{
    if m <= 0 {
        "=== SYSTEM SPECS ===\n\n"@
    } else {
        report_prefix(s, m - 1) + sections(s)[m - 1]
    }
}

/// Where section `k` starts in the report.
pub open spec fn section_start(s: SystemSnapshotView, k: int) -> int {
    report_prefix(s, k).len() as int
}

proof fn lemma_title_prefix(x: Seq<char>, t: Seq<char>, tn: Seq<char>)
    requires
        starts_with(x, tn),
        tn == t.push('\n'),
    ensures
        starts_with(x, t),
        x.len() > 0,
{
    assert(x.subrange(0, t.len() as int) =~= tn.subrange(0, t.len() as int));
    assert(tn.subrange(0, t.len() as int) =~= t);
}

proof fn lemma_section_0(s: SystemSnapshotView)
    requires
        clean_snapshot(s),
    ensures
        titled_by(os_section(s.os), 'O'),
        os_section(s.os).len() > 0 <==> s.os is Some,
        s.os is Some ==> starts_with(os_section(s.os), "[ OS ]"@),
{
    crate::output::lemma_report_sections(s);
    lemma_os_section(s.os);
    reveal_strlit("[ OS ]");
    reveal_strlit("[ OS ]\n");
    assert("[ OS ]\n"@ == "[ OS ]"@.push('\n'));
    if s.os is Some {
        lemma_title_prefix(os_section(s.os), "[ OS ]"@, "[ OS ]\n"@);
    } else {
        assert(forall|i: int| !mark(os_section(s.os), i));
    }
}

proof fn lemma_section_1(s: SystemSnapshotView)
    requires
        clean_snapshot(s),
    ensures
        titled_by(cpu_section(s.cpu), 'C'),
        cpu_section(s.cpu).len() > 0 <==> s.cpu is Some,
        s.cpu is Some ==> starts_with(cpu_section(s.cpu), "[ CPU ]"@),
{
    crate::output::lemma_report_sections(s);
    lemma_cpu_section(s.cpu);
    reveal_strlit("[ CPU ]");
    reveal_strlit("[ CPU ]\n");
    assert("[ CPU ]\n"@ == "[ CPU ]"@.push('\n'));
    if s.cpu is Some {
        lemma_title_prefix(cpu_section(s.cpu), "[ CPU ]"@, "[ CPU ]\n"@);
    } else {
        assert(forall|i: int| !mark(cpu_section(s.cpu), i));
    }
}

proof fn lemma_section_2(s: SystemSnapshotView)
    requires
        clean_snapshot(s),
    ensures
        titled_by(board_section(s.motherboard), 'M'),
        board_section(s.motherboard).len() > 0 <==> s.motherboard is Some,
        s.motherboard is Some ==> starts_with(board_section(s.motherboard), "[ MOTHERBOARD ]"@),
{
    crate::output::lemma_report_sections(s);
    lemma_board_section(s.motherboard);
    reveal_strlit("[ MOTHERBOARD ]");
    reveal_strlit("[ MOTHERBOARD ]\n");
    assert("[ MOTHERBOARD ]\n"@ == "[ MOTHERBOARD ]"@.push('\n'));
    if s.motherboard is Some {
        lemma_title_prefix(board_section(s.motherboard), "[ MOTHERBOARD ]"@, "[ MOTHERBOARD ]\n"@);
    } else {
        assert(forall|i: int| !mark(board_section(s.motherboard), i));
    }
}

proof fn lemma_section_3(s: SystemSnapshotView)
    requires
        clean_snapshot(s),
    ensures
        titled_by(ram_section(s.ram), 'R'),
        ram_section(s.ram).len() > 0 <==> s.ram.len() > 0,
        s.ram.len() > 0 ==> starts_with(ram_section(s.ram), "[ RAM ]"@),
{
    crate::output::lemma_report_sections(s);
    lemma_ram_section(s.ram);
    reveal_strlit("[ RAM ]");
    reveal_strlit("[ RAM ]\n");
    assert("[ RAM ]\n"@ == "[ RAM ]"@.push('\n'));
    if s.ram.len() > 0 {
        lemma_title_prefix(ram_section(s.ram), "[ RAM ]"@, "[ RAM ]\n"@);
    } else {
        assert(forall|i: int| !mark(ram_section(s.ram), i));
    }
}

proof fn lemma_section_4(s: SystemSnapshotView)
    requires
        clean_snapshot(s),
    ensures
        titled_by(gpu_section(s.gpus, false), 'G'),
        gpu_section(s.gpus, false).len() > 0 <==> has_gpu(s.gpus, false),
        has_gpu(s.gpus, false) ==> starts_with(gpu_section(s.gpus, false), "[ GPU ]"@),
{
    crate::output::lemma_report_sections(s);
    lemma_gpu_section(s.gpus, false);
    reveal_strlit("[ GPU ]");
    reveal_strlit("[ GPU ]\n");
    assert("[ GPU ]\n"@ == "[ GPU ]"@.push('\n'));
    if has_gpu(s.gpus, false) {
        lemma_title_prefix(gpu_section(s.gpus, false), "[ GPU ]"@, "[ GPU ]\n"@);
    } else {
        assert(forall|i: int| !mark(gpu_section(s.gpus, false), i));
    }
}

proof fn lemma_section_5(s: SystemSnapshotView)
    requires
        clean_snapshot(s),
    ensures
        titled_by(gpu_section(s.gpus, true), 'I'),
        gpu_section(s.gpus, true).len() > 0 <==> has_gpu(s.gpus, true),
        has_gpu(s.gpus, true) ==> starts_with(gpu_section(s.gpus, true), "[ INTEGRATED GRAPHICS ]"@),
{
    crate::output::lemma_report_sections(s);
    lemma_gpu_section(s.gpus, true);
    reveal_strlit("[ INTEGRATED GRAPHICS ]");
    reveal_strlit("[ INTEGRATED GRAPHICS ]\n");
    assert("[ INTEGRATED GRAPHICS ]\n"@ == "[ INTEGRATED GRAPHICS ]"@.push('\n'));
    if has_gpu(s.gpus, true) {
        lemma_title_prefix(gpu_section(s.gpus, true), "[ INTEGRATED GRAPHICS ]"@, "[ INTEGRATED GRAPHICS ]\n"@);
    } else {
        assert(forall|i: int| !mark(gpu_section(s.gpus, true), i));
    }
}

proof fn lemma_section_6(s: SystemSnapshotView)
    requires
        clean_snapshot(s),
    ensures
        titled_by(display_section(s.displays), 'D'),
        display_section(s.displays).len() > 0 <==> s.displays.len() > 0,
        s.displays.len() > 0 ==> starts_with(display_section(s.displays), "[ DISPLAYS ]"@),
{
    crate::output::lemma_report_sections(s);
    lemma_display_section(s.displays);
    reveal_strlit("[ DISPLAYS ]");
    reveal_strlit("[ DISPLAYS ]\n");
    assert("[ DISPLAYS ]\n"@ == "[ DISPLAYS ]"@.push('\n'));
    if s.displays.len() > 0 {
        lemma_title_prefix(display_section(s.displays), "[ DISPLAYS ]"@, "[ DISPLAYS ]\n"@);
    } else {
        assert(forall|i: int| !mark(display_section(s.displays), i));
    }
}

proof fn lemma_section_7(s: SystemSnapshotView)
    requires
        clean_snapshot(s),
    ensures
        titled_by(storage_section(s.storage), 'S'),
        storage_section(s.storage).len() > 0 <==> s.storage.len() > 0,
        s.storage.len() > 0 ==> starts_with(storage_section(s.storage), "[ STORAGE ]"@),
{
    crate::output::lemma_report_sections(s);
    lemma_storage_section(s.storage);
    reveal_strlit("[ STORAGE ]");
    reveal_strlit("[ STORAGE ]\n");
    assert("[ STORAGE ]\n"@ == "[ STORAGE ]"@.push('\n'));
    if s.storage.len() > 0 {
        lemma_title_prefix(storage_section(s.storage), "[ STORAGE ]"@, "[ STORAGE ]\n"@);
    } else {
        assert(forall|i: int| !mark(storage_section(s.storage), i));
    }
}

proof fn lemma_section_8(s: SystemSnapshotView)
    requires
        clean_snapshot(s),
    ensures
        titled_by(peripheral_section(s.peripherals), 'P'),
        peripheral_section(s.peripherals).len() > 0 <==> s.peripherals.len() > 0,
        s.peripherals.len() > 0 ==> starts_with(peripheral_section(s.peripherals), "[ PERIPHERALS ]"@),
{
    crate::output::lemma_report_sections(s);
    lemma_peripheral_section(s.peripherals);
    reveal_strlit("[ PERIPHERALS ]");
    reveal_strlit("[ PERIPHERALS ]\n");
    assert("[ PERIPHERALS ]\n"@ == "[ PERIPHERALS ]"@.push('\n'));
    if s.peripherals.len() > 0 {
        lemma_title_prefix(peripheral_section(s.peripherals), "[ PERIPHERALS ]"@, "[ PERIPHERALS ]\n"@);
    } else {
        assert(forall|i: int| !mark(peripheral_section(s.peripherals), i));
    }
}

proof fn lemma_sections_titled(s: SystemSnapshotView)
    requires
        clean_snapshot(s),
    ensures
        forall|k: int|
            0 <= k < 9 ==> titled_by(#[trigger] sections(s)[k], section_letter(k)) && (sections(
                s,
            )[k].len() > 0 <==> has_section(s, k)) && (has_section(s, k) ==> starts_with(
                sections(s)[k],
                section_title(k),
            )),
{
    lemma_section_0(s);
    lemma_section_1(s);
    lemma_section_2(s);
    lemma_section_3(s);
    lemma_section_4(s);
    lemma_section_5(s);
    lemma_section_6(s);
    lemma_section_7(s);
    lemma_section_8(s);
    let secs = sections(s);
    assert(secs[0] == os_section(s.os) && secs[1] == cpu_section(s.cpu) && secs[2]
        == board_section(s.motherboard) && secs[3] == ram_section(s.ram) && secs[4]
        == gpu_section(s.gpus, false) && secs[5] == gpu_section(s.gpus, true) && secs[6]
        == display_section(s.displays) && secs[7] == storage_section(s.storage) && secs[8]
        == peripheral_section(s.peripherals));
}

proof fn lemma_prefix_marks(s: SystemSnapshotView, m: int)
    requires
        clean_snapshot(s),
        0 <= m <= 9,
    ensures
        ends_safe(report_prefix(s, m)),
        forall|i: int|
            #[trigger] mark(report_prefix(s, m), i) ==> exists|k: int|
                0 <= k < m && has_section(s, k) && i == section_start(s, k) && report_prefix(
                    s,
                    m,
                )[i + 2] == section_letter(k),
    decreases m,
{
    if m == 0 {
        lemma_pieces();
        lemma_clean_calm("=== SYSTEM SPECS ===\n\n"@);
    } else {
        lemma_prefix_marks(s, m - 1);
        lemma_sections_titled(s);
        let a = report_prefix(s, m - 1);
        let b = sections(s)[m - 1];
        assert(titled_by(b, section_letter(m - 1)));
        lemma_marks_split(a, b);
        lemma_ends_safe_add(a, b);
        let x = report_prefix(s, m);
        assert(x == a + b);
        assert forall|i: int| #[trigger] mark(x, i) implies exists|k: int|
            0 <= k < m && has_section(s, k) && i == section_start(s, k) && x[i + 2]
                == section_letter(k) by {
            if i < a.len() {
                assert(mark(a, i));
                let k = choose|k: int|
                    0 <= k < m - 1 && has_section(s, k) && i == section_start(s, k) && a[i + 2]
                        == section_letter(k);
                assert(x[i + 2] == a[i + 2]);
            } else {
                assert(mark(b, i - a.len()));
                assert(i - a.len() == 0);
                assert(section_start(s, m - 1) == a.len());
                assert(x[i + 2] == b[2]);
            }
        }
    }
}

proof fn lemma_prefix_keeps(s: SystemSnapshotView, m: int, n: int, j: int)
    requires
        0 <= m <= n,
        0 <= j < report_prefix(s, m).len(),
    ensures
        report_prefix(s, n).len() >= report_prefix(s, m).len(),
        report_prefix(s, n)[j] == report_prefix(s, m)[j],
    decreases n - m,
{
    if n > m {
        lemma_prefix_keeps(s, m, n - 1, j);
        assert(report_prefix(s, n) == report_prefix(s, n - 1) + sections(s)[n - 1]);
    }
}

proof fn lemma_title_chars(k: int)
    requires
        0 <= k < 9,
    ensures
        section_title(k).len() >= 3,
        section_title(k)[0] == '[',
        section_title(k)[1] == ' ',
        section_title(k)[2] == section_letter(k),
{
    reveal_strlit("[ OS ]");
    reveal_strlit("[ CPU ]");
    reveal_strlit("[ MOTHERBOARD ]");
    reveal_strlit("[ RAM ]");
    reveal_strlit("[ GPU ]");
    reveal_strlit("[ INTEGRATED GRAPHICS ]");
    reveal_strlit("[ DISPLAYS ]");
    reveal_strlit("[ STORAGE ]");
    reveal_strlit("[ PERIPHERALS ]");
}

proof fn lemma_report_is_prefix(s: SystemSnapshotView)
    ensures
        report(s) == report_prefix(s, 9) + "===================\n"@,
{
    crate::output::lemma_report_sections(s);
    reveal_with_fuel(report_prefix, 10);
    let secs = sections(s);
    assert(secs[0] == os_section(s.os) && secs[1] == cpu_section(s.cpu) && secs[2]
        == board_section(s.motherboard) && secs[3] == ram_section(s.ram) && secs[4]
        == gpu_section(s.gpus, false) && secs[5] == gpu_section(s.gpus, true) && secs[6]
        == display_section(s.displays) && secs[7] == storage_section(s.storage) && secs[8]
        == peripheral_section(s.peripherals));
}

proof fn lemma_title_found(s: SystemSnapshotView, k: int, i: int)
    requires
        clean_snapshot(s),
        0 <= k < 9,
        occurs_at(report_prefix(s, 9) + "===================\n"@, section_title(k), i),
    ensures
        has_section(s, k),
        i == section_start(s, k),
{
    let p9 = report_prefix(s, 9);
    let tail = "===================\n"@;
    let r = p9 + tail;
    let t = section_title(k);
    lemma_title_chars(k);
    lemma_prefix_marks(s, 9);
    lemma_pieces();
    lemma_clean_calm(tail);
    lemma_marks_split(p9, tail);
    assert(r[i] == t[0] && r[i + 1] == t[1] && r[i + 2] == t[2]) by {
        assert(r.subrange(i, i + t.len())[0] == r[i]);
        assert(r.subrange(i, i + t.len())[1] == r[i + 1]);
        assert(r.subrange(i, i + t.len())[2] == r[i + 2]);
    }
    assert(mark(r, i));
    assert(mark(p9, i));
    let k2 = choose|k2: int|
        0 <= k2 < 9 && has_section(s, k2) && i == section_start(s, k2) && p9[i + 2]
            == section_letter(k2);
    assert(section_letter(k2) == section_letter(k));
}

proof fn lemma_title_placed(s: SystemSnapshotView, k: int)
    requires
        clean_snapshot(s),
        0 <= k < 9,
        has_section(s, k),
    ensures
        occurs_at(
            report_prefix(s, 9) + "===================\n"@,
            section_title(k),
            section_start(s, k),
        ),
{
    let r = report_prefix(s, 9) + "===================\n"@;
    let t = section_title(k);
    let i = section_start(s, k);
    lemma_title_chars(k);
    lemma_sections_titled(s);
    let sec = sections(s)[k];
    assert(starts_with(sec, t));
    let pk = report_prefix(s, k);
    assert(report_prefix(s, k + 1) == pk + sec);
    assert forall|j: int| 0 <= j < t.len() implies r[i + j] == t[j] by {
        assert(sec.subrange(0, t.len() as int)[j] == sec[j]);
        lemma_prefix_keeps(s, k + 1, 9, i + j);
        assert(report_prefix(s, k + 1)[i + j] == sec[j]);
    }
    lemma_prefix_keeps(s, k + 1, 9, i);
    assert(r.subrange(i, i + t.len()) =~= t);
}

proof fn lemma_title_at(s: SystemSnapshotView, k: int, i: int)
    requires
        clean_snapshot(s),
        0 <= k < 9,
    ensures
        occurs_at(report(s), section_title(k), i) <==> (has_section(s, k) && i == section_start(
            s,
            k,
        )),
{
    lemma_report_is_prefix(s);
    if occurs_at(report(s), section_title(k), i) {
        lemma_title_found(s, k, i);
    }
    if has_section(s, k) && i == section_start(s, k) {
        lemma_title_placed(s, k);
    }
}

/// Where the section titles stand in the report, so long as the snapshot's shown
/// texts hold no '[' and no storage interface begins with a space: the title of a
/// section ("[ OS ]", "[ CPU ]", ...) occurs in the report exactly when the section's
/// part holds data, and then once, at the start of its section; the sections start
/// in the order OS, CPU, MOTHERBOARD, RAM, GPU, INTEGRATED GRAPHICS, DISPLAYS,
/// STORAGE, PERIPHERALS.
pub proof fn lemma_titles_in_report(s: SystemSnapshotView)
    requires
        clean_snapshot(s),
    ensures
        forall|k: int, i: int|
            0 <= k < 9 ==> (#[trigger] occurs_at(report(s), section_title(k), i) <==> (
            has_section(s, k) && i == section_start(s, k))),
        forall|k: int|
            0 <= k < 9 ==> (#[trigger] contains(report(s), section_title(k)) <==> has_section(
                s,
                k,
            )),
        forall|k: int|
            0 <= k < 8 ==> #[trigger] section_start(s, k) <= section_start(s, k + 1) && (
            has_section(s, k) ==> section_start(s, k) < section_start(s, k + 1)),
{
    assert forall|k: int, i: int| 0 <= k < 9 implies (#[trigger] occurs_at(
        report(s),
        section_title(k),
        i,
    ) <==> (has_section(s, k) && i == section_start(s, k))) by {
        lemma_title_at(s, k, i);
    }
    assert forall|k: int| 0 <= k < 9 implies (#[trigger] contains(report(s), section_title(k))
        <==> has_section(s, k)) by {
        lemma_title_at(s, k, section_start(s, k));
        if contains(report(s), section_title(k)) {
            let i = choose|i: int| occurs_at(report(s), section_title(k), i);
            lemma_title_at(s, k, i);
        }
    }
    assert forall|k: int| 0 <= k < 8 implies #[trigger] section_start(s, k) <= section_start(
        s,
        k + 1,
    ) && (has_section(s, k) ==> section_start(s, k) < section_start(s, k + 1)) by {
        lemma_sections_titled(s);
        assert(report_prefix(s, k + 1) == report_prefix(s, k) + sections(s)[k]);
    }
}

} // verus!