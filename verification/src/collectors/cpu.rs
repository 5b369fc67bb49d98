//! The processor: brand, core and thread counts, clocks and caches.
use vstd::prelude::*;
use crate::models::{CpuInfo, CpuInfoView};
use crate::text::{
    ends_with, ends_with_chars, from_chars, lines, lines_exec, parse_u32,
    parse_u32_chars, parse_u64, parse_u64_chars, split, split_exec, starts_with,
    starts_with_chars, to_chars, trim, trim_chars, trim_str, views,
};

verus! {

/// The system information snapshot of the `sysinfo` crate.
#[verifier::external_type_specification]
#[verifier::external_body]
pub struct ExSystem(sysinfo::System);

/// One logical processor of the `sysinfo` crate.
#[verifier::external_type_specification]
#[verifier::external_body]
pub struct ExCpu(sysinfo::Cpu);

/// What the platform tells of the processor beyond the `sysinfo` snapshot.
pub struct CpuFacts {
    pub physical_cores: Option<u32>,
    pub boost_clock_khz: Option<u64>,
    pub cache_l2_kb: Option<u64>,
    pub cache_l3_kb: Option<u64>,
}

/// The processor that the logical processors (brand and frequency in MHz each)
/// and the platform's facts describe: none when there is no processor or the first
/// one has no brand. Without a physical core count, half the threads are assumed.
pub open spec fn cpu_of(readings: Seq<(Seq<char>, u64)>, facts: CpuFacts) -> Option<CpuInfoView> {
    if readings.len() == 0 {
        None
    } else {
        let brand = trim(readings[0].0);
        if brand.len() == 0 {
            None
        } else {
            let threads = readings.len() as u32;
            Some(
                CpuInfoView {
                    brand,
                    cores: match facts.physical_cores {
                        Some(c) => c,
                        None => (threads / 2) as u32,
                    },
                    threads,
                    base_clock_mhz: readings[0].1,
                    boost_clock_khz: facts.boost_clock_khz,
                    cache_l2_kb: facts.cache_l2_kb,
                    cache_l3_kb: facts.cache_l3_kb,
                },
            )
        }
    }
}

pub open spec fn reading_views(s: Seq<(String, u64)>) -> Seq<(Seq<char>, u64)> {
    s.map_values(|p: (String, u64)| (p.0@, p.1))
}

pub open spec fn opt_cpu(o: Option<CpuInfo>) -> Option<CpuInfoView> {
    match o {
        Some(c) => Some(c@),
        None => None,
    }
}

/// The processor that the logical processors (brand and frequency in MHz each)
/// and the platform's facts describe.
pub fn cpu_from_readings(readings: &Vec<(String, u64)>, facts: &CpuFacts) -> (r: Option<CpuInfo>)
    ensures
        opt_cpu(r) == cpu_of(reading_views(readings@), *facts),
{
    let ghost rv = reading_views(readings@);
    if readings.len() == 0 {
        return None;
    }
    assert(rv[0] == (readings@[0].0@, readings@[0].1));
    let brand = trim_str(readings[0].0.as_str());
    if brand.len() == 0 {
        return None;
    }
    let threads = readings.len() as u32;
    let cores = match facts.physical_cores {
        Some(c) => c,
        None => threads / 2,
    };
    Some(
        CpuInfo {
            brand: from_chars(&brand),
            cores,
            threads,
            base_clock_mhz: readings[0].1,
            boost_clock_khz: facts.boost_clock_khz,
            cache_l2_kb: facts.cache_l2_kb,
            cache_l3_kb: facts.cache_l3_kb,
        },
    )
}

/// What the processor list of a `sysinfo` snapshot holds: the brand and the frequency
/// in MHz of each logical processor, in the list's order.
pub uninterp spec fn cpu_list(sys: sysinfo::System) -> Seq<(Seq<char>, u64)>;

/// Calls `sysinfo::System::cpus`, and `sysinfo::Cpu::brand` and
/// `sysinfo::Cpu::frequency` on each processor it hands out: the contents of the
/// snapshot's processor list, each processor as its brand and frequency, in order.
/// These getters read the fields that the snapshot holds.
#[verifier::external_body]
fn system_cpu_readings(sys: &sysinfo::System) -> (r: Vec<(String, u64)>)
    ensures
        reading_views(r@) == cpu_list(*sys),
{
    sys.cpus().iter().map(|c| (c.brand().to_string(), c.frequency())).collect()
}

/// The processor of the machine, from the `sysinfo` snapshot and the platform's facts:
/// `cpu_of` the snapshot's processor list.
pub fn collect(sys: &sysinfo::System, facts: &CpuFacts) -> (r: Option<CpuInfo>)
    ensures
        opt_cpu(r) == cpu_of(cpu_list(*sys), *facts),
{
    let readings = system_cpu_readings(sys);
    cpu_from_readings(&readings, facts)
}

/// The core count of the first "cpu cores" line of /proc/cpuinfo: the field after
/// its first ':', trimmed. That line decides; where it has no such number, there is none.
pub open spec fn cpuinfo_cores(ls: Seq<Seq<char>>) -> Option<u32>
    decreases ls.len(),
{
    if ls.len() == 0 {
        None
    } else if starts_with(ls[0], "cpu cores"@) {
        let parts = split(ls[0], ':');
        if parts.len() >= 2 {
            parse_u32(trim(parts[1]))
        } else {
            None
        }
    } else {
        cpuinfo_cores(ls.drop_first())
    }
}

/// The number of physical cores that /proc/cpuinfo gives.
pub fn parse_cpuinfo_cores(text: &str) -> (r: Option<u32>)
    ensures
        r == cpuinfo_cores(lines(text@)),
{
    let chars = to_chars(text);
    let ls = lines_exec(&chars);
    let ghost lv = views(ls@);
    let mut k: usize = 0;
    assert(lv.skip(0) =~= lv);
    while k < ls.len()
        invariant
            k <= ls@.len(),
            lv == views(ls@),
            lv == lines(text@),
            cpuinfo_cores(lv) == cpuinfo_cores(lv.skip(k as int)),
        decreases ls@.len() - k,
    {
        assert(lv.skip(k as int)[0] == ls@[k as int]@);
        if starts_with_chars(&ls[k], "cpu cores") {
            let parts = split_exec(&ls[k], ':');
            if parts.len() >= 2 {
                assert(parts[1]@ == split(ls@[k as int]@, ':')[1]);
                return parse_u32_chars(&trim_chars(&parts[1]));
            } else {
                return None;
            }
        }
        assert(lv.skip(k as int).drop_first() =~= lv.skip(k + 1));
        k = k + 1;
    }
    None
}

/// The number that a command's output writes, trimmed (`sysctl -n hw.physicalcpu`).
pub fn parse_count(text: &str) -> (r: Option<u32>)
    ensures
        r == parse_u32(trim(text@)),
{
    parse_u32_chars(&trim_str(text))
}

/// The largest clock of the first core in kHz, from cpufreq's scaling_max_freq.
pub fn parse_max_freq_khz(text: &str) -> (r: Option<u64>)
    ensures
        r == parse_u64(trim(text@)),
{
    parse_u64_chars(&trim_str(text))
}

/// A cache size as sysfs writes it ("32K", "1M", "512"), in KB (a MB counts 1024 KB,
/// wrapping as the machine's arithmetic does).
pub open spec fn cache_size_kb(raw: Seq<char>) -> Option<u64> {
    let t = trim(raw);
    if ends_with(t, "K"@) {
        parse_u64(t.drop_last())
    } else if ends_with(t, "M"@) {
        match parse_u64(t.drop_last()) {
            Some(m) => Some(((m as nat * 1024) % 0x1_0000_0000_0000_0000) as u64),
            None => None,
        }
    } else {
        parse_u64(t)
    }
}

/// A cache size as sysfs writes it, in KB.
pub fn parse_cache_size(raw: &str) -> (r: Option<u64>)
    ensures
        r == cache_size_kb(raw@),
{
    let t = trim_str(raw);
    proof {
        reveal_strlit("K");
        reveal_strlit("M");
    }
    if ends_with_chars(&t, "K") {
        let head = crate::text::slice_of(&t, 0, t.len() - 1);
        assert(head@ =~= t@.drop_last());
        parse_u64_chars(&head)
    } else if ends_with_chars(&t, "M") {
        let head = crate::text::slice_of(&t, 0, t.len() - 1);
        assert(head@ =~= t@.drop_last());
        match parse_u64_chars(&head) {
            Some(m) => Some(m.wrapping_mul(1024)),
            None => None,
        }
    } else {
        parse_u64_chars(&t)
    }
}

/// A cache size that `sysctl -n` writes in bytes, in KB.
pub fn parse_sysctl_cache(text: &str) -> (r: Option<u64>)
    ensures
        r == (match parse_u64(trim(text@)) {
            Some(b) => Some((b / 1024) as u64),
            None => None,
        }),
{
    match parse_u64_chars(&trim_str(text)) {
        Some(b) => Some(b / 1024),
        None => None,
    }
}

} // verus!
