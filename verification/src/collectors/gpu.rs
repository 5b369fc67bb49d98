//! Graphics adapters.
use vstd::prelude::*;
use crate::collectors::ram::{parse_size_to_mb, size_to_mb};
use crate::models::{opt_view, GpuInfo, GpuInfoView};
use crate::text::{
    after_char, after_char_exec, contains, contains_chars, contains_str, ends_with,
    ends_with_chars, from_chars, lines, lines_exec, lowercase, push_all, push_str, splitn,
    splitn_exec, starts_with, starts_with_chars, to_chars, to_lowercase_chars, trim, trim_char,
    trim_char_exec, trim_chars, trim_str, views,
};

verus! {

/// One row of the Windows video controller list (`Win32_VideoController`), as plain values.
pub struct VideoControllerRecord {
    pub name: Option<String>,
    pub driver_version: Option<String>,
}

pub struct VideoControllerRecordView {
    pub name: Option<Seq<char>>,
    pub driver_version: Option<Seq<char>>,
}

impl View for VideoControllerRecord {
    type V = VideoControllerRecordView;

    open spec fn view(&self) -> VideoControllerRecordView {
        VideoControllerRecordView {
            name: opt_view(self.name),
            driver_version: opt_view(self.driver_version),
        }
    }
}

/// One adapter as DXGI describes it: its name and its dedicated video memory in bytes.
pub struct AdapterReading {
    pub description: String,
    pub dedicated_video_memory: u64,
}

pub open spec fn gpu_views(s: Seq<GpuInfo>) -> Seq<GpuInfoView> {
    s.map_values(|g: GpuInfo| g@)
}

pub open spec fn controller_views(s: Seq<VideoControllerRecord>) -> Seq<VideoControllerRecordView> {
    s.map_values(|r: VideoControllerRecord| r@)
}

pub open spec fn pair_views(s: Seq<(String, u64)>) -> Seq<(Seq<char>, u64)> {
    s.map_values(|p: (String, u64)| (p.0@, p.1))
}

pub open spec fn reading_views(s: Seq<AdapterReading>) -> Seq<(Seq<char>, u64)> {
    s.map_values(|a: AdapterReading| (a.description@, a.dedicated_video_memory))
}

/// The adapters with their dedicated memory in whole MB, without those of none.
pub open spec fn vram_list(s: Seq<(Seq<char>, u64)>) -> Seq<(Seq<char>, u64)>
    decreases s.len(),
{
    if s.len() == 0 {
        seq![]
    } else {
        let mb = s.last().1 / 1048576;
        vram_list(s.drop_last()) + if mb > 0 {
            seq![(s.last().0, mb)]
        } else {
            seq![]
        }
    }
}

/// A GPU that shares the system's memory rather than having its own (by its name).
pub open spec fn integrated_name(name: Seq<char>) -> bool {
    integrated_lower(lowercase(name))
}

/// A GPU that shares the system's memory, by its name already lower-cased.
pub open spec fn integrated_lower(n: Seq<char>) -> bool {
    ||| contains(n, "intel"@) && (contains(n, "uhd"@) || contains(n, "hd graphics"@) || contains(
        n,
        "iris"@,
    ) || contains(n, "arc"@) && contains(n, "graphics"@))
    ||| contains(n, "amd"@) && contains(n, "radeon"@) && !contains(n, "rx"@) && !contains(
        n,
        "pro"@,
    ) && !contains(n, "vega"@) && contains(n, "graphics"@)
    ||| contains(n, "microsoft basic display"@)
    ||| contains(n, "vmware"@)
    ||| contains(n, "virtualbox"@)
}

/// The two names match: either (lower-cased) holds the other.
pub open spec fn names_match(adapter: Seq<char>, name: Seq<char>) -> bool {
    let a = lowercase(adapter);
    let n = lowercase(name);
    contains(a, n) || contains(n, a)
}

/// The memory of the first adapter whose name matches.
pub open spec fn vram_for(adapters: Seq<(Seq<char>, u64)>, name: Seq<char>) -> Option<u64>
    decreases adapters.len(),
{
    if adapters.len() == 0 {
        None
    } else if names_match(adapters[0].0, name) {
        Some(adapters[0].1)
    } else {
        vram_for(adapters.drop_first(), name)
    }
}

/// The rated memory of a card whose usable memory is `usable` MB: the usable memory
/// rounded up to a whole GB, as cards are built with whole GB of memory and the
/// firmware keeps a little of it back (the usable figure itself where that whole GB
/// count would not fit a `u64` of MB).
pub open spec fn rated_mb(usable: u64) -> u64 {
    let r = ((usable as nat + 1023) / 1024) * 1024;
    if r <= u64::MAX {
        r as u64
    } else {
        usable
    }
}

/// The GPU that a video controller row describes, unless it is nameless: its memory
/// is what the first matching DXGI adapter reports as usable, and the card's rated
/// memory is that rounded up to a whole GB.
pub open spec fn gpu_of(r: VideoControllerRecordView, adapters: Seq<(Seq<char>, u64)>) -> Option<
    GpuInfoView,
> {
    match r.name {
        None => None,
        Some(raw) => {
            let name = trim(raw);
            if name.len() == 0 {
                None
            } else {
                Some(
                    GpuInfoView {
                        name,
                        vram_mb: match vram_for(adapters, name) {
                            Some(u) => Some(rated_mb(u)),
                            None => None,
                        },
                        vram_usable_mb: vram_for(adapters, name),
                        driver_version: r.driver_version,
                        is_integrated: integrated_name(name),
                        shared_memory_mb: None,
                    },
                )
            }
        },
    }
}

pub open spec fn gpus_of(rs: Seq<VideoControllerRecordView>, adapters: Seq<(Seq<char>, u64)>) -> Seq<
    GpuInfoView,
>
    decreases rs.len(),
{
    if rs.len() == 0 {
        seq![]
    } else {
        gpus_of(rs.drop_last(), adapters) + match gpu_of(rs.last(), adapters) {
            Some(g) => seq![g],
            None => seq![],
        }
    }
}

/// The device name in a line of `lspci -mm`: its vendor and device fields.
pub open spec fn lspci_name(line: Seq<char>) -> Seq<char> {
    let parts = splitn(line, 5, '"');
    if parts.len() >= 5 {
        parts[3] + " "@ + trim(trim_char(parts[4], '"'))
    } else {
        line
    }
}

pub open spec fn is_display_class(line: Seq<char>) -> bool {
    contains(line, "VGA"@) || contains(line, "Display"@) || contains(line, "3D"@)
}

pub open spec fn lspci_gpu(line: Seq<char>) -> GpuInfoView {
    let name = lspci_name(line);
    GpuInfoView {
        name,
        vram_mb: None,
        vram_usable_mb: None,
        driver_version: None,
        is_integrated: contains(name, "Intel"@) && !contains(name, "Arc"@),
        shared_memory_mb: None,
    }
}

/// The GPUs of an `lspci -mm` listing: one for each display-class line.
pub open spec fn lspci_gpus(ls: Seq<Seq<char>>) -> Seq<GpuInfoView>
    decreases ls.len(),
{
    if ls.len() == 0 {
        seq![]
    } else {
        lspci_gpus(ls.drop_last()) + if is_display_class(ls.last()) {
            seq![lspci_gpu(ls.last())]
        } else {
            seq![]
        }
    }
}

/// The memory of a `VRAM (Total): 8 GB` line, in MB.
pub open spec fn vram_of_line(line: Seq<char>) -> Option<u64> {
    match after_char(line, ':') {
        Some(v) => size_to_mb(trim(v)),
        None => None,
    }
}

/// The name being read, the memory being read, and the GPUs found so far.
pub struct ProfilerState {
    pub gpus: Seq<GpuInfoView>,
    pub name: Option<Seq<char>>,
    pub vram: Option<u64>,
}

pub open spec fn profiler_gpu(name: Seq<char>, vram: Option<u64>) -> GpuInfoView {
    GpuInfoView {
        name,
        vram_mb: vram,
        vram_usable_mb: None,
        driver_version: None,
        is_integrated: false,
        shared_memory_mb: None,
    }
}

pub open spec fn profiler_step(st: ProfilerState, line: Seq<char>) -> ProfilerState {
    let t = trim(line);
    if ends_with(t, ":"@) && starts_with(line, "      "@) && !contains(t, ":"@) {
        ProfilerState {
            gpus: match st.name {
                Some(n) => st.gpus.push(profiler_gpu(n, st.vram)),
                None => st.gpus,
            },
            name: Some(trim_end_colon(t)),
            vram: match st.name {
                Some(_) => None,
                None => st.vram,
            },
        }
    } else if starts_with(t, "Chipset Model:"@) {
        ProfilerState {
            name: match after_char(t, ':') {
                Some(v) => Some(trim(v)),
                None => None,
            },
            ..st
        }
    } else if starts_with(t, "VRAM"@) {
        ProfilerState { vram: vram_of_line(t), ..st }
    } else {
        st
    }
}

pub open spec fn trim_end_colon(t: Seq<char>) -> Seq<char> {
    crate::text::trim_end_char(t, ':')
}

pub open spec fn profiler_fold(ls: Seq<Seq<char>>) -> ProfilerState
    decreases ls.len(),
{
    if ls.len() == 0 {
        ProfilerState { gpus: seq![], name: None, vram: None }
    } else {
        profiler_step(profiler_fold(ls.drop_last()), ls.last())
    }
}

/// The GPUs of a `system_profiler SPDisplaysDataType` listing.
pub open spec fn profiler_gpus(text: Seq<char>) -> Seq<GpuInfoView> {
    let st = profiler_fold(lines(text));
    match st.name {
        Some(n) => st.gpus.push(profiler_gpu(n, st.vram)),
        None => st.gpus,
    }
}


/// The dedicated memory of each DXGI adapter, in whole MB, without the adapters of none.
pub fn dxgi_vram(adapters: &Vec<AdapterReading>) -> (r: Vec<(String, u64)>)
    ensures
        pair_views(r@) == vram_list(reading_views(adapters@)),
{
    let ghost av = reading_views(adapters@);
    let mut out: Vec<(String, u64)> = Vec::new();
    let mut k: usize = 0;
    assert(av.take(0) =~= Seq::<(Seq<char>, u64)>::empty());
    assert(pair_views(out@) =~= Seq::<(Seq<char>, u64)>::empty());
    while k < adapters.len()
        invariant
            k <= adapters@.len(),
            av == reading_views(adapters@),
            pair_views(out@) == vram_list(av.take(k as int)),
        decreases adapters@.len() - k,
    {
        assert(av.take(k + 1).drop_last() =~= av.take(k as int));
        assert(av.take(k + 1).last() == av[k as int]);
        let mb = adapters[k].dedicated_video_memory / 1048576;
        let ghost before = out@;
        if mb > 0 {
            let name = from_chars(&to_chars(adapters[k].description.as_str()));
            out.push((name, mb));
            assert(pair_views(out@) =~= pair_views(before) + seq![(av[k as int].0, mb)]);
        } else {
            assert(pair_views(out@) =~= pair_views(before) + seq![]);
        }
        k = k + 1;
    }
    assert(av.take(adapters@.len() as int) =~= av);
    out
}

fn integrated_chars(name: &Vec<char>) -> (b: bool)
    ensures
        b == integrated_name(name@),
{
    integrated_lower_chars(&to_lowercase_chars(name))
}

fn integrated_lower_chars(n: &Vec<char>) -> (b: bool)
    ensures
        b == integrated_lower(n@),
{
    (contains_str(n, "intel") && (contains_str(n, "uhd") || contains_str(n, "hd graphics")
        || contains_str(n, "iris") || contains_str(n, "arc") && contains_str(n, "graphics")))
        || (contains_str(n, "amd") && contains_str(n, "radeon") && !contains_str(n, "rx")
        && !contains_str(n, "pro") && !contains_str(n, "vega") && contains_str(
        n,
        "graphics",
    )) || contains_str(n, "microsoft basic display") || contains_str(n, "vmware")
        || contains_str(n, "virtualbox")
}

/// Whether a GPU whose name is already lower-cased is integrated: the rule of
/// `is_integrated_gpu` after the case mapping.
pub fn is_integrated_lower(name: &str) -> (b: bool)
    ensures
        b == integrated_lower(name@),
{
    integrated_lower_chars(&to_chars(name))
}

/// Whether a GPU, by its name, is one that shares the system's memory: Intel UHD,
/// HD, Iris and Arc graphics, AMD Radeon graphics that are no RX, Pro or Vega
/// card, and the basic and virtual display adapters.
pub fn is_integrated_gpu(name: &str) -> (b: bool)
    ensures
        b == integrated_name(name@),
{
    integrated_chars(&to_chars(name))
}

fn rated_mb_exec(usable: u64) -> (r: u64)
    ensures
        r == rated_mb(usable),
{
    let gb = usable / 1024 + if usable % 1024 == 0 {
        0
    } else {
        1
    };
    assert(gb == (usable as nat + 1023) / 1024);
    if gb <= u64::MAX / 1024 {
        gb * 1024
    } else {
        assert(gb * 1024 > u64::MAX);
        usable
    }
}

fn vram_for_exec(adapters: &Vec<(String, u64)>, name: &Vec<char>) -> (r: Option<u64>)
    ensures
        r == vram_for(pair_views(adapters@), name@),
{
    let ghost av = pair_views(adapters@);
    let n = to_lowercase_chars(name);
    let mut k: usize = 0;
    assert(av.skip(0) =~= av);
    while k < adapters.len()
        invariant
            k <= adapters@.len(),
            av == pair_views(adapters@),
            n@ == lowercase(name@),
            vram_for(av, name@) == vram_for(av.skip(k as int), name@),
        decreases adapters@.len() - k,
    {
        let a = to_lowercase_chars(&to_chars(adapters[k].0.as_str()));
        assert(av.skip(k as int)[0] == av[k as int]);
        if contains_chars(&a, &n) || contains_chars(&n, &a) {
            return Some(adapters[k].1);
        }
        assert(av.skip(k as int).drop_first() =~= av.skip(k + 1));
        k = k + 1;
    }
    None
}

/// The GPUs of the Windows video controller list, each with the memory of the
/// first DXGI adapter whose name matches its own.
pub fn gpus_from_records(records: &Vec<VideoControllerRecord>, adapters: &Vec<(String, u64)>) -> (r: Vec<GpuInfo>)
    ensures
        gpu_views(r@) == gpus_of(controller_views(records@), pair_views(adapters@)),
{
    let ghost rv = controller_views(records@);
    let mut out: Vec<GpuInfo> = Vec::new();
    let mut k: usize = 0;
    assert(rv.take(0) =~= Seq::<VideoControllerRecordView>::empty());
    assert(gpu_views(out@) =~= Seq::<GpuInfoView>::empty());
    while k < records.len()
        invariant
            k <= records@.len(),
            rv == controller_views(records@),
            gpu_views(out@) == gpus_of(rv.take(k as int), pair_views(adapters@)),
        decreases records@.len() - k,
    {
        assert(rv.take(k + 1).drop_last() =~= rv.take(k as int));
        assert(rv.take(k + 1).last() == records@[k as int]@);
        let ghost before = out@;
        let r = &records[k];
        match &r.name {
            Some(raw) => {
                let name = trim_str(raw.as_str());
                if name.len() == 0 {
                    assert(gpu_views(out@) =~= gpu_views(before) + seq![]);
                } else {
                    let driver = match &r.driver_version {
                        Some(d) => Some(from_chars(&to_chars(d.as_str()))),
                        None => None,
                    };
                    let usable = vram_for_exec(adapters, &name);
                    let rated = match usable {
                        Some(u) => Some(rated_mb_exec(u)),
                        None => None,
                    };
                    let g = GpuInfo {
                        name: from_chars(&name),
                        vram_mb: rated,
                        vram_usable_mb: usable,
                        driver_version: driver,
                        is_integrated: integrated_chars(&name),
                        shared_memory_mb: None,
                    };
                    let ghost gv = g@;
                    out.push(g);
                    assert(gpu_views(out@) =~= gpu_views(before) + seq![gv]);
                }
            },
            None => {
                assert(gpu_views(out@) =~= gpu_views(before) + seq![]);
            },
        }
        k = k + 1;
    }
    assert(rv.take(records@.len() as int) =~= rv);
    out
}

fn lspci_name_chars(line: &Vec<char>) -> (r: Vec<char>)
    ensures
        r@ == lspci_name(line@),
{
    let parts = splitn_exec(line, 5, '"');
    if parts.len() >= 5 {
        assert(parts[3]@ == splitn(line@, 5, '"')[3] && parts[4]@ == splitn(line@, 5, '"')[4]);
        let mut r = crate::text::slice_of(&parts[3], 0, parts[3].len());
        push_str(&mut r, " ");
        push_all(&mut r, &trim_chars(&trim_char_exec(&parts[4], '"')));
        r
    } else {
        crate::text::slice_of(line, 0, line.len())
    }
}

/// The device name in a line of `lspci -mm`: its vendor and device fields.
pub fn parse_lspci_name(line: &str) -> (r: String)
    ensures
        r@ == lspci_name(line@),
{
    from_chars(&lspci_name_chars(&to_chars(line)))
}

/// The GPUs of an `lspci -mm` listing: one for each VGA, display or 3D controller
/// line; Intel GPUs other than Arc count as integrated.
pub fn parse_lspci(text: &str) -> (r: Vec<GpuInfo>)
    ensures
        gpu_views(r@) == lspci_gpus(lines(text@)),
{
    let chars = to_chars(text);
    let ls = lines_exec(&chars);
    let ghost lv = views(ls@);
    let mut out: Vec<GpuInfo> = Vec::new();
    let mut k: usize = 0;
    assert(lv.take(0) =~= Seq::<Seq<char>>::empty());
    assert(gpu_views(out@) =~= Seq::<GpuInfoView>::empty());
    while k < ls.len()
        invariant
            k <= ls@.len(),
            lv == views(ls@),
            gpu_views(out@) == lspci_gpus(lv.take(k as int)),
        decreases ls@.len() - k,
    {
        assert(lv.take(k + 1).drop_last() =~= lv.take(k as int));
        assert(lv.take(k + 1).last() == ls@[k as int]@);
        let line = &ls[k];
        let ghost before = out@;
        if contains_str(line, "VGA") || contains_str(line, "Display") || contains_str(line, "3D") {
            let name = lspci_name_chars(line);
            let integrated = contains_str(&name, "Intel") && !contains_str(&name, "Arc");
            let g = GpuInfo {
                name: from_chars(&name),
                vram_mb: None,
                vram_usable_mb: None,
                driver_version: None,
                is_integrated: integrated,
                shared_memory_mb: None,
            };
            let ghost gv = g@;
            out.push(g);
            assert(gpu_views(out@) =~= gpu_views(before) + seq![gv]);
        } else {
            assert(gpu_views(out@) =~= gpu_views(before) + seq![]);
        }
        k = k + 1;
    }
    assert(lv.take(ls@.len() as int) =~= lv);
    out
}

/// The memory of a `VRAM (Total): 8 GB` line, in MB.
pub fn parse_vram(line: &Vec<char>) -> (r: Option<u64>)
    ensures
        r == vram_of_line(line@),
{
    match after_char_exec(line, ':') {
        Some(v) => parse_size_to_mb(&trim_chars(&v)),
        None => None,
    }
}

fn profiler_gpu_exec(name: Vec<char>, vram: Option<u64>) -> (g: GpuInfo)
    ensures
        g@ == profiler_gpu(name@, vram),
{
    GpuInfo {
        name: from_chars(&name),
        vram_mb: vram,
        vram_usable_mb: None,
        driver_version: None,
        is_integrated: false,
        shared_memory_mb: None,
    }
}

pub open spec fn opt_chars_view(o: Option<Vec<char>>) -> Option<Seq<char>> {
    match o {
        Some(v) => Some(v@),
        None => None,
    }
}

/// The GPUs of a `system_profiler SPDisplaysDataType` listing: the chipset model
/// and VRAM lines name and size the GPU being read.
pub fn parse_system_profiler_displays(text: &str) -> (r: Vec<GpuInfo>)
    ensures
        gpu_views(r@) == profiler_gpus(text@),
{
    let chars = to_chars(text);
    let ls = lines_exec(&chars);
    let ghost lv = views(ls@);
    let mut gpus: Vec<GpuInfo> = Vec::new();
    let mut name: Option<Vec<char>> = None;
    let mut vram: Option<u64> = None;
    let mut k: usize = 0;
    assert(lv.take(0) =~= Seq::<Seq<char>>::empty());
    assert(gpu_views(gpus@) =~= Seq::<GpuInfoView>::empty());
    while k < ls.len()
        invariant
            k <= ls@.len(),
            lv == views(ls@),
            lv == lines(text@),
            profiler_fold(lv.take(k as int)) == (ProfilerState {
                gpus: gpu_views(gpus@),
                name: opt_chars_view(name),
                vram: vram,
            }),
        decreases ls@.len() - k,
    {
        assert(lv.take(k + 1).drop_last() =~= lv.take(k as int));
        assert(lv.take(k + 1).last() == ls@[k as int]@);
        let line = &ls[k];
        let t = trim_chars(line);
        if ends_with_chars(&t, ":") && starts_with_chars(line, "      ") && !contains_str(&t, ":") {
            let ghost before = gpus@;
            let taken = name;
            match taken {
                Some(n) => {
                    let g = profiler_gpu_exec(n, vram);
                    let ghost gv = g@;
                    gpus.push(g);
                    assert(gpu_views(gpus@) =~= gpu_views(before).push(gv));
                    vram = None;
                },
                None => {},
            }
            name = Some(crate::text::trim_end_char_exec(&t, ':'));
        } else if starts_with_chars(&t, "Chipset Model:") {
            name = match after_char_exec(&t, ':') {
                Some(v) => Some(trim_chars(&v)),
                None => None,
            };
        } else if starts_with_chars(&t, "VRAM") {
            vram = parse_vram(&t);
        }
        k = k + 1;
    }
    assert(lv.take(ls@.len() as int) =~= lv);
    match name {
        Some(n) => {
            let ghost before = gpus@;
            let g = profiler_gpu_exec(n, vram);
            let ghost gv = g@;
            gpus.push(g);
            assert(gpu_views(gpus@) =~= gpu_views(before).push(gv));
        },
        None => {},
    }
    gpus
}

/// Where the GPU list comes from on each platform, as the platform handed it out.
pub enum GpuSource {
    /// The Windows video controller rows (none where the query failed) and the
    /// DXGI adapters with their memory in MB.
    Windows(Vec<VideoControllerRecord>, Vec<(String, u64)>),
    /// The output of `lspci -mm`, where it ran.
    Lspci(Option<String>),
    /// The output of `system_profiler SPDisplaysDataType`, where it ran.
    SystemProfiler(Option<String>),
}

pub open spec fn gpus_of_source(source: GpuSource) -> Seq<GpuInfoView> {
    match source {
        GpuSource::Windows(rs, adapters) => gpus_of(controller_views(rs@), pair_views(adapters@)),
        GpuSource::Lspci(Some(t)) => lspci_gpus(lines(t@)),
        GpuSource::SystemProfiler(Some(t)) => profiler_gpus(t@),
        _ => seq![],
    }
}

/// The GPUs of the machine, from the platform's listing.
pub fn collect(source: &GpuSource) -> (r: Vec<GpuInfo>)
    ensures
        gpu_views(r@) == gpus_of_source(*source),
{
    match source {
        GpuSource::Windows(rs, adapters) => gpus_from_records(rs, adapters),
        GpuSource::Lspci(Some(t)) => parse_lspci(t.as_str()),
        GpuSource::SystemProfiler(Some(t)) => parse_system_profiler_displays(t.as_str()),
        _ => {
            let r: Vec<GpuInfo> = Vec::new();
            assert(gpu_views(r@) =~= seq![]);
            r
        },
    }
}

proof fn lemma_vram_list_from_readings(s: Seq<(Seq<char>, u64)>)
    ensures
        forall|k: int|
            0 <= k < vram_list(s).len() ==> (#[trigger] vram_list(s)[k]).1 > 0 && exists|j: int|
                0 <= j < s.len() && s[j].0 == vram_list(s)[k].0 && s[j].1 / 1048576
                    == vram_list(s)[k].1,
    decreases s.len(),
{
    if s.len() > 0 {
        lemma_vram_list_from_readings(s.drop_last());
        let prev = vram_list(s.drop_last());
        let v = vram_list(s);
        assert forall|k: int| 0 <= k < v.len() implies (#[trigger] v[k]).1 > 0 && exists|j: int|
            0 <= j < s.len() && s[j].0 == v[k].0 && s[j].1 / 1048576 == v[k].1 by {
            if k < prev.len() {
                assert(v[k] == prev[k]);
                let j = choose|j: int|
                    0 <= j < s.drop_last().len() && s.drop_last()[j].0 == prev[k].0
                        && s.drop_last()[j].1 / 1048576 == prev[k].1;
                assert(s[j] == s.drop_last()[j]);
            } else {
                assert(s[s.len() - 1].0 == v[k].0);
            }
        }
    }
}

proof fn lemma_vram_for_matches(adapters: Seq<(Seq<char>, u64)>, name: Seq<char>)
    ensures
        vram_for(adapters, name) matches Some(m) ==> exists|j: int|
            0 <= j < adapters.len() && names_match(adapters[j].0, name) && adapters[j].1 == m,
    decreases adapters.len(),
{
    if adapters.len() > 0 && !names_match(adapters[0].0, name) {
        lemma_vram_for_matches(adapters.drop_first(), name);
        if let Some(m) = vram_for(adapters, name) {
            let j = choose|j: int|
                0 <= j < adapters.drop_first().len() && names_match(adapters.drop_first()[j].0, name)
                    && adapters.drop_first()[j].1 == m;
            assert(adapters[j + 1] == adapters.drop_first()[j]);
        }
    }
}

proof fn lemma_gpus_from_rows(rs: Seq<VideoControllerRecordView>, adapters: Seq<(Seq<char>, u64)>)
    ensures
        forall|i: int|
            0 <= i < gpus_of(rs, adapters).len() ==> exists|k: int|
                0 <= k < rs.len() && gpu_of(rs[k], adapters) == Some(
                    #[trigger] gpus_of(rs, adapters)[i],
                ),
    decreases rs.len(),
{
    if rs.len() > 0 {
        lemma_gpus_from_rows(rs.drop_last(), adapters);
        let prev = gpus_of(rs.drop_last(), adapters);
        let g = gpus_of(rs, adapters);
        assert forall|i: int| 0 <= i < g.len() implies exists|k: int|
            0 <= k < rs.len() && gpu_of(rs[k], adapters) == Some(#[trigger] g[i]) by {
            if i < prev.len() {
                assert(g[i] == prev[i]);
                let k = choose|k: int|
                    0 <= k < rs.drop_last().len() && gpu_of(rs.drop_last()[k], adapters) == Some(
                        prev[i],
                    );
                assert(rs[k] == rs.drop_last()[k]);
            } else {
                assert(gpu_of(rs[rs.len() - 1], adapters) == Some(g[i]));
            }
        }
    }
}

/// A Windows GPU gets its memory only from a DXGI adapter whose name matches its own
/// (either, lower-cased, holds the other): its usable memory is that adapter's
/// dedicated memory in whole MB, never zero, and its rated memory is that rounded up
/// to a whole GB; without a matching adapter it has neither.
pub proof fn lemma_gpu_memory_from_matching_adapter(
    rs: Seq<VideoControllerRecordView>,
    readings: Seq<(Seq<char>, u64)>,
)
    ensures
        forall|i: int|
            0 <= i < gpus_of(rs, vram_list(readings)).len() ==> {
                let g = #[trigger] gpus_of(rs, vram_list(readings))[i];
                match g.vram_usable_mb {
                    Some(u) => {
                        &&& u > 0
                        &&& g.vram_mb == Some(rated_mb(u))
                        &&& exists|j: int|
                            0 <= j < readings.len() && names_match(readings[j].0, g.name)
                                && readings[j].1 / 1048576 == u
                    },
                    None => g.vram_mb is None,
                }
            },
{
    let a = vram_list(readings);
    let gs = gpus_of(rs, a);
    lemma_gpus_from_rows(rs, a);
    lemma_vram_list_from_readings(readings);
    assert forall|i: int| 0 <= i < gs.len() implies {
        let g = #[trigger] gs[i];
        match g.vram_usable_mb {
            Some(u) => {
                &&& u > 0
                &&& g.vram_mb == Some(rated_mb(u))
                &&& exists|j: int|
                    0 <= j < readings.len() && names_match(readings[j].0, g.name) && readings[j].1
                        / 1048576 == u
            },
            None => g.vram_mb is None,
        }
    } by {
        let g = gs[i];
        let k = choose|k: int| 0 <= k < rs.len() && gpu_of(rs[k], a) == Some(g);
        assert(g.vram_usable_mb == vram_for(a, g.name));
        lemma_vram_for_matches(a, g.name);
        if let Some(m) = g.vram_usable_mb {
            let ka = choose|ka: int| 0 <= ka < a.len() && names_match(a[ka].0, g.name) && a[ka].1 == m;
            assert(a[ka].1 > 0);
            let j = choose|j: int| 0 <= j < readings.len() && readings[j].0 == a[ka].0 && readings[j].1 / 1048576 == a[ka].1;
            assert(names_match(readings[j].0, g.name));
        }
    }
}

/// Every GPU of an `lspci -mm` listing is named after a display-class line (its
/// vendor and device fields); an Arc GPU is a discrete card, and any other Intel GPU
/// is an integrated one; every other GPU is discrete.
pub proof fn lemma_lspci_arc_is_discrete(ls: Seq<Seq<char>>)
    ensures
        forall|i: int|
            0 <= i < lspci_gpus(ls).len() ==> {
                let g = #[trigger] lspci_gpus(ls)[i];
                &&& contains(g.name, "Arc"@) ==> !g.is_integrated
                &&& contains(g.name, "Intel"@) && !contains(g.name, "Arc"@) ==> g.is_integrated
                &&& !contains(g.name, "Intel"@) ==> !g.is_integrated
                &&& exists|k: int| 0 <= k < ls.len() && is_display_class(ls[k]) && g.name == lspci_name(ls[k])
            },
    decreases ls.len(),
{
    if ls.len() > 0 {
        lemma_lspci_arc_is_discrete(ls.drop_last());
        let prev = lspci_gpus(ls.drop_last());
        let all = lspci_gpus(ls);
        assert forall|i: int| 0 <= i < all.len() implies {
            let g = #[trigger] all[i];
            &&& contains(g.name, "Arc"@) ==> !g.is_integrated
            &&& contains(g.name, "Intel"@) && !contains(g.name, "Arc"@) ==> g.is_integrated
            &&& !contains(g.name, "Intel"@) ==> !g.is_integrated
            &&& exists|k: int| 0 <= k < ls.len() && is_display_class(ls[k]) && g.name == lspci_name(ls[k])
        } by {
            if i < prev.len() {
                assert(all[i] == prev[i]);
                let k = choose|k: int| 0 <= k < ls.drop_last().len() && is_display_class(ls.drop_last()[k]) && prev[i].name == lspci_name(ls.drop_last()[k]);
                assert(ls[k] == ls.drop_last()[k]);
            } else {
                assert(all[i] == lspci_gpu(ls.last()));
                assert(ls[ls.len() - 1] == ls.last());
            }
        }
    }
}

} // verus!