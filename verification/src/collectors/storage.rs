//! Storage devices: their models, sizes and kinds.
use vstd::prelude::*;
use crate::models::{opt_view, StorageDevice, StorageDeviceView, StorageType};
use crate::text::{
    after_char, after_char_exec, contains, contains_chars, contains_str, eq_chars, eq_str,
    from_chars, lines, lines_exec, starts_with, starts_with_chars, to_chars, to_uppercase_chars,
    trim, trim_chars, trim_start_matches, trim_start_matches_exec, uppercase, views,
    words, words_exec,
};

verus! {

/// The disk list of the `sysinfo` crate.
#[verifier::external_type_specification]
#[verifier::external_body]
pub struct ExDisks(sysinfo::Disks);

/// One disk of the `sysinfo` crate's disk list.
#[verifier::external_type_specification]
#[verifier::external_body]
pub struct ExDisk(sysinfo::Disk);

/// One row of the Windows physical disk list (`MSFT_PhysicalDisk`), as plain values.
pub struct PhysicalDiskRecord {
    pub friendly_name: Option<String>,
    pub size: Option<u64>,
    /// 0 unspecified, 3 HDD, 4 SSD, 5 SCM.
    pub media_type: Option<u16>,
    /// 3 ATA, 7 USB, 9 SD, 11 SATA, 15 MMC, 17 NVMe, among others.
    pub bus_type: Option<u16>,
}

pub struct PhysicalDiskRecordView {
    pub friendly_name: Option<Seq<char>>,
    pub size: Option<u64>,
    pub media_type: Option<u16>,
    pub bus_type: Option<u16>,
}

impl View for PhysicalDiskRecord {
    type V = PhysicalDiskRecordView;

    open spec fn view(&self) -> PhysicalDiskRecordView {
        PhysicalDiskRecordView {
            friendly_name: opt_view(self.friendly_name),
            size: self.size,
            media_type: self.media_type,
            bus_type: self.bus_type,
        }
    }
}

pub open spec fn device_views(s: Seq<StorageDevice>) -> Seq<StorageDeviceView> {
    s.map_values(|d: StorageDevice| d@)
}

pub open spec fn disk_record_views(s: Seq<PhysicalDiskRecord>) -> Seq<PhysicalDiskRecordView> {
    s.map_values(|r: PhysicalDiskRecord| r@)
}

pub open spec fn reading_views(s: Seq<(String, u64)>) -> Seq<(Seq<char>, u64)> {
    s.map_values(|p: (String, u64)| (p.0@, p.1))
}

/// A disk name without the leading "/dev/" or "\\.\" prefixes.
pub open spec fn clean_model(raw: Seq<char>) -> Seq<char> {
    trim_start_matches(trim_start_matches(raw, "/dev/"@), "\\\\.\\"@)
}

/// The interface label of a bus type code, for the codes where it means something.
pub open spec fn bus_label(bus: u16) -> Option<Seq<char>> {
    if bus == 3 {
        Some("ATA"@)
    } else if bus == 11 {
        Some("SATA"@)
    } else if bus == 17 {
        Some("NVMe"@)
    } else if bus == 7 {
        Some("USB"@)
    } else if bus == 9 {
        Some("SD"@)
    } else if bus == 15 {
        Some("MMC"@)
    } else {
        None
    }
}

/// The kind of a disk: the NVMe bus decides first, then the media type.
pub open spec fn media_kind(media: u16, bus: u16) -> StorageType {
    if bus == 17 {
        StorageType::NvmeSsd
    } else if media == 4 {
        StorageType::SataSsd
    } else if media == 3 {
        StorageType::Hdd
    } else {
        StorageType::Unknown
    }
}

pub open spec fn disk_of(r: PhysicalDiskRecordView) -> Option<StorageDeviceView> {
    let model = trim(
        match r.friendly_name {
            Some(n) => n,
            None => seq![],
        },
    );
    if model.len() == 0 {
        None
    } else {
        let bus = match r.bus_type {
            Some(b) => b,
            None => 0u16,
        };
        let media = match r.media_type {
            Some(m) => m,
            None => 0u16,
        };
        Some(
            StorageDeviceView {
                model,
                capacity_bytes: match r.size {
                    Some(s) => s,
                    None => 0u64,
                },
                device_type: media_kind(media, bus),
                interface: bus_label(bus),
            },
        )
    }
}

/// The disks of the Windows physical disk list, in order, without the nameless ones.
pub open spec fn disks_of(rs: Seq<PhysicalDiskRecordView>) -> Seq<StorageDeviceView>
    decreases rs.len(),
{
    if rs.len() == 0 {
        seq![]
    } else {
        disks_of(rs.drop_last()) + match disk_of(rs.last()) {
            Some(d) => seq![d],
            None => seq![],
        }
    }
}

/// The kind that an lsblk line gives by its rotational flag and transport.
pub open spec fn lsblk_kind(rota: Seq<char>, tran: Seq<char>) -> StorageType {
    if tran == "nvme"@ {
        StorageType::NvmeSsd
    } else if rota == "0"@ {
        StorageType::SataSsd
    } else if rota == "1"@ {
        StorageType::Hdd
    } else {
        StorageType::Unknown
    }
}

/// The first device whose model holds `model` or is held by it, from position `i` on.
pub open spec fn first_match(ds: Seq<StorageDeviceView>, model: Seq<char>, i: int) -> int
    decreases ds.len() - i,
{
    if i >= ds.len() {
        ds.len() as int
    } else if contains(ds[i].model, model) || contains(model, ds[i].model) {
        i
    } else {
        first_match(ds, model, i + 1)
    }
}

/// The devices updated by one line of `lsblk -d -o NAME,MODEL,ROTA,TRAN`: the first
/// device whose model matches the line's takes its kind and transport.
pub open spec fn lsblk_step(ds: Seq<StorageDeviceView>, line: Seq<char>) -> Seq<StorageDeviceView> {
    let parts = words(line);
    if parts.len() < 4 {
        ds
    } else {
        let i = first_match(ds, parts[1], 0);
        if i < ds.len() {
            ds.update(
                i,
                StorageDeviceView {
                    device_type: lsblk_kind(parts[2], parts[3]),
                    interface: Some(uppercase(parts[3])),
                    ..ds[i]
                },
            )
        } else {
            ds
        }
    }
}

pub open spec fn lsblk_fold(ds: Seq<StorageDeviceView>, ls: Seq<Seq<char>>) -> Seq<StorageDeviceView>
    decreases ls.len(),
{
    if ls.len() == 0 {
        ds
    } else {
        lsblk_step(lsblk_fold(ds, ls.drop_last()), ls.last())
    }
}

pub open spec fn value_after_colon(t: Seq<char>) -> Seq<char> {
    trim(
        match after_char(t, ':') {
            Some(v) => v,
            None => seq![],
        },
    )
}

/// A device updated by one (trimmed) line of `system_profiler SPStorageDataType`.
pub open spec fn profiler_update(d: StorageDeviceView, t: Seq<char>) -> StorageDeviceView {
    if starts_with(t, "Medium Type:"@) {
        StorageDeviceView {
            device_type: if value_after_colon(t) == "Solid State Drive"@ {
                StorageType::SataSsd
            } else {
                StorageType::Hdd
            },
            ..d
        }
    } else if starts_with(t, "Protocol:"@) {
        let val = value_after_colon(t);
        StorageDeviceView {
            device_type: if contains(val, "NVMe"@) {
                StorageType::NvmeSsd
            } else {
                d.device_type
            },
            interface: Some(val),
            ..d
        }
    } else {
        d
    }
}

pub open spec fn profiler_fold(d: StorageDeviceView, ls: Seq<Seq<char>>) -> StorageDeviceView
    decreases ls.len(),
{
    if ls.len() == 0 {
        d
    } else {
        profiler_update(profiler_fold(d, ls.drop_last()), trim(ls.last()))
    }
}

/// The devices of the disk list: one per partition name, cleaned, with runs of
/// the same model kept once.
pub open spec fn devices_of_readings(rs: Seq<(Seq<char>, u64)>) -> Seq<StorageDeviceView>
    decreases rs.len(),
{
    if rs.len() == 0 {
        seq![]
    } else {
        let prev = devices_of_readings(rs.drop_last());
        let d = StorageDeviceView {
            model: clean_model(rs.last().0),
            capacity_bytes: rs.last().1,
            device_type: StorageType::Unknown,
            interface: None,
        };
        if prev.len() > 0 && prev.last().model == d.model {
            prev
        } else {
            prev.push(d)
        }
    }
}


fn clean_model_chars(raw: &Vec<char>) -> (r: Vec<char>)
    ensures
        r@ == clean_model(raw@),
{
    let a = trim_start_matches_exec(raw, "/dev/");
    trim_start_matches_exec(&a, "\\\\.\\")
}

/// A disk name without the leading "/dev/" or "\\.\" prefixes.
pub fn clean_model_name(raw: &str) -> (r: String)
    ensures
        r@ == clean_model(raw@),
{
    from_chars(&clean_model_chars(&to_chars(raw)))
}

/// The interface label of a bus type code; codes without a useful label (SCSI, IDE,
/// unknown) give none.
pub fn bus_type_label(bus_type: u16) -> (r: Option<String>)
    ensures
        opt_view(r) == bus_label(bus_type),
{
    if bus_type == 3 {
        Some(from_chars(&to_chars("ATA")))
    } else if bus_type == 11 {
        Some(from_chars(&to_chars("SATA")))
    } else if bus_type == 17 {
        Some(from_chars(&to_chars("NVMe")))
    } else if bus_type == 7 {
        Some(from_chars(&to_chars("USB")))
    } else if bus_type == 9 {
        Some(from_chars(&to_chars("SD")))
    } else if bus_type == 15 {
        Some(from_chars(&to_chars("MMC")))
    } else {
        None
    }
}

fn media_kind_exec(media: u16, bus: u16) -> (t: StorageType)
    ensures
        t == media_kind(media, bus),
{
    if bus == 17 {
        StorageType::NvmeSsd
    } else if media == 4 {
        StorageType::SataSsd
    } else if media == 3 {
        StorageType::Hdd
    } else {
        StorageType::Unknown
    }
}

/// The disks of the Windows physical disk list: the bus type decides NVMe, the
/// media type SSD or HDD; nameless disks are skipped.
pub fn disks_from_records(records: &Vec<PhysicalDiskRecord>) -> (r: Vec<StorageDevice>)
    ensures
        device_views(r@) == disks_of(disk_record_views(records@)),
{
    let ghost rv = disk_record_views(records@);
    let mut out: Vec<StorageDevice> = Vec::new();
    let mut k: usize = 0;
    assert(rv.take(0) =~= Seq::<PhysicalDiskRecordView>::empty());
    assert(device_views(out@) =~= Seq::<StorageDeviceView>::empty());
    while k < records.len()
        invariant
            k <= records@.len(),
            rv == disk_record_views(records@),
            device_views(out@) == disks_of(rv.take(k as int)),
        decreases records@.len() - k,
    {
        assert(rv.take(k + 1).drop_last() =~= rv.take(k as int));
        assert(rv.take(k + 1).last() == records@[k as int]@);
        let r = &records[k];
        let raw = match &r.friendly_name {
            Some(n) => to_chars(n.as_str()),
            None => Vec::new(),
        };
        let model = trim_chars(&raw);
        let ghost before = out@;
        if model.len() == 0 {
            assert(device_views(out@) =~= device_views(before) + seq![]);
        } else {
            let bus = match r.bus_type {
                Some(b) => b,
                None => 0,
            };
            let media = match r.media_type {
                Some(m) => m,
                None => 0,
            };
            let d = StorageDevice {
                model: from_chars(&model),
                capacity_bytes: match r.size {
                    Some(s) => s,
                    None => 0,
                },
                device_type: media_kind_exec(media, bus),
                interface: bus_type_label(bus),
            };
            let ghost dv = d@;
            out.push(d);
            assert(device_views(out@) =~= device_views(before) + seq![dv]);
        }
        k = k + 1;
    }
    assert(rv.take(records@.len() as int) =~= rv);
    out
}

fn lsblk_kind_exec(rota: &Vec<char>, tran: &Vec<char>) -> (t: StorageType)
    ensures
        t == lsblk_kind(rota@, tran@),
{
    if eq_str(tran, "nvme") {
        StorageType::NvmeSsd
    } else if eq_str(rota, "0") {
        StorageType::SataSsd
    } else if eq_str(rota, "1") {
        StorageType::Hdd
    } else {
        StorageType::Unknown
    }
}

fn lsblk_step_exec(devices: &mut Vec<StorageDevice>, line: &Vec<char>)
    ensures
        device_views(final(devices)@) == lsblk_step(device_views(old(devices)@), line@),
{
    let ghost dv = device_views(devices@);
    let parts = words_exec(line);
    if parts.len() < 4 {
        return;
    }
    let ghost pv = words(line@);
    assert(parts[1]@ == pv[1] && parts[2]@ == pv[2] && parts[3]@ == pv[3]);
    let model = &parts[1];
    let mut i: usize = 0;
    while i < devices.len()
        invariant
            i <= devices@.len(),
            dv == device_views(devices@),
            model@ == pv[1],
            first_match(dv, pv[1], 0) == first_match(dv, pv[1], i as int),
        ensures
            i <= devices@.len(),
            first_match(dv, pv[1], 0) == first_match(dv, pv[1], i as int),
            i < devices@.len() ==> contains(dv[i as int].model, pv[1]) || contains(
                pv[1],
                dv[i as int].model,
            ),
        decreases devices@.len() - i,
    {
        let m = to_chars(devices[i].model.as_str());
        assert(dv[i as int].model == m@);
        if contains_chars(&m, model) || contains_chars(model, &m) {
            break;
        }
        i = i + 1;
    }
    if i < devices.len() {
        let kind = lsblk_kind_exec(&parts[2], &parts[3]);
        let iface = from_chars(&to_uppercase_chars(&parts[3]));
        let old_d = devices.remove(i);
        assert(old_d@ == dv[i as int]);
        let d = StorageDevice { device_type: kind, interface: Some(iface), ..old_d };
        let ghost newv = d@;
        devices.insert(i, d);
        assert(device_views(devices@) =~= dv.update(i as int, newv));
    } else {
        assert(first_match(dv, pv[1], 0) == dv.len());
    }
}

/// Gives each device the kind and transport of the first `lsblk -d -o
/// NAME,MODEL,ROTA,TRAN --noheadings` line whose model matches its own (later lines
/// matching the same device win).
pub fn enrich_lsblk(devices: &mut Vec<StorageDevice>, text: &str)
    ensures
        device_views(final(devices)@) == lsblk_fold(device_views(old(devices)@), lines(text@)),
{
    let ghost d0 = device_views(devices@);
    let chars = to_chars(text);
    let ls = lines_exec(&chars);
    let ghost lv = views(ls@);
    let mut k: usize = 0;
    assert(lv.take(0) =~= Seq::<Seq<char>>::empty());
    while k < ls.len()
        invariant
            k <= ls@.len(),
            lv == views(ls@),
            device_views(devices@) == lsblk_fold(d0, lv.take(k as int)),
        decreases ls@.len() - k,
    {
        assert(lv.take(k + 1).drop_last() =~= lv.take(k as int));
        assert(lv.take(k + 1).last() == ls@[k as int]@);
        lsblk_step_exec(devices, &ls[k]);
        k = k + 1;
    }
    assert(lv.take(ls@.len() as int) =~= lv);
}

fn value_after_colon_exec(t: &Vec<char>) -> (r: Vec<char>)
    ensures
        r@ == value_after_colon(t@),
{
    match after_char_exec(t, ':') {
        Some(v) => trim_chars(&v),
        None => {
            let e: Vec<char> = Vec::new();
            trim_chars(&e)
        },
    }
}

fn profiler_update_exec(d: StorageDevice, t: &Vec<char>) -> (r: StorageDevice)
    ensures
        r@ == profiler_update(d@, t@),
{
    if starts_with_chars(t, "Medium Type:") {
        let v = value_after_colon_exec(t);
        let kind = if eq_str(&v, "Solid State Drive") {
            StorageType::SataSsd
        } else {
            StorageType::Hdd
        };
        StorageDevice { device_type: kind, ..d }
    } else if starts_with_chars(t, "Protocol:") {
        let v = value_after_colon_exec(t);
        let kind = if contains_str(&v, "NVMe") {
            StorageType::NvmeSsd
        } else {
            d.device_type
        };
        StorageDevice { device_type: kind, interface: Some(from_chars(&v)), ..d }
    } else {
        d
    }
}

/// Gives every device the medium type and protocol lines of a `system_profiler
/// SPStorageDataType` listing, in the order they come.
pub fn enrich_system_profiler(devices: &mut Vec<StorageDevice>, text: &str)
    ensures
        final(devices)@.len() == old(devices)@.len(),
        forall|i: int|
            0 <= i < old(devices)@.len() ==> #[trigger] final(devices)@[i]@ == profiler_fold(
                old(devices)@[i]@,
                lines(text@),
            ),
{
    let ghost d0 = devices@;
    let chars = to_chars(text);
    let ls = lines_exec(&chars);
    let ghost lv = views(ls@);
    let mut i: usize = 0;
    while i < devices.len()
        invariant
            i <= devices@.len() == d0.len(),
            lv == views(ls@),
            lv == lines(text@),
            forall|j: int| 0 <= j < i ==> #[trigger] devices@[j]@ == profiler_fold(d0[j]@, lv),
            forall|j: int| i <= j < devices@.len() ==> #[trigger] devices@[j] == d0[j],
        decreases devices@.len() - i,
    {
        let mut d = devices.remove(i);
        let ghost start = d@;
        let mut k: usize = 0;
        assert(lv.take(0) =~= Seq::<Seq<char>>::empty());
        while k < ls.len()
            invariant
                k <= ls@.len(),
                lv == views(ls@),
                d@ == profiler_fold(start, lv.take(k as int)),
            decreases ls@.len() - k,
        {
            assert(lv.take(k + 1).drop_last() =~= lv.take(k as int));
            assert(lv.take(k + 1).last() == ls@[k as int]@);
            let t = trim_chars(&ls[k]);
            d = profiler_update_exec(d, &t);
            k = k + 1;
        }
        assert(lv.take(ls@.len() as int) =~= lv);
        let ghost before = devices@;
        devices.insert(i, d);
        assert forall|j: int| 0 <= j <= i implies #[trigger] devices@[j]@ == profiler_fold(
            d0[j]@,
            lv,
        ) by {
            if j < i {
                assert(devices@[j] == before[j]);
            }
        }
        assert forall|j: int| i + 1 <= j < devices@.len() implies #[trigger] devices@[j] == d0[j] by {
            assert(devices@[j] == before[j - 1]);
        }
        i = i + 1;
    }
}

/// Where the platform's details on the disks come from, as the platform handed them out.
pub enum StorageEnrichment {
    /// The rows of the Windows physical disk list, where the query succeeded.
    Windows(Option<Vec<PhysicalDiskRecord>>),
    /// The output of `lsblk -d -o NAME,MODEL,ROTA,TRAN --noheadings`, where it ran.
    Lsblk(Option<String>),
    /// The output of `system_profiler SPStorageDataType`, where it ran.
    SystemProfiler(Option<String>),
}

/// What the platform's details make of the devices.
pub open spec fn enriched(ds: Seq<StorageDeviceView>, e: StorageEnrichment) -> Seq<StorageDeviceView> {
    match e {
        StorageEnrichment::Windows(Some(rs)) => disks_of(disk_record_views(rs@)),
        StorageEnrichment::Lsblk(Some(t)) => lsblk_fold(ds, lines(t@)),
        StorageEnrichment::SystemProfiler(Some(t)) => Seq::new(
            ds.len(),
            |i: int| profiler_fold(ds[i], lines(t@)),
        ),
        _ => ds,
    }
}

/// Adds the platform's details (kind, interface) to the devices; on Windows the
/// physical disk list replaces them.
pub fn enrich_platform(devices: &mut Vec<StorageDevice>, enrichment: &StorageEnrichment)
    ensures
        device_views(final(devices)@) == enriched(device_views(old(devices)@), *enrichment),
{
    let ghost d0 = device_views(devices@);
    match enrichment {
        StorageEnrichment::Windows(Some(rs)) => {
            *devices = disks_from_records(rs);
        },
        StorageEnrichment::Lsblk(Some(t)) => {
            enrich_lsblk(devices, t.as_str());
        },
        StorageEnrichment::SystemProfiler(Some(t)) => {
            let ghost old_d = devices@;
            enrich_system_profiler(devices, t.as_str());
            assert(device_views(devices@) =~= Seq::new(
                d0.len(),
                |i: int| profiler_fold(d0[i], lines(t@)),
            )) by {
                assert forall|i: int| 0 <= i < d0.len() implies device_views(devices@)[i]
                    == profiler_fold(d0[i], lines(t@)) by {
                    assert(devices@[i]@ == profiler_fold(old_d[i]@, lines(t@)));
                }
            }
        },
        _ => {},
    }
}

/// The devices of the disk list: one per partition name, cleaned, with runs of
/// the same model kept once; their kind is not known yet.
pub fn devices_from_readings(readings: &Vec<(String, u64)>) -> (r: Vec<StorageDevice>)
    ensures
        device_views(r@) == devices_of_readings(reading_views(readings@)),
{
    let ghost rv = reading_views(readings@);
    let mut out: Vec<StorageDevice> = Vec::new();
    let mut k: usize = 0;
    assert(rv.take(0) =~= Seq::<(Seq<char>, u64)>::empty());
    assert(device_views(out@) =~= Seq::<StorageDeviceView>::empty());
    while k < readings.len()
        invariant
            k <= readings@.len(),
            rv == reading_views(readings@),
            device_views(out@) == devices_of_readings(rv.take(k as int)),
        decreases readings@.len() - k,
    {
        assert(rv.take(k + 1).drop_last() =~= rv.take(k as int));
        assert(rv.take(k + 1).last() == rv[k as int]);
        let model = clean_model_chars(&to_chars(readings[k].0.as_str()));
        let ghost before = out@;
        let n = out.len();
        let same = if n > 0 {
            let last = to_chars(out[n - 1].model.as_str());
            assert(device_views(before).last().model == last@);
            eq_chars(&last, &model)
        } else {
            false
        };
        if !same {
            let d = StorageDevice {
                model: from_chars(&model),
                capacity_bytes: readings[k].1,
                device_type: StorageType::Unknown,
                interface: None,
            };
            let ghost dv = d@;
            out.push(d);
            assert(device_views(out@) =~= device_views(before).push(dv));
        }
        k = k + 1;
    }
    assert(rv.take(readings@.len() as int) =~= rv);
    out
}

/// What a `sysinfo` disk list holds: the name (converted lossily to UTF-8) and the
/// size in bytes of each disk, in the list's order.
pub uninterp spec fn disk_list(disks: sysinfo::Disks) -> Seq<(Seq<char>, u64)>;

/// Calls `sysinfo::Disks::list`, and `sysinfo::Disk::name` (converted lossily to
/// UTF-8) and `sysinfo::Disk::total_space` on each disk it hands out: the contents of
/// the disk list, each disk as its name and size, in order. These getters read the
/// fields that the list holds.
#[verifier::external_body]
fn disk_list_readings(disks: &sysinfo::Disks) -> (r: Vec<(String, u64)>)
    ensures
        reading_views(r@) == disk_list(*disks),
{
    disks.list().iter().map(|d| (d.name().to_string_lossy().to_string(), d.total_space())).collect()
}

/// The storage devices of the disk list, with the platform's details added.
pub open spec fn storage_of(readings: Seq<(Seq<char>, u64)>, enrichment: StorageEnrichment) -> Seq<
    StorageDeviceView,
> {
    enriched(devices_of_readings(readings), enrichment)
}

/// The storage devices of the machine: the name and size of each disk of the
/// `sysinfo` list, in order, made into devices by `devices_from_readings`, with the
/// platform's details added.
pub fn collect(disks: &sysinfo::Disks, enrichment: &StorageEnrichment) -> (r: Vec<StorageDevice>)
    ensures
        device_views(r@) == storage_of(disk_list(*disks), *enrichment),
{
    let readings = disk_list_readings(disks);
    let mut devices = devices_from_readings(&readings);
    enrich_platform(&mut devices, enrichment);
    devices
}


/// Partitions of one drive are listed once: no two neighbouring devices of the disk
/// list have the same model.
pub proof fn lemma_readings_neighbours_differ(rs: Seq<(Seq<char>, u64)>)
    ensures
        forall|i: int|
            0 < i < devices_of_readings(rs).len() ==> (#[trigger] devices_of_readings(rs)[i]).model
                != devices_of_readings(rs)[i - 1].model,
    decreases rs.len(),
{
    if rs.len() > 0 {
        lemma_readings_neighbours_differ(rs.drop_last());
        let prev = devices_of_readings(rs.drop_last());
        let d = devices_of_readings(rs);
        assert forall|i: int| 0 < i < d.len() implies (#[trigger] d[i]).model != d[i - 1].model by {
            if i < prev.len() {
                assert(d[i] == prev[i] && d[i - 1] == prev[i - 1]);
            }
        }
    }
}

/// The bus type decides NVMe: every disk of the Windows physical disk list on the
/// NVMe bus is an NVMe SSD, whatever its media type says, and carries the NVMe label.
pub proof fn lemma_nvme_bus_decides(rs: Seq<PhysicalDiskRecordView>)
    ensures
        forall|i: int|
            0 <= i < rs.len() && rs[i].bus_type == Some(17u16) && #[trigger] disk_of(rs[i]) is Some
                ==> disk_of(rs[i])->0.device_type == StorageType::NvmeSsd && disk_of(rs[i])->0.interface
                == Some("NVMe"@),
{
}

} // verus!
