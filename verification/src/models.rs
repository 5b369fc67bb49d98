//! The hardware facts that the collectors gather and the report prints.
//!
//! Quantities are held as the whole numbers that the platforms hand out, in the
//! platform's unit: the base clock in MHz, the boost clock in kHz, disk sizes in
//! bytes; refresh rates as the whole number of Hz that the report prints.
use vstd::prelude::*;

verus! {

/// The view of an optional string.
pub open spec fn opt_view(o: Option<String>) -> Option<Seq<char>> {
    match o {
        Some(s) => Some(s@),
        None => None,
    }
}

/// All hardware data collected from the system. Each part is optional or a list,
/// so that missing data leaves a part out rather than failing the whole run.
pub struct SystemSnapshot {
    pub cpu: Option<CpuInfo>,
    pub motherboard: Option<MotherboardInfo>,
    pub ram: Vec<RamStick>,
    pub gpus: Vec<GpuInfo>,
    pub displays: Vec<DisplayInfo>,
    pub storage: Vec<StorageDevice>,
    pub peripherals: Vec<PeripheralDevice>,
    pub os: Option<OsInfo>,
}

pub struct CpuInfo {
    /// e.g. "AMD Ryzen 7 9800X3D 8-Core Processor"
    pub brand: String,
    pub cores: u32,
    pub threads: u32,
    /// The base clock in MHz, as the processor list gives it.
    pub base_clock_mhz: u64,
    /// The highest clock in kHz, as cpufreq gives it.
    pub boost_clock_khz: Option<u64>,
    pub cache_l2_kb: Option<u64>,
    pub cache_l3_kb: Option<u64>,
}

pub struct MotherboardInfo {
    /// e.g. "ASUSTeK"
    pub manufacturer: String,
    /// e.g. "ROG STRIX X670E-F"
    pub model: String,
    pub bios_vendor: Option<String>,
    pub bios_version: Option<String>,
    pub bios_date: Option<String>,
}

pub struct RamStick {
    pub slot: Option<String>,
    pub manufacturer: Option<String>,
    pub part_number: Option<String>,
    pub capacity_mb: u64,
    pub speed_mhz: Option<u32>,
    /// DDR4, DDR5, etc.
    pub memory_type: Option<String>,
    /// CAS latency; timings are rarely available without elevated privileges.
    pub cas_latency: Option<u32>,
    pub trcd: Option<u32>,
    pub trp: Option<u32>,
    pub tras: Option<u32>,
}

pub struct GpuInfo {
    /// e.g. "AMD Radeon RX 9060 XT"
    pub name: String,
    pub vram_mb: Option<u64>,
    /// The part of the video memory that the system reports as usable.
    pub vram_usable_mb: Option<u64>,
    pub driver_version: Option<String>,
    pub is_integrated: bool,
    /// Shared memory of an integrated GPU.
    pub shared_memory_mb: Option<u64>,
}

pub struct DisplayInfo {
    /// Monitor model, if available.
    pub name: Option<String>,
    pub resolution_w: u32,
    pub resolution_h: u32,
    /// The refresh rate in whole Hz, as the report prints it.
    pub refresh_rate_hz: Option<u32>,
    pub is_primary: bool,
}

pub struct StorageDevice {
    pub model: String,
    pub capacity_bytes: u64,
    pub device_type: StorageType,
    /// NVMe, SATA, USB, etc.
    pub interface: Option<String>,
}

#[derive(Debug, Clone, Copy, PartialEq, Eq, Structural)]
pub enum StorageType {
    NvmeSsd,
    SataSsd,
    Hdd,
    Unknown,
}

pub struct PeripheralDevice {
    pub name: String,
    pub manufacturer: Option<String>,
    pub kind: PeripheralKind,
    /// The device id without its last `\`-separated segment: the same for
    /// every registration of one physical device.
    pub device_id_root: String,
}

#[derive(Debug, Clone, Copy, PartialEq, Eq, Structural)]
pub enum PeripheralKind {
    Audio,
    Keyboard,
    Mouse,
    Other,
}

pub struct OsInfo {
    /// e.g. "Windows 11 Pro"
    pub name: String,
    pub version: String,
    pub build: Option<String>,
}

pub struct CpuInfoView {
    pub brand: Seq<char>,
    pub cores: u32,
    pub threads: u32,
    pub base_clock_mhz: u64,
    pub boost_clock_khz: Option<u64>,
    pub cache_l2_kb: Option<u64>,
    pub cache_l3_kb: Option<u64>,
}

pub struct MotherboardInfoView {
    pub manufacturer: Seq<char>,
    pub model: Seq<char>,
    pub bios_vendor: Option<Seq<char>>,
    pub bios_version: Option<Seq<char>>,
    pub bios_date: Option<Seq<char>>,
}

pub struct RamStickView {
    pub slot: Option<Seq<char>>,
    pub manufacturer: Option<Seq<char>>,
    pub part_number: Option<Seq<char>>,
    pub capacity_mb: u64,
    pub speed_mhz: Option<u32>,
    pub memory_type: Option<Seq<char>>,
    pub cas_latency: Option<u32>,
    pub trcd: Option<u32>,
    pub trp: Option<u32>,
    pub tras: Option<u32>,
}

pub struct GpuInfoView {
    pub name: Seq<char>,
    pub vram_mb: Option<u64>,
    pub vram_usable_mb: Option<u64>,
    pub driver_version: Option<Seq<char>>,
    pub is_integrated: bool,
    pub shared_memory_mb: Option<u64>,
}

pub struct DisplayInfoView {
    pub name: Option<Seq<char>>,
    pub resolution_w: u32,
    pub resolution_h: u32,
    pub refresh_rate_hz: Option<u32>,
    pub is_primary: bool,
}

pub struct StorageDeviceView {
    pub model: Seq<char>,
    pub capacity_bytes: u64,
    pub device_type: StorageType,
    pub interface: Option<Seq<char>>,
}

pub struct PeripheralDeviceView {
    pub name: Seq<char>,
    pub manufacturer: Option<Seq<char>>,
    pub kind: PeripheralKind,
    pub device_id_root: Seq<char>,
}

pub struct OsInfoView {
    pub name: Seq<char>,
    pub version: Seq<char>,
    pub build: Option<Seq<char>>,
}

pub struct SystemSnapshotView {
    pub cpu: Option<CpuInfoView>,
    pub motherboard: Option<MotherboardInfoView>,
    pub ram: Seq<RamStickView>,
    pub gpus: Seq<GpuInfoView>,
    pub displays: Seq<DisplayInfoView>,
    pub storage: Seq<StorageDeviceView>,
    pub peripherals: Seq<PeripheralDeviceView>,
    pub os: Option<OsInfoView>,
}

impl View for CpuInfo {
    type V = CpuInfoView;

    open spec fn view(&self) -> CpuInfoView {
        CpuInfoView {
            brand: self.brand@,
            cores: self.cores,
            threads: self.threads,
            base_clock_mhz: self.base_clock_mhz,
            boost_clock_khz: self.boost_clock_khz,
            cache_l2_kb: self.cache_l2_kb,
            cache_l3_kb: self.cache_l3_kb,
        }
    }
}

impl View for MotherboardInfo {
    type V = MotherboardInfoView;

    open spec fn view(&self) -> MotherboardInfoView {
        MotherboardInfoView {
            manufacturer: self.manufacturer@,
            model: self.model@,
            bios_vendor: opt_view(self.bios_vendor),
            bios_version: opt_view(self.bios_version),
            bios_date: opt_view(self.bios_date),
        }
    }
}

impl View for RamStick {
    type V = RamStickView;

    open spec fn view(&self) -> RamStickView {
        RamStickView {
            slot: opt_view(self.slot),
            manufacturer: opt_view(self.manufacturer),
            part_number: opt_view(self.part_number),
            capacity_mb: self.capacity_mb,
            speed_mhz: self.speed_mhz,
            memory_type: opt_view(self.memory_type),
            cas_latency: self.cas_latency,
            trcd: self.trcd,
            trp: self.trp,
            tras: self.tras,
        }
    }
}

impl View for GpuInfo {
    type V = GpuInfoView;

    open spec fn view(&self) -> GpuInfoView {
        GpuInfoView {
            name: self.name@,
            vram_mb: self.vram_mb,
            vram_usable_mb: self.vram_usable_mb,
            driver_version: opt_view(self.driver_version),
            is_integrated: self.is_integrated,
            shared_memory_mb: self.shared_memory_mb,
        }
    }
}

impl View for DisplayInfo {
    type V = DisplayInfoView;

    open spec fn view(&self) -> DisplayInfoView {
        DisplayInfoView {
            name: opt_view(self.name),
            resolution_w: self.resolution_w,
            resolution_h: self.resolution_h,
            refresh_rate_hz: self.refresh_rate_hz,
            is_primary: self.is_primary,
        }
    }
}

impl View for StorageDevice {
    type V = StorageDeviceView;

    open spec fn view(&self) -> StorageDeviceView {
        StorageDeviceView {
            model: self.model@,
            capacity_bytes: self.capacity_bytes,
            device_type: self.device_type,
            interface: opt_view(self.interface),
        }
    }
}

impl View for PeripheralDevice {
    type V = PeripheralDeviceView;

    open spec fn view(&self) -> PeripheralDeviceView {
        PeripheralDeviceView {
            name: self.name@,
            manufacturer: opt_view(self.manufacturer),
            kind: self.kind,
            device_id_root: self.device_id_root@,
        }
    }
}

impl View for OsInfo {
    type V = OsInfoView;

    open spec fn view(&self) -> OsInfoView {
        OsInfoView { name: self.name@, version: self.version@, build: opt_view(self.build) }
    }
}

pub open spec fn opt_cpu_view(o: Option<CpuInfo>) -> Option<CpuInfoView> {
    match o {
        Some(c) => Some(c@),
        None => None,
    }
}

pub open spec fn opt_board_view(o: Option<MotherboardInfo>) -> Option<MotherboardInfoView> {
    match o {
        Some(c) => Some(c@),
        None => None,
    }
}

pub open spec fn opt_os_view(o: Option<OsInfo>) -> Option<OsInfoView> {
    match o {
        Some(c) => Some(c@),
        None => None,
    }
}

impl View for SystemSnapshot {
    type V = SystemSnapshotView;

    open spec fn view(&self) -> SystemSnapshotView {
        SystemSnapshotView {
            cpu: opt_cpu_view(self.cpu),
            motherboard: opt_board_view(self.motherboard),
            ram: self.ram@.map_values(|r: RamStick| r@),
            gpus: self.gpus@.map_values(|g: GpuInfo| g@),
            displays: self.displays@.map_values(|d: DisplayInfo| d@),
            storage: self.storage@.map_values(|d: StorageDevice| d@),
            peripherals: self.peripherals@.map_values(|p: PeripheralDevice| p@),
            os: opt_os_view(self.os),
        }
    }
}

} // verus!
