use textspec::models::{
    CpuInfo, DisplayInfo, GpuInfo, MotherboardInfo, OsInfo, PeripheralDevice, PeripheralKind,
    RamStick, StorageDevice, StorageType, SystemSnapshot,
};
use textspec::output::{format_cache, format_ram_size, format_snapshot, format_timings};

fn s(x: &str) -> String {
    x.to_string()
}

fn stick(slot: &str, part: Option<&str>, mfr: Option<&str>, mb: u64) -> RamStick {
    RamStick {
        slot: Some(s(slot)),
        manufacturer: mfr.map(s),
        part_number: part.map(s),
        capacity_mb: mb,
        speed_mhz: Some(6000),
        memory_type: Some(s("DDR5")),
        cas_latency: None,
        trcd: None,
        trp: None,
        tras: None,
    }
}

fn disk(model: &str, bytes: u64, kind: StorageType, iface: Option<&str>) -> StorageDevice {
    StorageDevice { model: s(model), capacity_bytes: bytes, device_type: kind, interface: iface.map(s) }
}

fn peripheral(name: &str) -> PeripheralDevice {
    PeripheralDevice { name: s(name), manufacturer: None, kind: PeripheralKind::Audio, device_id_root: s("") }
}

fn empty_snapshot() -> SystemSnapshot {
    SystemSnapshot {
        cpu: None,
        motherboard: None,
        ram: vec![],
        gpus: vec![],
        displays: vec![],
        storage: vec![],
        peripherals: vec![],
        os: None,
    }
}

#[test]
fn readme_example_report() {
    let snap = SystemSnapshot {
        os: Some(OsInfo { name: s("Windows 11 Pro"), version: s("11"), build: Some(s("26200")) }),
        cpu: Some(CpuInfo {
            brand: s("AMD Ryzen 7 9800X3D 8-Core Processor"),
            cores: 8,
            threads: 16,
            base_clock_mhz: 4700,
            boost_clock_khz: None,
            cache_l2_kb: Some(8192),
            cache_l3_kb: Some(98304),
        }),
        motherboard: Some(MotherboardInfo {
            manufacturer: s("ASRock"),
            model: s("X870E Nova WiFi"),
            bios_vendor: Some(s("American Megatrends International, LLC.")),
            bios_version: Some(s("3.30")),
            bios_date: Some(s("2025-06-16")),
        }),
        ram: vec![
            stick("P0 CHANNEL A / DIMM 1", Some("UD5-6000"), None, 16384),
            stick("P0 CHANNEL B / DIMM 1", Some("UD5-6000"), None, 16384),
        ],
        gpus: vec![
            GpuInfo {
                name: s("AMD Radeon(TM) Graphics"),
                vram_mb: None,
                vram_usable_mb: None,
                driver_version: None,
                is_integrated: true,
                shared_memory_mb: None,
            },
            GpuInfo {
                name: s("AMD Radeon RX 9060 XT"),
                vram_mb: Some(16384),
                vram_usable_mb: Some(15360),
                driver_version: Some(s("32.0.23027.2005")),
                is_integrated: false,
                shared_memory_mb: None,
            },
        ],
        displays: vec![
            DisplayInfo {
                name: Some(s("G274QPF E2")),
                resolution_w: 2048,
                resolution_h: 1152,
                refresh_rate_hz: Some(180),
                is_primary: true,
            },
            DisplayInfo {
                name: Some(s("LG FHD")),
                resolution_w: 1920,
                resolution_h: 1080,
                refresh_rate_hz: Some(60),
                is_primary: false,
            },
        ],
        storage: vec![
            disk("Samsung SSD 860 EVO 500GB", 500_107_862_016, StorageType::SataSsd, Some("SATA")),
            disk("TOSHIBA HDWG740UZSVC", 4_000_787_030_016, StorageType::Hdd, Some("SATA")),
            disk("SHPP41-2000GM", 2_000_398_934_016, StorageType::NvmeSsd, Some("NVMe")),
            disk("SK hynix BC501 HFM256GDJTNG-8310A", 256_060_514_304, StorageType::NvmeSsd, Some("NVMe")),
            disk("INTEL SSDPEKNW010T8", 1_024_209_543_168, StorageType::NvmeSsd, None),
        ],
        peripherals: vec![
            peripheral("Beats Studio Buds"),
            peripheral("Fosi Audio K5 Pro"),
            peripheral("Realtek USB Audio"),
            peripheral("Yeti Stereo Microphone"),
        ],
    };
    let expected = "=== SYSTEM SPECS ===

[ OS ]
  Windows 11 Pro (Build 26200)

[ CPU ]
  AMD Ryzen 7 9800X3D 8-Core Processor
  Cores / Threads: 8 / 16
  Base Clock:  4.70 GHz
  L2 Cache:    8 MB
  L3 Cache:    96 MB

[ MOTHERBOARD ]
  ASRock X870E Nova WiFi
  BIOS: American Megatrends International, LLC. 3.30 (2025-06-16)

[ RAM ]
  Total: 32 GB
  Slot P0 CHANNEL A / DIMM 1: 16 GB DDR5 UD5-6000 @ 6000MHz
  Slot P0 CHANNEL B / DIMM 1: 16 GB DDR5 UD5-6000 @ 6000MHz

[ GPU ]
  AMD Radeon RX 9060 XT
  VRAM: 16 GB (15 GB usable)
  Driver: 32.0.23027.2005

[ INTEGRATED GRAPHICS ]
  AMD Radeon(TM) Graphics

[ DISPLAYS ]
  Display 1: G274QPF E2 (Primary)
    2048x1152 @ 180Hz
  Display 2: LG FHD
    1920x1080 @ 60Hz

[ STORAGE ]
  SATA SSD | Samsung SSD 860 EVO 500GB | 466 GB
  HDD | TOSHIBA HDWG740UZSVC | 3726 GB
  NVMe SSD | SHPP41-2000GM | 1863 GB
  NVMe SSD | SK hynix BC501 HFM256GDJTNG-8310A | 238 GB
  NVMe SSD | INTEL SSDPEKNW010T8 | 954 GB

[ PERIPHERALS ]
  Beats Studio Buds
  Fosi Audio K5 Pro
  Realtek USB Audio
  Yeti Stereo Microphone

===================
";
    assert_eq!(format_snapshot(&snap), expected);
}

#[test]
fn empty_snapshot_has_only_title_and_rule() {
    assert_eq!(format_snapshot(&empty_snapshot()), "=== SYSTEM SPECS ===\n\n===================\n");
}

#[test]
fn cpu_section_with_boost_and_rounding() {
    let mut snap = empty_snapshot();
    snap.cpu = Some(CpuInfo {
        brand: s("Intel(R) Core(TM) i5"),
        cores: 6,
        threads: 12,
        base_clock_mhz: 2905,
        boost_clock_khz: Some(4_605_000),
        cache_l2_kb: Some(512),
        cache_l3_kb: None,
    });
    snap.os = Some(OsInfo { name: s("Ubuntu 24.04"), version: s("24.04"), build: None });
    assert_eq!(
        format_snapshot(&snap),
        "=== SYSTEM SPECS ===\n\n[ OS ]\n  Ubuntu 24.04\n\n[ CPU ]\n  Intel(R) Core(TM) i5\n  Cores / Threads: 6 / 12\n  Base Clock:  2.90 GHz\n  Boost Clock: 4.61 GHz\n  L2 Cache:    512 KB\n\n===================\n"
    );
}

#[test]
fn board_without_bios_and_with_partial_bios() {
    let mut snap = empty_snapshot();
    snap.motherboard = Some(MotherboardInfo {
        manufacturer: s("Apple"),
        model: s("Mac14,2"),
        bios_vendor: None,
        bios_version: None,
        bios_date: None,
    });
    assert_eq!(
        format_snapshot(&snap),
        "=== SYSTEM SPECS ===\n\n[ MOTHERBOARD ]\n  Apple Mac14,2\n\n===================\n"
    );
    snap.motherboard = Some(MotherboardInfo {
        manufacturer: s("ASUSTeK"),
        model: s("PRIME"),
        bios_vendor: None,
        bios_version: None,
        bios_date: Some(s("01/02/2024")),
    });
    assert_eq!(
        format_snapshot(&snap),
        "=== SYSTEM SPECS ===\n\n[ MOTHERBOARD ]\n  ASUSTeK PRIME\n  BIOS:  ? (01/02/2024)\n\n===================\n"
    );
}

#[test]
fn ram_lines_with_identifiers_and_timings() {
    let mut snap = empty_snapshot();
    let mut a = stick("DIMM 1", Some("CMK32GX5"), Some("Corsair"), 512);
    a.speed_mhz = None;
    a.memory_type = None;
    a.cas_latency = Some(36);
    a.trcd = Some(38);
    a.trp = Some(38);
    a.tras = Some(80);
    let mut b = stick("DIMM 2", None, Some("Kingston"), 8192);
    b.cas_latency = Some(40);
    b.trcd = Some(40);
    let mut c = stick("", Some(""), Some(""), 2048);
    c.slot = None;
    snap.ram = vec![a, b, c];
    assert_eq!(
        format_snapshot(&snap),
        "=== SYSTEM SPECS ===\n\n[ RAM ]\n  Total: 10 GB\n  Slot DIMM 1: 512 MB DDR Corsair CMK32GX5 CL36-38-38-80\n  Slot DIMM 2: 8 GB DDR5 Kingston @ 6000MHz CL40\n  Slot ?: 2 GB DDR5 @ 6000MHz\n\n===================\n"
    );
}

#[test]
fn gpus_discrete_before_integrated() {
    let mut snap = empty_snapshot();
    snap.gpus = vec![
        GpuInfo {
            name: s("Intel(R) UHD Graphics 770"),
            vram_mb: None,
            vram_usable_mb: None,
            driver_version: None,
            is_integrated: true,
            shared_memory_mb: Some(2048),
        },
        GpuInfo {
            name: s("NVIDIA GeForce RTX 4070"),
            vram_mb: Some(12282),
            vram_usable_mb: None,
            driver_version: None,
            is_integrated: false,
            shared_memory_mb: None,
        },
    ];
    assert_eq!(
        format_snapshot(&snap),
        "=== SYSTEM SPECS ===\n\n[ GPU ]\n  NVIDIA GeForce RTX 4070\n  VRAM: 11 GB\n\n[ INTEGRATED GRAPHICS ]\n  Intel(R) UHD Graphics 770\n  Shared Memory: 2 GB\n\n===================\n"
    );
}

#[test]
fn displays_without_name_or_refresh() {
    let mut snap = empty_snapshot();
    snap.displays = vec![DisplayInfo {
        name: None,
        resolution_w: 0,
        resolution_h: 0,
        refresh_rate_hz: None,
        is_primary: false,
    }];
    assert_eq!(
        format_snapshot(&snap),
        "=== SYSTEM SPECS ===\n\n[ DISPLAYS ]\n  Display 1: Unknown Monitor\n    0x0\n\n===================\n"
    );
}

#[test]
fn storage_labels_and_rounding() {
    let mut snap = empty_snapshot();
    let gib: u64 = 1 << 30;
    snap.storage = vec![
        disk("USB stick", 2 * gib + gib / 2, StorageType::Unknown, Some("USB")),
        disk("A", 3 * gib + gib / 2, StorageType::Hdd, Some("SCSI")),
        disk("B", gib / 2 - 1, StorageType::SataSsd, Some("IDE")),
        disk("C", gib / 2 + 1, StorageType::SataSsd, Some("ATA")),
    ];
    assert_eq!(
        format_snapshot(&snap),
        "=== SYSTEM SPECS ===\n\n[ STORAGE ]\n  Storage | USB stick | 2 GB [USB]\n  HDD | A | 4 GB\n  SATA SSD | B | 0 GB\n  SATA SSD | C | 1 GB [ATA]\n\n===================\n"
    );
}

#[test]
fn storage_sizes_beyond_53_bits() {
    let mut snap = empty_snapshot();
    snap.storage = vec![
        disk("Just below a tie", 9_223_372_038_465_388_543, StorageType::Hdd, None),
        disk("Largest", u64::MAX, StorageType::Hdd, None),
        disk("Past 2^53", 9_007_199_254_740_993, StorageType::Hdd, None),
    ];
    assert_eq!(
        format_snapshot(&snap),
        "=== SYSTEM SPECS ===\n\n[ STORAGE ]\n  HDD | Just below a tie | 8589934594 GB\n  HDD | Largest | 17179869184 GB\n  HDD | Past 2^53 | 8388608 GB\n\n===================\n"
    );
}

#[test]
fn cache_and_ram_size_units() {
    assert_eq!(format_cache(1023), "1023 KB");
    assert_eq!(format_cache(1024), "1 MB");
    assert_eq!(format_cache(32768), "32 MB");
    assert_eq!(format_ram_size(0), "0 MB");
    assert_eq!(format_ram_size(1536), "1 GB");
    assert_eq!(format_ram_size(u64::MAX), "18014398509481983 GB");
}

#[test]
fn timings_variants() {
    let mut a = stick("X", None, None, 1);
    assert_eq!(format_timings(&a), "");
    a.cas_latency = Some(16);
    assert_eq!(format_timings(&a), " CL16");
    a.trcd = Some(18);
    a.trp = Some(18);
    assert_eq!(format_timings(&a), " CL16");
    a.tras = Some(36);
    assert_eq!(format_timings(&a), " CL16-18-18-36");
    a.cas_latency = None;
    assert_eq!(format_timings(&a), "");
}

fn clock_lines(mhz: u64, khz: u64) -> (String, String) {
    let mut snap = empty_snapshot();
    snap.cpu = Some(CpuInfo {
        brand: s("CPU"),
        cores: 1,
        threads: 1,
        base_clock_mhz: mhz,
        boost_clock_khz: Some(khz),
        cache_l2_kb: None,
        cache_l3_kb: None,
    });
    let text = format_snapshot(&snap);
    let base = text.lines().find(|l| l.starts_with("  Base Clock:")).unwrap().to_string();
    let boost = text.lines().find(|l| l.starts_with("  Boost Clock:")).unwrap().to_string();
    (base, boost)
}

#[test]
fn clock_rounding_follows_binary64() {
    // 3.695 is held just below itself, 4.705 just above; 0.125 and 0.375 are exact
    // ties, which go to the even digit.
    assert_eq!(clock_lines(3695, 3_695_000), (s("  Base Clock:  3.69 GHz"), s("  Boost Clock: 3.69 GHz")));
    assert_eq!(clock_lines(4705, 4_705_000), (s("  Base Clock:  4.71 GHz"), s("  Boost Clock: 4.71 GHz")));
    assert_eq!(clock_lines(125, 125_000), (s("  Base Clock:  0.12 GHz"), s("  Boost Clock: 0.12 GHz")));
    assert_eq!(clock_lines(375, 5_000), (s("  Base Clock:  0.38 GHz"), s("  Boost Clock: 0.01 GHz")));
    assert_eq!(clock_lines(0, 1), (s("  Base Clock:  0.00 GHz"), s("  Boost Clock: 0.00 GHz")));
    assert_eq!(clock_lines(2905, 2_904_999), (s("  Base Clock:  2.90 GHz"), s("  Boost Clock: 2.90 GHz")));
    assert_eq!(clock_lines(4700, 4_294_967_295), (s("  Base Clock:  4.70 GHz"), s("  Boost Clock: 4294.97 GHz")));
}

#[test]
fn clock_rounding_of_rates_beyond_53_bits() {
    assert_eq!(
        clock_lines(9_007_199_254_740_993, u64::MAX),
        (s("  Base Clock:  9007199254740.99 GHz"), s("  Boost Clock: 18446744073709.55 GHz"))
    );
    assert_eq!(clock_lines(u64::MAX, 0).0, s("  Base Clock:  18446744073709552.00 GHz"));
}

#[test]
fn titles_stand_only_at_their_sections() {
    let mut snap = empty_snapshot();
    snap.storage = vec![disk("A", 1 << 30, StorageType::Hdd, Some("USB"))];
    let text = format_snapshot(&snap);
    assert_eq!(text.matches("[ STORAGE ]").count(), 1);
    assert!(!text.contains("[ OS ]"));
    // An interface that begins with a space can read as a title of its own.
    snap.storage = vec![disk("A", 1 << 30, StorageType::Hdd, Some(" OS "))];
    assert!(format_snapshot(&snap).contains("[ OS ]"));
}
