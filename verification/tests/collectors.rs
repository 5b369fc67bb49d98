use textspec::collectors::cpu::{
    cpu_from_readings, parse_cache_size, parse_count, parse_cpuinfo_cores, parse_max_freq_khz,
    parse_sysctl_cache, CpuFacts,
};
use textspec::collectors::display::{
    collect as collect_displays, parse_sp_displays, parse_windows_displays, parse_xrandr,
    DisplaySource,
};
use textspec::collectors::gpu::{
    collect as collect_gpus, dxgi_vram, gpus_from_records, is_integrated_gpu, is_integrated_lower,
    parse_lspci,
    parse_lspci_name, parse_system_profiler_displays, AdapterReading, GpuSource,
    VideoControllerRecord,
};
use textspec::collectors::motherboard::{
    collect as collect_board, extract_dmi_field, extract_sp_field, BoardSource,
};
use textspec::collectors::os::{build_from_output, build_from_reg_query, collect as collect_os};
use textspec::collectors::peripherals::{
    classify_peripheral, classify_peripheral_lower, collect as collect_peripherals,
    device_from_record, is_noise, is_noise_lower,
    parse_lsusb, strip_audio_suffix, PeripheralSource, PnpRecord,
};
use textspec::collectors::ram::{
    collect as collect_ram, maker_of_upper_id, parse_dmidecode_memory, parse_size_to_mb,
    size_in_unit,
    parse_system_profiler_memory, resolve_manufacturer_id, smbios_memory_type,
    stick_from_record, MemoryRecord, MemorySource,
};
use textspec::collectors::storage::{
    bus_type_label, clean_model_name, devices_from_readings, disks_from_records, enrich_lsblk,
    enrich_platform, enrich_system_profiler, PhysicalDiskRecord, StorageEnrichment,
};
use textspec::models::{PeripheralKind, StorageDevice, StorageType, SystemSnapshot};
use textspec::output::format_snapshot;
use textspec::session::{launched_from_explorer, names_explorer, parent_process_id, parent_to_query};

fn s(x: &str) -> String {
    x.to_string()
}

fn chars(x: &str) -> Vec<char> {
    x.chars().collect()
}

const DMIDECODE: &str = "# dmidecode 3.3\nHandle 0x0040, DMI type 17, 92 bytes\nMemory Device\n\tArray Handle: 0x003F\n\tSize: 16 GB\n\tLocator: DIMM_A1\n\tBank Locator: BANK 0\n\tType: DDR4\n\tSpeed: 3200 MT/s\n\tManufacturer: Samsung\n\tPart Number: M378A2K43CB1-CTD    \n\tConfigured Memory Speed: 3200 MT/s\n\nHandle 0x0041, DMI type 17, 92 bytes\nMemory Device\n\tSize: No Module Installed\n\tLocator: DIMM_A2\n\tManufacturer: Not Specified\n\tPart Number: Not Specified\nMemory Device\n\tSize: 8192 MB\n\tType: DDR4\n\tType Detail: Synchronous\n\tManufacturer: Not Specified\n\tSpeed: Unknown\n";

#[test]
fn dmidecode_listing() {
    let sticks = parse_dmidecode_memory(DMIDECODE);
    assert_eq!(sticks.len(), 2);
    let a = &sticks[0];
    assert_eq!(a.slot.as_deref(), Some("DIMM_A1"));
    assert_eq!(a.capacity_mb, 16384);
    assert_eq!(a.memory_type.as_deref(), Some("DDR4"));
    assert_eq!(a.speed_mhz, Some(3200));
    assert_eq!(a.manufacturer.as_deref(), Some("Samsung"));
    assert_eq!(a.part_number.as_deref(), Some("M378A2K43CB1-CTD"));
    let b = &sticks[1];
    assert_eq!(b.slot, None);
    assert_eq!(b.capacity_mb, 8192);
    assert_eq!(b.memory_type.as_deref(), Some("DDR4"));
    assert_eq!(b.manufacturer, None);
    assert_eq!(b.speed_mhz, None);
}

#[test]
fn system_profiler_memory_listing() {
    let text = "Memory:\n\n    Memory Slots:\n\n      ECC: Disabled\n\n        DIMM0/J1:\n\n          Size: 8 GB\n          Type: DDR4\n          Speed: 2667 MHz\n          Manufacturer: 0x80CE\n          Part Number: 0x4D34\n\n        DIMM1/J2:\n\n          Size: Empty\n";
    let sticks = parse_system_profiler_memory(text);
    assert_eq!(sticks.len(), 1);
    assert_eq!(sticks[0].slot.as_deref(), Some("DIMM0/J1"));
    assert_eq!(sticks[0].capacity_mb, 8192);
    assert_eq!(sticks[0].speed_mhz, Some(2667));
    assert_eq!(sticks[0].memory_type.as_deref(), Some("DDR4"));
    assert_eq!(sticks[0].manufacturer.as_deref(), Some("0x80CE"));
    assert_eq!(sticks[0].part_number.as_deref(), Some("0x4D34"));
}

#[test]
fn size_units() {
    assert_eq!(parse_size_to_mb(&chars("16 GB")), Some(16384));
    assert_eq!(parse_size_to_mb(&chars("512 mb")), Some(512));
    assert_eq!(parse_size_to_mb(&chars("1 TB")), None);
    assert_eq!(parse_size_to_mb(&chars("16")), None);
    assert_eq!(parse_size_to_mb(&chars("x GB")), None);
    assert_eq!(parse_size_to_mb(&chars("18014398509481984 GB")), Some(0));
}

fn record(bank: Option<&str>, dev: Option<&str>, mfr: Option<&str>, part: Option<&str>, cap: Option<u64>) -> MemoryRecord {
    MemoryRecord {
        device_locator: dev.map(s),
        bank_label: bank.map(s),
        manufacturer: mfr.map(s),
        part_number: part.map(s),
        capacity: cap,
        speed: Some(3200),
        smbios_memory_type: Some(34),
        configured_clock_speed: None,
    }
}

#[test]
fn windows_memory_inventory() {
    let rows = vec![
        record(Some("BANK 0 "), Some("DIMM 1"), Some("80ad"), Some(" Unknown "), Some(17_179_869_184)),
        record(Some("DIMM1"), Some("DIMM1"), Some("  Kingston "), Some("KF432"), Some(8_589_934_592)),
        record(None, None, Some("Unknown"), Some(""), None),
    ];
    let sticks = collect_ram(&MemorySource::Inventory(rows));
    assert_eq!(sticks.len(), 2);
    assert_eq!(sticks[0].slot.as_deref(), Some("BANK 0 / DIMM 1"));
    assert_eq!(sticks[0].manufacturer.as_deref(), Some("SK Hynix"));
    assert_eq!(sticks[0].part_number, None);
    assert_eq!(sticks[0].capacity_mb, 16384);
    assert_eq!(sticks[0].speed_mhz, Some(3200));
    assert_eq!(sticks[0].memory_type.as_deref(), Some("DDR5"));
    assert_eq!(sticks[1].slot.as_deref(), Some("DIMM1"));
    assert_eq!(sticks[1].manufacturer.as_deref(), Some("KINGSTON"));
    assert_eq!(sticks[1].part_number.as_deref(), Some("KF432"));
    let mut r = record(Some("A"), None, None, None, Some(1_048_576));
    r.configured_clock_speed = Some(2933);
    r.smbios_memory_type = None;
    let st = stick_from_record(&r);
    assert_eq!(st.slot.as_deref(), Some("A"));
    assert_eq!(st.capacity_mb, 1);
    assert_eq!(st.speed_mhz, Some(2933));
    assert_eq!(st.memory_type, None);
}

#[test]
fn memory_type_and_maker_codes() {
    assert_eq!(smbios_memory_type(24).as_deref(), Some("DDR3"));
    assert_eq!(smbios_memory_type(26).as_deref(), Some("DDR4"));
    assert_eq!(smbios_memory_type(35).as_deref(), Some("DDR5"));
    assert_eq!(smbios_memory_type(0), None);
    assert_eq!(resolve_manufacturer_id("80ce"), "Samsung");
    assert_eq!(resolve_manufacturer_id("2C80"), "Micron");
    assert_eq!(resolve_manufacturer_id("cd04"), "G.Skill");
    assert_eq!(resolve_manufacturer_id("0420"), "Corsair");
    assert_eq!(resolve_manufacturer_id("851B"), "ADATA");
    assert_eq!(resolve_manufacturer_id("9801"), "Kingston");
    assert_eq!(resolve_manufacturer_id("Crucial"), "CRUCIAL");
}

#[test]
fn memory_sources_without_output() {
    assert!(collect_ram(&MemorySource::Dmidecode(None)).is_empty());
    assert_eq!(collect_ram(&MemorySource::Dmidecode(Some(s(DMIDECODE)))).len(), 2);
    assert!(collect_ram(&MemorySource::SystemProfiler(None)).is_empty());
}

fn pnp(name: Option<&str>, mfr: Option<&str>, class: &str, id: &str) -> PnpRecord {
    PnpRecord { name: name.map(s), manufacturer: mfr.map(s), pnp_class: Some(s(class)), device_id: Some(s(id)) }
}

#[test]
fn windows_peripherals_deduplicated_and_grouped() {
    let rows = vec![
        pnp(Some("Beats Studio Buds Hands-Free AG Audio"), None, "Media", "BTHHFENUM\\BthHFPAudio\\8&1234&0&97"),
        pnp(Some("Beats Studio Buds Stereo"), None, "MEDIA", "BTHENUM\\{0000110b-0000}\\7&abc&0&DEF_C00000000"),
        pnp(Some("HID Keyboard Device"), None, "Keyboard", "HID\\VID_046D&PID_C31C\\1"),
        pnp(Some("Logitech USB Keyboard"), Some("Logitech"), "Keyboard", "HID\\VID_046D&PID_C31C&MI_00\\7&2"),
        pnp(Some("AMD High Definition Audio Device"), Some("Advanced Micro Devices"), "MEDIA", "HDAUDIO\\FUNC_01\\5"),
        pnp(Some("Realtek USB Audio"), Some("Realtek"), "MEDIA", "USB\\VID_0BDA&PID_4014&MI_00\\6&1"),
        pnp(Some("Microsoft Streaming Service Proxy"), None, "MEDIA", "SW\\{96E080C7}\\1"),
        pnp(None, None, "MEDIA", "X\\1"),
        pnp(Some("Some Mouse"), None, "Ports", "ACPI\\PNP0501\\1"),
        pnp(Some("Gaming Mouse"), None, "Mouse", "HID\\VID_1532&PID_0084\\7&3"),
        pnp(Some("PCI Sound"), None, "Media", "PCI\\VEN_10DE&DEV_228B\\4&1"),
    ];
    let found = collect_peripherals(&PeripheralSource::Windows(rows));
    let names: Vec<&str> = found.iter().map(|p| p.name.as_str()).collect();
    assert_eq!(names, vec!["Beats Studio Buds Stereo", "Realtek USB Audio", "Logitech USB Keyboard", "Gaming Mouse"]);
    assert_eq!(found[0].kind, PeripheralKind::Audio);
    assert_eq!(found[0].device_id_root, "bthenum\\{0000110b-0000}");
    assert_eq!(found[2].kind, PeripheralKind::Keyboard);
    assert_eq!(found[2].manufacturer.as_deref(), Some("Logitech"));
    assert_eq!(found[3].kind, PeripheralKind::Mouse);
}

#[test]
fn peripherals_sharing_a_root_are_one_device() {
    let rows = vec![
        pnp(Some("Yeti Stereo Microphone"), None, "MEDIA", "USB\\VID_B58E&PID_9E84&MI_01\\7&a"),
        pnp(Some("Yeti Speakers"), None, "MEDIA", "USB\\VID_B58E&PID_9E84&MI_01\\7&b"),
        pnp(Some("Zed"), None, "MEDIA", ""),
        pnp(Some("Alpha"), None, "MEDIA", ""),
    ];
    let found = collect_peripherals(&PeripheralSource::Windows(rows));
    let names: Vec<&str> = found.iter().map(|p| p.name.as_str()).collect();
    assert_eq!(names, vec!["Alpha", "Zed", "Yeti Speakers"]);
}

#[test]
fn peripheral_classes_and_noise() {
    assert_eq!(classify_peripheral("USB DAC", "hidclass"), PeripheralKind::Audio);
    assert_eq!(classify_peripheral("Keychron K2", "keyboard"), PeripheralKind::Keyboard);
    assert_eq!(classify_peripheral("MX Master MOUSE", "hidclass"), PeripheralKind::Mouse);
    assert_eq!(classify_peripheral("Stream Deck", "hidclass"), PeripheralKind::Other);
    assert!(is_noise("NVIDIA High Definition Audio", &Some(s("NVIDIA")), "hdaudio\\x"));
    assert!(!is_noise("NVIDIA High Definition Audio", &None, "hdaudio\\x"));
    assert!(is_noise("Generic USB Hub", &None, "usb\\root"));
    assert!(is_noise("Microsoft GS Wavetable Synth", &None, "swd\\mmdevapi"));
    assert!(is_noise("Intel Audio", &None, "pci\\ven_8086"));
    assert!(!is_noise("Intel Audio", &None, "pci\\ven_8086&usbvid"));
    assert!(!is_noise("Fosi Audio K5 Pro", &Some(s("Fosi")), "usb\\vid_1"));
}

#[test]
fn audio_suffixes() {
    assert_eq!(strip_audio_suffix("Beats Hands-Free AG Audio"), "Beats");
    assert_eq!(strip_audio_suffix("Yeti Stereo Microphone"), "Yeti");
    assert_eq!(strip_audio_suffix("Realtek USB Audio"), "Realtek USB");
    assert_eq!(strip_audio_suffix(" Audio"), " Audio");
    assert_eq!(strip_audio_suffix("Keyboard"), "Keyboard");
}

#[test]
fn single_device_row() {
    let d = device_from_record(&pnp(Some("  Fosi Audio K5 Pro  "), Some("   "), "Media", "USB\\VID_1\\2")).unwrap();
    assert_eq!(d.name, "Fosi Audio K5 Pro");
    assert_eq!(d.manufacturer, None);
    assert_eq!(d.device_id_root, "usb\\vid_1");
    let d = device_from_record(&pnp(Some("Pad"), None, "HIDClass", "NOSLASH")).unwrap();
    assert_eq!(d.device_id_root, "noslash");
    assert!(device_from_record(&pnp(Some("Pad"), None, "Net", "X")).is_none());
}

#[test]
fn lsusb_listing() {
    let text = "Bus 001 Device 001: ID 1d6b:0002 Linux Foundation 2.0 root hub\nBus 001 Device 003: ID 046d:c52b Logitech, Inc. Unifying Receiver\nBus 002 Device 001\n";
    let found = collect_peripherals(&PeripheralSource::Lsusb(Some(s(text))));
    assert_eq!(found.len(), 1);
    assert_eq!(found[0].name, "c52b Logitech, Inc. Unifying Receiver");
    assert_eq!(found[0].kind, PeripheralKind::Other);
    assert!(parse_lsusb("").is_empty());
    assert!(collect_peripherals(&PeripheralSource::MacOs).is_empty());
}

#[test]
fn windows_gpus_with_dxgi_memory() {
    let adapters = dxgi_vram(&vec![
        AdapterReading { description: s("AMD Radeon RX 9060 XT"), dedicated_video_memory: 17_163_091_968 },
        AdapterReading { description: s("Microsoft Basic Render Driver"), dedicated_video_memory: 1_048_575 },
    ]);
    assert_eq!(adapters, vec![(s("AMD Radeon RX 9060 XT"), 16368)]);
    let rows = vec![
        VideoControllerRecord { name: Some(s(" AMD Radeon RX 9060 XT ")), driver_version: Some(s("32.0.23027.2005")) },
        VideoControllerRecord { name: Some(s("AMD Radeon(TM) Graphics")), driver_version: None },
        VideoControllerRecord { name: Some(s("   ")), driver_version: None },
        VideoControllerRecord { name: None, driver_version: None },
    ];
    let gpus = gpus_from_records(&rows, &adapters);
    assert_eq!(gpus.len(), 2);
    assert_eq!(gpus[0].name, "AMD Radeon RX 9060 XT");
    assert_eq!(gpus[0].vram_mb, Some(16384));
    assert_eq!(gpus[0].vram_usable_mb, Some(16368));
    assert_eq!(gpus[0].driver_version.as_deref(), Some("32.0.23027.2005"));
    assert!(!gpus[0].is_integrated);
    assert_eq!(gpus[1].vram_mb, None);
    assert_eq!(gpus[1].vram_usable_mb, None);
    assert!(gpus[1].is_integrated);
    let by_source = collect_gpus(&GpuSource::Windows(vec![], adapters));
    assert!(by_source.is_empty());
}

#[test]
fn windows_gpu_vram_line_shows_rated_and_usable() {
    let adapters = dxgi_vram(&vec![AdapterReading {
        description: s("AMD Radeon RX 9060 XT"),
        dedicated_video_memory: 16304 * 1_048_576,
    }]);
    let rows = vec![VideoControllerRecord { name: Some(s("AMD Radeon RX 9060 XT")), driver_version: None }];
    let mut snap = SystemSnapshot {
        cpu: None,
        motherboard: None,
        ram: vec![],
        gpus: gpus_from_records(&rows, &adapters),
        displays: vec![],
        storage: vec![],
        peripherals: vec![],
        os: None,
    };
    assert_eq!(snap.gpus[0].vram_mb, Some(16384));
    assert_eq!(
        format_snapshot(&snap),
        "=== SYSTEM SPECS ===\n\n[ GPU ]\n  AMD Radeon RX 9060 XT\n  VRAM: 16 GB (15 GB usable)\n\n===================\n"
    );
    snap.gpus = gpus_from_records(&rows, &vec![(s("AMD Radeon RX 9060 XT"), 8192)]);
    assert_eq!(snap.gpus[0].vram_mb, Some(8192));
    assert_eq!(snap.gpus[0].vram_usable_mb, Some(8192));
}

#[test]
fn integrated_gpu_names() {
    assert!(is_integrated_gpu("Intel(R) UHD Graphics 630"));
    assert!(is_integrated_gpu("Intel(R) Iris(R) Xe Graphics"));
    assert!(is_integrated_gpu("Intel(R) Arc(TM) A770 Graphics"));
    assert!(!is_integrated_gpu("Intel(R) Arc(TM) A770"));
    assert!(!is_integrated_gpu("AMD Radeon Pro W6800 Graphics"));
    assert!(!is_integrated_gpu("NVIDIA GeForce RTX 4090"));
    assert!(is_integrated_gpu("Microsoft Basic Display Adapter"));
    assert!(is_integrated_gpu("VMware SVGA 3D"));
}

#[test]
fn lspci_listing() {
    let text = "00:02.0 \"VGA compatible controller\" \"Intel Corporation\" \"Alder Lake-P GT2 [Iris Xe Graphics]\" -r0c -p00 \"Lenovo\" \"Device 3b17\"\n00:1f.3 \"Audio device\" \"Intel Corporation\" \"Alder Lake PCH-P\"\n01:00.0 \"3D controller\" \"NVIDIA Corporation\" \"GA107M [GeForce RTX 3050 Mobile]\"\n";
    let gpus = parse_lspci(text);
    assert_eq!(gpus.len(), 2);
    assert_eq!(gpus[0].name, "Intel Corporation \"Alder Lake-P GT2 [Iris Xe Graphics]\" -r0c -p00 \"Lenovo\" \"Device 3b17");
    assert!(gpus[0].is_integrated);
    assert_eq!(gpus[1].name, "NVIDIA Corporation \"GA107M [GeForce RTX 3050 Mobile]");
    assert!(!gpus[1].is_integrated);
    assert_eq!(parse_lspci_name("no quotes"), "no quotes");
    assert_eq!(collect_gpus(&GpuSource::Lspci(Some(s(text)))).len(), 2);
}

const SP_DISPLAYS: &str = "Graphics/Displays:\n\n    Apple M1:\n\n      Chipset Model: Apple M1\n      Type: GPU\n      Displays:\n        Color LCD:\n          Display Type: Built-In Retina LCD\n          Resolution: 2560 x 1600 Retina\n          Main Display: Yes\n        DELL U2720Q:\n          Resolution: 3840 x 2160 (2160p/4K UHD 1 - Ultra High Definition)\n          UI Looks like: 1920 x 1080 @ 60.00Hz\n          Refresh Rate: 60 Hz\n";

#[test]
fn system_profiler_gpus() {
    let gpus = parse_system_profiler_displays(SP_DISPLAYS);
    assert_eq!(gpus.len(), 1);
    assert_eq!(gpus[0].name, "Apple M1");
    assert_eq!(gpus[0].vram_mb, None);
    let gpus = parse_system_profiler_displays("      Chipset Model: Radeon Pro 560X\n      VRAM (Total): 4 GB\n");
    assert_eq!(gpus[0].vram_mb, Some(4096));
    assert!(collect_gpus(&GpuSource::SystemProfiler(None)).is_empty());
}

#[test]
fn system_profiler_displays() {
    let ds = parse_sp_displays(SP_DISPLAYS);
    assert_eq!(ds.len(), 2);
    assert_eq!(ds[0].name.as_deref(), Some("Color LCD"));
    assert!(ds[0].is_primary);
    assert_eq!((ds[0].resolution_w, ds[0].resolution_h), (2560, 1600));
    assert_eq!(ds[0].refresh_text, None);
    assert_eq!(ds[1].name.as_deref(), Some("DELL U2720Q"));
    assert!(!ds[1].is_primary);
    assert_eq!((ds[1].resolution_w, ds[1].resolution_h), (3840, 2160));
    assert_eq!(ds[1].refresh_text.as_deref(), Some("60"));
}

#[test]
fn xrandr_listing() {
    let text = "Screen 0: minimum 320 x 200, current 4480 x 1440, maximum 16384 x 16384\nDP-1 connected primary 2560x1440+0+0 (normal left inverted right x axis y axis) 597mm x 336mm\n   2560x1440     59.95*+  143.97  \n   1920x1080     60.00    50.00  \nHDMI-1 connected 1920x1080+2560+0 (normal left inverted right x axis y axis) 527mm x 296mm\n   1920x1080     60.00*+  50.00    59.94  \nDP-2 disconnected (normal left inverted right x axis y axis)\n";
    let ds = parse_xrandr(text);
    assert_eq!(ds.len(), 2);
    assert_eq!(ds[0].name.as_deref(), Some("DP-1"));
    assert!(ds[0].is_primary);
    assert_eq!((ds[0].resolution_w, ds[0].resolution_h), (2560, 1440));
    assert_eq!(ds[0].refresh_text.as_deref(), Some("59.95"));
    assert_eq!(ds[1].name.as_deref(), Some("HDMI-1"));
    assert!(!ds[1].is_primary);
    assert_eq!(ds[1].refresh_text.as_deref(), Some("60.00"));
    assert_eq!(collect_displays(&DisplaySource::Xrandr(Some(s(text)))).len(), 2);
}

#[test]
fn xrandr_primary_mark_on_a_later_output_is_not_taken() {
    let text = "HDMI-1 connected 1920x1080+0+0 (normal) 527mm x 296mm\n   1920x1080     60.00*+\nDP-1 connected primary 2560x1440+1920+0 (normal) 597mm x 336mm\n   2560x1440     144.00*\n";
    let ds = parse_xrandr(text);
    assert_eq!(ds.len(), 2);
    assert!(!ds[0].is_primary);
    assert!(!ds[1].is_primary);
    assert_eq!(ds[1].refresh_text.as_deref(), Some("144.00"));
}

#[test]
fn windows_display_lines() {
    let text = "1|G274QPF E2|2048|1152|180\r\n0|\\\\.\\DISPLAY2|1920|1080|60\r\nbad line\r\n0| |x|1080|0\r\n";
    let ds = parse_windows_displays(text);
    assert_eq!(ds.len(), 3);
    assert!(ds[0].is_primary);
    assert_eq!(ds[0].name.as_deref(), Some("G274QPF E2"));
    assert_eq!((ds[0].resolution_w, ds[0].resolution_h), (2048, 1152));
    assert_eq!(ds[0].refresh_text.as_deref(), Some("180"));
    assert_eq!(ds[1].name.as_deref(), Some("\\\\.\\DISPLAY2"));
    assert_eq!(ds[2].name, None);
    assert_eq!(ds[2].resolution_w, 0);
    assert!(collect_displays(&DisplaySource::Windows(None)).is_empty());
}

#[test]
fn processor_from_readings() {
    let facts = CpuFacts { physical_cores: None, boost_clock_khz: Some(5_000_000), cache_l2_kb: None, cache_l3_kb: Some(32768) };
    let cpu = cpu_from_readings(&vec![(s("  AMD Ryzen 7  "), 4700), (s(""), 4700), (s(""), 4700)], &facts).unwrap();
    assert_eq!(cpu.brand, "AMD Ryzen 7");
    assert_eq!(cpu.threads, 3);
    assert_eq!(cpu.cores, 1);
    assert_eq!(cpu.base_clock_mhz, 4700);
    assert_eq!(cpu.boost_clock_khz, Some(5_000_000));
    assert_eq!(cpu.cache_l3_kb, Some(32768));
    let facts = CpuFacts { physical_cores: Some(8), boost_clock_khz: None, cache_l2_kb: None, cache_l3_kb: None };
    let cpu = cpu_from_readings(&vec![(s("X"), u64::MAX)], &facts).unwrap();
    assert_eq!(cpu.cores, 8);
    assert_eq!(cpu.base_clock_mhz, u64::MAX);
    assert!(cpu_from_readings(&vec![], &facts).is_none());
    assert!(cpu_from_readings(&vec![(s("   "), 1)], &facts).is_none());
}

#[test]
fn empty_sysinfo_snapshot_has_no_processor() {
    let sys = sysinfo::System::new();
    let facts = CpuFacts { physical_cores: None, boost_clock_khz: None, cache_l2_kb: None, cache_l3_kb: None };
    assert!(textspec::collectors::cpu::collect(&sys, &facts).is_none());
}

#[test]
fn processor_platform_texts() {
    assert_eq!(parse_cpuinfo_cores("processor\t: 0\nvendor_id\t: GenuineIntel\ncpu cores\t: 6\ncpu cores\t: 8\n"), Some(6));
    assert_eq!(parse_cpuinfo_cores("cpu cores\t: many\ncpu cores\t: 8\n"), None);
    assert_eq!(parse_cpuinfo_cores("processor\t: 0\n"), None);
    assert_eq!(parse_count(" 10\n"), Some(10));
    assert_eq!(parse_max_freq_khz("4700000\n"), Some(4_700_000));
    assert_eq!(parse_cache_size("32K\n"), Some(32));
    assert_eq!(parse_cache_size("1M"), Some(1024));
    assert_eq!(parse_cache_size("512"), Some(512));
    assert_eq!(parse_cache_size("K"), None);
    assert_eq!(parse_sysctl_cache("4194304\n"), Some(4096));
    assert_eq!(parse_sysctl_cache("-1"), None);
}

#[test]
fn motherboard_descriptions() {
    let board = "Base Board Information\n\tManufacturer: ASUSTeK COMPUTER INC.\n\tProduct Name: PRIME B550M-A\n\tVersion: Rev X.0x\n";
    let bios = "BIOS Information\n\tVendor: American Megatrends Inc.\n\tVersion: Not Specified\n\tVersion: 2803\n\tRelease Date: 04/27/2022\n";
    let mb = collect_board(&BoardSource::Dmidecode(Some(s(board)), Some(s(bios)))).unwrap();
    assert_eq!(mb.manufacturer, "ASUSTeK COMPUTER INC.");
    assert_eq!(mb.model, "PRIME B550M-A");
    assert_eq!(mb.bios_vendor.as_deref(), Some("American Megatrends Inc."));
    assert_eq!(mb.bios_version.as_deref(), Some("2803"));
    assert_eq!(mb.bios_date.as_deref(), Some("04/27/2022"));
    let mb = collect_board(&BoardSource::Dmidecode(Some(s(board)), None)).unwrap();
    assert_eq!(mb.bios_version, None);
    assert!(collect_board(&BoardSource::Dmidecode(Some(s("Manufacturer: X\n")), None)).is_none());
    assert!(collect_board(&BoardSource::Dmidecode(None, Some(s(bios)))).is_none());
    assert!(collect_board(&BoardSource::Windows).is_none());
    let hw = "Hardware:\n\n    Hardware Overview:\n\n      Model Name: MacBook Air\n      Model Identifier: MacBookAir10,1\n";
    let mb = collect_board(&BoardSource::SystemProfiler(Some(s(hw)))).unwrap();
    assert_eq!(mb.manufacturer, "Apple");
    assert_eq!(mb.model, "MacBookAir10,1");
    assert_eq!(extract_sp_field("Model Identifier\nModel Identifier: X\n", "Model Identifier"), None);
    assert_eq!(extract_dmi_field("\tSerial Number:   \n\tSerial Number: ABC\n", "Serial Number").as_deref(), Some("ABC"));
}

#[test]
fn operating_system() {
    let os = collect_os(Some(s("Windows 11 Pro")), None, Some(s("26200"))).unwrap();
    assert_eq!(os.name, "Windows 11 Pro");
    assert_eq!(os.version, "");
    assert_eq!(os.build.as_deref(), Some("26200"));
    assert!(collect_os(None, Some(s("11")), None).is_none());
    let reg = "\r\nHKEY_LOCAL_MACHINE\\SOFTWARE\\Microsoft\\Windows NT\\CurrentVersion\r\n    CurrentBuild    REG_SZ    26200\r\n\r\n";
    assert_eq!(build_from_reg_query(reg).as_deref(), Some("26200"));
    assert_eq!(build_from_reg_query("nothing\n"), None);
    assert_eq!(build_from_output("6.8.0-45-generic\n"), "6.8.0-45-generic");
}

fn device(model: &str) -> StorageDevice {
    StorageDevice { model: s(model), capacity_bytes: 1, device_type: StorageType::Unknown, interface: None }
}

#[test]
fn disk_names_and_partitions() {
    assert_eq!(clean_model_name("/dev/sda1"), "sda1");
    assert_eq!(clean_model_name("\\\\.\\PhysicalDrive0"), "PhysicalDrive0");
    assert_eq!(clean_model_name("/dev//dev/x"), "x");
    let ds = devices_from_readings(&vec![(s("/dev/sda1"), 10), (s("/dev/sda1"), 20), (s("/dev/sda2"), 30), (s("/dev/sda1"), 40)]);
    let models: Vec<(&str, u64)> = ds.iter().map(|d| (d.model.as_str(), d.capacity_bytes)).collect();
    assert_eq!(models, vec![("sda1", 10), ("sda2", 30), ("sda1", 40)]);
    assert!(ds.iter().all(|d| d.device_type == StorageType::Unknown && d.interface.is_none()));
}

fn physical(name: Option<&str>, media: Option<u16>, bus: Option<u16>) -> PhysicalDiskRecord {
    PhysicalDiskRecord { friendly_name: name.map(s), size: Some(1 << 40), media_type: media, bus_type: bus }
}

#[test]
fn windows_physical_disks() {
    let rows = vec![
        physical(Some("SHPP41-2000GM"), Some(4), Some(17)),
        physical(Some("Samsung SSD 860 EVO 500GB"), Some(4), Some(11)),
        physical(Some(" TOSHIBA HDWG740UZSVC "), Some(3), Some(11)),
        physical(Some("Flash"), Some(0), Some(7)),
        physical(Some("   "), Some(4), Some(17)),
        physical(Some("Odd"), None, Some(1)),
    ];
    let ds = disks_from_records(&rows);
    let got: Vec<(&str, StorageType, Option<&str>)> = ds.iter().map(|d| (d.model.as_str(), d.device_type, d.interface.as_deref())).collect();
    assert_eq!(got, vec![
        ("SHPP41-2000GM", StorageType::NvmeSsd, Some("NVMe")),
        ("Samsung SSD 860 EVO 500GB", StorageType::SataSsd, Some("SATA")),
        ("TOSHIBA HDWG740UZSVC", StorageType::Hdd, Some("SATA")),
        ("Flash", StorageType::Unknown, Some("USB")),
        ("Odd", StorageType::Unknown, None),
    ]);
    assert_eq!(ds[0].capacity_bytes, 1 << 40);
    assert_eq!(bus_type_label(3).as_deref(), Some("ATA"));
    assert_eq!(bus_type_label(9).as_deref(), Some("SD"));
    assert_eq!(bus_type_label(15).as_deref(), Some("MMC"));
    let mut devs = vec![device("old")];
    enrich_platform(&mut devs, &StorageEnrichment::Windows(None));
    assert_eq!(devs[0].model, "old");
    enrich_platform(&mut devs, &StorageEnrichment::Windows(Some(rows)));
    assert_eq!(devs.len(), 5);
}

#[test]
fn lsblk_details() {
    let mut devs = vec![device("Samsung_SSD_980"), device("WDC_WD20EZRZ-00Z5HB0"), device("other")];
    enrich_lsblk(&mut devs, "nvme0n1 Samsung_SSD_980 0 nvme\nsda WDC_WD20EZRZ 1 sata\nsdb short 0\nsdc other 0 usb\n");
    assert_eq!(devs[0].device_type, StorageType::NvmeSsd);
    assert_eq!(devs[0].interface.as_deref(), Some("NVME"));
    assert_eq!(devs[1].device_type, StorageType::Hdd);
    assert_eq!(devs[1].interface.as_deref(), Some("SATA"));
    assert_eq!(devs[2].device_type, StorageType::SataSsd);
    assert_eq!(devs[2].interface.as_deref(), Some("USB"));
}

#[test]
fn system_profiler_storage_details() {
    let mut devs = vec![device("a"), device("b")];
    enrich_system_profiler(&mut devs, "    Macintosh HD:\n      Medium Type: SSD\n      Protocol: Apple Fabric\n");
    assert!(devs.iter().all(|d| d.device_type == StorageType::Hdd && d.interface.as_deref() == Some("Apple Fabric")));
    enrich_platform(&mut devs, &StorageEnrichment::SystemProfiler(Some(s("Medium Type: Solid State Drive\nProtocol: PCI-Express NVMe\n"))));
    assert_eq!(devs[1].device_type, StorageType::NvmeSsd);
    assert_eq!(devs[1].interface.as_deref(), Some("PCI-Express NVMe"));
    let mut devs = vec![device("a")];
    enrich_system_profiler(&mut devs, "Medium Type: Solid State Drive\n");
    assert_eq!(devs[0].device_type, StorageType::SataSsd);
}

#[test]
fn explorer_parent_detection() {
    assert_eq!(parent_process_id("\r\r\n\r\r\nParentProcessId=1234\r\r\n\r\r\n"), 1234);
    assert_eq!(parent_process_id("ParentProcessId=\n"), 0);
    assert_eq!(parent_process_id("nothing\n"), 0);
    assert!(names_explorer("\r\nName=Explorer.EXE\r\n"));
    assert!(!names_explorer("Name=cmd.exe"));
}

#[test]
fn explorer_check_needs_a_parent_and_its_name() {
    let first = Some(s("ParentProcessId=4242\r\n"));
    assert_eq!(parent_to_query(&first), Some(4242));
    assert_eq!(parent_to_query(&Some(s("ParentProcessId=0\r\n"))), None);
    assert_eq!(parent_to_query(&None), None);
    assert!(launched_from_explorer(&first, &Some(s("Name=explorer.exe\r\n"))));
    assert!(!launched_from_explorer(&first, &Some(s("Name=powershell.exe\r\n"))));
    assert!(!launched_from_explorer(&first, &None));
    assert!(!launched_from_explorer(&Some(s("ParentProcessId=0")), &Some(s("Name=explorer.exe"))));
    assert!(!launched_from_explorer(&None, &Some(s("Name=explorer.exe"))));
}

#[test]
fn rules_after_case_mapping() {
    assert_eq!(maker_of_upper_id(" 80CE "), "Samsung");
    assert_eq!(maker_of_upper_id("80ce"), "80ce");
    assert_eq!(maker_of_upper_id(" CRUCIAL "), "CRUCIAL");
    assert_eq!(size_in_unit(16, "GB"), Some(16384));
    assert_eq!(size_in_unit(512, "MB"), Some(512));
    assert_eq!(size_in_unit(16, "gb"), None);
    assert_eq!(size_in_unit(u64::MAX, "GB"), Some(u64::MAX.wrapping_mul(1024)));
    assert!(is_noise_lower("usb composite device", "", "usb\\vid_1234"));
    assert!(!is_noise_lower("USB Composite Device", "", "usb\\vid_1234"));
    assert!(is_noise_lower("hd audio", "", "pci\\ven_1022"));
    assert!(!is_noise_lower("realtek usb audio", "realtek", "usb\\vid_0bda"));
    assert_eq!(classify_peripheral_lower("logitech mouse", "hidclass"), PeripheralKind::Mouse);
    assert_eq!(classify_peripheral_lower("Logitech Mouse", "hidclass"), PeripheralKind::Other);
    assert!(is_integrated_lower("intel(r) uhd graphics 630"));
    assert!(!is_integrated_lower("Intel(R) UHD Graphics 630"));
}

#[test]
fn splitn_into_no_pieces() {
    assert!(textspec::text::splitn_exec(&chars("a,b"), 0, ',').is_empty());
    assert_eq!(textspec::text::splitn_exec(&chars("a,b,c"), 2, ','), vec![chars("a"), chars("b,c")]);
}
