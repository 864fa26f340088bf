use blowtorch::catalog::catalog_from_entries;
use blowtorch::catalog::match_device_name;
use blowtorch::catalog::resolve_canonical;
use blowtorch::device_path;
use blowtorch::get_device_size;
use blowtorch::Device;
use blowtorch::LinkEntry;
use blowtorch::ResolveError;

fn device(name: &str, path: &str, mbytes: u64) -> Device {
    Device { name: name.to_string(), path: path.to_string(), mbytes }
}

#[test]
fn link_names_of_whole_disks_match() {
    assert_eq!(
        match_device_name("usb-SanDisk_Ultra_12345-0:0"),
        Some("SanDisk".to_string())
    );
    assert_eq!(match_device_name("mmc-SD_Card_1234"), Some("SD".to_string()));
}

#[test]
fn link_names_of_partitions_are_rejected() {
    assert_eq!(match_device_name("usb-SanDisk_Ultra_12345-0:0-part1"), None);
    assert_eq!(match_device_name("mmc-SD_Card_1234-part2"), None);
}

#[test]
fn link_names_of_other_buses_are_rejected() {
    assert_eq!(match_device_name("ata-WDC_WD10EZEX_12345-0:0"), None);
    assert_eq!(match_device_name("usb-NoUnderscore"), None);
    assert_eq!(match_device_name("usb-Tok_abc"), None);
    assert_eq!(match_device_name(""), None);
}

#[test]
fn catalog_keeps_matching_entries_in_order() {
    let entries = vec![
        LinkEntry {
            link_name: "usb-SanDisk_Ultra_12345-0:0".to_string(),
            dev_path: "/dev/sdb".to_string(),
            byte_len: 5 * 1024 * 1024 + 123,
        },
        LinkEntry {
            link_name: "usb-SanDisk_Ultra_12345-0:0-part1".to_string(),
            dev_path: "/dev/sdb1".to_string(),
            byte_len: 1024,
        },
        LinkEntry {
            link_name: "mmc-SD_Card_1234".to_string(),
            dev_path: "/dev/mmcblk0".to_string(),
            byte_len: 2 * 1024 * 1024,
        },
    ];
    let catalog = catalog_from_entries(&entries);
    assert_eq!(catalog.len(), 2);
    assert_eq!(catalog[0].name, "SanDisk");
    assert_eq!(catalog[0].path, "/dev/sdb");
    assert_eq!(catalog[0].mbytes, 5);
    assert_eq!(catalog[1].name, "SD");
    assert_eq!(catalog[1].path, "/dev/mmcblk0");
    assert_eq!(catalog[1].mbytes, 2);
}

#[test]
fn resolution_by_name() {
    let devices = vec![device("sd1", "/dev/x", 16)];
    let r = device_path(&devices, &"sd1".to_string());
    assert_eq!(r, Ok(Some("/dev/x".to_string())));
}

#[test]
fn resolution_prefers_first_name_match() {
    let devices = vec![device("sd1", "/dev/x", 16), device("sd1", "/dev/y", 16)];
    let r = device_path(&devices, &"sd1".to_string());
    assert_eq!(r, Ok(Some("/dev/x".to_string())));
}

#[test]
fn resolution_by_canonical_path() {
    let devices = vec![device("sd1", "/dev/x", 16)];
    assert_eq!(
        resolve_canonical(&devices, &"/dev/x".to_string()),
        Some("/dev/x".to_string())
    );
    assert_eq!(resolve_canonical(&devices, &"/dev/y".to_string()), None);
}

#[test]
fn resolution_canonicalizes_path_input() {
    let canon = std::path::Path::new("/tmp")
        .canonicalize()
        .unwrap()
        .to_string_lossy()
        .into_owned();
    let devices = vec![device("sd1", &canon, 16)];
    let r = device_path(&devices, &"/tmp".to_string());
    assert_eq!(r, Ok(Some(canon)));
}

#[test]
fn resolution_of_unknown_path_is_an_error_not_a_panic() {
    let devices = vec![device("sd1", "/dev/x", 16)];
    let r = device_path(&devices, &"/dev/unknown-device-that-is-not-there".to_string());
    assert_eq!(r, Err(ResolveError::Canonicalize));
}

#[test]
fn resolution_of_unmatched_existing_path_is_absence() {
    let devices = vec![device("sd1", "/dev/x", 16)];
    let r = device_path(&devices, &"/tmp".to_string());
    assert_eq!(r, Ok(None));
}

#[test]
fn sentinel_path_is_returned_verbatim() {
    let devices: Vec<Device> = Vec::new();
    let r = device_path(&devices, &"/tmp/plop.img".to_string());
    assert_eq!(r, Ok(Some("/tmp/plop.img".to_string())));
}

#[test]
fn device_size_of_known_path() {
    let devices = vec![device("sd1", "/dev/x", 16)];
    assert_eq!(get_device_size(&devices, &"/dev/x".to_string()), Ok(16 * 1024 * 1024));
}

#[test]
fn device_size_of_unknown_path() {
    let devices = vec![device("sd1", "/dev/x", 16)];
    assert_eq!(
        get_device_size(&devices, &"/dev/y".to_string()),
        Err("unknown device".to_string())
    );
}

#[test]
fn device_size_overflow_is_an_error() {
    let devices = vec![device("sd1", "/dev/x", u64::MAX)];
    assert_eq!(
        get_device_size(&devices, &"/dev/x".to_string()),
        Err("device capacity overflows a byte count".to_string())
    );
}
