use takeover::block_device::{
    parse_mount_line, path_starts_with, plan_umounts, BlockDeviceInfo, Device, MountInfo, UmountPart,
};
use takeover::connections::{connection_file_name_exec, connection_file_names};
use takeover::error::MigErrorKind;
use takeover::hex::{decode_hex_range, push_hex};
use takeover::migrate_info::{MigrateInfo, WifiConfig};
use takeover::space::{check_memory, parse_mem_free, preflight, required_space, XTRA_FS_SIZE};
use takeover::stage2_config::Stage2Config;

const MIB: u64 = 1024 * 1024;

fn b(s: &str) -> Vec<u8> {
    s.as_bytes().to_vec()
}

fn disk(name: &str) -> Device {
    Device { name: b(name), dev_path: b(&format!("/dev/{}", name)), parent: None, mount: None }
}

fn part(name: &str, parent: &str, mountpoint: Option<&str>) -> Device {
    Device {
        name: b(name),
        dev_path: b(&format!("/dev/{}", name)),
        parent: Some(b(parent)),
        mount: mountpoint.map(|m| MountInfo { mountpoint: b(m), fs_type: b("ext4") }),
    }
}

fn mountpoints(parts: &[UmountPart]) -> Vec<String> {
    parts.iter().map(|p| String::from_utf8(p.mountpoint.clone()).unwrap()).collect()
}

#[test]
fn preflight_missing_image_is_missing_input() {
    let r = preflight(None, Some(1024), &vec![], 1000, 1000, 1024 * MIB);
    assert_eq!(r, Err(MigErrorKind::MissingInput));
}

#[test]
fn preflight_missing_config_is_missing_input() {
    let r = preflight(Some(2 * MIB), None, &vec![], 1000, 1000, 1024 * MIB);
    assert_eq!(r, Err(MigErrorKind::MissingInput));
}

#[test]
fn preflight_missing_input_wins_over_memory() {
    let r = preflight(None, None, &vec![], 1000, 1000, 0);
    assert_eq!(r, Err(MigErrorKind::MissingInput));
}

#[test]
fn preflight_large_image_small_memory() {
    let r = preflight(Some(500 * 1000 * 1000), Some(4096), &vec![], 1_000_000, 5_000_000, 256 * MIB);
    assert_eq!(r, Err(MigErrorKind::InsufficientMemory));
}

#[test]
fn preflight_small_image_large_memory() {
    let r = preflight(Some(2 * MIB), Some(1024), &vec![100, 200], 1_000_000, 5_000_000, 1024 * MIB);
    assert_eq!(r, Ok(2 * 1_000_000 + XTRA_FS_SIZE + 2 * MIB + 1024 + 300 + 5_000_000));
}

#[test]
fn required_space_exact_sum() {
    assert_eq!(required_space(10, 20, 30, &vec![1, 2, 3], 40), Ok(10 + 10 + 10 * MIB + 20 + 30 + 6 + 40));
    assert_eq!(required_space(0, 0, 0, &vec![], 0), Ok(10 * MIB));
}

#[test]
fn required_space_overflow_is_insufficient_memory() {
    assert_eq!(required_space(1, u64::MAX, 0, &vec![], 0), Err(MigErrorKind::InsufficientMemory));
    assert_eq!(required_space(0, 0, 0, &vec![u64::MAX, 1], 0), Err(MigErrorKind::InsufficientMemory));
}

#[test]
fn check_memory_boundary() {
    assert_eq!(check_memory(100, 100 + XTRA_FS_SIZE), Ok(()));
    assert_eq!(check_memory(100, 99 + XTRA_FS_SIZE), Err(MigErrorKind::InsufficientMemory));
    assert_eq!(check_memory(u64::MAX, u64::MAX), Err(MigErrorKind::InsufficientMemory));
}

#[test]
fn path_prefix_by_components() {
    assert!(path_starts_with(&b("/home"), &b("/")));
    assert!(path_starts_with(&b("/home/user"), &b("/home")));
    assert!(path_starts_with(&b("/home"), &b("/home")));
    assert!(!path_starts_with(&b("/homes"), &b("/home")));
    assert!(!path_starts_with(&b("/"), &b("/home")));
}

#[test]
fn plan_for_root_disk_puts_home_first() {
    let devices = vec![
        disk("sda"),
        part("sda1", "sda", Some("/")),
        part("sda2", "sda", Some("/home")),
        disk("sdb"),
        part("sdb1", "sdb", Some("/mnt")),
    ];
    let info = BlockDeviceInfo::new(devices, 0).unwrap();
    let flash = info.select_flash_device(&None).unwrap();
    assert_eq!(flash, 0);
    let plan = info.umount_parts(flash);
    assert_eq!(mountpoints(&plan), vec!["/home", "/"]);
    assert_eq!(plan[0].dev_name, b("/dev/sda2"));
    assert_eq!(plan[1].dev_name, b("/dev/sda1"));
    assert_eq!(plan[0].fs_type, b("ext4"));
}

#[test]
fn plan_orders_nested_mounts_deepest_first() {
    let devices = vec![
        part("sda1", "sda", Some("/")),
        part("sda5", "sda", Some("/var/log")),
        part("sda2", "sda", Some("/boot")),
        part("sda3", "sda", Some("/var")),
        part("sda4", "sda", None),
        part("sda6", "sda", Some("/boot/efi")),
    ];
    let plan = plan_umounts(&devices, &b("sda"));
    let mps = mountpoints(&plan);
    assert_eq!(mps.len(), 5);
    for i in 0..mps.len() {
        for j in (i + 1)..mps.len() {
            assert!(!path_starts_with(&b(&mps[j]), &b(&mps[i])), "{} before {}", mps[i], mps[j]);
        }
    }
    assert_eq!(mps[mps.len() - 1], "/");
}

#[test]
fn plan_skips_other_disks_and_unmounted() {
    let devices = vec![part("sdb1", "sdb", Some("/data")), part("sda1", "sda", None), disk("sda")];
    assert!(plan_umounts(&devices, &b("sda")).is_empty());
}

#[test]
fn flash_to_unknown_device_is_missing_input() {
    let info = BlockDeviceInfo::new(vec![disk("sda"), part("sda1", "sda", Some("/"))], 0).unwrap();
    assert_eq!(info.select_flash_device(&Some(b("/dev/sdb"))), Err(MigErrorKind::MissingInput));
    assert_eq!(info.select_flash_device(&Some(b("/dev/sda1"))), Ok(1));
}

#[test]
fn inventory_refuses_missing_root() {
    assert!(BlockDeviceInfo::new(vec![disk("sda")], 1).is_none());
}

#[test]
fn two_nwmgr_files_and_one_wifi_give_three_names() {
    let names: Vec<String> =
        connection_file_names(2, 1).into_iter().map(|n| String::from_utf8(n).unwrap()).collect();
    assert_eq!(names, vec!["balena-01", "balena-02", "balena-03"]);
}

#[test]
fn connection_names_without_gaps() {
    let names = connection_file_names(7, 5);
    assert_eq!(names.len(), 12);
    for (i, n) in names.iter().enumerate() {
        assert_eq!(String::from_utf8(n.clone()).unwrap(), format!("balena-{:02}", i + 1));
    }
    assert!(connection_file_names(0, 0).is_empty());
}

#[test]
fn connection_name_beyond_two_digits() {
    assert_eq!(connection_file_name_exec(9), b("balena-09"));
    assert_eq!(connection_file_name_exec(10), b("balena-10"));
    assert_eq!(connection_file_name_exec(123), b("balena-123"));
    assert_eq!(connection_file_name_exec(0), b("balena-00"));
}

fn sample_config() -> Stage2Config {
    Stage2Config {
        log_dev: Some(b("/dev/sdb1")),
        log_level: b("info"),
        flash_dev: b("/dev/sda"),
        pretend: true,
        umount_parts: vec![
            UmountPart { dev_name: b("/dev/sda2"), mountpoint: b("/home"), fs_type: b("ext4") },
            UmountPart { dev_name: b("/dev/sda1"), mountpoint: b("/"), fs_type: b("ext4") },
        ],
        flash_external: false,
    }
}

#[test]
fn config_round_trip() {
    let c = sample_config();
    let text = c.serialize();
    let back = Stage2Config::parse(&text).unwrap();
    assert_eq!(back.log_dev, c.log_dev);
    assert_eq!(back.log_level, c.log_level);
    assert_eq!(back.flash_dev, c.flash_dev);
    assert_eq!(back.pretend, c.pretend);
    assert_eq!(back.flash_external, c.flash_external);
    assert_eq!(back.umount_parts.len(), 2);
    for (x, y) in back.umount_parts.iter().zip(c.umount_parts.iter()) {
        assert_eq!(x.dev_name, y.dev_name);
        assert_eq!(x.mountpoint, y.mountpoint);
        assert_eq!(x.fs_type, y.fs_type);
    }
}

#[test]
fn config_round_trip_without_log_device_or_parts() {
    let c = Stage2Config {
        log_dev: None,
        log_level: vec![],
        flash_dev: vec![0, 10, 32, 255],
        pretend: false,
        umount_parts: vec![],
        flash_external: true,
    };
    let text = c.serialize();
    assert_eq!(text, b("\n000a20ff\n-\n0\n1\n"));
    let back = Stage2Config::parse(&text).unwrap();
    assert_eq!(back.log_dev, None);
    assert_eq!(back.log_level, Vec::<u8>::new());
    assert_eq!(back.flash_dev, vec![0, 10, 32, 255]);
    assert!(!back.pretend);
    assert!(back.flash_external);
    assert!(back.umount_parts.is_empty());
}

#[test]
fn config_text_layout() {
    let text = String::from_utf8(sample_config().serialize()).unwrap();
    assert_eq!(
        text,
        "696e666f\n2f6465762f736461\n+2f6465762f73646231\n1\n0\n\
         2f6465762f73646132 2f686f6d65 65787434\n2f6465762f73646131 2f 65787434\n"
    );
}

#[test]
fn config_parse_rejects_malformed_text() {
    assert_eq!(Stage2Config::parse(&b("")).err(), Some(MigErrorKind::Serialization));
    assert_eq!(Stage2Config::parse(&b("00\n00\n-\n1\n")).err(), Some(MigErrorKind::Serialization));
    assert_eq!(Stage2Config::parse(&b("0\n00\n-\n1\n0\n")).err(), Some(MigErrorKind::Serialization));
    assert_eq!(Stage2Config::parse(&b("00\n00\n-\n2\n0\n")).err(), Some(MigErrorKind::Serialization));
    assert_eq!(Stage2Config::parse(&b("00\n00\n*\n1\n0\n")).err(), Some(MigErrorKind::Serialization));
    assert_eq!(Stage2Config::parse(&b("00\n00\n-\n1\n0\naa bb\n")).err(), Some(MigErrorKind::Serialization));
    assert_eq!(Stage2Config::parse(&b("00\n00\n-\n1\n0\naa bb cc")).err(), Some(MigErrorKind::Serialization));
    assert_eq!(Stage2Config::parse(&b("00\n00\nXY\n1\n0\n")).err(), Some(MigErrorKind::Serialization));
    assert!(Stage2Config::parse(&b("00\n00\n-\n1\n0\naa bb cc\n")).is_ok());
}

#[test]
fn hex_encoding_of_bytes() {
    let mut out = b("x");
    push_hex(&mut out, &vec![0x00, 0x7f, 0xab]);
    assert_eq!(out, b("x007fab"));
    assert_eq!(decode_hex_range(&out, 1, 7), Some(vec![0x00, 0x7f, 0xab]));
    assert_eq!(decode_hex_range(&out, 1, 6), None);
    assert_eq!(decode_hex_range(&out, 0, 2), None);
}

fn session() -> MigrateInfo {
    MigrateInfo::new(
        b("/tmp/os.img"),
        b("/tmp/c.json"),
        vec![b("/etc/nm/a"), b("/etc/nm/b")],
        vec![WifiConfig { ssid: b("net"), psk: b("secret") }],
        b("info"),
    )
}

#[test]
fn cleanup_releases_mounts_in_reverse() {
    let mut info = session();
    assert!(info.record_mount(b("/TO.abc"), b("tmpfs")).is_err());
    info.set_to_dir(b("/TO.abc"));
    let proc_path = info.path_under_root(&b("proc"));
    assert_eq!(proc_path, b("/TO.abc/proc"));
    assert_eq!(info.record_mount(b("/TO.abc"), b("tmpfs")), Ok(()));
    assert_eq!(info.record_mount(proc_path, b("proc")), Ok(()));
    assert_eq!(info.record_mount(b("/TO.abc/dev/pts"), b("devpts")), Ok(()));
    assert_eq!(info.record_mount(b("/TO.abcd"), b("tmpfs")), Err(MigErrorKind::MountFailed));
    assert_eq!(info.record_mount(b("/home"), b("tmpfs")), Err(MigErrorKind::MountFailed));
    let plan = info.umount_all();
    assert_eq!(plan.unmounts, vec![b("/TO.abc/dev/pts"), b("/TO.abc/proc"), b("/TO.abc")]);
    assert_eq!(plan.remove_dir, Some(b("/TO.abc")));
    assert!(info.get_to_dir().is_none());
    let again = info.umount_all();
    assert!(again.unmounts.is_empty());
    assert_eq!(again.remove_dir, None);
}

#[test]
fn session_keeps_inputs() {
    let info = session();
    assert_eq!(info.get_image_path(), &b("/tmp/os.img"));
    assert_eq!(info.get_config_path(), &b("/tmp/c.json"));
    assert_eq!(info.get_nwmgr_files().len(), 2);
    assert_eq!(info.get_wifis()[0].ssid, b("net"));
    assert_eq!(info.get_log_level(), &b("info"));
}

#[test]
fn error_kinds_describe_themselves() {
    assert_eq!(MigErrorKind::InsufficientMemory.describe(), "insufficient memory");
    assert_eq!(MigErrorKind::NotPrivileged.describe(), "not privileged");
}

#[test]
fn root_device_is_the_disk_owning_slash() {
    let devices = vec![
        disk("sdb"),
        part("sdb1", "sdb", Some("/mnt")),
        part("sda2", "sda", Some("/home")),
        part("sda1", "sda", Some("/")),
        disk("sda"),
    ];
    let info = BlockDeviceInfo::from_devices(devices).unwrap();
    assert_eq!(info.root_index, 4);
    assert_eq!(info.get_root_device().dev_path, b("/dev/sda"));
}

#[test]
fn root_device_unpartitioned_disk() {
    let mut whole = disk("vda");
    whole.mount = Some(MountInfo { mountpoint: b("/"), fs_type: b("ext4") });
    let info = BlockDeviceInfo::from_devices(vec![disk("sda"), whole]).unwrap();
    assert_eq!(info.root_index, 1);
}

#[test]
fn root_device_missing() {
    assert!(BlockDeviceInfo::from_devices(vec![disk("sda"), part("sda1", "sda", Some("/boot"))]).is_none());
    assert!(BlockDeviceInfo::from_devices(vec![part("sda1", "sda", Some("/"))]).is_none());
}

#[test]
fn mount_line_fields() {
    let (source, mount) = parse_mount_line(&b("/dev/sda1 / ext4 rw,relatime 0 0")).unwrap();
    assert_eq!(source, b("/dev/sda1"));
    assert_eq!(mount.mountpoint, b("/"));
    assert_eq!(mount.fs_type, b("ext4"));
    assert!(parse_mount_line(&b("/dev/sda1 / ext4")).is_none());
    assert!(parse_mount_line(&b("")).is_none());
    let (source, mount) = parse_mount_line(&b("proc /proc proc ")).unwrap();
    assert_eq!(source, b("proc"));
    assert_eq!(mount.mountpoint, b("/proc"));
    assert_eq!(mount.fs_type, b("proc"));
}

#[test]
fn mem_free_line_in_bytes() {
    assert_eq!(parse_mem_free(&b("MemFree:         1234567 kB")), Some(1234567 * 1024));
    assert_eq!(parse_mem_free(&b("MemFree:262144 kB")), Some(256 * MIB));
    assert_eq!(parse_mem_free(&b("MemFree: 0")), Some(0));
}

#[test]
fn mem_free_rejects_other_lines() {
    assert_eq!(parse_mem_free(&b("MemTotal:        8000000 kB")), None);
    assert_eq!(parse_mem_free(&b("MemFree:         kB")), None);
    assert_eq!(parse_mem_free(&b("MemFree:  12x kB")), None);
    assert_eq!(parse_mem_free(&b("MemFree:")), None);
    assert_eq!(parse_mem_free(&b("MemFree: 99999999999999999999 kB")), None);
    assert_eq!(parse_mem_free(&b("MemFree: 18014398509481984 kB")), None);
    assert_eq!(parse_mem_free(&b("MemFree: 18014398509481983 kB")), Some(18014398509481983 * 1024));
}
