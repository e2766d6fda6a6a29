use iomark::disk::{
    human_bytes, lookup, mapped_drive, volume_name, DiskInfo, Facts, FsStat, NameReply, VfsStat,
    WindowsVolume,
};
use iomark::mounts::{components_of, deepest_mount, unescape};

#[test]
fn humanizes_binary_sizes() {
    assert_eq!(human_bytes(512), "512 B");
    assert_eq!(human_bytes(1 << 30), "1.0 GiB");
    assert_eq!(human_bytes(1536 << 20), "1.5 GiB");
}

fn with_floats(bytes: u64) -> String {
    let units = ["B", "KiB", "MiB", "GiB", "TiB", "PiB"];
    let mut value = bytes as f64;
    let mut unit = 0;
    while value >= 1024.0 && unit < units.len() - 1 {
        value /= 1024.0;
        unit += 1;
    }
    if unit == 0 {
        format!("{bytes} B")
    } else {
        format!("{value:.1} {}", units[unit])
    }
}

#[test]
fn humanizes_as_floating_point_does() {
    let mut n: u64 = 1;
    for _ in 0..4000 {
        n = n.wrapping_mul(6364136223846793005).wrapping_add(1442695040888963407);
        for shift in [0, 1, 7, 13, 20, 31, 40, 50] {
            assert_eq!(human_bytes(n >> shift), with_floats(n >> shift));
        }
    }
    for n in [
        0,
        1023,
        1024,
        1075,
        1076,
        1126,
        1127,
        1280,
        1792,
        1048575,
        (1 << 53) - 1,
        1 << 53,
        (1 << 53) + 1,
        (1 << 54) + 2,
        (1 << 54) + 6,
        u64::MAX - 1024,
        u64::MAX - 1023,
        u64::MAX,
    ] {
        assert_eq!(human_bytes(n), with_floats(n));
    }
}

#[test]
fn label_shows_volume_source_and_fstype() {
    let mut info = DiskInfo {
        source: "/dev/disk3s5".into(),
        volume: Some("Macintosh HD - Data".into()),
        mount: "/System/Volumes/Data".into(),
        file_system: "apfs".into(),
        total: 0,
        available: 0,
    };
    assert_eq!(info.label(), "Macintosh HD - Data (/dev/disk3s5, apfs)");
    info.volume = None;
    assert_eq!(info.label(), "/dev/disk3s5 (apfs)");
}

#[test]
fn mountinfo_picks_deepest_mount() {
    let text = "\
36 25 8:1 / / rw,relatime shared:1 - ext4 /dev/nvme0n1p2 rw
99 36 0:52 / /mnt/data rw,relatime - nfs4 10.0.0.5:/export rw,addr=10.0.0.5
120 36 8:17 / /mnt/data/fast rw shared:5 master:1 - xfs /dev/sdb1 rw";
    let (source, mount, fstype) = deepest_mount(text, "/mnt/data/dir").unwrap();
    assert_eq!(source, "10.0.0.5:/export");
    assert_eq!(mount, "/mnt/data");
    assert_eq!(fstype, "nfs4");
    let (source, ..) = deepest_mount(text, "/mnt/data/fast/f").unwrap();
    assert_eq!(source, "/dev/sdb1");
    let (source, ..) = deepest_mount(text, "/home/user").unwrap();
    assert_eq!(source, "/dev/nvme0n1p2");
}

#[test]
fn mountinfo_unescapes_spaces() {
    let text = "40 25 0:40 / /mnt/big\\040disk rw - cifs //nas/big\\040share rw";
    let (source, mount, fstype) = deepest_mount(text, "/mnt/big disk/x").unwrap();
    assert_eq!(source, "//nas/big share");
    assert_eq!(mount, "/mnt/big disk");
    assert_eq!(fstype, "cifs");
}

#[test]
fn mountinfo_later_mount_shadows_same_path() {
    let text = "\
36 25 8:1 / /mnt rw - ext4 /dev/sda1 rw
50 36 8:2 / /mnt rw - ext4 /dev/sdb1 rw";
    let (source, ..) = deepest_mount(text, "/mnt/x").unwrap();
    assert_eq!(source, "/dev/sdb1");
}

#[test]
fn mountinfo_skips_what_is_no_entry() {
    let text = "\
nonsense
36 25 8:1 / / rw
36 25 8:1 / / rw - ext4
36 25 - ext4 / /dev/short rw
36 25 8:1 / /mn rw - ext4 /dev/no rw
36 25 8:1 / / rw - ext4 /dev/yes rw\r
";
    let (source, mount, _) = deepest_mount(text, "/mnt").unwrap();
    assert_eq!(source, "/dev/yes");
    assert_eq!(mount, "/");
    assert!(deepest_mount("", "/mnt").is_none());
}

#[test]
fn unescapes_octal_only() {
    let read = |s: &str| {
        let chars: Vec<char> = s.chars().collect();
        unescape(&chars).into_iter().collect::<String>()
    };
    assert_eq!(read("a\\040b\\011c\\012d\\134e"), "a b\tc\nd\\e");
    assert_eq!(read("\\04"), "\\04");
    assert_eq!(read("\\400\\089"), "\\400\\089");
    assert_eq!(read("\\377\\+12"), "\u{ff}\\+12");
    assert_eq!(read("\\+40"), "\\+40");
    assert_eq!(read("\\134040"), "\\040");
    assert_eq!(read("\\"), "\\");
    assert_eq!(read("\\\\040"), "\\ ");
}

#[test]
fn components_are_those_of_a_path() {
    for path in [
        "", "/", "//", ".", "./a", "/./a", "a/./b/", "/a//b", "a/..", "/..", "..", "a/.", "/a/b/c",
    ] {
        let chars: Vec<char> = path.chars().collect();
        let got: Vec<String> =
            components_of(&chars).into_iter().map(|c| c.into_iter().collect()).collect();
        let expected: Vec<String> = std::path::Path::new(path)
            .components()
            .map(|c| c.as_os_str().to_str().unwrap().to_string())
            .collect();
        assert_eq!(got, expected, "{path}");
    }
}

#[test]
fn linux_facts_make_a_disk() {
    let facts = |fragment_size, block_size, blocks| Facts::Linux {
        mountinfo: "36 25 8:1 / / rw - ext4 /dev/sda1 rw".to_string(),
        stat: VfsStat { fragment_size, block_size, blocks, available: 3 },
    };
    let d = lookup("/home", &facts(512, 4096, 10)).unwrap();
    assert_eq!(d.source, "/dev/sda1");
    assert_eq!(d.mount, "/");
    assert_eq!(d.file_system, "ext4");
    assert!(d.volume.is_none());
    assert_eq!((d.total, d.available), (5120, 1536));
    let d = lookup("/home", &facts(0, 4096, 10)).unwrap();
    assert_eq!((d.total, d.available), (40960, 12288));
    let d = lookup("/home", &facts(4096, 0, u64::MAX)).unwrap();
    assert_eq!(d.total, u64::MAX);
    assert!(lookup("home", &facts(1, 1, 1)).is_none());
    assert!(lookup("/", &Facts::Unknown).is_none());
}

fn reply(offset: i32, length: u32, data: &[u8]) -> NameReply {
    NameReply { offset, length, reference_at: 4, data_at: 12, data: data.to_vec() }
}

#[test]
fn macos_names_a_volume() {
    assert_eq!(volume_name(&reply(8, 5, b"Data\0\0\0")), Some("Data".to_string()));
    assert_eq!(volume_name(&reply(10, 4, b"..abc\0")), Some("abc".to_string()));
    assert_eq!(volume_name(&reply(8, 100, b"abc")), Some("abc".to_string()));
    assert_eq!(volume_name(&reply(8, 3, b"\xffz")), Some("\u{fffd}z".to_string()));
    assert_eq!(volume_name(&reply(8, 1, b"abc")), None);
    assert_eq!(volume_name(&reply(8, 0, b"abc")), None);
    assert_eq!(volume_name(&reply(7, 4, b"abc")), None);
    assert_eq!(volume_name(&reply(-1, 4, b"abc")), None);
    assert_eq!(volume_name(&reply(99, 4, b"abc")), None);
    let facts = Facts::MacOs {
        fs: FsStat {
            source: b"/dev/disk3s5\0junk".to_vec(),
            mount: b"/System/Volumes/Data\0".to_vec(),
            file_system: b"apfs".to_vec(),
            block_size: 4096,
            blocks: 2,
            available: 1,
        },
        name: Some(reply(8, 5, b"Data\0")),
    };
    let d = lookup("/", &facts).unwrap();
    assert_eq!(d.label(), "Data (/dev/disk3s5, apfs)");
    assert_eq!(d.mount, "/System/Volumes/Data");
    assert_eq!((d.total, d.available), (8192, 4096));
}

fn wide(s: &str) -> Vec<u16> {
    s.encode_utf16().chain([0, 7, 7]).collect()
}

fn windows(root: &str, remote: bool, share: Option<&str>) -> WindowsVolume {
    WindowsVolume {
        root: wide(root),
        total: 9,
        available: 5,
        info: Some((wide("新加卷"), wide("NTFS"))),
        remote,
        share: share.map(wide),
    }
}

#[test]
fn windows_facts_make_a_disk() {
    let d = lookup("D:\\x", &Facts::Windows(windows("D:\\", false, None))).unwrap();
    assert_eq!(d.label(), "新加卷 (D:, NTFS)");
    assert_eq!(d.mount, "D:\\");
    assert_eq!((d.total, d.available), (9, 5));

    let d = lookup("", &Facts::Windows(windows("Z:\\", true, Some("\\\\nas\\big")))).unwrap();
    assert_eq!(d.source, "\\\\nas\\big");
    let d = lookup("", &Facts::Windows(windows("Z:\\", true, Some("")))).unwrap();
    assert_eq!(d.source, "Z:");
    let d = lookup("", &Facts::Windows(windows("Z:\\", false, Some("\\\\nas\\big")))).unwrap();
    assert_eq!(d.source, "Z:");
    let d = lookup("", &Facts::Windows(windows("\\\\nas\\x\\", true, Some("y")))).unwrap();
    assert_eq!(d.source, "\\\\nas\\x");

    let mut silent = windows("C:\\", false, None);
    silent.info = None;
    let d = lookup("", &Facts::Windows(silent)).unwrap();
    assert_eq!(d.file_system, "unknown");
    assert!(d.volume.is_none());

    let mut unnamed = windows("C:\\", false, None);
    unnamed.info = Some((wide(""), wide("FAT32")));
    assert!(lookup("", &Facts::Windows(unnamed)).unwrap().volume.is_none());

    let mut endless = windows("C:\\", false, None);
    endless.root = vec![67, 58];
    assert!(lookup("", &Facts::Windows(endless)).is_none());

    assert_eq!(mapped_drive(&wide("Z:\\"), true), Some("Z:".to_string()));
    assert_eq!(mapped_drive(&wide("Z:\\"), false), None);
    assert_eq!(mapped_drive(&wide("\\\\nas\\x"), true), None);
    assert_eq!(mapped_drive(&[0xd800, 58, 0], true), Some("\u{fffd}:".to_string()));
}
