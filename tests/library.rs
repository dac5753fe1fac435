use twrp_evacuate::assemble::{
    apk_files, backup_date, backup_dir_name, plan_package, presence_of, BackupTime, Presence,
    BACKUP_VERSION_CODE,
};
use twrp_evacuate::classify::{
    apk_location_of, find_apks, find_packages, find_users, user_of_path, ApkLocation, DataSelector,
};
use twrp_evacuate::extract::{
    data_archive_output, data_root, is_cache, relative_path, relocate_entry, select_data_entries,
    EntryHeader,
};
use twrp_evacuate::text::{i32_text, parse_i32, segment};
use twrp_evacuate::volume::{locate_volumes, volume_prefix, VolumeError};

fn strings(v: &[&str]) -> Vec<String> {
    v.iter().map(|s| s.to_string()).collect()
}

fn entry(path: &str, kind: u8, group: Option<&str>) -> EntryHeader {
    EntryHeader {
        path: path.to_string(),
        kind,
        size: 12,
        mode: 0o640,
        uid: 10123,
        gid: 10124,
        user_name: Some("u0_a123".to_string()),
        group_name: group.map(|g| g.to_string()),
        mtime: 1_700_000_000,
    }
}

fn time() -> BackupTime {
    BackupTime {
        year: 2024,
        month: 1,
        day: 2,
        hour: 3,
        minute: 4,
        second: 5,
        nanosecond: 678_900_000,
    }
}

#[test]
fn locate_volumes_returns_the_six_volumes_sorted() {
    let names = strings(&[
        "data.ext4.win003",
        "recovery.log",
        "data.ext4.win000",
        "data.ext4.win005",
        "boot.emmc.win",
        "data.ext4.win001",
        "system.ext4.win000",
        "data.ext4.win004",
        "data.ext4.win002",
    ]);
    let r = locate_volumes("backup/data.ext4.win000", &names).unwrap();
    assert_eq!(
        r,
        strings(&[
            "data.ext4.win000",
            "data.ext4.win001",
            "data.ext4.win002",
            "data.ext4.win003",
            "data.ext4.win004",
            "data.ext4.win005",
        ])
    );
}

#[test]
fn locate_volumes_rejects_other_paths() {
    let names = strings(&["data.ext4.win000"]);
    assert_eq!(locate_volumes("backup/data.ext4.win001", &names), Err(VolumeError::NotFirstVolume));
    assert_eq!(locate_volumes("backup/data.tar", &names), Err(VolumeError::NotFirstVolume));
    assert_eq!(locate_volumes("", &names), Err(VolumeError::NotFirstVolume));
    assert_eq!(volume_prefix("a/b/data.ext4.win000"), Ok("data.ext4".to_string()));
    assert_eq!(volume_prefix(".win000"), Ok("".to_string()));
}

#[test]
fn package_scan_for_secondary_user() {
    let paths = strings(&["/data/user/10/com.example.app/files/x"]);
    let sel = DataSelector { user: 10, protected: false };
    assert_eq!(find_packages(&paths, sel), strings(&["com.example.app"]));
}

#[test]
fn package_scan_for_primary_user() {
    let de = strings(&["/data/user_de/0/com.example.app/files/x"]);
    let sel = DataSelector { user: 0, protected: true };
    assert_eq!(find_packages(&de, sel), strings(&["com.example.app"]));
    let ce = strings(&["/data/data/com.example.app/files/x"]);
    let sel = DataSelector { user: 0, protected: false };
    assert_eq!(find_packages(&ce, sel), strings(&["com.example.app"]));
}

#[test]
fn package_scan_dedups_sorts_and_skips_empty() {
    let paths = strings(&[
        "/data/user/10/org.b/files/x",
        "/data/user/10/com.a/cache/y",
        "/data/user/10/org.b/",
        "/data/user/10/",
        "/data/user/11/com.c/x",
        "/data/data/com.d/x",
    ]);
    let sel = DataSelector { user: 10, protected: false };
    assert_eq!(find_packages(&paths, sel), strings(&["com.a", "org.b"]));
}

#[test]
fn base_paths_follow_the_selector() {
    let s = |user, protected| DataSelector { user, protected };
    assert_eq!(s(0, false).base_path(), "/data/data/");
    assert_eq!(s(0, true).base_path(), "/data/user_de/0/");
    assert_eq!(s(10, false).base_path(), "/data/user/10/");
    assert_eq!(s(10, true).base_path(), "/data/user_de/10/");
    assert_eq!(s(0, false).package_index(), 3);
    assert_eq!(s(0, true).package_index(), 4);
    assert_eq!(s(10, false).package_index(), 4);
    assert_eq!(data_root(s(10, true), "com.x"), "/data/user_de/10/com.x");
}

#[test]
fn user_scan_parses_and_skips() {
    let paths = strings(&[
        "/data/user/10/com.a/x",
        "/data/user/0/com.a/x",
        "/data/user/abc/com.a/x",
        "/data/user/10/com.b/x",
        "/data/user_de/12/com.a/x",
        "/data/user/",
    ]);
    assert_eq!(find_users(&paths), vec![0, 10]);
    assert_eq!(user_of_path("/data/user/99999999999/x"), None);
    assert_eq!(user_of_path("/data/user/+7/x"), Some(7));
    assert_eq!(user_of_path("/data/user/-3/x"), None);
    assert_eq!(find_users(&strings(&["/data/user/-3/com.a/x"])), Vec::<i32>::new());
}

#[test]
fn apk_scan_finds_base_apks() {
    let paths = strings(&[
        "/data/app/~~root==/com.example.app-abc==/base.apk",
        "/data/app/~~root==/com.example.app-abc==/split_config.arm64_v8a.apk",
        "/data/app/~~root==/com.example.app-abc==/base.apk",
        "/data/data/com.example.app/base.apk",
    ]);
    let apks = find_apks(&paths);
    assert_eq!(apks.len(), 2);
    assert_eq!(apks[0].root, "~~root==");
    assert_eq!(apks[0].instance, "com.example.app-abc==");
    assert_eq!(apks[0].package_name(), "com.example.app");
    assert!(apk_location_of("/data/app/base.apk").is_none());
    assert!(apk_location_of("/data/app/r/i/x/base.apk").is_none());
    assert!(apk_location_of("/data/app/r/i/base.apk/").is_none());
    assert!(apk_location_of("/data/app/r/i/xbase.apk").is_none());
    let l = apk_location_of("/data/app/r/i-1/base.apk").unwrap();
    assert_eq!((l.root.as_str(), l.instance.as_str()), ("r", "i-1"));
}

#[test]
fn apk_files_of_a_location() {
    let loc = ApkLocation { root: "r".to_string(), instance: "com.x-1".to_string() };
    assert_eq!(loc.apk_dir(), "/data/app/r/com.x-1/");
    assert_eq!(loc.apk_file("/data/app/r/com.x-1/split.apk"), Some("split.apk".to_string()));
    assert_eq!(loc.apk_file("/data/app/r/com.x-12/base.apk"), None);
    assert_eq!(loc.apk_file("/data/app/r/com.x-1/lib/arm64/libx.so"), None);
}

#[test]
fn data_entries_are_relocated() {
    let root = "/data/user/10/com.example.app";
    let entries = vec![
        entry("/data/user/10/com.example.app/files/a", b'0', Some("u0_a123")),
        entry("/data/user/10/com.example.app/shared_prefs/p.xml", b'0', Some("u0_a123")),
        entry("/data/user/10/com.example.app/files", b'5', None),
        entry("/data/user/10/com.other.app/files/b", b'0', Some("u0_a124")),
    ];
    let kept = select_data_entries(&entries, root);
    assert_eq!(kept.len(), 3);
    assert_eq!(kept[0].path, "./files/a");
    assert_eq!(kept[1].path, "./shared_prefs/p.xml");
    assert_eq!(kept[2].path, "./files");
    for (k, e) in kept.iter().zip(entries.iter()) {
        assert_eq!(k.mode, e.mode);
        assert_eq!(k.uid, e.uid);
        assert_eq!(k.gid, e.gid);
        assert_eq!(k.mtime, e.mtime);
        assert_eq!(k.size, e.size);
        assert_eq!(k.kind, e.kind);
        assert_eq!(k.user_name, e.user_name);
        assert_eq!(k.group_name, e.group_name);
    }
    assert!(kept.iter().all(|k| !k.path.contains("com.other.app")));
    assert_eq!(data_archive_output(&kept, false), Some("data.tar.gz".to_string()));
    assert_eq!(data_archive_output(&kept, true), Some("device_protected_files.tar.gz".to_string()));
}

#[test]
fn data_without_regular_files_gives_no_archive() {
    let root = "/data/data/com.example.app";
    let entries = vec![
        entry("/data/data/com.example.app", b'5', None),
        entry("/data/data/com.example.app/files", b'5', None),
        entry("/data/data/com.other/files/x", b'0', None),
    ];
    let kept = select_data_entries(&entries, root);
    assert_eq!(kept.len(), 2);
    assert_eq!(kept[0].path, "./");
    assert_eq!(data_archive_output(&kept, false), None);
    assert_eq!(data_archive_output(&Vec::new(), true), None);
}

#[test]
fn cache_group_entries_are_left_out() {
    let root = "/data/data/com.example.app";
    let e = entry("/data/data/com.example.app/cache/c", b'0', Some("u0_a123_cache"));
    assert!(relocate_entry(&e, root).is_none());
    assert!(is_cache(&Some("all_a5_cache".to_string())));
    assert!(!is_cache(&None));
    assert_eq!(relative_path("/data/data/com.example.app2/x", root), None);
    assert_eq!(relative_path("/data/data/com.example.app/x/y", root), Some("x/y".to_string()));
}

#[test]
fn end_to_end_layout_for_one_package() {
    let paths = strings(&[
        "/data/app/~~r==/com.example.app-q==/base.apk",
        "/data/user/10/com.example.app/files/x",
    ]);
    let users = find_users(&paths);
    assert_eq!(users, vec![10]);
    let apks = find_apks(&paths);
    assert_eq!(apks[0].package_name(), "com.example.app");
    let sel = DataSelector { user: 10, protected: false };
    assert_eq!(find_packages(&paths, sel), strings(&["com.example.app"]));
    let de = DataSelector { user: 10, protected: true };
    assert!(find_packages(&paths, de).is_empty());
    let present = presence_of(&strings(&["base.apk", "data.tar.gz"]));
    let layout = plan_package(10, "com.example.app", &time(), present).unwrap();
    assert_eq!(layout.dir_name, "2024-01-02-03-04-05-678-user_10");
    assert_eq!(layout.properties_file, "2024-01-02-03-04-05-678-user_10.properties");
    let p = &layout.properties;
    assert!(p.has_apk);
    assert!(p.has_app_data);
    assert!(!p.has_devices_protected_data);
    assert_eq!(p.backup_version_code, BACKUP_VERSION_CODE);
    assert_eq!(p.backup_version_code, 8003);
    assert_eq!(p.package_name, "com.example.app");
    assert_eq!(p.package_label, "com.example.app");
    assert_eq!(p.version_name, "0.0.0");
    assert_eq!(p.version_code, 0);
    assert_eq!(p.backup_date, "2024-01-02T03:04:05.678");
    assert_eq!(p.cpu_arch, "arm64-v8a");
    assert_eq!(p.size, 0);
}

#[test]
fn empty_package_is_dropped() {
    let none = presence_of(&strings(&["notes.txt"]));
    assert_eq!(none, Presence { has_apk: false, has_app_data: false, has_protected_data: false });
    assert!(plan_package(10, "com.example.app", &time(), none).is_none());
    let de_only = Presence { has_apk: false, has_app_data: false, has_protected_data: true };
    assert!(plan_package(0, "com.example.app", &time(), de_only).is_some());
}

#[test]
fn dated_names_pad_and_sign() {
    let mut t = time();
    t.year = 12345;
    t.nanosecond = 1_005_000_000;
    assert_eq!(backup_dir_name(&t, -3), "+12345-01-02-03-04-05-005-user_-3");
    t.year = -44;
    assert_eq!(backup_date(&t), "-0044-01-02T03:04:05.005");
    t.year = 7;
    assert_eq!(backup_date(&t), "0007-01-02T03:04:05.005");
}

#[test]
fn local_time_of_a_timestamp() {
    let t = BackupTime::from_unix(1_700_000_000, 5_000_000).unwrap();
    assert_eq!(t.year, 2023);
    assert_eq!(t.month, 11);
    assert_eq!(t.nanosecond, 5_000_000);
    assert!(BackupTime::from_unix(i64::MAX, 0).is_none());
}

#[test]
fn apk_files_by_extension() {
    let names = strings(&["base.apk", ".apk", "split.apk", "notes.txt", "x.apk.bak"]);
    assert_eq!(apk_files(&names), strings(&["base.apk", "split.apk"]));
}

#[test]
fn decimal_text_and_parsing() {
    assert_eq!(parse_i32("10"), Some(10));
    assert_eq!(parse_i32("-2147483648"), Some(i32::MIN));
    assert_eq!(parse_i32("2147483648"), None);
    assert_eq!(parse_i32("+"), None);
    assert_eq!(parse_i32(""), None);
    assert_eq!(parse_i32("1a"), None);
    assert_eq!(i32_text(i32::MIN), "-2147483648");
    assert_eq!(i32_text(0), "0");
    assert_eq!(segment("/data/user/10", '/', 3), Some("10".to_string()));
    assert_eq!(segment("/data", '/', 2), None);
}
