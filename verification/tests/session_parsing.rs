use rdrkit::error::RdrError;
use rdrkit::image::ObjectInfo;
use rdrkit::session::{
    collect_mountable_blocks, ensure_supported_host, is_mountable_fstype, mountable_candidates,
    nfs_mount_options, order_by_id, parse_loop_device, parse_macos_mounts, parse_macos_whole_disk,
    parse_object_number, parse_ready_port, resolve_session, select_object,
    server_command_matches, session_state, sessions_root, volume_dir_name, BlockDevice, CleanupStep,
    HostPlatform, MountSession, MountedVolume, SessionState,
};

fn object(id: u32, size: u64) -> ObjectInfo {
    ObjectInfo {
        id,
        logical_size: size,
        chunks: 1,
        chunk_size: size as u32,
    }
}

fn session(image: &str) -> MountSession {
    MountSession {
        version: 1,
        id: "session-1".to_owned(),
        image: image.to_owned(),
        object: 3,
        server_pid: 42,
        listen_port: 12_345,
        nfs_mount: "/state/nfs".to_owned(),
        raw_file: "/state/nfs/object-3.raw".to_owned(),
        nfs_mounted: true,
        device: None,
        volumes: Vec::new(),
        complete: true,
        platform: "macos".to_owned(),
        created_unix_seconds: 123,
    }
}

fn block(path: &str, kind: &str, fstype: Option<&str>, children: Vec<BlockDevice>) -> BlockDevice {
    BlockDevice {
        path: path.to_owned(),
        kind: kind.to_owned(),
        fstype: fstype.map(|value| value.to_owned()),
        children,
    }
}

#[test]
fn selects_requested_or_only_object() -> Result<(), RdrError> {
    let objects = vec![object(3, 512), object(7, 1_024)];
    assert_eq!(select_object(&objects, Some(7))?.id, 7);
    assert_eq!(select_object(&objects[..1], None)?.id, 3);
    assert!(select_object(&objects, Some(9)).is_err());
    Ok(())
}

#[test]
fn select_object_refusals() {
    let objects = vec![object(3, 512), object(7, 1_024)];
    assert_eq!(select_object(&[], Some(3)), Err(RdrError::NoIndexedObjects));
    assert_eq!(select_object(&objects, None), Err(RdrError::SeveralObjects));
    assert_eq!(select_object(&objects, Some(9)), Err(RdrError::ObjectNotFound(9)));
}

#[test]
fn parses_whole_disk_from_hdiutil_output() {
    let output = "/dev/disk9\tGUID_partition_scheme\n/dev/disk9s1\tEFI\n";
    assert_eq!(
        parse_macos_whole_disk(output).as_deref(),
        Some("/dev/disk9")
    );
}

#[test]
fn whole_disk_skips_slices_and_other_lines() {
    let output = "  /dev/disk4s2 \tApple_APFS\r\nsomething else\n   /dev/disk12   \tGUID\n";
    assert_eq!(parse_macos_whole_disk(output).as_deref(), Some("/dev/disk12"));
    assert_eq!(parse_macos_whole_disk("/dev/disk3s1\tEFI"), None);
    assert_eq!(parse_macos_whole_disk(""), None);
    assert_eq!(parse_macos_whole_disk("\n\n"), None);
}

#[test]
fn finds_only_slices_belonging_to_macos_disk() {
    let output = [
        "/dev/disk9s1 on /Volumes/Data (ntfs, local, read-only)\n",
        "/dev/disk90s1 on /Volumes/Other (apfs, local)\n",
        "/dev/disk9 on /Volumes/Whole (ntfs, local, read-only)\n",
    ]
    .concat();
    let output = output.as_str();
    let volumes = parse_macos_mounts("/dev/disk9", output);
    assert_eq!(volumes.len(), 2);
    assert_eq!(volumes[0].source, "/dev/disk9s1");
    assert_eq!(volumes[0].mount_point, "/Volumes/Data");
    assert_eq!(volumes[1].source, "/dev/disk9");
    assert_eq!(volumes[1].mount_point, "/Volumes/Whole");
}

#[test]
fn mount_lines_without_options_keep_the_whole_mount_point() {
    let output = "/dev/disk9s12 on /Volumes/No Options\n/dev/disk9s on /Volumes/Bad\n/dev/disk9sx1 on /x (y)\n";
    let volumes = parse_macos_mounts("/dev/disk9", output);
    assert_eq!(
        volumes,
        vec![MountedVolume {
            source: "/dev/disk9s12".to_owned(),
            mount_point: "/Volumes/No Options".to_owned(),
        }]
    );
}

#[test]
fn matches_only_the_recorded_server_process() {
    let session = session("/images/backup with spaces.rdr");
    assert!(server_command_matches(
        &session,
        "/usr/local/bin/rdrkit serve '/images/backup with spaces.rdr' --object 3"
    ));
    assert!(!server_command_matches(
        &session,
        "/usr/local/bin/rdrkit list '/images/backup with spaces.rdr'"
    ));
    assert!(!server_command_matches(
        &session,
        "/usr/local/bin/rdrkit serve /images/other.rdr --object 3"
    ));
}

#[test]
fn finds_mountable_loop_filesystems() {
    let listing = vec![block(
        "/dev/loop0",
        "loop",
        None,
        vec![block("/dev/loop0p1", "part", Some("ntfs"), Vec::new())],
    )];
    let mut found = Vec::new();
    collect_mountable_blocks(&listing[0], &mut found);
    assert_eq!(found, ["/dev/loop0p1"]);
}

#[test]
fn collects_blocks_in_pre_order() {
    let listing = vec![
        block(
            "/dev/loop1",
            "loop",
            Some("ext4"),
            vec![
                block("/dev/loop1p1", "part", Some("swap"), Vec::new()),
                block("/dev/loop1p2", "part", Some("XFS"), Vec::new()),
                block("/dev/loop1p3", "disk", Some("ext4"), Vec::new()),
            ],
        ),
        block("/dev/loop2", "loop", Some("LVM2_member"), Vec::new()),
    ];
    assert_eq!(mountable_candidates(&listing), ["/dev/loop1", "/dev/loop1p2"]);
}

#[test]
fn rejects_linux_container_filesystems() {
    for value in [
        "swap",
        "crypto_LUKS",
        "LVM2_member",
        "linux_raid_member",
        "zfs_member",
    ] {
        assert!(
            !is_mountable_fstype(value),
            "unexpected mountable type: {value}"
        );
    }
    assert!(is_mountable_fstype("ntfs"));
    assert!(is_mountable_fstype("ext4"));
}

#[test]
fn empty_filesystem_type_is_not_mountable() {
    assert!(!is_mountable_fstype(""));
    assert!(is_mountable_fstype("swapfs"));
    assert!(is_mountable_fstype("SWAP2"));
}

#[test]
fn reads_object_numbers_and_ports() {
    assert_eq!(parse_object_number(" 7\n"), Ok(7));
    assert_eq!(parse_object_number("+12"), Ok(12));
    assert_eq!(parse_object_number("4294967295"), Ok(u32::MAX));
    assert_eq!(parse_object_number("4294967296"), Err(RdrError::InvalidObjectNumber));
    assert_eq!(parse_object_number("-1"), Err(RdrError::InvalidObjectNumber));
    assert_eq!(parse_object_number("+"), Err(RdrError::InvalidObjectNumber));
    assert_eq!(parse_object_number("   "), Err(RdrError::InvalidObjectNumber));
    assert_eq!(parse_object_number("1 2"), Err(RdrError::InvalidObjectNumber));
    assert_eq!(parse_ready_port("11111\n"), Ok(11111));
    assert_eq!(parse_ready_port("0"), Err(RdrError::ZeroServerPort));
    assert_eq!(parse_ready_port("65536"), Err(RdrError::InvalidServerPort));
    assert_eq!(parse_ready_port("port"), Err(RdrError::InvalidServerPort));
}

#[test]
fn written_port_reads_back() {
    for port in [1_u16, 9, 10, 4096, 11111, u16::MAX] {
        assert_eq!(parse_ready_port(&port.to_string()), Ok(port));
    }
}

#[test]
fn reads_loop_device() {
    assert_eq!(parse_loop_device("/dev/loop99\n"), Ok("/dev/loop99".to_owned()));
    assert_eq!(parse_loop_device(" \n"), Err(RdrError::NoLoopDevice));
}

#[test]
fn supported_hosts() {
    assert_eq!(ensure_supported_host("macos"), Ok(HostPlatform::MacOs));
    assert_eq!(ensure_supported_host("linux"), Ok(HostPlatform::Linux));
    assert_eq!(ensure_supported_host("windows"), Err(RdrError::UnsupportedHost));
}

#[test]
fn session_states() {
    assert_eq!(session_state(false, true), SessionState::Stale);
    assert_eq!(session_state(true, true), SessionState::Active);
    assert_eq!(session_state(true, false), SessionState::Incomplete);
}

#[test]
fn resolves_sessions_by_id_then_image() {
    let mut first = session("/images/a.rdr");
    first.id = "s-1".to_owned();
    let mut second = session("/images/b.rdr");
    second.id = "s-2".to_owned();
    let mut third = session("/images/b.rdr");
    third.id = "s-3".to_owned();
    let sessions = vec![first, second, third];
    assert_eq!(resolve_session(&sessions, "s-2", None), Ok(1));
    assert_eq!(resolve_session(&sessions, "x", Some("/images/a.rdr")), Ok(0));
    assert_eq!(
        resolve_session(&sessions, "x", Some("/images/b.rdr")),
        Err(RdrError::AmbiguousSession)
    );
    assert_eq!(
        resolve_session(&sessions, "x", Some("/images/c.rdr")),
        Err(RdrError::SessionNotFound)
    );
    assert_eq!(resolve_session(&sessions, "x", None), Err(RdrError::SessionNotFound));
}

#[test]
fn linux_cleanup_takes_resources_down_in_reverse() {
    let mut s = session("/images/a.rdr");
    s.device = Some("/dev/loop99".to_owned());
    s.volumes = vec![
        MountedVolume {
            source: "/dev/loop99p1".to_owned(),
            mount_point: "/v/1".to_owned(),
        },
        MountedVolume {
            source: "/dev/loop99p2".to_owned(),
            mount_point: "/v/2".to_owned(),
        },
    ];
    let mut steps = Vec::new();
    while let Some(step) = s.next_cleanup_step(HostPlatform::Linux) {
        s.complete_cleanup_step(HostPlatform::Linux, &step);
        steps.push(step);
    }
    assert_eq!(
        steps,
        vec![
            CleanupStep::UnmountVolume("/v/2".to_owned()),
            CleanupStep::UnmountVolume("/v/1".to_owned()),
            CleanupStep::DetachDevice("/dev/loop99".to_owned()),
            CleanupStep::UnmountNfs,
        ]
    );
    assert!(s.device.is_none() && s.volumes.is_empty() && !s.nfs_mounted);
}

#[test]
fn macos_cleanup_detaches_the_disk_with_its_volumes() {
    let mut s = session("/images/a.rdr");
    s.device = Some("/dev/disk99".to_owned());
    s.volumes = vec![MountedVolume {
        source: "/dev/disk99s1".to_owned(),
        mount_point: "/Volumes/Test".to_owned(),
    }];
    let first = s.next_cleanup_step(HostPlatform::MacOs);
    assert_eq!(first, Some(CleanupStep::DetachDevice("/dev/disk99".to_owned())));
    s.complete_cleanup_step(HostPlatform::MacOs, &first.unwrap());
    assert!(s.volumes.is_empty());
    assert_eq!(s.next_cleanup_step(HostPlatform::MacOs), Some(CleanupStep::UnmountNfs));
    s.complete_cleanup_step(HostPlatform::MacOs, &CleanupStep::UnmountNfs);
    assert_eq!(s.next_cleanup_step(HostPlatform::MacOs), None);
}

#[test]
fn builds_mount_options_and_volume_names() {
    assert_eq!(
        nfs_mount_options(11111),
        "ro,nolocks,vers=3,tcp,rsize=131072,actimeo=1,port=11111,mountport=11111"
    );
    assert_eq!(volume_dir_name(0), "volume-1");
    assert_eq!(volume_dir_name(9), "volume-10");
}

fn named(id: &str) -> MountSession {
    let mut record = session("/images/backup.rdr");
    record.id = id.to_owned();
    record
}

#[test]
fn orders_sessions_by_id_keeping_ties_in_place() {
    let sessions = vec![named("b"), named("a2"), named("a"), named("b"), named("a10")];
    assert_eq!(order_by_id(&sessions), vec![2, 4, 1, 0, 3]);
    assert_eq!(order_by_id(&Vec::new()), Vec::<usize>::new());
}

#[test]
fn locates_the_sessions_directory() {
    let owned = |s: &str| Some(s.to_owned());
    assert_eq!(
        sessions_root(owned("/state"), owned("/xdg"), owned("/home/u"), false),
        Ok(vec!["/state".to_owned(), "sessions".to_owned()])
    );
    assert_eq!(
        sessions_root(None, owned("/xdg"), owned("/home/u"), false),
        Ok(vec!["/xdg".to_owned(), "rdrkit".to_owned(), "sessions".to_owned()])
    );
    assert_eq!(
        sessions_root(None, None, owned("/home/u"), false),
        Ok(vec![
            "/home/u".to_owned(),
            ".local".to_owned(),
            "state".to_owned(),
            "rdrkit".to_owned(),
            "sessions".to_owned()
        ])
    );
    assert_eq!(
        sessions_root(None, owned("/xdg"), owned("/Users/u"), true),
        Ok(vec![
            "/Users/u".to_owned(),
            "Library".to_owned(),
            "Application Support".to_owned(),
            "rdrkit".to_owned(),
            "sessions".to_owned()
        ])
    );
    assert_eq!(sessions_root(None, None, None, false), Err(RdrError::HomeNotSet));
    assert_eq!(sessions_root(None, owned("/xdg"), None, true), Err(RdrError::HomeNotSet));
}
