use vstd::prelude::*;
use vstd::string::StrSliceExecFns;

use crate::error::RdrError;
use crate::image::ObjectInfo;
use crate::text::{
    all_digits, chars_of, contains, digits_only, find, find_in, first_line, first_token,
    first_token_in, has_prefix, is_space, lemma_find_from, lower, lower_equals, next_line,
    after_first_line, chars_le, lemma_lex_reflexive, lemma_lex_total, lemma_lex_transitive, lex_le,
    parse_unsigned, parse_unsigned_in, push_decimal, decimal, same_chars,
    strip_prefix, trim, trim_bounds,
};

verus! {

/// A filesystem mounted from the attached disk.
#[derive(Clone, Debug, PartialEq, Eq)]
pub struct MountedVolume {
    pub source: String,
    pub mount_point: String,
}

impl View for MountedVolume {
    type V = (Seq<char>, Seq<char>);

    open spec fn view(&self) -> (Seq<char>, Seq<char>) {
        (self.source@, self.mount_point@)
    }
}

/// The persisted state of one mount session.
#[derive(Clone, Debug, PartialEq, Eq)]
pub struct MountSession {
    pub version: u32,
    pub id: String,
    pub image: String,
    pub object: u32,
    pub server_pid: u32,
    pub listen_port: u16,
    pub nfs_mount: String,
    pub raw_file: String,
    pub nfs_mounted: bool,
    pub device: Option<String>,
    pub volumes: Vec<MountedVolume>,
    pub complete: bool,
    pub platform: String,
    pub created_unix_seconds: u64,
}

/// One block device of the listing that `lsblk` prints.
#[derive(Debug)]
pub struct BlockDevice {
    pub path: String,
    pub kind: String,
    pub fstype: Option<String>,
    pub children: Vec<BlockDevice>,
}

/// The hosts on which mount sessions are supported.
#[derive(Clone, Copy, Debug, PartialEq, Eq, Structural)]
pub enum HostPlatform {
    MacOs,
    Linux,
}

/// The platform that the operating system named `os` is, or the refusal of
/// a host that mount sessions do not support.
pub open spec fn supported_host(os: Seq<char>) -> Result<HostPlatform, RdrError> {
    if os == seq!['m', 'a', 'c', 'o', 's'] {
        Ok(HostPlatform::MacOs)
    } else if os == seq!['l', 'i', 'n', 'u', 'x'] {
        Ok(HostPlatform::Linux)
    } else {
        Err(RdrError::UnsupportedHost)
    }
}

/// Refuses hosts other than macOS and Linux, named as `std::env::consts::OS` names them.
pub fn ensure_supported_host(os: &str) -> (r: Result<HostPlatform, RdrError>)
    ensures
        r == supported_host(os@),
{
    let name = chars_of(os);
    let macos = chars_of("macos");
    let linux = chars_of("linux");
    proof {
        reveal_strlit("macos");
        reveal_strlit("linux");
        assert(macos@ =~= seq!['m', 'a', 'c', 'o', 's']);
        assert(linux@ =~= seq!['l', 'i', 'n', 'u', 'x']);
    }
    if same_chars(&name, 0, name.len(), &macos) {
        assert(name@.subrange(0, name@.len() as int) =~= name@);
        Ok(HostPlatform::MacOs)
    } else if same_chars(&name, 0, name.len(), &linux) {
        assert(name@.subrange(0, name@.len() as int) =~= name@);
        Ok(HostPlatform::Linux)
    } else {
        assert(name@.subrange(0, name@.len() as int) =~= name@);
        Err(RdrError::UnsupportedHost)
    }
}

/// The first object of the listing with id `id`, or a refusal.
pub fn find_object(objects: &[ObjectInfo], id: u32) -> (r: Result<ObjectInfo, RdrError>)
    ensures
        match r {
            Ok(o) => exists|i: int|
                0 <= i < objects@.len() && objects@[i] == o && o.id == id && forall|j: int|
                    0 <= j < i ==> #[trigger] objects@[j].id != id,
            Err(e) => e == RdrError::ObjectNotFound(id) && forall|j: int|
                0 <= j < objects@.len() ==> #[trigger] objects@[j].id != id,
        },
{
    let mut k: usize = 0;
    while k < objects.len()
        invariant
            k <= objects@.len(),
            forall|j: int| 0 <= j < k ==> #[trigger] objects@[j].id != id,
        decreases objects@.len() - k,
    {
        if objects[k].id == id {
            return Ok(objects[k]);
        }
        k = k + 1;
    }
    Err(RdrError::ObjectNotFound(id))
}

/// Chooses the object to mount without asking: the requested one, or the
/// only one. Several objects and no request are refused with
/// `SeveralObjects`, so that the caller can ask.
pub fn select_object(objects: &[ObjectInfo], requested: Option<u32>) -> (r: Result<
    ObjectInfo,
    RdrError,
>)
    ensures
        objects@.len() == 0 ==> r == Err::<ObjectInfo, RdrError>(RdrError::NoIndexedObjects),
        objects@.len() > 0 ==> (requested matches Some(id) ==> match r {
            Ok(o) => exists|i: int|
                0 <= i < objects@.len() && objects@[i] == o && o.id == id && forall|j: int|
                    0 <= j < i ==> #[trigger] objects@[j].id != id,
            Err(e) => e == RdrError::ObjectNotFound(id) && forall|j: int|
                0 <= j < objects@.len() ==> #[trigger] objects@[j].id != id,
        }),
        objects@.len() == 1 && requested is None ==> r == Ok::<ObjectInfo, RdrError>(objects@[0]),
        objects@.len() > 1 && requested is None ==> r == Err::<ObjectInfo, RdrError>(
            RdrError::SeveralObjects,
        ),
{
    if objects.len() == 0 {
        return Err(RdrError::NoIndexedObjects);
    }
    match requested {
        Some(id) => find_object(objects, id),
        None => if objects.len() == 1 {
            Ok(objects[0])
        } else {
            Err(RdrError::SeveralObjects)
        },
    }
}

/// Reads the object number that was typed in: trimmed, then a `u32`.
pub fn parse_object_number(input: &str) -> (r: Result<u32, RdrError>)
    ensures
        match parse_unsigned(trim(input@), u32::MAX as nat) {
            Some(v) => r == Ok::<u32, RdrError>(v as u32),
            None => r == Err::<u32, RdrError>(RdrError::InvalidObjectNumber),
        },
{
    let chars = chars_of(input);
    let (a, b) = trim_bounds(&chars);
    match parse_unsigned_in(&chars, a, b, u32::MAX) {
        Some(v) => Ok(v),
        None => Err(RdrError::InvalidObjectNumber),
    }
}

/// Reads the port that the server wrote to its ready file: trimmed, a `u16`,
/// and not zero, since port zero means that the server selected no port to
/// be reached on; waiting for the server refuses it as an invalid port.
pub fn parse_ready_port(contents: &str) -> (r: Result<u16, RdrError>)
    ensures
        match parse_unsigned(trim(contents@), u16::MAX as nat) {
            Some(v) => r == if v == 0 {
                Err::<u16, RdrError>(RdrError::ZeroServerPort)
            } else {
                Ok::<u16, RdrError>(v as u16)
            },
            None => r == Err::<u16, RdrError>(RdrError::InvalidServerPort),
        },
{
    let chars = chars_of(contents);
    let (a, b) = trim_bounds(&chars);
    match parse_unsigned_in(&chars, a, b, 0xffff) {
        Some(v) => if v == 0 {
            Err(RdrError::ZeroServerPort)
        } else {
            Ok(v as u16)
        },
        None => Err(RdrError::InvalidServerPort),
    }
}

/// Reads the loop device that `losetup --show` printed: its output, trimmed,
/// which must not be empty.
pub fn parse_loop_device(output: &str) -> (r: Result<String, RdrError>)
    ensures
        match r {
            Ok(device) => device@ == trim(output@) && device@.len() > 0,
            Err(e) => e == RdrError::NoLoopDevice && trim(output@).len() == 0,
        },
{
    let chars = chars_of(output);
    let (a, b) = trim_bounds(&chars);
    if a == b {
        return Err(RdrError::NoLoopDevice);
    }
    Ok(output.substring_char(a, b).to_owned())
}

/// What `status` reports of a session: stale when its server is gone, else
/// active or incomplete.
#[derive(Clone, Copy, Debug, PartialEq, Eq)]
pub enum SessionState {
    Stale,
    Active,
    Incomplete,
}

/// The state of a session whose server runs or not.
pub fn session_state(server_running: bool, complete: bool) -> (s: SessionState)
    ensures
        s == if !server_running {
            SessionState::Stale
        } else if complete {
            SessionState::Active
        } else {
            SessionState::Incomplete
        },
{
    if !server_running {
        SessionState::Stale
    } else if complete {
        SessionState::Active
    } else {
        SessionState::Incomplete
    }
}

/// The word that names the program in a server's command line.
pub open spec fn program_word() -> Seq<char> {
    seq!['r', 'd', 'r', 'k', 'i', 't']
}

/// The subcommand of a server's command line, with its spaces.
pub open spec fn serve_word() -> Seq<char> {
    seq![' ', 's', 'e', 'r', 'v', 'e', ' ']
}

/// Whether a process command line is the server of `session`: it names the
/// program, the `serve` subcommand, and the session's image.
pub fn server_command_matches(session: &MountSession, command: &str) -> (b: bool)
    ensures
        b == (contains(command@, program_word()) && contains(command@, serve_word()) && contains(
            command@,
            session.image@,
        )),
{
    let text = chars_of(command);
    let program = chars_of("rdrkit");
    let serve = chars_of(" serve ");
    let image = chars_of(session.image.as_str());
    proof {
        reveal_strlit("rdrkit");
        reveal_strlit(" serve ");
        assert(program@ =~= program_word());
        assert(serve@ =~= serve_word());
        assert(text@.subrange(0, text@.len() as int) =~= text@);
    }
    find_in(&text, 0, text.len(), &program).is_some() && find_in(&text, 0, text.len(), &serve).is_some()
        && find_in(&text, 0, text.len(), &image).is_some()
}

/// The prefix of a whole-disk device name on macOS.
pub open spec fn disk_prefix() -> Seq<char> {
    seq!['/', 'd', 'e', 'v', '/', 'd', 'i', 's', 'k']
}

/// The whole disk that one line of `hdiutil attach` names: its first token,
/// when it is `/dev/disk` followed by digits only.
pub open spec fn whole_disk_of_line(line: Seq<char>) -> Option<Seq<char>> {
    match first_token(line) {
        None => None,
        Some(tok) => match strip_prefix(tok, disk_prefix()) {
            Some(suffix) => if all_digits(suffix) {
                Some(tok)
            } else {
                None
            },
            None => None,
        },
    }
}

/// The first whole disk named by a line of `t`.
pub open spec fn first_whole_disk(t: Seq<char>) -> Option<Seq<char>>
    decreases t.len(),
{
    if t.len() == 0 {
        None
    } else {
        match whole_disk_of_line(first_line(t)) {
            Some(d) => Some(d),
            None => first_whole_disk(after_first_line(t)),
        }
    }
}

/// Finds the whole disk in the output of `hdiutil attach`.
pub fn parse_macos_whole_disk(output: &str) -> (r: Option<String>)
    ensures
        match first_whole_disk(output@) {
            Some(d) => r matches Some(s) && s@ == d,
            None => r is None,
        },
{
    let chars = chars_of(output);
    let prefix = chars_of("/dev/disk");
    proof {
        reveal_strlit("/dev/disk");
        assert(prefix@ =~= disk_prefix());
        assert(chars@.skip(0) =~= chars@);
    }
    let n = chars.len();
    let mut start: usize = 0;
    while start < n
        invariant
            n == chars@.len(),
            start <= n,
            chars@ == output@,
            prefix@ == disk_prefix(),
            first_whole_disk(output@) == first_whole_disk(chars@.skip(start as int)),
        decreases n - start,
    {
        let (ls, le, next) = next_line(&chars, start);
        let ghost t = chars@.skip(start as int);
        let ghost line = first_line(t);
        match first_token_in(&chars, ls, le) {
            Some((a, b)) => {
                if has_prefix(&chars, a, b, &prefix) && digits_only(&chars, a + 9, b) {
                    proof {
                        let tok = chars@.subrange(a as int, b as int);
                        assert(chars@.subrange(a + 9, b as int) =~= tok.skip(9));
                    }
                    return Some(output.substring_char(a, b).to_owned());
                }
                proof {
                    let tok = chars@.subrange(a as int, b as int);
                    if strip_prefix(tok, disk_prefix()) is Some {
                        assert(chars@.subrange(a + 9, b as int) =~= tok.skip(9));
                    }
                }
            },
            None => {},
        }
        start = next;
    }
    proof {
        assert(chars@.skip(n as int).len() == 0);
    }
    None
}

/// The separator of the source and the mount point in a line of `mount`.
pub open spec fn on_word() -> Seq<char> {
    seq![' ', 'o', 'n', ' ']
}

/// The separator of the mount point and the options in a line of `mount`.
pub open spec fn options_word() -> Seq<char> {
    seq![' ', '(']
}

/// `str::split_once`: what precedes and what follows the first occurrence of `p`.
pub open spec fn split_once(s: Seq<char>, p: Seq<char>) -> Option<(Seq<char>, Seq<char>)> {
    match find(s, p) {
        Some(k) => Some((s.take(k), s.skip(k + p.len()))),
        None => None,
    }
}

/// A device suffix that names a slice: `s` followed by at least one digit.
pub open spec fn is_slice_suffix(suffix: Seq<char>) -> bool {
    suffix.len() > 1 && suffix[0] == 's' && all_digits(suffix.drop_first())
}

/// The volume that one line of `mount` shows for `device`: the source is the
/// device itself or one of its slices, the mount point is what follows
/// ` on `, up to ` (` when there is one.
pub open spec fn volume_of_line(device: Seq<char>, line: Seq<char>) -> Option<
    (Seq<char>, Seq<char>),
> {
    match split_once(line, on_word()) {
        None => None,
        Some((source, rest)) => match strip_prefix(source, device) {
            None => None,
            Some(suffix) => if suffix.len() != 0 && !is_slice_suffix(suffix) {
                None
            } else {
                let mount_point = match split_once(rest, options_word()) {
                    Some((path, _)) => path,
                    None => rest,
                };
                Some((source, mount_point))
            },
        },
    }
}

/// The volumes that the lines of `t` show for `device`, in order.
pub open spec fn volumes_in(device: Seq<char>, t: Seq<char>) -> Seq<(Seq<char>, Seq<char>)>
    decreases t.len(),
{
    if t.len() == 0 {
        Seq::empty()
    } else {
        let here = match volume_of_line(device, first_line(t)) {
            Some(v) => seq![v],
            None => Seq::empty(),
        };
        here + volumes_in(device, after_first_line(t))
    }
}

/// The volumes of `device` that the output of `mount` shows, in order.
#[verifier::rlimit(60)]
#[verifier::spinoff_prover]
pub fn parse_macos_mounts(device: &str, output: &str) -> (volumes: Vec<MountedVolume>)
    ensures
        volumes@.map_values(|v: MountedVolume| v@) == volumes_in(device@, output@),
{
    let chars = chars_of(output);
    let dev = chars_of(device);
    let on = chars_of(" on ");
    let options = chars_of(" (");
    proof {
        reveal_strlit(" on ");
        reveal_strlit(" (");
        assert(on@ =~= on_word());
        assert(options@ =~= options_word());
        assert(chars@.skip(0) =~= chars@);
    }
    let n = chars.len();
    let mut volumes: Vec<MountedVolume> = Vec::new();
    let mut start: usize = 0;
    while start < n
        invariant
            n == chars@.len(),
            start <= n,
            chars@ == output@,
            dev@ == device@,
            on@ == on_word(),
            options@ == options_word(),
            volumes_in(device@, output@) == volumes@.map_values(|v: MountedVolume| v@)
                + volumes_in(device@, chars@.skip(start as int)),
        decreases n - start,
    {
        let (ls, le, next) = next_line(&chars, start);
        let ghost t = chars@.skip(start as int);
        let ghost line = chars@.subrange(ls as int, le as int);
        let ghost before = volumes@.map_values(|v: MountedVolume| v@);
        proof {
            lemma_find_from(line, on_word(), 0);
        }
        match find_in(&chars, ls, le, &on) {
            None => {
                assert(volume_of_line(device@, line) is None);
            },
            Some(k) => {
                proof {
                    assert(line.take(k - ls) =~= chars@.subrange(ls as int, k as int));
                    assert(line.skip(k - ls + 4) =~= chars@.subrange(k + 4, le as int));
                }
                let rest_start = k + 4;
                if has_prefix(&chars, ls, k, &dev) {
                    let suffix_start = ls + dev.len();
                    let ghost suffix = chars@.subrange(suffix_start as int, k as int);
                    proof {
                        let source = chars@.subrange(ls as int, k as int);
                        assert(source.skip(dev@.len() as int) =~= suffix);
                    }
                    let whole = suffix_start == k;
                    let slice = k - suffix_start > 1 && chars[suffix_start] == 's' && digits_only(
                        &chars,
                        suffix_start + 1,
                        k,
                    );
                    proof {
                        if k - suffix_start > 1 {
                            assert(suffix.drop_first() =~= chars@.subrange(suffix_start + 1, k as int));
                        }
                    }
                    if whole || slice {
                        proof {
                            lemma_find_from(chars@.subrange(rest_start as int, le as int), options_word(), 0);
                        }
                        let mount_end = match find_in(&chars, rest_start, le, &options) {
                            Some(p) => {
                                proof {
                                    let rest = chars@.subrange(rest_start as int, le as int);
                                    assert(rest.take(p - rest_start) =~= chars@.subrange(
                                        rest_start as int,
                                        p as int,
                                    ));
                                }
                                p
                            },
                            None => le,
                        };
                        let volume = MountedVolume {
                            source: output.substring_char(ls, k).to_owned(),
                            mount_point: output.substring_char(rest_start, mount_end).to_owned(),
                        };
                        volumes.push(volume);
                        proof {
                            assert(volumes@.map_values(|v: MountedVolume| v@) =~= before.push(
                                volume@,
                            ));
                            assert(volume_of_line(device@, line) == Some(volume@));
                        }
                    } else {
                        assert(volume_of_line(device@, line) is None);
                    }
                } else {
                    assert(volume_of_line(device@, line) is None);
                }
            },
        }
        proof {
            assert(line == first_line(t));
            let after = volumes@.map_values(|v: MountedVolume| v@);
            assert(volumes_in(device@, t) == (match volume_of_line(device@, first_line(t)) {
                Some(v) => seq![v],
                None => Seq::<(Seq<char>, Seq<char>)>::empty(),
            }) + volumes_in(device@, chars@.skip(next as int)));
            assert(after == before + (match volume_of_line(device@, line) {
                Some(v) => seq![v],
                None => Seq::<(Seq<char>, Seq<char>)>::empty(),
            }));
            assert(before + volumes_in(device@, t) =~= after + volumes_in(
                device@,
                chars@.skip(next as int),
            ));
        }
        start = next;
    }
    proof {
        assert(chars@.skip(n as int).len() == 0);
        assert(volumes_in(device@, output@) =~= volumes@.map_values(|v: MountedVolume| v@));
    }
    volumes
}

/// The filesystem types that hold no mountable filesystem of their own
/// (swap, encrypted, LVM, RAID and ZFS members), in lower case.
pub open spec fn container_fstype(lowered: Seq<char>) -> bool {
    ||| lowered == seq!['s', 'w', 'a', 'p']
    ||| lowered == seq!['c', 'r', 'y', 'p', 't', 'o', '_', 'l', 'u', 'k', 's']
    ||| lowered == seq!['l', 'v', 'm', '2', '_', 'm', 'e', 'm', 'b', 'e', 'r']
    ||| lowered == seq![
        'l',
        'i',
        'n',
        'u',
        'x',
        '_',
        'r',
        'a',
        'i',
        'd',
        '_',
        'm',
        'e',
        'm',
        'b',
        'e',
        'r',
    ]
    ||| lowered == seq!['z', 'f', 's', '_', 'm', 'e', 'm', 'b', 'e', 'r']
}

/// A filesystem type worth mounting: named, and not a container, whatever
/// its ASCII case.
pub open spec fn mountable_fstype(value: Seq<char>) -> bool {
    value.len() > 0 && !container_fstype(lower(value))
}

/// Whether a filesystem type is worth mounting.
pub fn is_mountable_fstype(value: &str) -> (b: bool)
    ensures
        b == mountable_fstype(value@),
{
    let chars = chars_of(value);
    if chars.len() == 0 {
        return false;
    }
    let swap = chars_of("swap");
    let luks = chars_of("crypto_luks");
    let lvm = chars_of("lvm2_member");
    let raid = chars_of("linux_raid_member");
    let zfs = chars_of("zfs_member");
    proof {
        reveal_strlit("swap");
        reveal_strlit("crypto_luks");
        reveal_strlit("lvm2_member");
        reveal_strlit("linux_raid_member");
        reveal_strlit("zfs_member");
        assert(swap@ =~= seq!['s', 'w', 'a', 'p']);
        assert(luks@ =~= seq!['c', 'r', 'y', 'p', 't', 'o', '_', 'l', 'u', 'k', 's']);
        assert(lvm@ =~= seq!['l', 'v', 'm', '2', '_', 'm', 'e', 'm', 'b', 'e', 'r']);
        assert(raid@ =~= seq![
            'l',
            'i',
            'n',
            'u',
            'x',
            '_',
            'r',
            'a',
            'i',
            'd',
            '_',
            'm',
            'e',
            'm',
            'b',
            'e',
            'r',
        ]);
        assert(zfs@ =~= seq!['z', 'f', 's', '_', 'm', 'e', 'm', 'b', 'e', 'r']);
    }
    !(lower_equals(&chars, &swap) || lower_equals(&chars, &luks) || lower_equals(&chars, &lvm)
        || lower_equals(&chars, &raid) || lower_equals(&chars, &zfs))
}

/// The device kinds whose filesystems are mounted: loop devices and partitions.
pub open spec fn mountable_kind(kind: Seq<char>) -> bool {
    kind == seq!['l', 'o', 'o', 'p'] || kind == seq!['p', 'a', 'r', 't']
}

/// The block device itself holds a filesystem to mount.
pub open spec fn block_selected(b: BlockDevice) -> bool {
    &&& b.fstype matches Some(f) && mountable_fstype(f@)
    &&& mountable_kind(b.kind@)
}

/// The paths of the block devices to mount in the tree under `b`, in
/// pre-order: the device, then its children's trees in order.
pub open spec fn mountable_paths(b: BlockDevice) -> Seq<Seq<char>>
    decreases b,
{
    (if block_selected(b) {
        seq![b.path@]
    } else {
        Seq::empty()
    }) + mountable_paths_list(b.children@)
}

/// The paths of the block devices to mount in the trees of `bs`, in order.
pub open spec fn mountable_paths_list(bs: Seq<BlockDevice>) -> Seq<Seq<char>>
    decreases bs,
{
    if bs.len() == 0 {
        Seq::empty()
    } else {
        mountable_paths_list(bs.drop_last()) + mountable_paths(bs.last())
    }
}

/// Appends the paths of the block devices to mount in the tree under `block`.
pub fn collect_mountable_blocks(block: &BlockDevice, output: &mut Vec<String>)
    ensures
        final(output)@.map_values(|s: String| s@) == old(output)@.map_values(|s: String| s@)
            + mountable_paths(*block),
    decreases block,
{
    let ghost start = output@.map_values(|s: String| s@);
    let mut selected = false;
    match &block.fstype {
        Some(f) => {
            let kind = chars_of(block.kind.as_str());
            let loop_kind = chars_of("loop");
            let part_kind = chars_of("part");
            proof {
                reveal_strlit("loop");
                reveal_strlit("part");
                assert(loop_kind@ =~= seq!['l', 'o', 'o', 'p']);
                assert(part_kind@ =~= seq!['p', 'a', 'r', 't']);
                assert(kind@.subrange(0, kind@.len() as int) =~= kind@);
            }
            selected = is_mountable_fstype(f.as_str()) && (same_chars(
                &kind,
                0,
                kind.len(),
                &loop_kind,
            ) || same_chars(&kind, 0, kind.len(), &part_kind));
        },
        None => {},
    }
    assert(selected == block_selected(*block));
    if selected {
        output.push(block.path.clone());
    }
    let ghost own = output@.map_values(|s: String| s@);
    assert(own =~= start + if block_selected(*block) {
        seq![block.path@]
    } else {
        Seq::<Seq<char>>::empty()
    });
    let n = block.children.len();
    let mut i: usize = 0;
    while i < n
        invariant
            n == block.children@.len(),
            i <= n,
            output@.map_values(|s: String| s@) == own + mountable_paths_list(
                block.children@.take(i as int),
            ),
        decreases n - i,
    {
        let ghost before = output@.map_values(|s: String| s@);
        collect_mountable_blocks(&block.children[i], output);
        proof {
            let t = block.children@.take(i + 1);
            assert(t.drop_last() =~= block.children@.take(i as int));
            assert(t.last() == block.children@[i as int]);
            assert(output@.map_values(|s: String| s@) =~= own + mountable_paths_list(t));
        }
        i = i + 1;
    }
    assert(block.children@.take(n as int) =~= block.children@);
    assert(output@.map_values(|s: String| s@) =~= start + mountable_paths(*block));
}

/// The paths to mount in the whole `lsblk` listing, in order.
pub fn mountable_candidates(devices: &Vec<BlockDevice>) -> (paths: Vec<String>)
    ensures
        paths@.map_values(|s: String| s@) == mountable_paths_list(devices@),
{
    let mut paths: Vec<String> = Vec::new();
    let n = devices.len();
    let mut i: usize = 0;
    while i < n
        invariant
            n == devices@.len(),
            i <= n,
            paths@.map_values(|s: String| s@) == mountable_paths_list(devices@.take(i as int)),
        decreases n - i,
    {
        collect_mountable_blocks(&devices[i], &mut paths);
        proof {
            let t = devices@.take(i + 1);
            assert(t.drop_last() =~= devices@.take(i as int));
            assert(t.last() == devices@[i as int]);
        }
        i = i + 1;
    }
    assert(devices@.take(n as int) =~= devices@);
    paths
}

/// Whether two strings hold the same characters.
pub fn str_eq(a: &str, b: &str) -> (same: bool)
    ensures
        same == (a@ == b@),
{
    let x = chars_of(a);
    let y = chars_of(b);
    assert(x@.subrange(0, x@.len() as int) =~= x@);
    same_chars(&x, 0, x.len(), &y)
}

/// Session `i` has the id `target`.
pub open spec fn id_matches(sessions: Seq<MountSession>, target: Seq<char>, i: int) -> bool {
    sessions[i].id@ == target
}

/// Session `i` uses the image at `path`.
pub open spec fn image_matches(sessions: Seq<MountSession>, path: Option<Seq<char>>, i: int) -> bool {
    path == Some(sessions[i].image@)
}

/// The optional characters of an optional string.
pub open spec fn opt_chars(p: Option<&str>) -> Option<Seq<char>> {
    match p {
        Some(s) => Some(s@),
        None => None,
    }
}

/// Finds the session that `target` names: the first whose id it is, else the
/// only one that uses the image at `target_path` (the target resolved as a
/// path, when it resolves). Returns the session's position.
pub fn resolve_session(sessions: &Vec<MountSession>, target: &str, target_path: Option<&str>) -> (r:
    Result<usize, RdrError>)
    ensures
        match r {
            Ok(i) => i < sessions@.len() && ((id_matches(sessions@, target@, i as int) && forall|
                j: int,
            | 0 <= j < i ==> !#[trigger] id_matches(sessions@, target@, j)) || ((forall|j: int|
                0 <= j < sessions@.len() ==> !#[trigger] id_matches(sessions@, target@, j))
                && image_matches(sessions@, opt_chars(target_path), i as int) && forall|j: int|
                0 <= j < sessions@.len() && j != i ==> !#[trigger] image_matches(
                    sessions@,
                    opt_chars(target_path),
                    j,
                ))),
            Err(RdrError::AmbiguousSession) => (forall|j: int|
                0 <= j < sessions@.len() ==> !#[trigger] id_matches(sessions@, target@, j))
                && exists|a: int, b: int|
                0 <= a < b < sessions@.len() && image_matches(sessions@, opt_chars(target_path), a)
                    && image_matches(sessions@, opt_chars(target_path), b),
            Err(RdrError::SessionNotFound) => (forall|j: int|
                0 <= j < sessions@.len() ==> !#[trigger] id_matches(sessions@, target@, j))
                && forall|j: int|
                0 <= j < sessions@.len() ==> !#[trigger] image_matches(
                    sessions@,
                    opt_chars(target_path),
                    j,
                ),
            Err(_) => false,
        },
{
    let n = sessions.len();
    let mut i: usize = 0;
    while i < n
        invariant
            n == sessions@.len(),
            i <= n,
            forall|j: int| 0 <= j < i ==> !#[trigger] id_matches(sessions@, target@, j),
        decreases n - i,
    {
        if str_eq(sessions[i].id.as_str(), target) {
            return Ok(i);
        }
        i = i + 1;
    }
    let path = match target_path {
        Some(p) => p,
        None => {
            return Err(RdrError::SessionNotFound);
        },
    };
    let mut found: Option<usize> = None;
    let mut k: usize = 0;
    while k < n
        invariant
            n == sessions@.len(),
            k <= n,
            target_path == Some(path),
            forall|j: int| 0 <= j < n ==> !#[trigger] id_matches(sessions@, target@, j),
            match found {
                None => forall|j: int|
                    0 <= j < k ==> !#[trigger] image_matches(sessions@, opt_chars(target_path), j),
                Some(f) => f < k && image_matches(sessions@, opt_chars(target_path), f as int)
                    && forall|j: int|
                    0 <= j < k && j != f ==> !#[trigger] image_matches(
                        sessions@,
                        opt_chars(target_path),
                        j,
                    ),
            },
        decreases n - k,
    {
        if str_eq(sessions[k].image.as_str(), path) {
            match found {
                Some(f) => {
                    assert(image_matches(sessions@, opt_chars(target_path), k as int));
                    return Err(RdrError::AmbiguousSession);
                },
                None => {
                    found = Some(k);
                },
            }
        }
        k = k + 1;
    }
    match found {
        Some(f) => Ok(f),
        None => Err(RdrError::SessionNotFound),
    }
}

/// One step of taking a session's resources down.
#[derive(Clone, Debug, PartialEq, Eq)]
pub enum CleanupStep {
    /// Unmount the filesystem mounted at this point (Linux).
    UnmountVolume(String),
    /// Detach the attached disk or loop device.
    DetachDevice(String),
    /// Unmount the localhost NFS export.
    UnmountNfs,
}

impl MountSession {
    /// Nothing is left to take down on `platform`: on Linux no volume, on
    /// both no device and no NFS mount. (On macOS detaching the disk
    /// unmounts its volumes.)
    pub open spec fn cleaned(self, platform: HostPlatform) -> bool {
        &&& platform == HostPlatform::Linux ==> self.volumes@.len() == 0
        &&& self.device is None
        &&& !self.nfs_mounted
    }

    /// How many steps at most are left to take down on `platform`.
    pub open spec fn cleanup_measure(self, platform: HostPlatform) -> nat {
        (if platform == HostPlatform::Linux {
            self.volumes@.len()
        } else {
            0
        }) + (if self.device is Some {
            1nat
        } else {
            0nat
        }) + (if self.nfs_mounted {
            1nat
        } else {
            0nat
        })
    }

    /// The next step to take down on `platform`, in reverse order of setting
    /// up: volumes last mounted first (Linux), then the device, then NFS.
    pub open spec fn spec_next_cleanup_step(self, platform: HostPlatform) -> Option<CleanupStep> {
        if platform == HostPlatform::Linux && self.volumes@.len() > 0 {
            Some(CleanupStep::UnmountVolume(self.volumes@.last().mount_point))
        } else if self.device is Some {
            Some(CleanupStep::DetachDevice(self.device->Some_0))
        } else if self.nfs_mounted {
            Some(CleanupStep::UnmountNfs)
        } else {
            None
        }
    }

    /// The next step to take down on `platform`, or `None` when clean.
    pub fn next_cleanup_step(&self, platform: HostPlatform) -> (step: Option<CleanupStep>)
        ensures
            step == self.spec_next_cleanup_step(platform),
            step is None <==> self.cleaned(platform),
    {
        if platform == HostPlatform::Linux && self.volumes.len() > 0 {
            let last = self.volumes.len() - 1;
            return Some(CleanupStep::UnmountVolume(self.volumes[last].mount_point.clone()));
        }
        match &self.device {
            Some(device) => Some(CleanupStep::DetachDevice(device.clone())),
            None => if self.nfs_mounted {
                Some(CleanupStep::UnmountNfs)
            } else {
                None
            },
        }
    }

    /// Records that the step done on `platform` succeeded.
    pub fn complete_cleanup_step(&mut self, platform: HostPlatform, step: &CleanupStep)
        requires
            old(self).spec_next_cleanup_step(platform) == Some(*step),
        ensures
            final(self).cleanup_measure(platform) < old(self).cleanup_measure(platform),
            match *step {
                CleanupStep::UnmountVolume(_) => *final(self) == MountSession {
                    volumes: final(self).volumes,
                    ..*old(self)
                } && final(self).volumes@ == old(self).volumes@.drop_last(),
                CleanupStep::DetachDevice(_) => *final(self) == MountSession {
                    device: None,
                    volumes: final(self).volumes,
                    ..*old(self)
                } && final(self).volumes@ == if platform == HostPlatform::MacOs {
                    Seq::empty()
                } else {
                    old(self).volumes@
                },
                CleanupStep::UnmountNfs => *final(self) == MountSession {
                    nfs_mounted: false,
                    ..*old(self)
                },
            },
    {
        match step {
            CleanupStep::UnmountVolume(_) => {
                self.volumes.pop();
            },
            CleanupStep::DetachDevice(_) => {
                self.device = None;
                if platform == HostPlatform::MacOs {
                    self.volumes.clear();
                }
            },
            CleanupStep::UnmountNfs => {
                self.nfs_mounted = false;
            },
        }
    }
}

/// The options with which the localhost export is mounted, on port `port`.
pub open spec fn nfs_options(port: u16) -> Seq<char> {
    seq![
        'r',
        'o',
        ',',
        'n',
        'o',
        'l',
        'o',
        'c',
        'k',
        's',
        ',',
        'v',
        'e',
        'r',
        's',
        '=',
        '3',
        ',',
        't',
        'c',
        'p',
        ',',
        'r',
        's',
        'i',
        'z',
        'e',
        '=',
        '1',
        '3',
        '1',
        '0',
        '7',
        '2',
        ',',
        'a',
        'c',
        't',
        'i',
        'm',
        'e',
        'o',
        '=',
        '1',
        ',',
        'p',
        'o',
        'r',
        't',
        '=',
    ] + decimal(port as nat) + seq![',', 'm', 'o', 'u', 'n', 't', 'p', 'o', 'r', 't', '=']
        + decimal(port as nat)
}

/// Builds the NFS mount options for port `port`.
pub fn nfs_mount_options(port: u16) -> (options: String)
    ensures
        options@ == nfs_options(port),
{
    let mut options = String::from_str("ro,nolocks,vers=3,tcp,rsize=131072,actimeo=1,port=");
    push_decimal(&mut options, port as u64);
    options.append(",mountport=");
    push_decimal(&mut options, port as u64);
    proof {
        reveal_strlit("ro,nolocks,vers=3,tcp,rsize=131072,actimeo=1,port=");
        reveal_strlit(",mountport=");
        assert(options@ =~= nfs_options(port));
    }
    options
}

/// The name of the directory where the `index`-th mounted filesystem goes:
/// `volume-<index + 1>`.
pub fn volume_dir_name(index: usize) -> (name: String)
    requires
        index < usize::MAX,
    ensures
        name@ == seq!['v', 'o', 'l', 'u', 'm', 'e', '-'] + decimal((index + 1) as nat),
{
    let mut name = String::from_str("volume-");
    push_decimal(&mut name, (index + 1) as u64);
    proof {
        reveal_strlit("volume-");
        assert(name@ =~= seq!['v', 'o', 'l', 'u', 'm', 'e', '-'] + decimal((index + 1) as nat));
    }
    name
}

/// The strings that a list of string literals views as.
pub open spec fn views(v: Seq<String>) -> Seq<Seq<char>> {
    v.map_values(|s: String| s@)
}

/// Where session state is kept, as path components to join in order: under
/// `$RDRKIT_STATE_DIR` when it is set; else on macOS under
/// `~/Library/Application Support/rdrkit`, elsewhere under
/// `$XDG_STATE_HOME/rdrkit` or `~/.local/state/rdrkit`.
pub open spec fn spec_sessions_root(
    state_dir: Option<Seq<char>>,
    xdg_state_home: Option<Seq<char>>,
    home: Option<Seq<char>>,
    macos: bool,
) -> Result<Seq<Seq<char>>, RdrError> {
    let sessions = seq!['s', 'e', 's', 's', 'i', 'o', 'n', 's'];
    let rdrkit = seq!['r', 'd', 'r', 'k', 'i', 't'];
    match state_dir {
        Some(dir) => Ok(seq![dir, sessions]),
        None => if macos {
            match home {
                Some(h) => Ok(
                    seq![
                        h,
                        seq!['L', 'i', 'b', 'r', 'a', 'r', 'y'],
                        seq![
                            'A',
                            'p',
                            'p',
                            'l',
                            'i',
                            'c',
                            'a',
                            't',
                            'i',
                            'o',
                            'n',
                            ' ',
                            'S',
                            'u',
                            'p',
                            'p',
                            'o',
                            'r',
                            't',
                        ],
                        rdrkit,
                        sessions,
                    ],
                ),
                None => Err(RdrError::HomeNotSet),
            }
        } else {
            match xdg_state_home {
                Some(x) => Ok(seq![x, rdrkit, sessions]),
                None => match home {
                    Some(h) => Ok(
                        seq![
                            h,
                            seq!['.', 'l', 'o', 'c', 'a', 'l'],
                            seq!['s', 't', 'a', 't', 'e'],
                            rdrkit,
                            sessions,
                        ],
                    ),
                    None => Err(RdrError::HomeNotSet),
                },
            }
        },
    }
}

/// The optional characters of an optional owned string.
pub open spec fn opt_string(p: Option<String>) -> Option<Seq<char>> {
    match p {
        Some(s) => Some(s@),
        None => None,
    }
}

fn push_part(parts: &mut Vec<String>, part: String)
    ensures
        views(final(parts)@) == views(old(parts)@).push(part@),
{
    parts.push(part);
    assert(views(parts@) =~= views(old(parts)@).push(part@));
}

/// Where session state is kept, given the environment it depends on.
pub fn sessions_root(
    state_dir: Option<String>,
    xdg_state_home: Option<String>,
    home: Option<String>,
    macos: bool,
) -> (r: Result<Vec<String>, RdrError>)
    ensures
        match r {
            Ok(v) => spec_sessions_root(
                opt_string(state_dir),
                opt_string(xdg_state_home),
                opt_string(home),
                macos,
            ) == Ok::<Seq<Seq<char>>, RdrError>(views(v@)),
            Err(e) => spec_sessions_root(
                opt_string(state_dir),
                opt_string(xdg_state_home),
                opt_string(home),
                macos,
            ) == Err::<Seq<Seq<char>>, RdrError>(e),
        },
{
    proof {
        reveal_strlit("sessions");
        reveal_strlit("rdrkit");
        reveal_strlit("Library");
        reveal_strlit("Application Support");
        reveal_strlit(".local");
        reveal_strlit("state");
        assert("sessions"@ =~= seq!['s', 'e', 's', 's', 'i', 'o', 'n', 's']);
        assert("rdrkit"@ =~= seq!['r', 'd', 'r', 'k', 'i', 't']);
        assert("Library"@ =~= seq!['L', 'i', 'b', 'r', 'a', 'r', 'y']);
        assert("Application Support"@ =~= seq![
            'A',
            'p',
            'p',
            'l',
            'i',
            'c',
            'a',
            't',
            'i',
            'o',
            'n',
            ' ',
            'S',
            'u',
            'p',
            'p',
            'o',
            'r',
            't',
        ]);
        assert(".local"@ =~= seq!['.', 'l', 'o', 'c', 'a', 'l']);
        assert("state"@ =~= seq!['s', 't', 'a', 't', 'e']);
    }
    let ghost expected = spec_sessions_root(
        opt_string(state_dir),
        opt_string(xdg_state_home),
        opt_string(home),
        macos,
    );
    let mut parts: Vec<String> = Vec::new();
    assert(views(parts@) =~= Seq::<Seq<char>>::empty());
    match state_dir {
        Some(dir) => {
            push_part(&mut parts, dir);
        },
        None => if macos {
            match home {
                Some(h) => {
                    push_part(&mut parts, h);
                    push_part(&mut parts, String::from_str("Library"));
                    push_part(&mut parts, String::from_str("Application Support"));
                    push_part(&mut parts, String::from_str("rdrkit"));
                },
                None => {
                    return Err(RdrError::HomeNotSet);
                },
            }
        } else {
            match xdg_state_home {
                Some(x) => {
                    push_part(&mut parts, x);
                    push_part(&mut parts, String::from_str("rdrkit"));
                },
                None => match home {
                    Some(h) => {
                        push_part(&mut parts, h);
                        push_part(&mut parts, String::from_str(".local"));
                        push_part(&mut parts, String::from_str("state"));
                        push_part(&mut parts, String::from_str("rdrkit"));
                    },
                    None => {
                        return Err(RdrError::HomeNotSet);
                    },
                },
            }
        },
    }
    push_part(&mut parts, String::from_str("sessions"));
    assert(views(parts@) =~= expected->Ok_0);
    Ok(parts)
}

/// The positions of the sessions ordered by id, sessions with equal ids in
/// their listed order (a stable sort by id).
pub fn order_by_id(sessions: &Vec<MountSession>) -> (order: Vec<usize>)
    ensures
        order@.len() == sessions@.len(),
        forall|i: int| 0 <= i < order@.len() ==> order@[i] < sessions@.len(),
        forall|i: int, j: int| 0 <= i < j < order@.len() ==> order@[i] != order@[j],
        forall|i: int, j: int|
            0 <= i < j < order@.len() ==> lex_le(
                sessions@[order@[i] as int].id@,
                sessions@[order@[j] as int].id@,
            ),
        forall|i: int, j: int|
            0 <= i < j < order@.len() && sessions@[order@[i] as int].id@
                == sessions@[order@[j] as int].id@ ==> order@[i] < order@[j],
{
    let n = sessions.len();
    let mut ids: Vec<Vec<char>> = Vec::new();
    let mut k: usize = 0;
    while k < n
        invariant
            n == sessions@.len(),
            k <= n,
            ids@.len() == k,
            forall|j: int| 0 <= j < k ==> #[trigger] ids@[j]@ == sessions@[j].id@,
        decreases n - k,
    {
        ids.push(chars_of(sessions[k].id.as_str()));
        k = k + 1;
    }
    let mut order: Vec<usize> = Vec::new();
    let mut k: usize = 0;
    while k < n
        invariant
            n == sessions@.len(),
            n == ids@.len(),
            k <= n,
            forall|j: int| 0 <= j < n ==> #[trigger] ids@[j]@ == sessions@[j].id@,
            order@.len() == k,
            forall|i: int| 0 <= i < order@.len() ==> order@[i] < k,
            forall|i: int, j: int| 0 <= i < j < order@.len() ==> order@[i] != order@[j],
            forall|i: int, j: int|
                0 <= i < j < order@.len() ==> lex_le(
                    ids@[order@[i] as int]@,
                    ids@[order@[j] as int]@,
                ),
            forall|i: int, j: int|
                0 <= i < j < order@.len() && ids@[order@[i] as int]@ == ids@[order@[j] as int]@
                    ==> order@[i] < order@[j],
        decreases n - k,
    {
        let mut pos = order.len();
        while pos > 0 && !chars_le(&ids[order[pos - 1]], &ids[k])
            invariant
                n == ids@.len(),
                k < n,
                pos <= order@.len(),
                forall|i: int| 0 <= i < order@.len() ==> order@[i] < k,
                forall|i: int|
                    pos <= i < order@.len() ==> !lex_le(ids@[order@[i] as int]@, ids@[k as int]@),
            decreases pos,
        {
            pos = pos - 1;
        }
        let ghost before = order@;
        let ghost key = ids@[k as int]@;
        order.insert(pos, k);
        proof {
            assert forall|i: int| 0 <= i < order@.len() implies order@[i] < k + 1 by {
                if i < pos {
                    assert(order@[i] == before[i]);
                } else if i > pos {
                    assert(order@[i] == before[i - 1]);
                }
            }
            assert forall|i: int, j: int| 0 <= i < j < order@.len() implies order@[i] != order@[j] by {
                if i < pos && j > pos {
                    assert(order@[j] == before[j - 1]);
                } else if i > pos {
                    assert(order@[i] == before[i - 1]);
                    assert(order@[j] == before[j - 1]);
                } else if i < pos && j < pos {
                } else if i == pos {
                    assert(order@[j] == before[j - 1]);
                } else {
                    assert(order@[i] == before[i]);
                }
            }
            assert forall|i: int, j: int|
                0 <= i < j < order@.len() implies lex_le(
                ids@[order@[i] as int]@,
                ids@[order@[j] as int]@,
            ) && (ids@[order@[i] as int]@ == ids@[order@[j] as int]@ ==> order@[i] < order@[j]) by {
                if j < pos {
                } else if i < pos && j == pos {
                    let last = ids@[before[pos - 1] as int]@;
                    assert(lex_le(last, key));
                    if i < pos - 1 {
                        lemma_lex_transitive(ids@[before[i] as int]@, last, key);
                    }
                } else if i < pos && j > pos {
                    assert(order@[j] == before[j - 1]);
                    if j - 1 > i {
                    }
                } else if i == pos {
                    assert(order@[j] == before[j - 1]);
                    let other = ids@[before[j - 1] as int]@;
                    assert(!lex_le(other, key));
                    lemma_lex_total(other, key);
                    if other == key {
                        lemma_lex_reflexive(key);
                    }
                } else {
                    assert(order@[i] == before[i - 1]);
                    assert(order@[j] == before[j - 1]);
                }
            }
        }
        k = k + 1;
    }
    order
}

} // verus!
