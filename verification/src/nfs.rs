use vstd::prelude::*;

use vstd::utf8::encode_utf8;

use crate::object::IndexedObject;

verus! {

/// File id of the exported directory.
pub const ROOT_FILE_ID: u64 = 1;
/// File id of the exported raw file.
pub const RAW_FILE_ID: u64 = 2;
/// File-system id reported for the export.
pub const EXPORT_FSID: u64 = 0x5244_524b_4954;

/// The NFS status with which a request is refused.
#[derive(Clone, Copy, Debug, PartialEq, Eq)]
pub enum NfsError {
    NoEntry,
    NotDirectory,
    IsDirectory,
    Io,
    ReadOnly,
    Invalid,
}

/// The kind of an exported file.
#[derive(Clone, Copy, Debug, PartialEq, Eq)]
pub enum FileKind {
    Directory,
    Regular,
}

/// The attributes of an exported file that are not zero or default.
#[derive(Clone, Copy, Debug, PartialEq, Eq)]
pub struct FileAttributes {
    pub kind: FileKind,
    pub mode: u32,
    pub nlink: u32,
    pub size: u64,
    pub used: u64,
    pub fsid: u64,
    pub fileid: u64,
}

/// One entry of the exported directory.
#[derive(Clone, Debug, PartialEq, Eq)]
pub struct DirectoryEntry {
    pub fileid: u64,
    pub name: Vec<u8>,
    pub attr: FileAttributes,
}

/// The static information of the export.
#[derive(Clone, Copy, Debug, PartialEq, Eq)]
pub struct FsInfo {
    pub root: FileAttributes,
    pub rtmax: u32,
    pub rtpref: u32,
    pub rtmult: u32,
    pub wtmax: u32,
    pub wtpref: u32,
    pub wtmult: u32,
    pub dtpref: u32,
    pub maxfilesize: u64,
    pub time_delta_seconds: u32,
    pub time_delta_nanos: u32,
}

/// The attributes of file `id` of the export of an object of `size` bytes: a
/// read-only directory that holds a read-only file of the object's size.
pub open spec fn spec_attributes(size: u64, id: u64) -> Result<FileAttributes, NfsError> {
    if id == ROOT_FILE_ID {
        Ok(
            FileAttributes {
                kind: FileKind::Directory,
                mode: 0o555,
                nlink: 2,
                size: 0,
                used: 0,
                fsid: EXPORT_FSID,
                fileid: id,
            },
        )
    } else if id == RAW_FILE_ID {
        Ok(
            FileAttributes {
                kind: FileKind::Regular,
                mode: 0o444,
                nlink: 1,
                size,
                used: size,
                fsid: EXPORT_FSID,
                fileid: id,
            },
        )
    } else {
        Err(NfsError::NoEntry)
    }
}

impl IndexedObject {
    /// The bytes of the exported file's name.
    pub open spec fn name_bytes(self) -> Seq<u8> {
        encode_utf8(self.filename@)
    }

    /// The attributes of file `id`.
    pub fn attributes(&self, id: u64) -> (r: Result<FileAttributes, NfsError>)
        ensures
            r == spec_attributes(self.index.logical_size, id),
    {
        if id == ROOT_FILE_ID {
            Ok(
                FileAttributes {
                    kind: FileKind::Directory,
                    mode: 0o555,
                    nlink: 2,
                    size: 0,
                    used: 0,
                    fsid: EXPORT_FSID,
                    fileid: id,
                },
            )
        } else if id == RAW_FILE_ID {
            Ok(
                FileAttributes {
                    kind: FileKind::Regular,
                    mode: 0o444,
                    nlink: 1,
                    size: self.index.logical_size,
                    used: self.index.logical_size,
                    fsid: EXPORT_FSID,
                    fileid: id,
                },
            )
        } else {
            Err(NfsError::NoEntry)
        }
    }

    /// Looks `name` up in directory `dirid`: only the raw file, in the root.
    pub fn lookup(&self, dirid: u64, name: &[u8]) -> (r: Result<u64, NfsError>)
        ensures
            r == if dirid != ROOT_FILE_ID {
                Err(NfsError::NotDirectory)
            } else if name@ == self.name_bytes() {
                Ok(RAW_FILE_ID)
            } else {
                Err(NfsError::NoEntry)
            },
    {
        if dirid != ROOT_FILE_ID {
            return Err(NfsError::NotDirectory);
        }
        let own = self.filename.as_str().as_bytes();
        if own.len() != name.len() {
            return Err(NfsError::NoEntry);
        }
        let mut k: usize = 0;
        while k < own.len()
            invariant
                dirid == ROOT_FILE_ID,
                own@ == self.name_bytes(),
                own@.len() == name@.len(),
                k <= own@.len(),
                forall|j: int| 0 <= j < k ==> own@[j] == name@[j],
            decreases own@.len() - k,
        {
            if own[k] != name[k] {
                assert(own@[k as int] != name@[k as int]);

                return Err(NfsError::NoEntry);
            }
            k = k + 1;
        }
        assert(own@ =~= name@);
        Ok(RAW_FILE_ID)
    }

    /// Whether file `id` can be read: the directory cannot, unknown ids do
    /// not exist.
    pub fn read_target(&self, id: u64) -> (r: Result<(), NfsError>)
        ensures
            r == if id == ROOT_FILE_ID {
                Err(NfsError::IsDirectory)
            } else if id != RAW_FILE_ID {
                Err(NfsError::NoEntry)
            } else {
                Ok::<(), NfsError>(())
            },
    {
        if id == ROOT_FILE_ID {
            Err(NfsError::IsDirectory)
        } else if id != RAW_FILE_ID {
            Err(NfsError::NoEntry)
        } else {
            Ok(())
        }
    }

    /// Whether a read of `len` bytes at `offset` reaches the end of the file.
    pub fn read_reaches_end(&self, offset: u64, len: usize) -> (eof: bool)
        ensures
            eof == (offset + len >= self.index.logical_size),
    {
        let len = len as u64;
        if offset > u64::MAX - len {
            true
        } else {
            offset + len >= self.index.logical_size
        }
    }

    /// The entries of directory `dirid` after `start_after`: the raw file,
    /// when it comes after `start_after` and one entry is asked for.
    pub fn readdir(&self, dirid: u64, start_after: u64, max_entries: usize) -> (r: Result<
        Vec<DirectoryEntry>,
        NfsError,
    >)
        ensures
            dirid != ROOT_FILE_ID ==> r == Err::<Vec<DirectoryEntry>, NfsError>(
                NfsError::NotDirectory,
            ),
            dirid == ROOT_FILE_ID ==> (r matches Ok(v) && if start_after < RAW_FILE_ID && max_entries
                > 0 {
                &&& v@.len() == 1
                &&& v@[0].fileid == RAW_FILE_ID
                &&& v@[0].name@ == self.name_bytes()
                &&& spec_attributes(self.index.logical_size, RAW_FILE_ID) == Ok::<
                    FileAttributes,
                    NfsError,
                >(v@[0].attr)
            } else {
                v@.len() == 0
            }),
    {
        if dirid != ROOT_FILE_ID {
            return Err(NfsError::NotDirectory);
        }
        let mut entries: Vec<DirectoryEntry> = Vec::new();
        if start_after < RAW_FILE_ID && max_entries > 0 {
            let own = self.filename.as_str().as_bytes();
            let mut name: Vec<u8> = Vec::new();
            let mut k: usize = 0;
            while k < own.len()
                invariant
                    k <= own@.len(),
                    name@ == own@.take(k as int),
                decreases own@.len() - k,
            {
                name.push(own[k]);
                k = k + 1;
            }
            assert(name@ =~= own@);
            let attr = match self.attributes(RAW_FILE_ID) {
                Ok(a) => a,
                Err(e) => return Err(e),
            };
            entries.push(DirectoryEntry { fileid: RAW_FILE_ID, name, attr });
        }
        Ok(entries)
    }

    /// The static information of the export: read-only, its root directory's
    /// attributes, and the transfer sizes it prefers.
    pub fn fs_info(&self) -> (info: FsInfo)
        ensures
            spec_attributes(self.index.logical_size, ROOT_FILE_ID) == Ok::<FileAttributes, NfsError>(
                info.root,
            ),
            info.rtmax == 1024 * 1024,
            info.rtpref == 128 * 1024,
            info.rtmult == 4096,
            info.wtmax == 0 && info.wtpref == 0 && info.wtmult == 0,
            info.dtpref == 4096,
            info.maxfilesize == u64::MAX,
            info.time_delta_seconds == 0,
            info.time_delta_nanos == 1_000_000,
    {
        let root = FileAttributes {
            kind: FileKind::Directory,
            mode: 0o555,
            nlink: 2,
            size: 0,
            used: 0,
            fsid: EXPORT_FSID,
            fileid: ROOT_FILE_ID,
        };
        FsInfo {
            root,
            rtmax: 1024 * 1024,
            rtpref: 128 * 1024,
            rtmult: 4096,
            wtmax: 0,
            wtpref: 0,
            wtmult: 0,
            dtpref: 4096,
            maxfilesize: u64::MAX,
            time_delta_seconds: 0,
            time_delta_nanos: 1_000_000,
        }
    }
}

} // verus!
