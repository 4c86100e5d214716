//! The overlay filesystem core: the inode and file-handle tables, the
//! attribute mapping, and the per-request decisions that gate every open
//! and access check on the rule engine.
//!
//! The overlay mirrors one source directory. Everything the kernel
//! protocol and the descriptor-relative syscalls need is computed here
//! from plain values; the caller performs the syscalls, always anchored at
//! the descriptor of the source directory that was captured before the
//! overlay was mounted, and hands the outcomes back.

use vstd::prelude::*;

use crate::logfmt::u64_to_dec;
use crate::logfmt::spec_dec;
use crate::rules::spec_denies;
use crate::rules::spec_excludes;
use crate::rules::AccessRules;
use crate::rules::Operation;
use crate::rules::RulesModel;
use crate::strutil::path_join;
use crate::strutil::spec_path_join;
use crate::strutil::str_eq;

verus! {

/// The access-mode bits of open flags, as on Linux.
pub const ACCESS_MODE_MASK: i32 = 0o3;

/// Open for reading only.
pub const ACCESS_MODE_READ_ONLY: i32 = 0;

/// Open for writing only.
pub const ACCESS_MODE_WRITE_ONLY: i32 = 1;

/// Open for reading and writing.
pub const ACCESS_MODE_READ_WRITE: i32 = 2;

/// The append flag, as on Linux.
pub const OPEN_APPEND: i32 = 0o2000;

/// The nonblocking flag, as on Linux.
pub const OPEN_NONBLOCK: i32 = 0o4000;

/// No such file or directory.
pub const ERRNO_NOENT: i32 = 2;

/// Input/output error.
pub const ERRNO_IO: i32 = 5;

/// Bad file descriptor.
pub const ERRNO_BADF: i32 = 9;

/// Permission denied.
pub const ERRNO_ACCES: i32 = 13;

/// The read bit of an access-check mask.
pub const ACCESS_READ_BIT: i32 = 4;

/// The write bit of an access-check mask.
pub const ACCESS_WRITE_BIT: i32 = 2;

/// The execute bit of an access-check mask.
pub const ACCESS_EXEC_BIT: i32 = 1;

/// The file-type bits of a stat mode, as on Linux.
pub const MODE_TYPE_MASK: u32 = 0o170000;

/// The directory file type.
pub const MODE_DIRECTORY: u32 = 0o040000;

/// The symbolic-link file type.
pub const MODE_SYMLINK: u32 = 0o120000;

/// The permission bits of a stat mode.
pub const MODE_PERM_MASK: u32 = 0o7777;

/// A file's kind as the overlay reports it.
#[derive(Clone, Copy, Debug, PartialEq, Eq, Structural)]
pub enum FileKind {
    Directory,
    Symlink,
    Regular,
}

/// The fields of a stat result that the overlay consumes, as plain
/// values.
#[derive(Clone, Copy, Debug)]
pub struct StatData {
    pub mode: u32,
    pub size: u64,
    pub blocks: u64,
    pub atime_secs: u64,
    pub mtime_secs: u64,
    pub ctime_secs: u64,
    pub nlink: u32,
    pub uid: u32,
    pub gid: u32,
    pub rdev: u32,
    pub blksize: u32,
}

/// The attributes the overlay replies with.
#[derive(Clone, Copy, Debug)]
pub struct FileAttrData {
    pub ino: u64,
    pub size: u64,
    pub blocks: u64,
    pub atime_secs: u64,
    pub mtime_secs: u64,
    pub ctime_secs: u64,
    pub crtime_secs: u64,
    pub kind: FileKind,
    pub perm: u16,
    pub nlink: u32,
    pub uid: u32,
    pub gid: u32,
    pub rdev: u32,
    pub blksize: u32,
}

/// The file kind encoded in a stat mode: directory, symbolic link, or
/// anything else reported as a regular file.
pub open spec fn spec_kind_of_mode(mode: u32) -> FileKind {
    if mode & MODE_TYPE_MASK == MODE_DIRECTORY {
        FileKind::Directory
    } else if mode & MODE_TYPE_MASK == MODE_SYMLINK {
        FileKind::Symlink
    } else {
        FileKind::Regular
    }
}

/// Maps a stat result to the attributes replied for inode `ino`: the kind
/// from the type bits, the permissions masked to their low bits, times
/// passed through as seconds, and a creation time of the epoch.
pub fn attr_from_stat(ino: u64, st: &StatData) -> (r: FileAttrData)
    ensures
        r.ino == ino,
        r.size == st.size,
        r.blocks == st.blocks,
        r.atime_secs == st.atime_secs,
        r.mtime_secs == st.mtime_secs,
        r.ctime_secs == st.ctime_secs,
        r.crtime_secs == 0,
        r.kind == spec_kind_of_mode(st.mode),
        r.perm == st.mode & MODE_PERM_MASK,
        r.nlink == st.nlink,
        r.uid == st.uid,
        r.gid == st.gid,
        r.rdev == st.rdev,
        r.blksize == st.blksize,
{
    let type_bits = st.mode & MODE_TYPE_MASK;
    let kind = if type_bits == MODE_DIRECTORY {
        FileKind::Directory
    } else if type_bits == MODE_SYMLINK {
        FileKind::Symlink
    } else {
        FileKind::Regular
    };
    let mode = st.mode;
    let perm_bits = mode & MODE_PERM_MASK;
    proof {
        assert(mode & 0o7777u32 < 0x10000u32) by (bit_vector);
    }
    FileAttrData {
        ino,
        size: st.size,
        blocks: st.blocks,
        atime_secs: st.atime_secs,
        mtime_secs: st.mtime_secs,
        ctime_secs: st.ctime_secs,
        crtime_secs: 0,
        kind,
        perm: perm_bits as u16,
        nlink: st.nlink,
        uid: st.uid,
        gid: st.gid,
        rdev: st.rdev,
        blksize: st.blksize,
    }
}

/// The operation an open with these flags performs: write for write-only
/// or read-write access, read for anything else.
pub open spec fn spec_flags_operation(flags: i32) -> Operation {
    if flags & ACCESS_MODE_MASK == ACCESS_MODE_WRITE_ONLY || flags & ACCESS_MODE_MASK
        == ACCESS_MODE_READ_WRITE {
        Operation::Write
    } else {
        Operation::Read
    }
}

/// Classifies open flags as a read or a write.
pub fn flags_to_operation(flags: i32) -> (r: Operation)
    ensures
        r == spec_flags_operation(flags),
{
    let mode = flags & ACCESS_MODE_MASK;
    if mode == ACCESS_MODE_WRITE_ONLY || mode == ACCESS_MODE_READ_WRITE {
        Operation::Write
    } else {
        Operation::Read
    }
}

/// The relative path handed to a descriptor-relative syscall: the empty
/// path (the source directory itself) becomes the single-dot name.
pub open spec fn spec_syscall_rel(rel: Seq<char>) -> Seq<char> {
    if rel.len() == 0 {
        seq!['.']
    } else {
        rel
    }
}

/// Rewrites the empty relative path to `.` for the `*at` syscalls.
pub fn rel_for_syscall(rel: &str) -> (r: String)
    ensures
        r@ == spec_syscall_rel(rel@),
{
    if rel.unicode_len() == 0 {
        let d = String::from_str(".");
        proof {
            reveal_strlit(".");
            assert(d@ =~= seq!['.']);
        }
        d
    } else {
        rel.to_owned()
    }
}

/// The path of the link that names the caller's executable:
/// `/proc/<pid>/exe`.
pub fn proc_exe_path(pid: u32) -> (r: String)
    ensures
        r@ == "/proc/"@ + spec_dec(pid as int) + "/exe"@,
{
    let mut s = String::from_str("/proc/");
    s.append(u64_to_dec(pid as u64).as_str());
    s.append("/exe");
    proof {
        assert(s@ =~= "/proc/"@ + spec_dec(pid as int) + "/exe"@);
    }
    s
}

/// One open file handle: its id, the backing descriptor obtained by a
/// descriptor-relative open at the source directory, and the virtual path
/// it was opened under.
pub struct FileHandle {
    pub fh: u64,
    pub fd: i32,
    pub vpath: String,
}

/// The mathematical value of a file handle.
pub struct HandleModel {
    pub fh: u64,
    pub fd: i32,
    pub vpath: Seq<char>,
}

impl View for FileHandle {
    type V = HandleModel;

    open spec fn view(&self) -> HandleModel {
        HandleModel { fh: self.fh, fd: self.fd, vpath: self.vpath@ }
    }
}

/// The overlay state for one mounted directory.
pub struct PassthroughFs {
    source_dir: String,
    inode_paths: Vec<String>,
    handles: Vec<FileHandle>,
    next_fh: u64,
    rules: AccessRules,
}

/// The mathematical value of an overlay: the source directory, the inode
/// table (inode `i` is bound to `inodes[i - 1]`), the handle table, and
/// the rules.
pub struct PassthroughModel {
    pub source_dir: Seq<char>,
    pub inodes: Seq<Seq<char>>,
    pub handles: Seq<HandleModel>,
    pub next_fh: u64,
    pub rules: RulesModel,
}

impl View for PassthroughFs {
    type V = PassthroughModel;

    closed spec fn view(&self) -> PassthroughModel {
        PassthroughModel {
            source_dir: self.source_dir@,
            inodes: self.inode_paths.deep_view(),
            handles: Seq::new(self.handles@.len(), |i: int| self.handles@[i]@),
            next_fh: self.next_fh,
            rules: self.rules@,
        }
    }
}

/// A path the overlay may resolve relative to the source descriptor: it
/// is not absolute, so a descriptor-relative syscall cannot step outside
/// its anchor through it.
pub open spec fn rel_path_ok(p: Seq<char>) -> bool {
    p.len() == 0 || p[0] != '/'
}

/// Joining a relative name below a relative path stays relative.
proof fn lemma_join_keeps_relative(dir: Seq<char>, rel: Seq<char>)
    requires
        rel_path_ok(dir),
        rel_path_ok(rel),
    ensures
        rel_path_ok(spec_path_join(dir, rel)),
{
    if rel.len() > 0 && rel[0] != '/' && dir.len() > 0 {
        assert(spec_path_join(dir, rel)[0] == dir[0]);
    }
}

/// The inode table binds inode 1 to the empty path (the source directory
/// itself), binds only relative paths, binds no two inodes to one path,
/// and hands out handle ids below the next free one, each only once.
pub open spec fn overlay_wf(m: PassthroughModel) -> bool {
    &&& m.inodes.len() >= 1
    &&& m.inodes[0] == Seq::<char>::empty()
    &&& (forall|i: int| 0 <= i < m.inodes.len() ==> rel_path_ok(#[trigger] m.inodes[i]))
    &&& (forall|i: int, j: int| 0 <= i < j < m.inodes.len() ==> m.inodes[i] != m.inodes[j])
    &&& (forall|i: int, j: int|
        0 <= i < j < m.handles.len() ==> (#[trigger] m.handles[i].fh) != (#[trigger] m.handles[j].fh))
    &&& (forall|i: int| 0 <= i < m.handles.len() ==> (#[trigger] m.handles[i].fh) < m.next_fh)
    &&& m.next_fh >= 1
}

/// Whether `ino` is bound in the table.
pub open spec fn ino_valid(m: PassthroughModel, ino: u64) -> bool {
    1 <= ino <= m.inodes.len()
}

/// The relative path bound to `ino`.
pub open spec fn ino_path(m: PassthroughModel, ino: u64) -> Seq<char> {
    m.inodes[ino - 1]
}

/// The virtual absolute path of `ino`: its relative path joined below the
/// source directory. Rules and logging speak of this path.
pub open spec fn vpath_of(m: PassthroughModel, ino: u64) -> Seq<char> {
    spec_path_join(m.source_dir, ino_path(m, ino))
}

/// The view of an optional caller-executable path.
pub open spec fn opt_string_view(o: Option<&String>) -> Option<Seq<char>> {
    match o {
        Some(s) => Some(s@),
        None => None,
    }
}

/// Whether the caller bypasses rule enforcement: only a resolved
/// executable that matches an exclusion does; an unknown caller does not.
pub open spec fn spec_caller_excluded(rules: RulesModel, caller: Option<Seq<char>>) -> bool {
    match caller {
        Some(exe) => spec_excludes(rules.excluded, exe),
        None => false,
    }
}

/// What an open request is answered with.
pub enum OpenDecision {
    /// The inode is not bound: reply no-such-entry.
    NoEntry,
    /// The rules deny the operation for this caller: log a denial with
    /// this virtual path and operation, and reply permission denied.
    Denied { vpath: String, op: Operation },
    /// Forward: open `rel` at the source descriptor with the masked
    /// flags, then register the descriptor under `vpath`.
    Allow { rel: String, open_flags: i32, vpath: String },
}

/// What an access request is answered with.
pub enum AccessDecision {
    /// The inode is not bound: reply no-such-entry.
    NoEntry,
    /// The rules deny a requested operation: reply permission denied.
    Denied,
    /// Forward the mask check to `rel` at the source descriptor.
    Forward { rel: String },
}

/// Whether the mask asks for an operation the rules deny on `vpath`.
pub open spec fn spec_access_denied(rules: RulesModel, vpath: Seq<char>, mask: i32) -> bool {
    ||| (mask & ACCESS_READ_BIT != 0 && spec_denies(rules.rules, vpath, Operation::Read))
    ||| (mask & ACCESS_WRITE_BIT != 0 && spec_denies(rules.rules, vpath, Operation::Write))
    ||| (mask & ACCESS_EXEC_BIT != 0 && spec_denies(rules.rules, vpath, Operation::Execute))
}

/// A raw directory entry as enumerated from the backing directory.
#[derive(Debug)]
pub struct RawDirEntry {
    pub name: String,
    pub kind: FileKind,
}

/// One entry of a readdir reply: the inode, the offset of the next entry,
/// the kind and the name.
#[derive(Debug)]
pub struct DirEntryOut {
    pub ino: u64,
    pub next_offset: i64,
    pub kind: FileKind,
    pub name: String,
}

/// One reply entry is right for position `pos` of a directory listing:
/// the synthetic `.` and `..` come first, both reporting the directory's
/// own inode, and the backing entries follow, each bound in the inode
/// table to its path below the directory.
pub open spec fn entry_ok(
    m: PassthroughModel,
    parent_rel: Seq<char>,
    dir_ino: u64,
    listing: Seq<RawDirEntry>,
    e: DirEntryOut,
    pos: int,
) -> bool {
    &&& e.next_offset == pos + 1
    &&& (pos == 0 ==> e.ino == dir_ino && e.kind == FileKind::Directory && e.name@ == seq!['.'])
    &&& (pos == 1 ==> e.ino == dir_ino && e.kind == FileKind::Directory && e.name@ == seq![
        '.',
        '.',
    ])
    &&& (2 <= pos && pos - 2 < listing.len() ==> {
        &&& e.name@ == listing[pos - 2].name@
        &&& e.kind == listing[pos - 2].kind
        &&& ino_valid(m, e.ino)
        &&& ino_path(m, e.ino) == spec_path_join(parent_rel, listing[pos - 2].name@)
    })
}

/// The raw entries with the real `.` and `..` taken out, in order.
pub open spec fn spec_non_dot(raw: Seq<RawDirEntry>) -> Seq<RawDirEntry>
    decreases raw.len(),
{
    if raw.len() == 0 {
        Seq::empty()
    } else {
        let pre = spec_non_dot(raw.drop_last());
        if raw.last().name@ == seq!['.'] || raw.last().name@ == seq!['.', '.'] {
            pre
        } else {
            pre.push(raw.last())
        }
    }
}

impl PassthroughFs {
    /// A fresh overlay for one source directory: inode 1 bound to the
    /// directory itself, no open handles.
    pub fn new(source_dir: String, rules: AccessRules) -> (r: PassthroughFs)
        ensures
            r.wf(),
            r@.source_dir == source_dir@,
            r@.inodes =~= seq![Seq::<char>::empty()],
            r@.handles =~= Seq::<HandleModel>::empty(),
            r@.next_fh == 1,
            r@.rules == rules@,
    {
        let mut inode_paths: Vec<String> = Vec::new();
        inode_paths.push(String::new());
        let r = PassthroughFs { source_dir, inode_paths, handles: Vec::new(), next_fh: 1, rules };
        proof {
            assert(r@.inodes =~= seq![Seq::<char>::empty()]);
            assert(r@.handles =~= Seq::<HandleModel>::empty());
        }
        r
    }

    /// The table invariant.
    pub open spec fn wf(&self) -> bool {
        overlay_wf(self@)
    }

    /// The number of inodes the table binds.
    pub fn inode_count(&self) -> (n: usize)
        ensures
            n == self@.inodes.len(),
    {
        self.inode_paths.len()
    }

    /// The next handle id that will be handed out.
    pub fn next_handle_id(&self) -> (n: u64)
        ensures
            n == self@.next_fh,
    {
        self.next_fh
    }

    /// The relative path bound to `ino`, or no-such-entry.
    pub fn node_rel(&self, ino: u64) -> (r: Result<String, i32>)
        ensures
            match r {
                Ok(p) => ino_valid(self@, ino) && p@ == ino_path(self@, ino),
                Err(e) => !ino_valid(self@, ino) && e == ERRNO_NOENT,
            },
    {
        if ino >= 1 && ino <= self.inode_paths.len() as u64 {
            let idx = (ino - 1) as usize;
            Ok(self.inode_paths[idx].clone())
        } else {
            Err(ERRNO_NOENT)
        }
    }

    /// The virtual absolute path of `ino`, or no-such-entry.
    pub fn virtual_path(&self, ino: u64) -> (r: Result<String, i32>)
        ensures
            match r {
                Ok(p) => ino_valid(self@, ino) && p@ == vpath_of(self@, ino),
                Err(e) => !ino_valid(self@, ino) && e == ERRNO_NOENT,
            },
    {
        match self.node_rel(ino) {
            Ok(rel) => Ok(path_join(self.source_dir.as_str(), rel.as_str())),
            Err(e) => Err(e),
        }
    }

    /// The relative path a lookup of `name` below `parent` resolves, or
    /// no-such-entry when the parent is not bound.
    pub fn lookup_path(&self, parent: u64, name: &str) -> (r: Result<String, i32>)
        ensures
            match r {
                Ok(p) => ino_valid(self@, parent) && p@ == spec_path_join(
                    ino_path(self@, parent),
                    name@,
                ) && (self.wf() && rel_path_ok(name@) ==> rel_path_ok(p@)),
                Err(e) => !ino_valid(self@, parent) && e == ERRNO_NOENT,
            },
    {
        match self.node_rel(parent) {
            Ok(rel) => {
                proof {
                    if self.wf() && rel_path_ok(name@) {
                        assert(rel_path_ok(self@.inodes[parent - 1]));
                        lemma_join_keeps_relative(rel@, name@);
                    }
                }
                Ok(path_join(rel.as_str(), name))
            },
            Err(e) => Err(e),
        }
    }

    /// The inode bound to `rel`, binding a fresh one if none is: the
    /// table grows append-only, and nothing else changes.
    pub fn get_or_create_inode(&mut self, rel: &str) -> (ino: u64)
        requires
            old(self).wf(),
            old(self)@.inodes.len() < usize::MAX,
            rel_path_ok(rel@),
        ensures
            final(self).wf(),
            final(self)@.source_dir == old(self)@.source_dir,
            final(self)@.handles == old(self)@.handles,
            final(self)@.next_fh == old(self)@.next_fh,
            final(self)@.rules == old(self)@.rules,
            ino_valid(final(self)@, ino),
            ino_path(final(self)@, ino) == rel@,
            old(self)@.inodes.len() <= final(self)@.inodes.len(),
            forall|k: int|
                0 <= k < old(self)@.inodes.len() ==> final(self)@.inodes[k] == old(
                    self,
                )@.inodes[k],
            (exists|k: int| 0 <= k < old(self)@.inodes.len() && old(self)@.inodes[k] == rel@)
                ==> final(self)@.inodes == old(self)@.inodes,
            !(exists|k: int| 0 <= k < old(self)@.inodes.len() && old(self)@.inodes[k] == rel@)
                ==> final(self)@.inodes == old(self)@.inodes.push(rel@) && ino == old(
                self,
            )@.inodes.len() + 1,
    {
        let n = self.inode_paths.len();
        let mut k: usize = 0;
        while k < n
            invariant
                old(self).wf(),
                old(self)@.inodes.len() < usize::MAX,
                rel_path_ok(rel@),
                self@ == old(self)@,
                n == self.inode_paths.len(),
                0 <= k <= n,
                forall|j: int| 0 <= j < k ==> self@.inodes[j] != rel@,
            decreases n - k,
        {
            if str_eq(self.inode_paths[k].as_str(), rel) {
                proof {
                    assert(self@.inodes[k as int] == rel@);
                }
                return (k + 1) as u64;
            }
            k += 1;
        }
        let ghost prev = self@.inodes;
        self.inode_paths.push(rel.to_owned());
        proof {
            assert(prev == old(self)@.inodes);
            assert(self@.inodes =~= prev.push(rel@));
            assert(self@.handles == old(self)@.handles);
            assert forall|i: int|
                0 <= i < self@.inodes.len() implies rel_path_ok(#[trigger] self@.inodes[i]) by {
                if i < prev.len() {
                    assert(rel_path_ok(old(self)@.inodes[i]));
                }
            }
            assert forall|i: int, j: int|
                0 <= i < j < self@.inodes.len() implies self@.inodes[i] != self@.inodes[j] by {
                if j == prev.len() {
                    assert(self@.inodes[i] == old(self)@.inodes[i]);
                    assert(old(self)@.inodes[i] != rel@);
                } else {
                    assert(self@.inodes[i] == old(self)@.inodes[i]);
                    assert(self@.inodes[j] == old(self)@.inodes[j]);
                }
            }
            assert forall|i: int, j: int|
                0 <= i < j < self@.handles.len() implies (#[trigger] self@.handles[i].fh) != (
            #[trigger] self@.handles[j].fh) by {
                assert(old(self)@.handles[i].fh != old(self)@.handles[j].fh);
            }
            assert forall|i: int|
                0 <= i < self@.handles.len() implies (#[trigger] self@.handles[i].fh)
                < self@.next_fh by {
                assert(old(self)@.handles[i].fh < old(self)@.next_fh);
            }
        }
        self.inode_paths.len() as u64
    }

    /// Decides an open request: unknown inode, denial, or forwarding with
    /// masked flags. A denial comes exactly when the caller is not
    /// excluded and some rule denies the flags' operation on the virtual
    /// path.
    pub fn decide_open(&self, ino: u64, flags: i32, caller_exe: Option<&String>) -> (r:
        OpenDecision)
        ensures
            match r {
                OpenDecision::NoEntry => !ino_valid(self@, ino),
                OpenDecision::Denied { vpath, op } => {
                    &&& ino_valid(self@, ino)
                    &&& vpath@ == vpath_of(self@, ino)
                    &&& op == spec_flags_operation(flags)
                    &&& !spec_caller_excluded(self@.rules, opt_string_view(caller_exe))
                    &&& spec_denies(self@.rules.rules, vpath_of(self@, ino), op)
                },
                OpenDecision::Allow { rel, open_flags, vpath } => {
                    &&& ino_valid(self@, ino)
                    &&& rel@ == spec_syscall_rel(ino_path(self@, ino))
                    &&& (self.wf() ==> rel@.len() > 0 && rel@[0] != '/')
                    &&& open_flags == flags & (ACCESS_MODE_MASK | OPEN_APPEND | OPEN_NONBLOCK)
                    &&& vpath@ == vpath_of(self@, ino)
                    &&& (spec_caller_excluded(self@.rules, opt_string_view(caller_exe))
                        || !spec_denies(
                        self@.rules.rules,
                        vpath_of(self@, ino),
                        spec_flags_operation(flags),
                    ))
                },
            },
    {
        let rel = match self.node_rel(ino) {
            Ok(p) => p,
            Err(_) => {
                return OpenDecision::NoEntry;
            },
        };
        let vpath = path_join(self.source_dir.as_str(), rel.as_str());
        let op = flags_to_operation(flags);
        let excluded = match caller_exe {
            Some(exe) => self.rules.is_executable_excluded(exe.as_str()),
            None => false,
        };
        if !excluded && self.rules.is_denied(vpath.as_str(), op) {
            return OpenDecision::Denied { vpath, op };
        }
        proof {
            if self.wf() {
                assert(rel_path_ok(self@.inodes[ino - 1]));
            }
        }
        let open_flags = flags & (ACCESS_MODE_MASK | OPEN_APPEND | OPEN_NONBLOCK);
        OpenDecision::Allow { rel: rel_for_syscall(rel.as_str()), open_flags, vpath }
    }

    /// Decides an access check: unknown inode, denial, or forwarding. A
    /// denial comes exactly when the caller is not excluded and some
    /// requested bit maps to an operation a rule denies on the virtual
    /// path.
    pub fn decide_access(&self, ino: u64, mask: i32, caller_exe: Option<&String>) -> (r:
        AccessDecision)
        ensures
            match r {
                AccessDecision::NoEntry => !ino_valid(self@, ino),
                AccessDecision::Denied => {
                    &&& ino_valid(self@, ino)
                    &&& !spec_caller_excluded(self@.rules, opt_string_view(caller_exe))
                    &&& spec_access_denied(self@.rules, vpath_of(self@, ino), mask)
                },
                AccessDecision::Forward { rel } => {
                    &&& ino_valid(self@, ino)
                    &&& rel@ == spec_syscall_rel(ino_path(self@, ino))
                    &&& (self.wf() ==> rel@.len() > 0 && rel@[0] != '/')
                    &&& (spec_caller_excluded(self@.rules, opt_string_view(caller_exe))
                        || !spec_access_denied(self@.rules, vpath_of(self@, ino), mask))
                },
            },
    {
        let rel = match self.node_rel(ino) {
            Ok(p) => p,
            Err(_) => {
                return AccessDecision::NoEntry;
            },
        };
        let vpath = path_join(self.source_dir.as_str(), rel.as_str());
        let excluded = match caller_exe {
            Some(exe) => self.rules.is_executable_excluded(exe.as_str()),
            None => false,
        };
        if !excluded {
            if mask & ACCESS_READ_BIT != 0 && self.rules.is_denied(
                vpath.as_str(),
                Operation::Read,
            ) {
                return AccessDecision::Denied;
            }
            if mask & ACCESS_WRITE_BIT != 0 && self.rules.is_denied(
                vpath.as_str(),
                Operation::Write,
            ) {
                return AccessDecision::Denied;
            }
            if mask & ACCESS_EXEC_BIT != 0 && self.rules.is_denied(
                vpath.as_str(),
                Operation::Execute,
            ) {
                return AccessDecision::Denied;
            }
        }
        proof {
            if self.wf() {
                assert(rel_path_ok(self@.inodes[ino - 1]));
            }
        }
        AccessDecision::Forward { rel: rel_for_syscall(rel.as_str()) }
    }

    /// Registers a backing descriptor under a fresh handle id.
    pub fn register_handle(&mut self, fd: i32, vpath: String) -> (fh: u64)
        requires
            old(self).wf(),
            old(self)@.next_fh < u64::MAX,
        ensures
            final(self).wf(),
            final(self)@.source_dir == old(self)@.source_dir,
            final(self)@.inodes == old(self)@.inodes,
            final(self)@.rules == old(self)@.rules,
            fh == old(self)@.next_fh,
            final(self)@.next_fh == old(self)@.next_fh + 1,
            final(self)@.handles =~= old(self)@.handles.push(
                HandleModel { fh, fd, vpath: vpath@ },
            ),
    {
        let fh = self.next_fh;
        let ghost vp = vpath@;
        self.next_fh = self.next_fh + 1;
        let ghost prev = self@.handles;
        self.handles.push(FileHandle { fh, fd, vpath });
        proof {
            assert(self@.handles =~= prev.push(HandleModel { fh, fd, vpath: vp }));
            assert(prev == old(self)@.handles);
            assert forall|i: int, j: int|
                0 <= i < j < self@.handles.len() implies (#[trigger] self@.handles[i].fh) != (
            #[trigger] self@.handles[j].fh) by {
                if j == prev.len() {
                    assert(old(self)@.handles[i].fh < old(self)@.next_fh);
                }
            }
            assert forall|i: int|
                0 <= i < self@.handles.len() implies (#[trigger] self@.handles[i].fh)
                < self@.next_fh by {
                if i < prev.len() {
                    assert(old(self)@.handles[i].fh < old(self)@.next_fh);
                }
            }
        }
        fh
    }

    /// The backing descriptor of a handle, or bad-file-descriptor.
    pub fn handle_fd(&self, fh: u64) -> (r: Result<i32, i32>)
        ensures
            match r {
                Ok(fd) => exists|k: int|
                    0 <= k < self@.handles.len() && (#[trigger] self@.handles[k]).fh == fh
                        && self@.handles[k].fd == fd,
                Err(e) => e == ERRNO_BADF && (forall|k: int|
                    0 <= k < self@.handles.len() ==> (#[trigger] self@.handles[k]).fh != fh),
            },
    {
        let n = self.handles.len();
        let mut k: usize = 0;
        while k < n
            invariant
                n == self.handles@.len(),
                0 <= k <= n,
                forall|j: int| 0 <= j < k ==> (#[trigger] self@.handles[j]).fh != fh,
            decreases n - k,
        {
            if self.handles[k].fh == fh {
                proof {
                    assert(self@.handles[k as int].fh == fh);
                }
                return Ok(self.handles[k].fd);
            }
            k += 1;
        }
        Err(ERRNO_BADF)
    }

    /// Removes a handle and hands its backing descriptor out for closing;
    /// an unknown handle id changes nothing.
    pub fn release_handle(&mut self, fh: u64) -> (r: Option<i32>)
        requires
            old(self).wf(),
        ensures
            final(self).wf(),
            final(self)@.source_dir == old(self)@.source_dir,
            final(self)@.inodes == old(self)@.inodes,
            final(self)@.rules == old(self)@.rules,
            final(self)@.next_fh == old(self)@.next_fh,
            match r {
                Some(fd) => exists|k: int|
                    0 <= k < old(self)@.handles.len() && (#[trigger] old(self)@.handles[k]).fh
                        == fh && old(self)@.handles[k].fd == fd && final(self)@.handles == old(
                        self,
                    )@.handles.remove(k),
                None => final(self)@.handles == old(self)@.handles && (forall|k: int|
                    0 <= k < old(self)@.handles.len() ==> (#[trigger] old(self)@.handles[k]).fh
                        != fh),
            },
    {
        let n = self.handles.len();
        let mut k: usize = 0;
        while k < n
            invariant
                old(self).wf(),
                self@ == old(self)@,
                n == self.handles@.len(),
                0 <= k <= n,
                forall|j: int| 0 <= j < k ==> (#[trigger] self@.handles[j]).fh != fh,
            decreases n - k,
        {
            if self.handles[k].fh == fh {
                let ghost prev = self@.handles;
                let fd = self.handles[k].fd;
                self.handles.remove(k);
                proof {
                    assert(self@.handles =~= prev.remove(k as int));
                    assert(prev[k as int].fh == fh);
                    assert forall|i: int|
                        0 <= i < self@.handles.len() implies (#[trigger] self@.handles[i]) == (
                    if i < k {
                        prev[i]
                    } else {
                        prev[i + 1]
                    }) by {}
                    assert(prev == old(self)@.handles);
                    assert forall|i: int, j: int|
                        0 <= i < j < self@.handles.len() implies (#[trigger] self@.handles[i]).fh
                        != (#[trigger] self@.handles[j]).fh by {
                        let i2: int = if i < k { i } else { i + 1 };
                        let j2: int = if j < k { j } else { j + 1 };
                        assert(self@.handles[i] == prev[i2]);
                        assert(self@.handles[j] == prev[j2]);
                        assert(old(self)@.handles[i2].fh != old(self)@.handles[j2].fh);
                    }
                    assert forall|i: int|
                        0 <= i < self@.handles.len() implies (#[trigger] self@.handles[i]).fh
                        < self@.next_fh by {
                        let i2: int = if i < k { i } else { i + 1 };
                        assert(self@.handles[i] == prev[i2]);
                        assert(old(self)@.handles[i2].fh < old(self)@.next_fh);
                    }
                }
                return Some(fd);
            }
            k += 1;
        }
        None
    }

    /// Hands out every backing descriptor for closing and forgets all
    /// handles: the overlay's teardown.
    pub fn drain_handles(&mut self) -> (r: Vec<i32>)
        requires
            old(self).wf(),
        ensures
            final(self).wf(),
            final(self)@.source_dir == old(self)@.source_dir,
            final(self)@.inodes == old(self)@.inodes,
            final(self)@.rules == old(self)@.rules,
            final(self)@.next_fh == old(self)@.next_fh,
            final(self)@.handles.len() == 0,
            r@.len() == old(self)@.handles.len(),
            forall|k: int|
                0 <= k < r@.len() ==> r@[k] == (#[trigger] old(self)@.handles[k]).fd,
    {
        let n = self.handles.len();
        let mut fds: Vec<i32> = Vec::new();
        let mut k: usize = 0;
        while k < n
            invariant
                old(self).wf(),
                self@ == old(self)@,
                n == self.handles@.len(),
                0 <= k <= n,
                fds@.len() == k,
                forall|j: int| 0 <= j < k ==> fds@[j] == (#[trigger] self@.handles[j]).fd,
            decreases n - k,
        {
            fds.push(self.handles[k].fd);
            k += 1;
        }
        self.handles = Vec::new();
        proof {
            assert(self@.handles =~= Seq::<HandleModel>::empty());
        }
        fds
    }

    /// Answers a readdir request from position `offset` on: the synthetic
    /// `.` and `..` entries first, then the backing directory's entries
    /// with the real `.` and `..` skipped, each bound to an inode of the
    /// table; every reply entry carries the offset of its successor.
    pub fn readdir_page(&mut self, ino: u64, raw: &Vec<RawDirEntry>, offset: i64) -> (r: Result<
        Vec<DirEntryOut>,
        i32,
    >)
        requires
            old(self).wf(),
            0 <= offset,
            raw@.len() + 3 <= i64::MAX,
            old(self)@.inodes.len() + raw@.len() < usize::MAX,
            forall|k: int| 0 <= k < raw@.len() ==> rel_path_ok((#[trigger] raw@[k]).name@),
        ensures
            final(self).wf(),
            final(self)@.source_dir == old(self)@.source_dir,
            final(self)@.handles == old(self)@.handles,
            final(self)@.next_fh == old(self)@.next_fh,
            final(self)@.rules == old(self)@.rules,
            old(self)@.inodes.len() <= final(self)@.inodes.len(),
            forall|k: int|
                0 <= k < old(self)@.inodes.len() ==> final(self)@.inodes[k] == old(
                    self,
                )@.inodes[k],
            match r {
                Err(e) => e == ERRNO_NOENT && !ino_valid(old(self)@, ino) && final(self)@ == old(
                    self,
                )@,
                Ok(page) => {
                    let listing = spec_non_dot(raw@);
                    let total = listing.len() + 2;
                    &&& ino_valid(old(self)@, ino)
                    &&& page@.len() == if offset <= total {
                        total - offset
                    } else {
                        0int
                    }
                    &&& forall|j: int|
                        0 <= j < page@.len() ==> entry_ok(
                            final(self)@,
                            ino_path(old(self)@, ino),
                            ino,
                            listing,
                            #[trigger] page@[j],
                            offset + j,
                        )
                },
            },
    {
        let parent_rel = match self.node_rel(ino) {
            Ok(p) => p,
            Err(e) => {
                return Err(e);
            },
        };
        proof {
            reveal_strlit(".");
            reveal_strlit("..");
            assert("."@ =~= seq!['.']);
            assert(".."@ =~= seq!['.', '.']);
        }
        let mut page: Vec<DirEntryOut> = Vec::new();
        if offset == 0 {
            page.push(
                DirEntryOut {
                    ino,
                    next_offset: 1,
                    kind: FileKind::Directory,
                    name: String::from_str("."),
                },
            );
        }
        if offset <= 1 {
            page.push(
                DirEntryOut {
                    ino,
                    next_offset: 2,
                    kind: FileKind::Directory,
                    name: String::from_str(".."),
                },
            );
        }
        let n = raw.len();
        let mut k: usize = 0;
        let mut cnt: usize = 0;
        while k < n
            invariant
                old(self).wf(),
                0 <= offset,
                raw@.len() + 3 <= i64::MAX,
                old(self)@.inodes.len() + raw@.len() < usize::MAX,
                forall|k2: int| 0 <= k2 < raw@.len() ==> rel_path_ok((#[trigger] raw@[k2]).name@),
                n == raw@.len(),
                0 <= k <= n,
                ino_valid(old(self)@, ino),
                parent_rel@ == ino_path(old(self)@, ino),
                self.wf(),
                self@.source_dir == old(self)@.source_dir,
                self@.handles == old(self)@.handles,
                self@.next_fh == old(self)@.next_fh,
                self@.rules == old(self)@.rules,
                old(self)@.inodes.len() <= self@.inodes.len(),
                self@.inodes.len() <= old(self)@.inodes.len() + k,
                forall|i: int|
                    0 <= i < old(self)@.inodes.len() ==> self@.inodes[i] == old(self)@.inodes[i],
                cnt == spec_non_dot(raw@.subrange(0, k as int)).len(),
                cnt <= k,
                page@.len() == if offset <= cnt + 2 {
                    cnt + 2 - offset
                } else {
                    0int
                },
                forall|j: int|
                    0 <= j < page@.len() ==> entry_ok(
                        self@,
                        ino_path(old(self)@, ino),
                        ino,
                        spec_non_dot(raw@.subrange(0, k as int)),
                        #[trigger] page@[j],
                        offset + j,
                    ),
            decreases n - k,
        {
            let ghost listing_pre = spec_non_dot(raw@.subrange(0, k as int));
            proof {
                reveal_strlit(".");
                reveal_strlit("..");
                assert("."@ =~= seq!['.']);
                assert(".."@ =~= seq!['.', '.']);
                assert(raw@.subrange(0, k + 1).drop_last() =~= raw@.subrange(0, k as int));
                assert(raw@.subrange(0, k + 1).last() == raw@[k as int]);
            }
            let name = &raw[k].name;
            if !(str_eq(name.as_str(), ".") || str_eq(name.as_str(), "..")) {
                let ghost m_pre = self@;
                let child_rel = path_join(parent_rel.as_str(), name.as_str());
                proof {
                    assert(rel_path_ok(self@.inodes[ino - 1]));
                    assert(rel_path_ok(raw@[k as int].name@));
                    lemma_join_keeps_relative(parent_rel@, name@);
                }
                let cino = self.get_or_create_inode(child_rel.as_str());
                proof {
                    assert(spec_non_dot(raw@.subrange(0, k + 1)) =~= listing_pre.push(
                        raw@[k as int],
                    ));
                    assert forall|j: int|
                        0 <= j < page@.len() implies entry_ok(
                        self@,
                        ino_path(old(self)@, ino),
                        ino,
                        spec_non_dot(raw@.subrange(0, k + 1)),
                        #[trigger] page@[j],
                        offset + j,
                    ) by {
                        assert(entry_ok(
                            m_pre,
                            ino_path(old(self)@, ino),
                            ino,
                            listing_pre,
                            page@[j],
                            offset + j,
                        ));
                        if 2 <= offset + j && offset + j - 2 < listing_pre.len() {
                            let e = page@[j];
                            assert(ino_valid(m_pre, e.ino));
                            assert(self@.inodes[e.ino - 1] == m_pre.inodes[e.ino - 1]);
                        }
                    }
                }
                let pos = cnt + 2;
                if offset <= pos as i64 {
                    let ghost page_pre = page@;
                    page.push(
                        DirEntryOut {
                            ino: cino,
                            next_offset: (pos + 1) as i64,
                            kind: raw[k].kind,
                            name: raw[k].name.clone(),
                        },
                    );
                    proof {
                        assert(page@.drop_last() =~= page_pre);
                        assert(spec_non_dot(raw@.subrange(0, k + 1))[pos - 2] == raw@[k as int]);
                        assert(entry_ok(
                            self@,
                            ino_path(old(self)@, ino),
                            ino,
                            spec_non_dot(raw@.subrange(0, k + 1)),
                            page@[page@.len() - 1],
                            offset + page@.len() - 1,
                        ));
                    }
                }
                cnt += 1;
            } else {
                proof {
                    assert(spec_non_dot(raw@.subrange(0, k + 1)) =~= listing_pre);
                }
            }
            k += 1;
        }
        proof {
            assert(raw@.subrange(0, n as int) =~= raw@);
        }
        Ok(page)
    }

    /// Whether a stat mode names a directory; the opendir check.
    pub fn opendir_check(&self, st_mode: u32) -> (r: Result<(), i32>)
        ensures
            match r {
                Ok(()) => st_mode & MODE_TYPE_MASK == MODE_DIRECTORY,
                Err(e) => st_mode & MODE_TYPE_MASK != MODE_DIRECTORY && e == ERRNO_NOENT,
            },
    {
        if st_mode & MODE_TYPE_MASK == MODE_DIRECTORY {
            Ok(())
        } else {
            Err(ERRNO_NOENT)
        }
    }
}

} // verus!
