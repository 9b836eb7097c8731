//! The virtual file system: files and inodes, the filesystem interface,
//! and the table of mounted filesystems with the lookup of the mount that
//! serves a path.  A tar ramdisk describes its files as `TarEntry`s.
use vstd::prelude::*;
use vstd::string::StrSliceExecFns;

verus! {

/// Number of slots of the mount table.
pub const MOUNT_TABLE_SIZE: usize = 4;

/// A file's inode: its size and the filesystem's own data about it.
#[derive(Clone, Copy, Debug, PartialEq, Eq, Structural)]
pub struct Inode {
    pub size: usize,
    pub fs_data: u64,
}

/// An open file: its inode and the position of the next read or write.
#[derive(Clone, Copy, Debug, PartialEq, Eq, Structural)]
pub struct File {
    pub inode: Inode,
    pub offset: usize,
}

/// What a filesystem offers.
pub trait Filesystem {
    fn open(&self, path: &str) -> Option<File>;

    fn read(&self, file: &mut File, buf: &mut [u8]) -> isize;

    fn write(&self, file: &mut File, buf: &[u8]) -> isize;

    fn close(&self, file: &mut File);

    fn seek(&self, file: &mut File, offset: usize) -> bool;

    /// Cleans up when the filesystem is unmounted; by default nothing.
    fn unmount(&self) {
    }
}

/// A mounted filesystem: where it is mounted, and the filesystem.
pub struct Mount<F: Filesystem> {
    pub mountpoint: String,
    pub fs: F,
}

/// The contents of a ramdisk.
pub struct Ramdisk {
    pub data: Vec<u8>,
}

/// A file of a tar ramdisk: its name, and where its data lies in the
/// ramdisk.
pub struct TarEntry {
    pub name: String,
    pub offset: usize,
    pub size: usize,
}

/// A tar filesystem: the ramdisk and the table of its files built at mount.
pub struct TarFs {
    pub ramdisk: Ramdisk,
    pub entries: Vec<TarEntry>,
}

/// `prefix` is a prefix of `s`.
pub open spec fn is_prefix(prefix: Seq<char>, s: Seq<char>) -> bool {
    prefix.len() <= s.len() && s.subrange(0, prefix.len() as int) == prefix
}

/// Whether the two strings hold the same characters.
pub fn str_eq(a: &str, b: &str) -> (r: bool)
    ensures
        r == (a@ == b@),
{
    let n = a.unicode_len();
    let m = b.unicode_len();
    if n != m {
        return false;
    }
    let mut i: usize = 0;
    while i < n
        invariant
            n == a@.len(),
            n == b@.len(),
            0 <= i <= n,
            forall|j: int| 0 <= j < i ==> a@[j] == b@[j],
        decreases n - i,
    {
        if a.get_char(i) != b.get_char(i) {
            return false;
        }
        i = i + 1;
    }
    proof {
        assert(a@ =~= b@);
    }
    true
}

/// Whether `s` starts with the characters of `prefix`.
pub fn starts_with(s: &str, prefix: &str) -> (r: bool)
    ensures
        r == is_prefix(prefix@, s@),
{
    let n = prefix.unicode_len();
    let m = s.unicode_len();
    if n > m {
        return false;
    }
    let mut i: usize = 0;
    while i < n
        invariant
            n == prefix@.len(),
            m == s@.len(),
            n <= m,
            0 <= i <= n,
            forall|j: int| 0 <= j < i ==> s@[j] == prefix@[j],
        decreases n - i,
    {
        if s.get_char(i) != prefix.get_char(i) {
            proof {
                assert(s@.subrange(0, n as int)[i as int] != prefix@[i as int]);
            }
            return false;
        }
        i = i + 1;
    }
    proof {
        assert(s@.subrange(0, n as int) =~= prefix@);
    }
    true
}

/// The mount table.
pub struct MountTable<F: Filesystem> {
    slots: Vec<Option<Mount<F>>>,
}

/// The slot holds a mount at `mountpoint`.
pub open spec fn slot_at<F: Filesystem>(slot: Option<Mount<F>>, mountpoint: Seq<char>) -> bool {
    slot matches Some(m) && m.mountpoint@ == mountpoint
}

/// The slot holds a mount whose mount point starts `path`.
pub open spec fn slot_serves<F: Filesystem>(slot: Option<Mount<F>>, path: Seq<char>) -> bool {
    slot matches Some(m) && is_prefix(m.mountpoint@, path)
}

impl<F: Filesystem> MountTable<F> {
    /// The slots of the table.
    pub closed spec fn slots(&self) -> Seq<Option<Mount<F>>> {
        self.slots@
    }

    /// The table has its four slots.
    pub open spec fn wf(&self) -> bool {
        self.slots().len() == MOUNT_TABLE_SIZE
    }

    /// A table with every slot empty.
    pub fn new() -> (t: MountTable<F>)
        ensures
            t.wf(),
            forall|i: int| 0 <= i < MOUNT_TABLE_SIZE ==> t.slots()[i] is None,
    {
        let mut slots: Vec<Option<Mount<F>>> = Vec::new();
        let mut i: usize = 0;
        while i < MOUNT_TABLE_SIZE
            invariant
                0 <= i <= MOUNT_TABLE_SIZE,
                slots@.len() == i,
                forall|j: int| 0 <= j < i ==> slots@[j] is None,
            decreases MOUNT_TABLE_SIZE - i,
        {
            slots.push(None);
            i = i + 1;
        }
        MountTable { slots }
    }

    /// Puts `mount` in the first free slot; returns false when the table is
    /// full.
    pub fn mount(&mut self, mount: Mount<F>) -> (ok: bool)
        requires
            old(self).wf(),
        ensures
            final(self).wf(),
            ok == exists|i: int| 0 <= i < MOUNT_TABLE_SIZE && old(self).slots()[i] is None,
            ok ==> exists|i: int|
                0 <= i < MOUNT_TABLE_SIZE && old(self).slots()[i] is None && (forall|j: int|
                    0 <= j < i ==> old(self).slots()[j] is Some) && final(self).slots() == old(
                    self,
                ).slots().update(i, Some(mount)),
            !ok ==> final(self).slots() == old(self).slots(),
    {
        let mut i: usize = 0;
        while i < MOUNT_TABLE_SIZE
            invariant
                self.wf(),
                self.slots == old(self).slots,
                0 <= i <= MOUNT_TABLE_SIZE,
                forall|j: int| 0 <= j < i ==> self.slots@[j] is Some,
            decreases MOUNT_TABLE_SIZE - i,
        {
            if self.slots[i].is_none() {
                self.slots.set(i, Some(mount));
                proof {
                    assert(old(self).slots()[i as int] is None);
                }
                return true;
            }
            i = i + 1;
        }
        false
    }

    /// Empties the first slot holding a mount at `mountpoint`, after its
    /// filesystem's `unmount` has cleaned up; false when no mount is there.
    pub fn unmount(&mut self, mountpoint: &str) -> (r: bool)
        requires
            old(self).wf(),
        ensures
            final(self).wf(),
            r == exists|i: int| 0 <= i < MOUNT_TABLE_SIZE && slot_at(old(self).slots()[i], mountpoint@),
            r ==> exists|i: int|
                0 <= i < MOUNT_TABLE_SIZE && slot_at(old(self).slots()[i], mountpoint@) && (forall|j: int|
                    0 <= j < i ==> !slot_at(old(self).slots()[j], mountpoint@))
                    && final(self).slots() == old(self).slots().update(i, None),
            !r ==> final(self).slots() == old(self).slots(),
    {
        let mut i: usize = 0;
        while i < MOUNT_TABLE_SIZE
            invariant
                self.wf(),
                self.slots == old(self).slots,
                0 <= i <= MOUNT_TABLE_SIZE,
                forall|j: int| 0 <= j < i ==> !slot_at(self.slots@[j], mountpoint@),
            decreases MOUNT_TABLE_SIZE - i,
        {
            let hit = match &self.slots[i] {
                Some(m) => {
                    if str_eq(m.mountpoint.as_str(), mountpoint) {
                        m.fs.unmount();
                        true
                    } else {
                        false
                    }
                },
                None => false,
            };
            if hit {
                let ghost before = self.slots@;
                self.slots.set(i, None);
                proof {
                    assert(slot_at(before[i as int], mountpoint@));
                    assert(self.slots@ =~= before.update(i as int, None));
                }
                return true;
            }
            i = i + 1;
        }
        false
    }

    /// The first slot holding a mount whose mount point starts `path`.
    pub fn get_mount_for_path(&self, path: &str) -> (r: Option<&Mount<F>>)
        requires
            self.wf(),
        ensures
            r is Some == exists|i: int| 0 <= i < MOUNT_TABLE_SIZE && slot_serves(self.slots()[i], path@),
            r is Some ==> exists|i: int|
                0 <= i < MOUNT_TABLE_SIZE && slot_serves(self.slots()[i], path@) && (forall|j: int|
                    0 <= j < i ==> !slot_serves(self.slots()[j], path@)) && self.slots()[i] == Some(
                    *r->0,
                ),
    {
        let mut i: usize = 0;
        while i < MOUNT_TABLE_SIZE
            invariant
                self.wf(),
                0 <= i <= MOUNT_TABLE_SIZE,
                forall|j: int| 0 <= j < i ==> !slot_serves(self.slots@[j], path@),
            decreases MOUNT_TABLE_SIZE - i,
        {
            match &self.slots[i] {
                Some(m) => {
                    if starts_with(path, m.mountpoint.as_str()) {
                        return Some(m);
                    }
                },
                None => {},
            }
            i = i + 1;
        }
        None
    }
}


/// A path that starts with the mount point of a mount just put in a slot
/// is served by some slot afterwards.
pub proof fn law_mounted_path_is_served<F: Filesystem>(
    slots: Seq<Option<Mount<F>>>,
    i: int,
    m: Mount<F>,
    path: Seq<char>,
)
    requires
        slots.len() == MOUNT_TABLE_SIZE,
        0 <= i < MOUNT_TABLE_SIZE,
        is_prefix(m.mountpoint@, path),
    ensures
        exists|j: int| 0 <= j < MOUNT_TABLE_SIZE && slot_serves(slots.update(i, Some(m))[j], path),
{
    assert(slot_serves(slots.update(i, Some(m))[i], path));
}

/// After a mount is put in a slot, unmounting its mount point finds a
/// mount there.
pub proof fn law_mounted_point_can_be_unmounted<F: Filesystem>(
    slots: Seq<Option<Mount<F>>>,
    i: int,
    m: Mount<F>,
)
    requires
        slots.len() == MOUNT_TABLE_SIZE,
        0 <= i < MOUNT_TABLE_SIZE,
    ensures
        exists|j: int| 0 <= j < MOUNT_TABLE_SIZE && slot_at(slots.update(i, Some(m))[j], m.mountpoint@),
{
    assert(slot_at(slots.update(i, Some(m))[i], m.mountpoint@));
}

} // verus!
