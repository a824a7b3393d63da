//! Archive entries, the archive builder, and the layout of the boot initrd.
use vstd::prelude::*;
use vstd::string::*;
use vstd::utf8::{encode_utf8, is_ascii_chars, is_ascii_chars_encode_utf8};
use crate::newc::{
    entry_bytes, lemma_entry_len, lemma_read_entry, lemma_read_trailer, push_bytes, read_archive, trailer_bytes,
    trailer_name, write_entry, Record, FIELD_MAX,
};
use crate::path::{file_name, file_name_of};

verus! {

/// Mode bits of a regular file, in the `S_IFMT` part of a mode.
pub const MODE_REGULAR: u32 = 0o100000;

/// Mode bits of a directory, in the `S_IFMT` part of a mode.
pub const MODE_DIRECTORY: u32 = 0o040000;

/// Permission bits of the executables and the module directory.
pub const MODE_EXEC_PERMS: u32 = 0o755;

/// Device numbers carried by the files of the initrd.
pub const FILE_DEV_MAJOR: u32 = 3;

pub const FILE_DEV_MINOR: u32 = 1;

#[derive(Clone, Copy, Debug, PartialEq, Eq, Structural)]
pub enum EntryKind {
    RegularFile,
    Directory,
}

/// One entry of an archive: its name, kind, permission bits, device numbers
/// and payload.
#[derive(Debug)]
pub struct ArchiveEntry {
    pub name: String,
    pub kind: EntryKind,
    pub mode: u32,
    pub dev_major: u32,
    pub dev_minor: u32,
    pub payload: Vec<u8>,
}

#[derive(Clone, Copy, Debug, PartialEq, Eq, Structural)]
pub enum EncodeError {
    /// A payload or a name is too long for its 32-bit header field.
    SizeOverflow,
}

#[derive(Clone, Copy, Debug, PartialEq, Eq, Structural)]
pub enum PlanError {
    /// The module path at this index has no file name to name it by.
    NoFileName(usize),
}

pub open spec fn kind_bits(k: EntryKind) -> nat {
    match k {
        EntryKind::RegularFile => MODE_REGULAR as nat,
        EntryKind::Directory => MODE_DIRECTORY as nat,
    }
}

impl ArchiveEntry {
    /// Bytes of the name, as UTF-8.
    pub open spec fn name_bytes(&self) -> Seq<u8> {
        encode_utf8(self.name@)
    }

    /// Mode written to the header: the kind's type bits and the low twelve
    /// bits of `mode`.
    pub open spec fn header_mode(&self) -> nat {
        kind_bits(self.kind) + (self.mode as nat) % 0o10000
    }

    /// Whether every size of the entry fits its 32-bit header field.
    pub open spec fn fits(&self) -> bool {
        self.name_bytes().len() + 1 <= FIELD_MAX && self.payload@.len() <= FIELD_MAX
    }

    /// The bytes that encode the entry.
    pub open spec fn encoded(&self) -> Seq<u8> {
        entry_bytes(self.name_bytes(), self.header_mode(), self.dev_major as nat, self.dev_minor as nat, self.payload@)
    }

    /// An executable regular file.
    pub fn executable(name: String, payload: Vec<u8>) -> (r: ArchiveEntry)
        ensures
            r.name@ == name@,
            r.kind == EntryKind::RegularFile,
            r.mode == MODE_REGULAR + MODE_EXEC_PERMS,
            r.dev_major == FILE_DEV_MAJOR,
            r.dev_minor == FILE_DEV_MINOR,
            r.payload@ == payload@,
    {
        ArchiveEntry {
            name,
            kind: EntryKind::RegularFile,
            mode: MODE_REGULAR + MODE_EXEC_PERMS,
            dev_major: FILE_DEV_MAJOR,
            dev_minor: FILE_DEV_MINOR,
            payload,
        }
    }

    /// A directory, with no payload.
    pub fn directory(name: String) -> (r: ArchiveEntry)
        ensures
            r.name@ == name@,
            r.kind == EntryKind::Directory,
            r.mode == MODE_DIRECTORY + MODE_EXEC_PERMS,
            r.dev_major == 0,
            r.dev_minor == 0,
            r.payload@.len() == 0,
    {
        ArchiveEntry {
            name,
            kind: EntryKind::Directory,
            mode: MODE_DIRECTORY + MODE_EXEC_PERMS,
            dev_major: 0,
            dev_minor: 0,
            payload: Vec::new(),
        }
    }
}

/// The encoded entries, in order, without the trailer.
pub open spec fn entries_bytes(s: Seq<ArchiveEntry>) -> Seq<u8>
    decreases s.len(),
{
    if s.len() == 0 {
        seq![]
    } else {
        entries_bytes(s.drop_last()) + s.last().encoded()
    }
}

/// A whole archive: the entries, then the trailer.
pub open spec fn archive_bytes(s: Seq<ArchiveEntry>) -> Seq<u8> {
    entries_bytes(s) + trailer_bytes()
}

pub open spec fn all_fit(s: Seq<ArchiveEntry>) -> bool {
    forall|i: int| 0 <= i < s.len() ==> #[trigger] s[i].fits()
}

fn header_mode_exec(e: &ArchiveEntry) -> (r: u32)
    ensures
        r as nat == e.header_mode(),
{
    let bits = match e.kind {
        EntryKind::RegularFile => MODE_REGULAR,
        EntryKind::Directory => MODE_DIRECTORY,
    };
    bits + e.mode % 0o10000
}

/// Appends the archive of `entries` to `out`: each entry in order, then the
/// trailer. Where an entry does not fit its header fields, stops before it
/// with `SizeOverflow`, having appended exactly the entries before it.
/// Names are written as given: duplicate names, and the reserved name
/// `TRAILER!!!`, are not rejected, and keeping them apart is the caller's
/// concern.
pub fn build_archive(entries: &Vec<ArchiveEntry>, out: &mut Vec<u8>) -> (r: Result<(), EncodeError>)
    ensures
        r is Ok <==> all_fit(entries@),
        r is Ok ==> final(out)@ == old(out)@ + archive_bytes(entries@),
        r is Err ==> exists|i: int|
            0 <= i < entries@.len() && !(#[trigger] entries@[i]).fits() && all_fit(entries@.take(i))
                && final(out)@ == old(out)@ + entries_bytes(entries@.take(i)),
{
    let ghost start = out@;
    let mut i: usize = 0;
    while i < entries.len()
        invariant
            i <= entries@.len(),
            all_fit(entries@.take(i as int)),
            start == old(out)@,
            out@ == start + entries_bytes(entries@.take(i as int)),
        decreases entries@.len() - i,
    {
        let e = &entries[i];
        let name = e.name.as_str().as_bytes();
        if name.len() >= 0xffff_ffff || e.payload.len() > 0xffff_ffff {
            assert(!entries@[i as int].fits());
            assert(out@ == start + entries_bytes(entries@.take(i as int)));
            return Err(EncodeError::SizeOverflow);
        }
        let mode = header_mode_exec(e);
        write_entry(out, name, mode, e.dev_major, e.dev_minor, e.payload.as_slice());
        proof {
            let t = entries@.take(i + 1);
            assert(t.drop_last() =~= entries@.take(i as int));
            assert(t.last() == entries@[i as int]);
            assert(all_fit(t)) by {
                assert forall|j: int| 0 <= j < t.len() implies #[trigger] t[j].fits() by {
                    if j < i {
                        assert(entries@.take(i as int)[j] == t[j]);
                    }
                }
            }
            assert(out@ =~= start + entries_bytes(t));
        }
        i = i + 1;
    }
    assert(entries@.take(i as int) =~= entries@);
    let trailer: [u8; 10] = [84u8, 82u8, 65u8, 73u8, 76u8, 69u8, 82u8, 33u8, 33u8, 33u8];
    let empty: [u8; 0] = [];
    assert(trailer@ =~= crate::newc::trailer_name());
    write_entry(out, trailer.as_slice(), 0, 0, 0, empty.as_slice());
    assert(empty@ =~= seq![]);
    assert(out@ =~= start + archive_bytes(entries@));
    Ok(())
}

/// Name of the entry that holds the init binary.
pub open spec fn init_name() -> Seq<char> {
    "init"@
}

/// Name of the directory entry that holds the kernel modules.
pub open spec fn modules_dir() -> Seq<char> {
    "krun_linux_mods"@
}

/// Prefix of the name of each kernel module's entry.
pub open spec fn modules_prefix() -> Seq<char> {
    "krun_linux_mods/"@
}

/// Name of the entry of the module at `path`.
pub open spec fn module_entry_name(path: Seq<char>) -> Seq<char> {
    modules_prefix() + file_name_of(path)->0
}

/// Whether each path has a file name to name its entry by.
pub open spec fn all_named(paths: Seq<String>) -> bool {
    forall|i: int| 0 <= i < paths.len() ==> (#[trigger] file_name_of(paths[i]@)) is Some
}

/// The entry names of the modules at `paths`, in order: `krun_linux_mods/`
/// and the file name of the path. Fails with the index of the first path
/// that has no file name.
pub fn module_entry_names(paths: &Vec<String>) -> (r: Result<Vec<String>, PlanError>)
    ensures
        r is Ok <==> all_named(paths@),
        r matches Ok(names) ==> names@.len() == paths@.len() && forall|i: int|
            0 <= i < paths@.len() ==> (#[trigger] names@[i])@ == module_entry_name(paths@[i]@),
        r matches Err(PlanError::NoFileName(k)) ==> k < paths@.len() && file_name_of(paths@[k as int]@) is None
            && all_named(paths@.take(k as int)),
{
    let mut names: Vec<String> = Vec::new();
    let mut i: usize = 0;
    while i < paths.len()
        invariant
            i <= paths@.len(),
            names@.len() == i,
            forall|j: int| 0 <= j < i ==> (#[trigger] names@[j])@ == module_entry_name(paths@[j]@),
            all_named(paths@.take(i as int)),
        decreases paths@.len() - i,
    {
        match file_name(paths[i].as_str()) {
            None => {
                return Err(PlanError::NoFileName(i));
            },
            Some(file_name) => {
                let name = String::from_str("krun_linux_mods/").concat(file_name.as_str());
                names.push(name);
                proof {
                    assert forall|j: int| 0 <= j < i + 1 implies (#[trigger] paths@.take(i + 1)[j]@ == paths@[j]@) by {}
                    assert forall|j: int| 0 <= j < i + 1 implies file_name_of(
                        #[trigger] paths@.take(i + 1)[j]@,
                    ) is Some by {
                        if j < i {
                            assert(paths@.take(i as int)[j] == paths@[j]);
                        }
                    }
                }
                i = i + 1;
            },
        }
    }
    assert(paths@.take(i as int) =~= paths@);
    Ok(names)
}

/// The spec of `initrd_entries`: `init`, then, when there are modules, the
/// module directory and one executable entry per module.
pub open spec fn initrd_layout(
    init: Seq<u8>,
    module_paths: Seq<String>,
    module_payloads: Seq<Vec<u8>>,
    r: Seq<ArchiveEntry>,
) -> bool {
    let n = module_paths.len();
    &&& r.len() == if n == 0 { 1 } else { n + 2 }
    &&& r[0].name@ == init_name() && r[0].kind == EntryKind::RegularFile && r[0].payload@ == init
    &&& r[0].mode == MODE_REGULAR + MODE_EXEC_PERMS
    &&& r[0].dev_major == FILE_DEV_MAJOR && r[0].dev_minor == FILE_DEV_MINOR
    &&& n > 0 ==> {
        &&& r[1].name@ == modules_dir() && r[1].kind == EntryKind::Directory
        &&& r[1].mode == MODE_DIRECTORY + MODE_EXEC_PERMS && r[1].payload@.len() == 0
        &&& r[1].dev_major == 0 && r[1].dev_minor == 0
    }
    &&& forall|i: int|
        0 <= i < n ==> {
            &&& (#[trigger] r[i + 2]).name@ == module_entry_name(module_paths[i]@)
            &&& r[i + 2].kind == EntryKind::RegularFile
            &&& r[i + 2].payload@ == module_payloads[i]@
            &&& r[i + 2].mode == MODE_REGULAR + MODE_EXEC_PERMS
            &&& r[i + 2].dev_major == FILE_DEV_MAJOR && r[i + 2].dev_minor == FILE_DEV_MINOR
        }
}

/// The entries of the boot initrd, in the order they are written: the init
/// binary as `init`; then, if any module is given, the directory
/// `krun_linux_mods` and each module under it, named by the file name
/// of its path. All names are derived before any entry is built, so a path
/// without a file name fails the whole plan.
pub fn initrd_entries(init: &Vec<u8>, module_paths: &Vec<String>, module_payloads: &Vec<Vec<u8>>) -> (r: Result<
    Vec<ArchiveEntry>,
    PlanError,
>)
    requires
        module_paths@.len() == module_payloads@.len(),
    ensures
        r is Ok <==> all_named(module_paths@),
        r matches Ok(v) ==> initrd_layout(init@, module_paths@, module_payloads@, v@),
        r matches Err(PlanError::NoFileName(k)) ==> k < module_paths@.len() && file_name_of(
            module_paths@[k as int]@,
        ) is None && all_named(module_paths@.take(k as int)),
{
    let names = module_entry_names(module_paths)?;
    let mut entries: Vec<ArchiveEntry> = Vec::new();
    let mut init_copy: Vec<u8> = Vec::new();
    push_bytes(&mut init_copy, init.as_slice());
    entries.push(ArchiveEntry::executable(String::from_str("init"), init_copy));
    if names.len() == 0 {
        return Ok(entries);
    }
    entries.push(ArchiveEntry::directory(String::from_str("krun_linux_mods")));
    let n = names.len();
    let mut i: usize = 0;
    while i < n
        invariant
            n == names@.len(),
            n == module_paths@.len(),
            n == module_payloads@.len(),
            n > 0,
            i <= n,
            entries@.len() == i + 2,
            forall|j: int| 0 <= j < n ==> (#[trigger] names@[j])@ == module_entry_name(module_paths@[j]@),
            entries@[0].name@ == init_name() && entries@[0].kind == EntryKind::RegularFile && entries@[0].payload@ == init@,
            entries@[0].mode == MODE_REGULAR + MODE_EXEC_PERMS,
            entries@[0].dev_major == FILE_DEV_MAJOR && entries@[0].dev_minor == FILE_DEV_MINOR,
            entries@[1].name@ == modules_dir() && entries@[1].kind == EntryKind::Directory,
            entries@[1].mode == MODE_DIRECTORY + MODE_EXEC_PERMS && entries@[1].payload@.len() == 0,
            entries@[1].dev_major == 0 && entries@[1].dev_minor == 0,
            forall|j: int|
                0 <= j < i ==> {
                    &&& (#[trigger] entries@[j + 2]).name@ == module_entry_name(module_paths@[j]@)
                    &&& entries@[j + 2].kind == EntryKind::RegularFile
                    &&& entries@[j + 2].payload@ == module_payloads@[j]@
                    &&& entries@[j + 2].mode == MODE_REGULAR + MODE_EXEC_PERMS
                    &&& entries@[j + 2].dev_major == FILE_DEV_MAJOR && entries@[j + 2].dev_minor == FILE_DEV_MINOR
                },
        decreases n - i,
    {
        let mut payload: Vec<u8> = Vec::new();
        push_bytes(&mut payload, module_payloads[i].as_slice());
        let name = String::from_str(names[i].as_str());
        entries.push(ArchiveEntry::executable(name, payload));
        proof {
            assert forall|j: int| 0 <= j < i + 1 implies {
                &&& (#[trigger] entries@[j + 2]).name@ == module_entry_name(module_paths@[j]@)
                &&& entries@[j + 2].kind == EntryKind::RegularFile
                &&& entries@[j + 2].payload@ == module_payloads@[j]@
                &&& entries@[j + 2].mode == MODE_REGULAR + MODE_EXEC_PERMS
                &&& entries@[j + 2].dev_major == FILE_DEV_MAJOR && entries@[j + 2].dev_minor == FILE_DEV_MINOR
            } by {
                assert(names@[j]@ == module_entry_name(module_paths@[j]@));
            }
        }
        i = i + 1;
    }
    Ok(entries)
}

/// The record that a reader gives back for an entry.
pub open spec fn record_of(e: ArchiveEntry) -> Record {
    (e.name_bytes(), e.header_mode(), e.payload@)
}

/// Whether two entries have the same contents.
pub open spec fn same_entry(a: ArchiveEntry, b: ArchiveEntry) -> bool {
    a.name@ == b.name@ && a.kind == b.kind && a.mode == b.mode && a.dev_major == b.dev_major
        && a.dev_minor == b.dev_minor && a.payload@ == b.payload@
}

proof fn lemma_entries_single(e: ArchiveEntry)
    ensures
        entries_bytes(seq![e]) == e.encoded(),
{
    let s = seq![e];
    assert(s.drop_last() =~= Seq::<ArchiveEntry>::empty());
    assert(s.last() == e);
    assert(entries_bytes(Seq::<ArchiveEntry>::empty()) == Seq::<u8>::empty());
    assert(entries_bytes(s) =~= e.encoded());
}

proof fn lemma_entries_split(s: Seq<ArchiveEntry>, i: int)
    requires
        0 <= i <= s.len(),
    ensures
        entries_bytes(s) == entries_bytes(s.take(i)) + entries_bytes(s.skip(i)),
    decreases s.len(),
{
    if i == s.len() {
        assert(s.take(i) =~= s);
        assert(s.skip(i) =~= Seq::<ArchiveEntry>::empty());
        assert(entries_bytes(s) + Seq::<u8>::empty() =~= entries_bytes(s));
    } else {
        lemma_entries_split(s.drop_last(), i);
        assert(s.drop_last().take(i) =~= s.take(i));
        assert(s.skip(i).drop_last() =~= s.drop_last().skip(i));
        assert(s.skip(i).last() == s.last());
        assert(entries_bytes(s) =~= entries_bytes(s.take(i)) + entries_bytes(s.skip(i)));
    }
}

proof fn lemma_entries_len(s: Seq<ArchiveEntry>)
    requires
        all_fit(s),
    ensures
        entries_bytes(s).len() % 4 == 0,
    decreases s.len(),
{
    if s.len() > 0 {
        let e = s.last();
        assert(all_fit(s.drop_last())) by {
            assert forall|j: int| 0 <= j < s.drop_last().len() implies #[trigger] s.drop_last()[j].fits() by {
                assert(s[j].fits());
            }
        }
        lemma_entries_len(s.drop_last());
        assert(s[s.len() - 1].fits());
        lemma_entry_len(e.name_bytes(), e.header_mode(), e.dev_major as nat, e.dev_minor as nat, e.payload@);
    }
}

/// Decoding an archive gives back the entries' names, modes and payloads,
/// in order, and then exactly one trailer, which ends the bytes. This holds
/// for entries whose sizes fit the header fields and whose names differ from
/// the reserved trailer name.
pub proof fn lemma_round_trip(s: Seq<ArchiveEntry>)
    requires
        all_fit(s),
        forall|i: int| 0 <= i < s.len() ==> (#[trigger] s[i]).name_bytes() != trailer_name(),
    ensures
        read_archive(archive_bytes(s)) == Some(s.map_values(|e: ArchiveEntry| record_of(e))),
    decreases s.len(),
{
    if s.len() == 0 {
        lemma_read_trailer();
        assert(archive_bytes(s) =~= trailer_bytes());
        assert(s.map_values(|e: ArchiveEntry| record_of(e)) =~= Seq::<Record>::empty());
    } else {
        let e = s[0];
        let rest = s.drop_first();
        assert(all_fit(rest)) by {
            assert forall|j: int| 0 <= j < rest.len() implies #[trigger] rest[j].fits() by {
                assert(s[j + 1].fits());
            }
        }
        assert forall|j: int| 0 <= j < rest.len() implies (#[trigger] rest[j]).name_bytes() != trailer_name() by {
            assert(s[j + 1].name_bytes() != trailer_name());
        }
        lemma_round_trip(rest);
        lemma_entries_split(s, 1);
        assert(s.take(1) =~= seq![e]);
        lemma_entries_single(e);
        assert(s.skip(1) =~= rest);
        assert(archive_bytes(s) =~= e.encoded() + archive_bytes(rest));
        assert(s[0].fits());
        assert(s[0].name_bytes() != trailer_name());
        lemma_read_entry(e.name_bytes(), e.header_mode(), e.dev_major as nat, e.dev_minor as nat, e.payload@, archive_bytes(rest));
        assert(s.map_values(|e: ArchiveEntry| record_of(e)) =~= seq![record_of(e)] + rest.map_values(
            |e: ArchiveEntry| record_of(e),
        ));
    }
}

/// Every header of an archive starts at a multiple of four bytes: the
/// header of entry `i` at the length of the entries before it, and the
/// trailer's, when `i` is the number of entries, after all of them.
pub proof fn lemma_headers_aligned(s: Seq<ArchiveEntry>, i: int)
    requires
        all_fit(s),
        0 <= i <= s.len(),
    ensures
        entries_bytes(s.take(i)).len() % 4 == 0,
        archive_bytes(s).subrange(0, entries_bytes(s.take(i)).len() as int) == entries_bytes(s.take(i)),
        i < s.len() ==> archive_bytes(s).subrange(
            entries_bytes(s.take(i)).len() as int,
            (entries_bytes(s.take(i)).len() + s[i].encoded().len()) as int,
        ) == s[i].encoded(),
        i == s.len() ==> archive_bytes(s).subrange(entries_bytes(s.take(i)).len() as int, archive_bytes(s).len() as int)
            == trailer_bytes(),
{
    assert(all_fit(s.take(i))) by {
        assert forall|j: int| 0 <= j < s.take(i).len() implies #[trigger] s.take(i)[j].fits() by {
            assert(s[j].fits());
        }
    }
    lemma_entries_len(s.take(i));
    lemma_entries_split(s, i);
    let pre = entries_bytes(s.take(i));
    let post = entries_bytes(s.skip(i));
    assert(archive_bytes(s) =~= pre + (post + trailer_bytes()));
    assert(archive_bytes(s).subrange(0, pre.len() as int) =~= pre);
    if i < s.len() {
        let t = s.skip(i);
        lemma_entries_split(t, 1);
        assert(t.take(1) =~= seq![s[i]]);
        lemma_entries_single(s[i]);
        assert(archive_bytes(s) =~= pre + (s[i].encoded() + (entries_bytes(t.skip(1)) + trailer_bytes())));
        assert(archive_bytes(s).subrange(pre.len() as int, (pre.len() + s[i].encoded().len()) as int) =~= s[i].encoded());
    } else {
        assert(s.skip(i) =~= Seq::<ArchiveEntry>::empty());
        assert(archive_bytes(s).subrange(pre.len() as int, archive_bytes(s).len() as int) =~= trailer_bytes());
    }
}

proof fn lemma_same_entries_bytes(a: Seq<ArchiveEntry>, b: Seq<ArchiveEntry>)
    requires
        a.len() == b.len(),
        forall|i: int| 0 <= i < a.len() ==> same_entry(#[trigger] a[i], b[i]),
    ensures
        entries_bytes(a) == entries_bytes(b),
    decreases a.len(),
{
    if a.len() > 0 {
        assert forall|i: int| 0 <= i < a.drop_last().len() implies same_entry(
            #[trigger] a.drop_last()[i],
            b.drop_last()[i],
        ) by {
            assert(same_entry(a[i], b[i]));
        }
        lemma_same_entries_bytes(a.drop_last(), b.drop_last());
        assert(same_entry(a[a.len() - 1], b[b.len() - 1]));
    }
}

/// The initrd is reproducible: two builds from the same init binary and the
/// same modules give byte-identical archives.
pub proof fn lemma_initrd_reproducible(
    init: Seq<u8>,
    module_paths: Seq<String>,
    module_payloads: Seq<Vec<u8>>,
    first: Seq<ArchiveEntry>,
    second: Seq<ArchiveEntry>,
)
    requires
        initrd_layout(init, module_paths, module_payloads, first),
        initrd_layout(init, module_paths, module_payloads, second),
    ensures
        archive_bytes(first) == archive_bytes(second),
{
    assert forall|i: int| 0 <= i < first.len() implies same_entry(#[trigger] first[i], second[i]) by {
        if i >= 2 {
            let k = i - 2;
            assert(module_paths.len() > 0);
            assert(0 <= k < module_paths.len());
            assert(first[k + 2] == first[i]);
            assert(second[k + 2] == second[i]);
        } else if i == 1 {
            assert(module_paths.len() > 0);
            assert(first[i].payload@ =~= second[i].payload@);
        }
    }
    lemma_same_entries_bytes(first, second);
}

proof fn lemma_utf8_len(s: Seq<char>)
    ensures
        encode_utf8(s).len() >= s.len(),
    decreases s.len(),
{
    if s.len() > 0 {
        lemma_utf8_len(s.drop_first());
    }
}

/// Decoding the initrd gives back `init`, then, when there are modules,
/// the module directory and each module under its entry name, with their
/// modes and payloads, in order, and then the trailer alone.
pub proof fn lemma_initrd_round_trip(
    init: Seq<u8>,
    module_paths: Seq<String>,
    module_payloads: Seq<Vec<u8>>,
    r: Seq<ArchiveEntry>,
)
    requires
        initrd_layout(init, module_paths, module_payloads, r),
        all_fit(r),
    ensures
        read_archive(archive_bytes(r)) == Some(r.map_values(|e: ArchiveEntry| record_of(e))),
        record_of(r[0]) == (encode_utf8(init_name()), 0o100755nat, init),
        forall|i: int|
            0 <= i < module_paths.len() ==> #[trigger] record_of(r[i + 2]) == (
                encode_utf8(module_entry_name(module_paths[i]@)),
                0o100755nat,
                module_payloads[i]@,
            ),
{
    assert forall|i: int| 0 <= i < r.len() implies (#[trigger] r[i]).name_bytes() != trailer_name() by {
        if i == 0 {
            reveal_strlit("init");
            assert(is_ascii_chars(init_name()));
            is_ascii_chars_encode_utf8(init_name());
        } else if i == 1 {
            reveal_strlit("krun_linux_mods");
            lemma_utf8_len(r[i].name@);
        } else {
            let k = i - 2;
            assert(r[k + 2] == r[i]);
            reveal_strlit("krun_linux_mods/");
            lemma_utf8_len(r[i].name@);
        }
    }
    lemma_round_trip(r);
}

} // verus!
