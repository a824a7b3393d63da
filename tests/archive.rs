use eif_initrd::initrd::{build_archive, initrd_entries, module_entry_names, ArchiveEntry, EntryKind, PlanError};

fn hex_header(mode: u32, file_size: u32, dev_major: u32, dev_minor: u32, name_size: u32) -> Vec<u8> {
    let fields = [0, mode, 0, 0, 1, 0, file_size, dev_major, dev_minor, 0, 0, name_size, 0];
    let mut s = String::from("070701");
    for f in fields.iter() {
        s.push_str(&format!("{:08x}", f));
    }
    s.into_bytes()
}

fn parse_hex(b: &[u8]) -> usize {
    usize::from_str_radix(std::str::from_utf8(b).unwrap(), 16).unwrap()
}

fn pad4(n: usize) -> usize {
    (4 - n % 4) % 4
}

/// Reads (name, mode, payload, header offset) back from an archive, up to
/// and including the trailer.
fn read_back(b: &[u8]) -> Vec<(String, u32, Vec<u8>, usize)> {
    let mut out = Vec::new();
    let mut at = 0;
    loop {
        assert_eq!(&b[at..at + 6], b"070701");
        let mode = parse_hex(&b[at + 14..at + 22]) as u32;
        let size = parse_hex(&b[at + 54..at + 62]);
        let name_size = parse_hex(&b[at + 94..at + 102]);
        let name = String::from_utf8(b[at + 110..at + 110 + name_size - 1].to_vec()).unwrap();
        assert_eq!(b[at + 110 + name_size - 1], 0);
        let data = at + 110 + name_size + pad4(110 + name_size);
        let payload = b[data..data + size].to_vec();
        out.push((name.clone(), mode, payload, at));
        at = data + size + pad4(size);
        if name == "TRAILER!!!" {
            assert_eq!(at, b.len());
            return out;
        }
    }
}

fn file(name: &str, payload: &[u8]) -> ArchiveEntry {
    ArchiveEntry::executable(name.to_string(), payload.to_vec())
}

#[test]
fn single_entry_exact_bytes() {
    let mut out = Vec::new();
    assert_eq!(build_archive(&vec![file("init", &[1, 2, 3])], &mut out), Ok(()));
    let mut expected = hex_header(0o100755, 3, 3, 1, 5);
    expected.extend_from_slice(b"init\0");
    expected.push(0);
    expected.extend_from_slice(&[1, 2, 3, 0]);
    expected.extend_from_slice(&hex_header(0, 0, 0, 0, 11));
    expected.extend_from_slice(b"TRAILER!!!\0");
    expected.extend_from_slice(&[0, 0, 0]);
    assert_eq!(out, expected);
}

#[test]
fn empty_archive_is_trailer_only() {
    let mut out = Vec::new();
    assert_eq!(build_archive(&vec![], &mut out), Ok(()));
    assert_eq!(out.len(), 124);
    let back = read_back(&out);
    assert_eq!(back.len(), 1);
    assert_eq!(back[0].0, "TRAILER!!!");
}

#[test]
fn appends_after_existing_bytes() {
    let mut out = vec![9u8, 9, 9, 9];
    assert_eq!(build_archive(&vec![], &mut out), Ok(()));
    assert_eq!(&out[..4], &[9, 9, 9, 9]);
    assert_eq!(&out[4..10], b"070701");
}

#[test]
fn round_trip_names_modes_payloads() {
    let entries = vec![
        file("init", b"#!/bin/init"),
        ArchiveEntry::directory("krun_linux_mods".to_string()),
        file("krun_linux_mods/a.ko", &[7u8; 13]),
        file("krun_linux_mods/b.ko", &[]),
    ];
    let mut out = Vec::new();
    assert_eq!(build_archive(&entries, &mut out), Ok(()));
    let back = read_back(&out);
    assert_eq!(back.len(), entries.len() + 1);
    for (e, r) in entries.iter().zip(back.iter()) {
        assert_eq!(e.name, r.0);
        assert_eq!(e.payload, r.2);
    }
    assert_eq!(back[0].1, 0o100755);
    assert_eq!(back[1].1, 0o040755);
    assert_eq!(back[4].0, "TRAILER!!!");
}

#[test]
fn headers_start_on_four_byte_boundaries() {
    let entries = vec![file("a", &[1]), file("bb", &[1, 2]), file("ccc", &[1, 2, 3]), file("dddd", &[1, 2, 3, 4, 5])];
    let mut out = Vec::new();
    assert_eq!(build_archive(&entries, &mut out), Ok(()));
    for r in read_back(&out) {
        assert_eq!(r.3 % 4, 0);
    }
    assert_eq!(out.len() % 4, 0);
}

#[test]
fn mode_keeps_permissions_and_kind_bits() {
    let e = ArchiveEntry {
        name: "d".to_string(),
        kind: EntryKind::Directory,
        mode: 0o100700,
        dev_major: 0,
        dev_minor: 0,
        payload: vec![],
    };
    let mut out = Vec::new();
    assert_eq!(build_archive(&vec![e], &mut out), Ok(()));
    assert_eq!(read_back(&out)[0].1, 0o040700);
}

#[test]
fn builds_are_reproducible() {
    let paths = vec!["/lib/m/x.ko".to_string()];
    let payloads = vec![vec![4u8, 5, 6]];
    let first = initrd_entries(&vec![1, 2], &paths, &payloads).unwrap();
    let second = initrd_entries(&vec![1, 2], &paths, &payloads).unwrap();
    let (mut a, mut b) = (Vec::new(), Vec::new());
    assert_eq!(build_archive(&first, &mut a), Ok(()));
    assert_eq!(build_archive(&second, &mut b), Ok(()));
    assert_eq!(a, b);
}

#[test]
fn module_names_use_final_component() {
    let names = module_entry_names(&vec!["/lib/modules/foo.ko".to_string(), "bar.ko".to_string()]).unwrap();
    assert_eq!(names, vec!["krun_linux_mods/foo.ko".to_string(), "krun_linux_mods/bar.ko".to_string()]);
}

#[test]
fn module_names_skip_separators_and_cur_dir() {
    let paths = vec!["a/b/".to_string(), "a/.".to_string(), "//m//n.ko//".to_string(), "./c.ko".to_string()];
    let names = module_entry_names(&paths).unwrap();
    assert_eq!(
        names,
        vec![
            "krun_linux_mods/b".to_string(),
            "krun_linux_mods/a".to_string(),
            "krun_linux_mods/n.ko".to_string(),
            "krun_linux_mods/c.ko".to_string(),
        ]
    );
}

#[test]
fn module_without_file_name_fails() {
    assert_eq!(module_entry_names(&vec!["..".to_string()]), Err(PlanError::NoFileName(0)));
    assert_eq!(module_entry_names(&vec!["a.ko".to_string(), "x/..".to_string()]), Err(PlanError::NoFileName(1)));
    assert_eq!(module_entry_names(&vec!["/".to_string()]), Err(PlanError::NoFileName(0)));
    assert_eq!(module_entry_names(&vec![".".to_string()]), Err(PlanError::NoFileName(0)));
    assert_eq!(module_entry_names(&vec!["x.ko".to_string(), "".to_string()]), Err(PlanError::NoFileName(1)));
}

#[test]
fn initrd_with_modules_layout() {
    let paths = vec!["/m/a.ko".to_string(), "/m/b.ko".to_string()];
    let payloads = vec![vec![1u8], vec![2u8, 2]];
    let v = initrd_entries(&vec![9, 9, 9], &paths, &payloads).unwrap();
    let names: Vec<&str> = v.iter().map(|e| e.name.as_str()).collect();
    assert_eq!(names, vec!["init", "krun_linux_mods", "krun_linux_mods/a.ko", "krun_linux_mods/b.ko"]);
    assert_eq!(v[0].payload, vec![9, 9, 9]);
    assert_eq!((v[0].mode, v[0].dev_major, v[0].dev_minor), (0o100755, 3, 1));
    assert_eq!(v[1].kind, EntryKind::Directory);
    assert_eq!((v[1].mode, v[1].dev_major, v[1].dev_minor), (0o040755, 0, 0));
    assert_eq!(v[3].payload, vec![2, 2]);
}

#[test]
fn initrd_plan_fails_before_writing() {
    let paths = vec!["/m/a.ko".to_string(), "/m/..".to_string()];
    let payloads = vec![vec![1u8], vec![2u8]];
    assert_eq!(initrd_entries(&vec![1], &paths, &payloads).err(), Some(PlanError::NoFileName(1)));
}

#[test]
fn duplicate_names_are_written_as_given() {
    let entries = vec![file("a", &[1]), file("a", &[2])];
    let mut out = Vec::new();
    assert_eq!(build_archive(&entries, &mut out), Ok(()));
    let back = read_back(&out);
    assert_eq!((back[0].0.as_str(), back[1].0.as_str()), ("a", "a"));
    assert_eq!((back[0].2.clone(), back[1].2.clone()), (vec![1], vec![2]));
}
