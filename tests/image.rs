use eif_initrd::arch::{arch_flags, Arch, EIF_HDR_ARCH_ARM64};
use eif_initrd::identity::{build_info, build_info_at, IdentityError};
use eif_initrd::initrd::{build_archive, initrd_entries};
use eif_initrd::manifest::{parse_module_manifest, ManifestError};
use eif_initrd::path::{file_name, final_component};

#[test]
fn final_component_cases() {
    assert_eq!(final_component("/boot/vmlinuz"), Some("vmlinuz".to_string()));
    assert_eq!(final_component("vmlinuz"), Some("vmlinuz".to_string()));
    assert_eq!(final_component("/boot/"), None);
    assert_eq!(final_component("/"), None);
    assert_eq!(final_component(""), None);
    assert_eq!(final_component("a/é.ko"), Some("é.ko".to_string()));
}

#[test]
fn arch_flags_per_arch() {
    assert_eq!(arch_flags(Arch::X86_64), 0);
    assert_eq!(arch_flags(Arch::Aarch64), EIF_HDR_ARCH_ARM64);
    assert_eq!(EIF_HDR_ARCH_ARM64, 1);
}

#[test]
fn identity_fields_are_filled() {
    let id = build_info_at("/boot/bzImage", "2015-05-15 00:00:00 UTC", "0.1.0").unwrap();
    assert_eq!(id.img_name, "krun-awsnitro-eif");
    assert_eq!(id.img_version, "n/a");
    assert_eq!(id.build_time, "2015-05-15 00:00:00 UTC");
    assert_eq!(id.build_tool, "krun-awsnitro-eif-ctl");
    assert_eq!(id.build_tool_version, "0.1.0");
    assert_eq!(id.img_os, "n/a");
    assert_eq!(id.img_kernel, "bzImage");
}

#[test]
fn kernel_path_ending_in_separator_fails() {
    assert_eq!(build_info_at("/boot/", "t", "v").err(), Some(IdentityError::NoKernelName));
    assert_eq!(build_info("/boot/", 0, 0, "v").err(), Some(IdentityError::NoKernelName));
    assert_eq!(build_info("/boot/", 0, 2_000_000_000, "v").err(), Some(IdentityError::NoKernelName));
}

#[test]
fn build_time_is_formatted_in_utc() {
    let id = build_info("/k/Image", 1431648000, 0, "1.2.3").unwrap();
    assert_eq!(id.build_time, "2015-05-15 00:00:00 UTC");
    assert_eq!(id.img_kernel, "Image");
}

#[test]
fn invalid_build_time_fails() {
    assert_eq!(build_info("/k/Image", 0, 2_000_000_000, "v").err(), Some(IdentityError::InvalidTime));
}

#[test]
fn records_differ_only_in_time() {
    let a = build_info("/k/Image", 1, 0, "v").unwrap();
    let b = build_info("/k/Image", 2, 0, "v").unwrap();
    assert_ne!(a.build_time, b.build_time);
    assert_eq!((a.img_name, a.img_kernel, a.build_tool_version), (b.img_name, b.img_kernel, b.build_tool_version));
}

#[test]
fn manifest_lists_paths() {
    let v = parse_module_manifest("[\"a.ko\", \"/x/b.ko\"]").unwrap();
    assert_eq!(v, vec!["a.ko".to_string(), "/x/b.ko".to_string()]);
    assert_eq!(parse_module_manifest("[]").unwrap(), Vec::<String>::new());
}

#[test]
fn manifest_must_be_string_array() {
    assert_eq!(parse_module_manifest("{}").err(), Some(ManifestError::NotAStringArray));
    assert_eq!(parse_module_manifest("[1, 2]").err(), Some(ManifestError::NotAStringArray));
    assert_eq!(parse_module_manifest("not json").err(), Some(ManifestError::NotAStringArray));
}

#[test]
fn end_to_end_without_modules() {
    let kernel_path = "/images/bzImage";
    let id = build_info(kernel_path, 1431648000, 0, "0.1.0").unwrap();
    let entries = initrd_entries(&vec![0x7f, b'E', b'L', b'F'], &vec![], &vec![]).unwrap();
    assert_eq!(entries.len(), 1);
    let mut out = Vec::new();
    assert_eq!(build_archive(&entries, &mut out), Ok(()));
    let first_name_size = usize::from_str_radix(std::str::from_utf8(&out[94..102]).unwrap(), 16).unwrap();
    assert_eq!(&out[110..110 + first_name_size - 1], b"init");
    assert_eq!(&out[out.len() - 124 + 110..out.len() - 124 + 120], b"TRAILER!!!");
    assert_eq!(out.len(), 116 + 4 + 124);
    assert_eq!(arch_flags(Arch::Aarch64) & EIF_HDR_ARCH_ARM64, EIF_HDR_ARCH_ARM64);
    assert_eq!(id.img_kernel, "bzImage");
}

#[test]
fn kernel_name_is_final_component() {
    let a = build_info("/boot/vmlinux", 0, 0, "v").unwrap();
    assert_eq!(a.img_kernel, "vmlinux");
    assert_eq!(a.build_time, "1970-01-01 00:00:00 UTC");
    let b = build_info("vmlinux", 0, 0, "v").unwrap();
    assert_eq!(b.img_kernel, "vmlinux");
}

#[test]
fn same_instant_gives_same_record() {
    let a = build_info("/boot/vmlinux", 1_700_000_000, 123, "v").unwrap();
    let b = build_info("/boot/vmlinux", 1_700_000_000, 123, "v").unwrap();
    assert_eq!(
        (a.img_name, a.img_version, a.build_time, a.build_tool, a.build_tool_version, a.img_os, a.img_kernel),
        (b.img_name, b.img_version, b.build_time, b.build_tool, b.build_tool_version, b.img_os, b.img_kernel)
    );
}

#[test]
fn times_far_from_epoch_are_accepted() {
    assert!(build_info("k", 8_000_000_000_000, 999_999_999, "v").is_ok());
    assert!(build_info("k", -8_000_000_000_000, 0, "v").is_ok());
}

#[test]
fn file_name_follows_unix_paths() {
    assert_eq!(file_name("/lib/m/x.ko"), Some("x.ko".to_string()));
    assert_eq!(file_name("a/b/"), Some("b".to_string()));
    assert_eq!(file_name("a/./"), Some("a".to_string()));
    assert_eq!(file_name("a/.."), None);
    assert_eq!(file_name(".."), None);
    assert_eq!(file_name("."), None);
    assert_eq!(file_name("/"), None);
    assert_eq!(file_name(""), None);
    assert_eq!(file_name("a/.b"), Some(".b".to_string()));
    assert_eq!(file_name("a/..b"), Some("..b".to_string()));
}
