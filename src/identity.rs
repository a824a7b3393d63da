//! The identity and build record embedded in an enclave image.
use vstd::prelude::*;
use vstd::string::*;
use crate::path::{final_component, last_component};

verus! {

/// Provenance of an image: its name and version, when and by which tool it
/// was built, and the file name of its kernel.
#[derive(Debug)]
pub struct BuildIdentity {
    pub img_name: String,
    pub img_version: String,
    pub build_time: String,
    pub build_tool: String,
    pub build_tool_version: String,
    pub img_os: String,
    pub img_kernel: String,
}

#[derive(Clone, Copy, Debug, PartialEq, Eq, Structural)]
pub enum IdentityError {
    /// The kernel path has no final component to name the kernel by.
    NoKernelName,
    /// The build time is outside the range of a UTC date and time.
    InvalidTime,
}

/// The fixed fields of the record, and the given ones.
pub open spec fn identity_fields(id: BuildIdentity, kernel_path: Seq<char>, build_time: Seq<char>, tool_version: Seq<char>) -> bool {
    &&& id.img_name@ == "krun-awsnitro-eif"@
    &&& id.img_version@ == "n/a"@
    &&& id.build_time@ == build_time
    &&& id.build_tool@ == "krun-awsnitro-eif-ctl"@
    &&& id.build_tool_version@ == tool_version
    &&& id.img_os@ == "n/a"@
    &&& id.img_kernel@ == last_component(kernel_path)
}

/// Text of the UTC date and time `secs` seconds and `nanos` nanoseconds
/// after the Unix epoch, as chrono displays a `DateTime<Utc>`.
pub uninterp spec fn utc_text(secs: int, nanos: nat) -> Seq<char>;

/// Whether `secs` seconds and `nanos` nanoseconds after the Unix epoch is
/// a time whose UTC text can be given.
pub open spec fn valid_time(secs: i64, nanos: u32) -> bool {
    nanos < 1_000_000_000 && -8_000_000_000_000 <= secs <= 8_000_000_000_000
}

/// Relies on chrono's `DateTime::<Utc>::from_timestamp` and its `Display`:
/// `None` where the time is out of range, else the displayed date and time.
/// `from_timestamp` accepts any nanosecond value below one second, and any
/// second count whose date lies in chrono's years -262143 to 262142, which
/// includes every count within eight trillion seconds of the epoch.
#[verifier::external_body]
fn utc_display(secs: i64, nanos: u32) -> (r: Option<String>)
    ensures
        r matches Some(t) ==> t@ == utc_text(secs as int, nanos as nat),
        valid_time(secs, nanos) ==> r is Some,
{
    match chrono::DateTime::<chrono::Utc>::from_timestamp(secs, nanos) {
        Some(d) => Some(format!("{}", d)),
        None => None,
    }
}

/// The build record of an image whose kernel is at `kernel_path`, built at
/// `build_time` by version `tool_version` of the tool. Fails exactly when
/// the kernel path has no final component.
pub fn build_info_at(kernel_path: &str, build_time: &str, tool_version: &str) -> (r: Result<BuildIdentity, IdentityError>)
    ensures
        r is Ok <==> last_component(kernel_path@).len() > 0,
        r matches Ok(id) ==> identity_fields(id, kernel_path@, build_time@, tool_version@),
        r matches Err(e) ==> e == IdentityError::NoKernelName,
{
    match final_component(kernel_path) {
        None => Err(IdentityError::NoKernelName),
        Some(kernel) => Ok(
            BuildIdentity {
                img_name: String::from_str("krun-awsnitro-eif"),
                img_version: String::from_str("n/a"),
                build_time: String::from_str(build_time),
                build_tool: String::from_str("krun-awsnitro-eif-ctl"),
                build_tool_version: String::from_str(tool_version),
                img_os: String::from_str("n/a"),
                img_kernel: kernel,
            },
        ),
    }
}

/// The build record of an image whose kernel is at `kernel_path`, built
/// `secs` seconds and `nanos` nanoseconds after the Unix epoch. The kernel
/// name is derived first: a path without a final component fails with
/// `NoKernelName` whatever the time. Succeeds for every path with a final
/// component at every time within eight trillion seconds of the epoch with
/// a nanosecond part below one second.
pub fn build_info(kernel_path: &str, secs: i64, nanos: u32, tool_version: &str) -> (r: Result<BuildIdentity, IdentityError>)
    ensures
        last_component(kernel_path@).len() == 0 <==> r == Err::<BuildIdentity, IdentityError>(IdentityError::NoKernelName),
        last_component(kernel_path@).len() > 0 && valid_time(secs, nanos) ==> r is Ok,
        r matches Ok(id) ==> identity_fields(id, kernel_path@, utc_text(secs as int, nanos as nat), tool_version@),
{
    if final_component(kernel_path).is_none() {
        return Err(IdentityError::NoKernelName);
    }
    match utc_display(secs, nanos) {
        None => Err(IdentityError::InvalidTime),
        Some(t) => build_info_at(kernel_path, t.as_str(), tool_version),
    }
}

/// Two records built for the same kernel path by the same tool version
/// differ at most in their build time, and not at all when built at the
/// same time.
pub proof fn lemma_identity_time_only(
    first: BuildIdentity,
    second: BuildIdentity,
    kernel_path: Seq<char>,
    first_time: Seq<char>,
    second_time: Seq<char>,
    tool_version: Seq<char>,
)
    requires
        identity_fields(first, kernel_path, first_time, tool_version),
        identity_fields(second, kernel_path, second_time, tool_version),
    ensures
        first.img_name@ == second.img_name@,
        first.img_version@ == second.img_version@,
        first.build_tool@ == second.build_tool@,
        first.build_tool_version@ == second.build_tool_version@,
        first.img_os@ == second.img_os@,
        first.img_kernel@ == second.img_kernel@,
        first_time == second_time ==> first.build_time@ == second.build_time@,
{
}

} // verus!
