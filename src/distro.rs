//! Telling a core system from a classic one by the lines of its os-release
//! file.
use vstd::prelude::*;

use crate::text::{chars_of, range_eq};

verus! {

broadcast use vstd::string::group_string_axioms;

/// The kind of system the sandbox runs on.
#[derive(Debug, Copy, Clone, PartialEq, Eq, Structural)]
pub enum DistroKind {
    Core16,
    CoreOther,
    Classic,
}

/// The line says that the system is a core system.
pub open spec fn marks_core(line: Seq<char>) -> bool {
    ||| line == "ID=\"ubuntu-core\""@
    ||| line == "ID=ubuntu-core"@
    ||| line == "VARIANT_ID=\"snappy\""@
    ||| line == "VARIANT_ID=snappy"@
}

/// The line says that the system is of version 16.
pub open spec fn marks_version_16(line: Seq<char>) -> bool {
    line == "VERSION_ID=\"16\""@ || line == "VERSION_ID=16"@
}

/// The kind of system that os-release lines describe; where none of them marks
/// a core system, a present package metadata file still does.
pub open spec fn distro_of(lines: Seq<String>, meta_snap_yaml_exists: bool) -> DistroKind {
    let core = (exists|i: int| 0 <= i < lines.len() && marks_core(#[trigger] lines[i]@))
        || meta_snap_yaml_exists;
    let v16 = exists|i: int| 0 <= i < lines.len() && marks_version_16(#[trigger] lines[i]@);
    if !core {
        DistroKind::Classic
    } else if v16 {
        DistroKind::Core16
    } else {
        DistroKind::CoreOther
    }
}

fn same_text(a: &str, b: &str) -> (r: bool)
    ensures
        r == (a@ == b@),
{
    let av = chars_of(a);
    let bv = chars_of(b);
    proof {
        assert(av@.subrange(0, av@.len() as int) =~= av@);
    }
    range_eq(&av, 0, av.len(), &bv)
}

/// Classifies the system from the lines of its os-release file and whether
/// the package metadata file exists.
pub fn classify_os_release(lines: &Vec<String>, meta_snap_yaml_exists: bool) -> (r: DistroKind)
    ensures
        r == distro_of(lines@, meta_snap_yaml_exists),
{
    let mut is_core = false;
    let mut is_16 = false;
    let mut i: usize = 0;
    while i < lines.len()
        invariant
            i <= lines.len(),
            is_core == exists|j: int| 0 <= j < i && marks_core(#[trigger] lines@[j]@),
            is_16 == exists|j: int| 0 <= j < i && marks_version_16(#[trigger] lines@[j]@),
        decreases lines.len() - i,
    {
        let line = lines[i].as_str();
        if same_text(line, "ID=\"ubuntu-core\"") || same_text(line, "ID=ubuntu-core")
            || same_text(line, "VARIANT_ID=\"snappy\"") || same_text(line, "VARIANT_ID=snappy") {
            is_core = true;
        }
        if same_text(line, "VERSION_ID=\"16\"") || same_text(line, "VERSION_ID=16") {
            is_16 = true;
        }
        i = i + 1;
    }
    if !is_core && meta_snap_yaml_exists {
        is_core = true;
    }
    if is_core {
        if is_16 {
            DistroKind::Core16
        } else {
            DistroKind::CoreOther
        }
    } else {
        DistroKind::Classic
    }
}

#[verifier::external_type_specification]
#[verifier::external_body]
pub struct ExIoError(std::io::Error);

/// Relies on `std::io::Error::new`: an error of kind `Other` carrying `msg`.
#[verifier::external_body]
fn other_io_error(msg: &str) -> std::io::Error {
    std::io::Error::new(std::io::ErrorKind::Other, msg)
}

/// Whether the system derives from Debian: no source of that knowledge is
/// known here, so this always fails.
pub fn is_debian_like() -> (r: Result<bool, std::io::Error>)
    ensures
        r is Err,
{
    Err(other_io_error("not implemnted"))
}

} // verus!
