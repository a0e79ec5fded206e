//! The Windows backend: probes for a debugger and for a changed code section, and the
//! patcher for PE binaries whose section table has been read.
//!
//! The probes call the operating system through the crate `windows`, which their text names
//! under this crate's path: a program that is built for Windows with these probes needs that
//! crate re-exported there.

use vstd::prelude::*;
use vstd::string::StringExecFns;
use crate::shatter::ident::generate_unique_ident;
use crate::shatter::ident::is_unique_ident;
use crate::shatter::IntegrityCheck;
use crate::shatter::patch::patch_sections;
use crate::shatter::patch::patched_image;
use crate::shatter::patch::placeholders_hold_digests;
use crate::shatter::patch::PatchError;
use crate::shatter::patch::Section;
use crate::shatter::patch::section_views;
use crate::shatter::patch::SectionView;
use crate::shatter::patch::span_len;
use crate::shatter::patch::span_start;
use crate::shatter::ShatterCondition;
use crate::shatter::ShatterConditionView;
use crate::text::byte_list;
use crate::text::push_byte_list;

verus! {

/// The name of the code section of a PE binary.
pub const CODE_SECTION: &'static str = ".text";

/// The name of the read-only data section of a PE binary.
pub const DATA_SECTION: &'static str = ".rdata";

/// What patching a PE binary with the given section table gives.
pub open spec fn patched_pe(
    image: Seq<u8>,
    sections: Seq<SectionView>,
    checks: Seq<IntegrityCheck>,
) -> Result<Seq<u8>, PatchError> {
    patched_image(image, sections, CODE_SECTION@, DATA_SECTION@, checks)
}

/// Patches a compiled PE binary whose section table has been read: for each check whose
/// salt stands in the code section, the hash of the code section is written over the
/// placeholder in the read-only data. The patched binary is as long as the binary and
/// differs from it in the read-only data at most.
///
/// The section table comes from the caller: a parser of PE binaries may panic on a
/// malformed file, and nothing in this library does.
pub fn integrity_check_post_compilation(
    image: &Vec<u8>,
    sections: &Vec<Section>,
    checks: &Vec<IntegrityCheck>,
) -> (r: Result<Vec<u8>, PatchError>)
    ensures
        match r {
            Ok(out) => patched_pe(image@, section_views(sections@), checks@) == Ok::<
                Seq<u8>,
                PatchError,
            >(out@),
            Err(e) => patched_pe(image@, section_views(sections@), checks@) == Err::<
                Seq<u8>,
                PatchError,
            >(e),
        },
        r matches Ok(out) ==> out@.len() == image@.len(),
        r matches Ok(out) ==> forall|j: int|
            0 <= j < image@.len() && !(span_start(section_views(sections@), DATA_SECTION@) <= j
                < span_start(section_views(sections@), DATA_SECTION@) + span_len(
                section_views(sections@),
                DATA_SECTION@,
            )) ==> out@[j] == image@[j],
        r matches Ok(out) ==> placeholders_hold_digests(
            out@,
            image@,
            section_views(sections@),
            CODE_SECTION@,
            DATA_SECTION@,
            checks@,
        ),
{
    patch_sections(image, sections, CODE_SECTION, DATA_SECTION, checks)
}

/// The test for a debugger: the answer of the operating system.
pub const DEBUGGER_TEST: &'static str =
    "unsafe { r2d2::windows::Win32::System::Diagnostics::Debug::IsDebuggerPresent().as_bool() }";

/// The probe for a debugger: nothing is set up, and the condition is what the operating
/// system answers when asked whether a debugger is present.
pub open spec fn anti_debug_check() -> ShatterConditionView {
    ShatterConditionView { setup: Seq::empty(), check: DEBUGGER_TEST@ }
}

/// The probe for a debugger.
pub fn generate_anti_debug_check() -> (cond: ShatterCondition)
    ensures
        cond@ == anti_debug_check(),
{
    ShatterCondition { setup: String::new(), check: String::from_str(DEBUGGER_TEST) }
}

/// The probe declares the placeholder in the read-only data.
pub const PROBE_HASH_STATIC: &'static str =
    "#[used] #[link_section = \".rdata\"] #[allow(non_upper_case_globals)] static ";

/// The placeholder is an array of 64 bytes.
pub const PROBE_HASH_TYPE: &'static str = ": [u8; 64usize] = [";

/// The probe declares the salt in the code section.
pub const PROBE_SALT_STATIC: &'static str =
    "]; #[used] #[link_section = \".text\"] #[allow(non_upper_case_globals)] static ";

/// The salt is an array of 32 bytes.
pub const PROBE_SALT_TYPE: &'static str = ": [u8; 32usize] = [";

/// The probe finds the code section of the running program, the last section of that name,
/// through the handle of its module, and hashes as many of its bytes as both the file and
/// the loaded image hold.
pub const PROBE_HASHING: &'static str =
    "]; let mut calculated_hash: ::std::vec::Vec<u8> = ::std::vec::Vec::new(); unsafe { let null_pcstr = r2d2::windows::core::PCSTR(::std::ptr::null()); let real_handle = r2d2::windows::Win32::System::LibraryLoader::GetModuleHandleA(null_pcstr).0; let handle = real_handle as *const u8; assert!(!handle.is_null()); let path = ::std::env::current_exe().unwrap(); let total_size = ::std::fs::metadata(path).unwrap().len(); let header_slice = &*::std::ptr::slice_from_raw_parts(handle, total_size as usize); let opts = r2d2::goblin::pe::options::ParseOptions { resolve_rva: false, }; let pe: r2d2::goblin::pe::PE = r2d2::goblin::pe::PE::parse_with_opts(header_slice, &opts).unwrap(); for section in pe.sections.iter().rev() { let name = section.name().unwrap_or_default(); if name.is_empty() { continue } if name == \".text\" { let base = pe.image_base; let size = section.virtual_size.min(section.size_of_raw_data) as usize; let addr = (base as *const u8).add(section.virtual_address as usize); let text_slice = &*::std::ptr::slice_from_raw_parts(addr, size as usize); calculated_hash = r2d2::crypto::hash(text_slice, Some(";

/// The hash is salted with the salt that the code section holds.
pub const PROBE_HASHING_END: &'static str = ".as_slice())); break; } } }";

/// The code section has been changed where its hash is not the one in the read-only data.
pub const PROBE_COMPARE: &'static str = "calculated_hash.as_slice() != ";

/// The end of the test of the probe.
pub const PROBE_COMPARE_END: &'static str = ".as_slice()";

/// The integrity probe for a record: the placeholder is declared under the name
/// `hash_name` in the read-only data and the salt under `salt_name` in the code section,
/// both byte for byte; the code section of the running program is hashed with the salt; and
/// the condition holds where the hash is not what stands in the place of the placeholder.
pub open spec fn integrity_check(check: IntegrityCheck, hash_name: Seq<char>, salt_name: Seq<char>) -> ShatterConditionView {
    ShatterConditionView {
        setup: PROBE_HASH_STATIC@ + hash_name + PROBE_HASH_TYPE@ + byte_list(check.hash@)
            + PROBE_SALT_STATIC@ + salt_name + PROBE_SALT_TYPE@ + byte_list(check.salt@)
            + PROBE_HASHING@ + salt_name + PROBE_HASHING_END@,
        check: PROBE_COMPARE@ + hash_name + PROBE_COMPARE_END@,
    }
}

/// The integrity probe for a record, over the given names.
pub fn integrity_check_with(check: &IntegrityCheck, hash_name: &str, salt_name: &str) -> (cond: ShatterCondition)
    ensures
        cond@ == integrity_check(*check, hash_name@, salt_name@),
{
    let mut setup = String::from_str(PROBE_HASH_STATIC);
    setup.append(hash_name);
    setup.append(PROBE_HASH_TYPE);
    push_byte_list(&mut setup, check.hash.as_slice());
    setup.append(PROBE_SALT_STATIC);
    setup.append(salt_name);
    setup.append(PROBE_SALT_TYPE);
    push_byte_list(&mut setup, check.salt.as_slice());
    setup.append(PROBE_HASHING);
    setup.append(salt_name);
    setup.append(PROBE_HASHING_END);
    let mut test = String::from_str(PROBE_COMPARE);
    test.append(hash_name);
    test.append(PROBE_COMPARE_END);
    ShatterCondition { setup, check: test }
}

/// True for the integrity probes that the generator gives for a record.
pub open spec fn is_integrity_check(cond: ShatterConditionView, check: IntegrityCheck) -> bool {
    exists|hash_name: Seq<char>, salt_name: Seq<char>|
        {
            &&& is_unique_ident(hash_name)
            &&& is_unique_ident(salt_name)
            &&& cond == #[trigger] integrity_check(check, hash_name, salt_name)
        }
}

/// An integrity probe with its record: the placeholder and the salt are drawn afresh, and
/// so are the names under which the program holds them.
pub fn generate_integrity_check() -> (r: (ShatterCondition, IntegrityCheck))
    ensures
        is_integrity_check(r.0@, r.1),
{
    let check = IntegrityCheck::generate();
    let hash_name = generate_unique_ident();
    let salt_name = generate_unique_ident();
    let cond = integrity_check_with(&check, hash_name.as_str(), salt_name.as_str());
    assert(cond@ == integrity_check(check, hash_name@, salt_name@));
    (cond, check)
}

} // verus!
