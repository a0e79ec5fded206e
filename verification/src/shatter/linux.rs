//! The Linux backend: the probe for a tracer, and the patcher for ELF binaries.

use vstd::prelude::*;
use vstd::string::StringExecFns;
use crate::shatter::ident::generate_unique_ident;
use crate::shatter::ident::is_unique_ident;
use crate::shatter::IntegrityCheck;
use crate::shatter::patch::patch_sections;
use crate::shatter::patch::patched_image;
use crate::shatter::patch::placeholders_hold_digests;
use crate::shatter::patch::PatchError;
use crate::shatter::patch::Section;
use crate::shatter::patch::section_views;
use crate::shatter::patch::SectionView;
use crate::shatter::patch::span_len;
use crate::shatter::patch::span_start;
use crate::shatter::ShatterCondition;
use crate::shatter::ShatterConditionView;
use crate::text::byte_list;
use crate::text::push_byte_list;
use goblin::elf::Elf;

verus! {

/// The names that the probe for a tracer binds.
#[derive(Debug, PartialEq, Eq)]
pub struct ProbeNames {
    pub file: String,
    pub reader: String,
    pub pid: String,
    pub line: String,
}

/// The probe binds the tracer's process number, which starts at zero.
pub const PROBE_PID: &'static str = "let mut ";

/// The probe opens the status file of the process.
pub const PROBE_FILE: &'static str = ": u64 = 0; let ";

/// The probe reads the status file through a buffer.
pub const PROBE_READER: &'static str =
    " = ::std::fs::File::open(\"/proc/self/status\").unwrap(); let ";

/// The buffer is made over the file.
pub const PROBE_READER_NEW: &'static str = " = ::std::io::BufReader::new(";

/// The probe goes through the lines of the status file.
pub const PROBE_LOOP: &'static str = "); for ";

/// The lines are read from the buffer.
pub const PROBE_LINES: &'static str =
    " in <::std::io::BufReader<::std::fs::File> as ::std::io::BufRead>::lines(";

/// Only the line that names the tracer is looked at.
pub const PROBE_FILTER: &'static str =
    ").map(|line| line.unwrap()).filter(|line| line.starts_with(\"TracerPid:\")) { let ";

/// What follows the label of the line is taken.
pub const PROBE_TRIM: &'static str = " = &";

/// The label is ten characters long.
pub const PROBE_SLICE: &'static str = "[10..].trim(); ";

/// The number on the line is the tracer's process number.
pub const PROBE_ASSIGN: &'static str = " = ";

/// The first such line ends the search.
pub const PROBE_PARSE: &'static str = ".parse::<u64>().unwrap(); break; }";

/// A tracer is attached where its process number is not zero.
pub const PROBE_TEST: &'static str = " != 0";

/// The setup of the probe for a tracer over the given names.
pub open spec fn probe_setup(file: Seq<char>, reader: Seq<char>, pid: Seq<char>, line: Seq<char>) -> Seq<char> {
    PROBE_PID@ + pid + PROBE_FILE@ + file + PROBE_READER@ + reader + PROBE_READER_NEW@ + file
        + PROBE_LOOP@ + line + PROBE_LINES@ + reader + PROBE_FILTER@ + line + PROBE_TRIM@ + line
        + PROBE_SLICE@ + pid + PROBE_ASSIGN@ + line + PROBE_PARSE@
}

/// The probe for a tracer: the status file of the process is searched for the line
/// `TracerPid:`, and the condition holds where the number on it is not zero.
pub open spec fn anti_debug_check(file: Seq<char>, reader: Seq<char>, pid: Seq<char>, line: Seq<char>) -> ShatterConditionView {
    ShatterConditionView { setup: probe_setup(file, reader, pid, line), check: pid + PROBE_TEST@ }
}

/// The probe for a tracer over the given names.
pub fn anti_debug_check_with(names: &ProbeNames) -> (cond: ShatterCondition)
    ensures
        cond@ == anti_debug_check(names.file@, names.reader@, names.pid@, names.line@),
{
    let file = names.file.as_str();
    let reader = names.reader.as_str();
    let pid = names.pid.as_str();
    let line = names.line.as_str();
    let mut setup = String::from_str(PROBE_PID);
    setup.append(pid);
    setup.append(PROBE_FILE);
    setup.append(file);
    setup.append(PROBE_READER);
    setup.append(reader);
    setup.append(PROBE_READER_NEW);
    setup.append(file);
    setup.append(PROBE_LOOP);
    setup.append(line);
    setup.append(PROBE_LINES);
    setup.append(reader);
    setup.append(PROBE_FILTER);
    setup.append(line);
    setup.append(PROBE_TRIM);
    setup.append(line);
    setup.append(PROBE_SLICE);
    setup.append(pid);
    setup.append(PROBE_ASSIGN);
    setup.append(line);
    setup.append(PROBE_PARSE);
    let mut check = String::from_str(pid);
    check.append(PROBE_TEST);
    ShatterCondition { setup, check }
}

/// True for the probes for a tracer that the generator gives.
pub open spec fn is_anti_debug_check(cond: ShatterConditionView) -> bool {
    exists|file: Seq<char>, reader: Seq<char>, pid: Seq<char>, line: Seq<char>|
        {
            &&& is_unique_ident(file)
            &&& is_unique_ident(reader)
            &&& is_unique_ident(pid)
            &&& is_unique_ident(line)
            &&& cond == #[trigger] anti_debug_check(file, reader, pid, line)
        }
}

/// The probe for a tracer over names that are minted afresh.
pub fn generate_anti_debug_check() -> (cond: ShatterCondition)
    ensures
        is_anti_debug_check(cond@),
{
    let names = ProbeNames {
        file: generate_unique_ident(),
        reader: generate_unique_ident(),
        pid: generate_unique_ident(),
        line: generate_unique_ident(),
    };
    let cond = anti_debug_check_with(&names);
    assert(cond@ == anti_debug_check(names.file@, names.reader@, names.pid@, names.line@));
    cond
}

/// The probe declares the placeholder in the read-only data.
pub const INTEGRITY_HASH_STATIC: &'static str =
    "#[used] #[link_section = \".rodata\"] #[allow(non_upper_case_globals)] static ";

/// The placeholder is an array of 64 bytes.
pub const INTEGRITY_HASH_TYPE: &'static str = ": [u8; 64usize] = [";

/// The probe declares the salt in the code section.
pub const INTEGRITY_SALT_STATIC: &'static str =
    "]; #[used] #[link_section = \".text\"] #[allow(non_upper_case_globals)] static ";

/// The salt is an array of 32 bytes.
pub const INTEGRITY_SALT_TYPE: &'static str = ": [u8; 32usize] = [";

/// The probe reads the section table of the running program from its file, and looks in the
/// bytes of the code section, the last section of that name, for the salt. The size of a
/// section of an ELF binary is the same in the file and in memory, so all of it is hashed.
pub const INTEGRITY_FIND: &'static str =
    "]; let mut calculated_hash: ::std::vec::Vec<u8> = ::std::vec::Vec::new(); unsafe { let path = ::std::env::current_exe().unwrap(); let file = ::std::fs::read(path).unwrap(); let elf = r2d2::goblin::elf::Elf::parse(&file).unwrap(); for section in elf.section_headers.iter().rev() { let name = elf.shdr_strtab.get_at(section.sh_name).unwrap_or_default(); if name == \".text\" { let size = section.sh_size as usize; let start = section.sh_offset as usize; let anchor = file[start..start + size].windows(32usize).position(|window| window == ";

/// Where the salt stands in memory, less where it stands in the code section, is where the
/// loaded code section begins.
pub const INTEGRITY_ADDRESS: &'static str = ".as_slice()).unwrap(); let addr = ";

/// The loaded code section is hashed.
pub const INTEGRITY_HASHING: &'static str =
    ".as_ptr().sub(anchor); let text_slice = &*::std::ptr::slice_from_raw_parts(addr, size); calculated_hash = r2d2::crypto::hash(text_slice, Some(";

/// The hash is salted with the salt that the code section holds.
pub const INTEGRITY_HASHING_END: &'static str = ".as_slice())); break; } } }";

/// The code section has been changed where its hash is not the one in the read-only data.
pub const INTEGRITY_COMPARE: &'static str = "calculated_hash.as_slice() != ";

/// The end of the test of the probe.
pub const INTEGRITY_COMPARE_END: &'static str = ".as_slice()";

/// The integrity probe for a record: the placeholder is declared under the name
/// `hash_name` in the read-only data and the salt under `salt_name` in the code section,
/// both byte for byte; the loaded code section of the running program is found by the salt
/// and hashed with it; and the condition holds where the hash is not what stands in the
/// place of the placeholder.
pub open spec fn integrity_check(check: IntegrityCheck, hash_name: Seq<char>, salt_name: Seq<char>) -> ShatterConditionView {
    ShatterConditionView {
        setup: INTEGRITY_HASH_STATIC@ + hash_name + INTEGRITY_HASH_TYPE@ + byte_list(check.hash@)
            + INTEGRITY_SALT_STATIC@ + salt_name + INTEGRITY_SALT_TYPE@ + byte_list(check.salt@)
            + INTEGRITY_FIND@ + salt_name + INTEGRITY_ADDRESS@ + salt_name + INTEGRITY_HASHING@
            + salt_name + INTEGRITY_HASHING_END@,
        check: INTEGRITY_COMPARE@ + hash_name + INTEGRITY_COMPARE_END@,
    }
}

/// The integrity probe for a record, over the given names.
pub fn integrity_check_with(check: &IntegrityCheck, hash_name: &str, salt_name: &str) -> (cond: ShatterCondition)
    ensures
        cond@ == integrity_check(*check, hash_name@, salt_name@),
{
    let mut setup = String::from_str(INTEGRITY_HASH_STATIC);
    setup.append(hash_name);
    setup.append(INTEGRITY_HASH_TYPE);
    push_byte_list(&mut setup, check.hash.as_slice());
    setup.append(INTEGRITY_SALT_STATIC);
    setup.append(salt_name);
    setup.append(INTEGRITY_SALT_TYPE);
    push_byte_list(&mut setup, check.salt.as_slice());
    setup.append(INTEGRITY_FIND);
    setup.append(salt_name);
    setup.append(INTEGRITY_ADDRESS);
    setup.append(salt_name);
    setup.append(INTEGRITY_HASHING);
    setup.append(salt_name);
    setup.append(INTEGRITY_HASHING_END);
    let mut test = String::from_str(INTEGRITY_COMPARE);
    test.append(hash_name);
    test.append(INTEGRITY_COMPARE_END);
    ShatterCondition { setup, check: test }
}

/// True for the integrity probes that the generator gives for a record.
pub open spec fn is_integrity_check(cond: ShatterConditionView, check: IntegrityCheck) -> bool {
    exists|hash_name: Seq<char>, salt_name: Seq<char>|
        {
            &&& is_unique_ident(hash_name)
            &&& is_unique_ident(salt_name)
            &&& cond == #[trigger] integrity_check(check, hash_name, salt_name)
        }
}

/// An integrity probe with its record: the placeholder and the salt are drawn afresh, and
/// so are the names under which the program holds them.
pub fn generate_integrity_check() -> (r: (ShatterCondition, IntegrityCheck))
    ensures
        is_integrity_check(r.0@, r.1),
{
    let check = IntegrityCheck::generate();
    let hash_name = generate_unique_ident();
    let salt_name = generate_unique_ident();
    let cond = integrity_check_with(&check, hash_name.as_str(), salt_name.as_str());
    assert(cond@ == integrity_check(check, hash_name@, salt_name@));
    (cond, check)
}

/// The name of the code section of an ELF binary.
pub const CODE_SECTION: &'static str = ".text";

/// The name of the read-only data section of an ELF binary.
pub const DATA_SECTION: &'static str = ".rodata";

/// The error of the binary parser.
#[verifier::external_type_specification]
#[verifier::external_body]
pub struct ExGoblinError(goblin::error::Error);

/// The type of the sections that take room in memory and hold no bytes in the file.
pub const SHT_NOBITS: u32 = 8;

/// What a section header of an ELF binary says of its section.
#[derive(Debug, PartialEq, Eq)]
pub struct ElfSection {
    pub name: String,
    /// The type of the section.
    pub kind: u32,
    /// Where the section lies in the file.
    pub offset: u64,
    /// Bytes that the section takes.
    pub size: u64,
}

/// A section header as a mathematical value.
pub struct ElfSectionView {
    pub name: Seq<char>,
    pub kind: u32,
    pub offset: u64,
    pub size: u64,
}

impl View for ElfSection {
    type V = ElfSectionView;

    open spec fn view(&self) -> ElfSectionView {
        ElfSectionView { name: self.name@, kind: self.kind, offset: self.offset, size: self.size }
    }
}

/// The section headers that the ELF parser reads from a binary, or `None` where it refuses
/// the binary.
pub uninterp spec fn elf_section_headers(image: Seq<u8>) -> Option<Seq<ElfSectionView>>;

/// `Elf::parse`, and of what it parsed the section headers: of each section its name from
/// the string table (empty where it has none), its type, its offset in the file and its
/// size.
#[verifier::external_body]
fn elf_headers(image: &[u8]) -> (r: Result<Vec<ElfSection>, goblin::error::Error>)
    ensures
        r is Ok <==> elf_section_headers(image@) is Some,
        r matches Ok(headers) ==> elf_section_headers(image@) == Some(
            headers@.map_values(|h: ElfSection| h@),
        ),
{
    let elf = Elf::parse(image)?;
    Ok(elf.section_headers.iter().map(|h| ElfSection {
        name: elf.shdr_strtab.get_at(h.sh_name).unwrap_or_default().to_string(),
        kind: h.sh_type,
        offset: h.sh_offset,
        size: h.sh_size,
    }).collect())
}

/// Where a section of an ELF binary lies: it takes its size in memory, and as much in the
/// file unless it is of the type that holds no bytes there.
pub open spec fn section_of(header: ElfSectionView) -> SectionView {
    SectionView {
        name: header.name,
        offset: header.offset as nat,
        raw_size: if header.kind == SHT_NOBITS {
            0
        } else {
            header.size as nat
        },
        virtual_size: header.size as nat,
    }
}

/// The section table of an ELF binary, or `None` where the parser refuses the binary.
pub open spec fn elf_section_table(image: Seq<u8>) -> Option<Seq<SectionView>> {
    match elf_section_headers(image) {
        Some(headers) => Some(headers.map_values(|h: ElfSectionView| section_of(h))),
        None => None,
    }
}

/// Reads the section table of an ELF binary.
pub fn elf_sections(image: &[u8]) -> (r: Result<Vec<Section>, PatchError>)
    ensures
        match r {
            Ok(sections) => elf_section_table(image@) == Some(section_views(sections@)),
            Err(e) => e == PatchError::Parse && elf_section_table(image@) is None,
        },
{
    let headers = match elf_headers(image) {
        Ok(headers) => headers,
        Err(_) => {
            return Err(PatchError::Parse);
        },
    };
    let ghost views = headers@.map_values(|h: ElfSection| h@);
    let mut sections: Vec<Section> = Vec::new();
    let mut i: usize = 0;
    while i < headers.len()
        invariant
            i <= headers@.len(),
            sections@.len() == i,
            forall|j: int| 0 <= j < i ==> (#[trigger] sections@[j])@ == section_of(headers@[j]@),
        decreases headers@.len() - i,
    {
        let header = &headers[i];
        sections.push(
            Section {
                name: header.name.clone(),
                pointer_to_raw_data: header.offset,
                size_of_raw_data: if header.kind == SHT_NOBITS {
                    0
                } else {
                    header.size
                },
                virtual_size: header.size,
            },
        );
        i = i + 1;
    }
    assert(section_views(sections@) =~= views.map_values(|h: ElfSectionView| section_of(h)));
    Ok(sections)
}

/// What patching an ELF binary gives: a parse error where the parser refuses it, else the
/// image patched by its section table.
pub open spec fn patched_elf(image: Seq<u8>, checks: Seq<IntegrityCheck>) -> Result<Seq<u8>, PatchError> {
    match elf_section_table(image) {
        None => Err(PatchError::Parse),
        Some(sections) => patched_image(image, sections, CODE_SECTION@, DATA_SECTION@, checks),
    }
}

/// Patches a compiled ELF binary: for each check whose salt stands in the code section, the
/// hash of the code section is written over the placeholder in the read-only data. The
/// patched binary is as long as the binary and differs from it in the read-only data at most.
pub fn integrity_check_post_compilation(image: &Vec<u8>, checks: &Vec<IntegrityCheck>) -> (r: Result<Vec<u8>, PatchError>)
    ensures
        match r {
            Ok(out) => patched_elf(image@, checks@) == Ok::<Seq<u8>, PatchError>(out@),
            Err(e) => patched_elf(image@, checks@) == Err::<Seq<u8>, PatchError>(e),
        },
        r matches Ok(out) ==> out@.len() == image@.len(),
        r matches Ok(out) ==> forall|j: int|
            0 <= j < image@.len() && !(span_start(elf_section_table(image@)->0, DATA_SECTION@) <= j
                < span_start(elf_section_table(image@)->0, DATA_SECTION@) + span_len(
                elf_section_table(image@)->0,
                DATA_SECTION@,
            )) ==> out@[j] == image@[j],
        r matches Ok(out) ==> placeholders_hold_digests(
            out@,
            image@,
            elf_section_table(image@)->0,
            CODE_SECTION@,
            DATA_SECTION@,
            checks@,
        ),
{
    match elf_sections(image.as_slice()) {
        Err(e) => Err(e),
        Ok(sections) => patch_sections(image, &sections, CODE_SECTION, DATA_SECTION, checks),
    }
}

} // verus!
