use r2d2::crypto::hash;
use r2d2::shatter::linux;
use r2d2::shatter::patch::find_subsequence;
use r2d2::shatter::patch::patch_once;
use r2d2::shatter::patch::patch_sections;
use r2d2::shatter::patch::PatchError;
use r2d2::shatter::patch::Section;
use r2d2::shatter::windows;
use r2d2::shatter::IntegrityCheck;
use r2d2::shatter::IntegrityCheckType;
use r2d2::shatter::Shatter;
use r2d2::shatter::Target;

fn check(hash_byte: u8, salt_byte: u8) -> IntegrityCheck {
    let mut hash = [hash_byte; 64];
    hash[0] = 0xfe;
    let mut salt = [salt_byte; 32];
    salt[31] = 0xfd;
    IntegrityCheck { check_type: IntegrityCheckType::ALL, hash, salt }
}

fn section(name: &str, offset: u64, raw: u64, virt: u64) -> Section {
    Section {
        name: name.to_string(),
        pointer_to_raw_data: offset,
        size_of_raw_data: raw,
        virtual_size: virt,
    }
}

/// 16 bytes of header, a code section of 64 bytes at 16, read-only data of 96 bytes at 80.
fn image(salt: Option<&IntegrityCheck>, placeholder: Option<&IntegrityCheck>) -> Vec<u8> {
    let mut bytes: Vec<u8> = (0..176u32).map(|i| (i % 7) as u8).collect();
    if let Some(c) = salt {
        bytes[24..56].copy_from_slice(&c.salt);
    }
    if let Some(c) = placeholder {
        bytes[100..164].copy_from_slice(&c.hash);
    }
    bytes
}

fn layout() -> Vec<Section> {
    vec![section(".text", 16, 64, 64), section(".rdata", 80, 96, 96)]
}

#[test]
fn the_first_occurrence_is_found() {
    assert_eq!(find_subsequence(b"abcabc", b"bc"), Some(1));
    assert_eq!(find_subsequence(b"abcabc", b"abc"), Some(0));
    assert_eq!(find_subsequence(b"abcabc", b"cab"), Some(2));
    assert_eq!(find_subsequence(b"abcabc", b"abcabc"), Some(0));
    assert_eq!(find_subsequence(b"aaab", b"aab"), Some(1));
    assert_eq!(find_subsequence(b"abcabc", b"abd"), None);
    assert_eq!(find_subsequence(b"abc", b"abcd"), None);
    assert_eq!(find_subsequence(b"", b"a"), None);
    assert_eq!(find_subsequence(b"abc", b""), Some(0));
    assert_eq!(find_subsequence(b"", b""), Some(0));
    assert_eq!(find_subsequence(b"xyz", b"z"), Some(2));
}

#[test]
fn the_hash_of_the_code_section_replaces_the_placeholder() {
    let c = check(0x11, 0x22);
    let before = image(Some(&c), Some(&c));
    let after = patch_sections(&before, &layout(), ".text", ".rdata", &vec![c]).unwrap();
    let real = hash(&before[16..80], Some(&c.salt));
    assert_eq!(after.len(), before.len());
    assert_eq!(&after[100..164], real.as_slice());
    assert_eq!(&after[..100], &before[..100]);
    assert_eq!(&after[164..], &before[164..]);
    assert_eq!(hash(&after[16..80], Some(&c.salt)), real);
}

#[test]
fn a_check_whose_salt_is_absent_is_skipped() {
    let c = check(0x11, 0x22);
    let with_placeholder_only = image(None, Some(&c));
    assert_eq!(
        patch_sections(&with_placeholder_only, &layout(), ".text", ".rdata", &vec![c]),
        Ok(with_placeholder_only)
    );
    let with_nothing = image(None, None);
    assert_eq!(
        patch_sections(&with_nothing, &layout(), ".text", ".rdata", &vec![c, check(1, 2)]),
        Ok(with_nothing)
    );
}

#[test]
fn a_salt_outside_the_code_section_does_not_count() {
    let c = check(0x11, 0x22);
    let mut bytes = image(None, Some(&c));
    bytes[90..100].copy_from_slice(&c.salt[..10]);
    let mut data_only = bytes.clone();
    data_only[0..16].copy_from_slice(&c.salt[..16]);
    assert_eq!(
        patch_sections(&data_only, &layout(), ".text", ".rdata", &vec![c]),
        Ok(data_only)
    );
}

#[test]
fn a_missing_placeholder_is_fatal() {
    let c = check(0x11, 0x22);
    let bytes = image(Some(&c), None);
    assert_eq!(
        patch_sections(&bytes, &layout(), ".text", ".rdata", &vec![c]),
        Err(PatchError::PlaceholderMissing)
    );
    let absent = check(0x33, 0x44);
    assert_eq!(
        patch_sections(&bytes, &layout(), ".text", ".rdata", &vec![absent, c]),
        Err(PatchError::PlaceholderMissing)
    );
    assert_eq!(patch_sections(&bytes, &layout(), ".text", ".rdata", &vec![absent]), Ok(bytes));
}

#[test]
fn no_checks_leave_the_image() {
    let bytes = image(None, None);
    assert_eq!(patch_sections(&bytes, &layout(), ".text", ".rdata", &Vec::new()), Ok(bytes));
}

#[test]
fn two_checks_are_patched_in_turn() {
    let a = check(0x11, 0x22);
    let b = check(0x55, 0x66);
    let mut bytes: Vec<u8> = vec![0; 16 + 64 + 160];
    bytes[16..48].copy_from_slice(&a.salt);
    bytes[48..80].copy_from_slice(&b.salt);
    bytes[80..144].copy_from_slice(&a.hash);
    bytes[160..224].copy_from_slice(&b.hash);
    let sections = vec![section(".text", 16, 64, 64), section(".rdata", 80, 160, 160)];
    let after = patch_sections(&bytes, &sections, ".text", ".rdata", &vec![a, b]).unwrap();
    assert_eq!(&after[80..144], hash(&bytes[16..80], Some(&a.salt)).as_slice());
    assert_eq!(&after[160..224], hash(&bytes[16..80], Some(&b.salt)).as_slice());
    assert_eq!(&after[..80], &bytes[..80]);
    assert_eq!(&after[144..160], &bytes[144..160]);
}

#[test]
fn only_the_bytes_that_file_and_memory_share_are_hashed() {
    let c = check(0x11, 0x22);
    let before = image(Some(&c), Some(&c));
    let smaller_in_memory = vec![section(".text", 16, 64, 48), section(".rdata", 80, 96, 96)];
    let after = patch_sections(&before, &smaller_in_memory, ".text", ".rdata", &vec![c]).unwrap();
    assert_eq!(&after[100..164], hash(&before[16..64], Some(&c.salt)).as_slice());
    let smaller_in_file = vec![section(".text", 16, 40, 64), section(".rdata", 80, 96, 200)];
    let after = patch_sections(&before, &smaller_in_file, ".text", ".rdata", &vec![c]).unwrap();
    assert_eq!(&after[100..164], hash(&before[16..56], Some(&c.salt)).as_slice());
    let salt_cut_off = vec![section(".text", 16, 64, 20), section(".rdata", 80, 96, 96)];
    assert_eq!(patch_sections(&before, &salt_cut_off, ".text", ".rdata", &vec![c]), Ok(before));
}

#[test]
fn a_change_behind_the_shared_bytes_is_not_seen() {
    let c = check(0x11, 0x22);
    let before = image(Some(&c), Some(&c));
    let sections = vec![section(".text", 16, 64, 48), section(".rdata", 80, 96, 96)];
    let mut changed = before.clone();
    changed[70] ^= 0xff;
    let a = patch_sections(&before, &sections, ".text", ".rdata", &vec![c]).unwrap();
    let b = patch_sections(&changed, &sections, ".text", ".rdata", &vec![c]).unwrap();
    assert_eq!(&a[100..164], &b[100..164]);
    let mut tampered = before.clone();
    tampered[17] ^= 0xff;
    let t = patch_sections(&tampered, &sections, ".text", ".rdata", &vec![c]).unwrap();
    assert_ne!(&a[100..164], &t[100..164]);
}

#[test]
fn a_named_section_beyond_the_file_is_refused() {
    let bytes = image(None, None);
    let sections = vec![section(".text", 16, 64, 64), section(".data", 170, 64, 64)];
    assert_eq!(
        patch_sections(&bytes, &sections, ".text", ".rdata", &Vec::new()),
        Err(PatchError::SectionOutOfImage)
    );
    let unnamed = vec![section(".text", 16, 64, 64), section("", 170, 64, 64)];
    assert_eq!(patch_sections(&bytes, &unnamed, ".text", ".rdata", &Vec::new()), Ok(bytes.clone()));
    let huge = vec![section(".text", u64::MAX, u64::MAX, u64::MAX)];
    assert_eq!(
        patch_sections(&bytes, &huge, ".text", ".rdata", &Vec::new()),
        Err(PatchError::SectionOutOfImage)
    );
}

#[test]
fn the_last_section_of_a_name_counts() {
    let c = check(0x11, 0x22);
    let before = image(Some(&c), Some(&c));
    let sections = vec![
        section(".text", 0, 8, 8),
        section(".text", 16, 64, 64),
        section(".rdata", 80, 96, 96),
    ];
    let after = patch_sections(&before, &sections, ".text", ".rdata", &vec![c]).unwrap();
    assert_eq!(&after[100..164], hash(&before[16..80], Some(&c.salt)).as_slice());
    let reversed = vec![
        section(".text", 16, 64, 64),
        section(".text", 0, 8, 8),
        section(".rdata", 80, 96, 96),
    ];
    assert_eq!(patch_sections(&before, &reversed, ".text", ".rdata", &vec![c]), Ok(before));
}

#[test]
fn without_a_code_section_nothing_is_patched() {
    let c = check(0x11, 0x22);
    let before = image(Some(&c), Some(&c));
    let sections = vec![section(".rdata", 80, 96, 96)];
    assert_eq!(patch_sections(&before, &sections, ".text", ".rdata", &vec![c]), Ok(before.clone()));
    assert_eq!(patch_sections(&before, &layout(), "", ".rdata", &vec![c]), Ok(before));
}

fn put16(bytes: &mut Vec<u8>, at: usize, v: u16) {
    bytes[at..at + 2].copy_from_slice(&v.to_le_bytes());
}

fn put32(bytes: &mut Vec<u8>, at: usize, v: u32) {
    bytes[at..at + 4].copy_from_slice(&v.to_le_bytes());
}

fn put64(bytes: &mut Vec<u8>, at: usize, v: u64) {
    bytes[at..at + 8].copy_from_slice(&v.to_le_bytes());
}

/// A PE image without optional header: `.text` of 64 bytes at 256, `.rdata` of 128 at 320.
fn pe_image(c: &IntegrityCheck, with_salt: bool) -> Vec<u8> {
    let mut bytes: Vec<u8> = vec![0; 448];
    bytes[0] = b'M';
    bytes[1] = b'Z';
    put32(&mut bytes, 0x3c, 64);
    bytes[64..68].copy_from_slice(b"PE\0\0");
    put16(&mut bytes, 68, 0x8664);
    put16(&mut bytes, 70, 2);
    put16(&mut bytes, 84, 0);
    put16(&mut bytes, 86, 0x0002);
    let table = 88;
    bytes[table..table + 5].copy_from_slice(b".text");
    put32(&mut bytes, table + 8, 60);
    put32(&mut bytes, table + 12, 0x1000);
    put32(&mut bytes, table + 16, 64);
    put32(&mut bytes, table + 20, 256);
    bytes[table + 40..table + 46].copy_from_slice(b".rdata");
    put32(&mut bytes, table + 48, 128);
    put32(&mut bytes, table + 52, 0x2000);
    put32(&mut bytes, table + 56, 128);
    put32(&mut bytes, table + 60, 320);
    for i in 256..320 {
        bytes[i] = (i % 251) as u8;
    }
    if with_salt {
        bytes[260..292].copy_from_slice(&c.salt);
    }
    bytes[330..394].copy_from_slice(&c.hash);
    bytes
}

/// The section table of a PE image as the parser reads it.
fn pe_sections(image: &[u8]) -> Vec<Section> {
    let opts = goblin::pe::options::ParseOptions { resolve_rva: true };
    let pe = goblin::pe::PE::parse_with_opts(image, &opts).unwrap();
    pe.sections
        .iter()
        .map(|s| Section {
            name: s.name().unwrap_or_default().to_string(),
            pointer_to_raw_data: u64::from(s.pointer_to_raw_data),
            size_of_raw_data: u64::from(s.size_of_raw_data),
            virtual_size: u64::from(s.virtual_size),
        })
        .collect()
}

#[test]
fn a_pe_binary_is_patched() {
    let c = check(0x11, 0x22);
    let before = pe_image(&c, true);
    let sections = pe_sections(&before);
    assert_eq!(sections, vec![section(".text", 256, 64, 60), section(".rdata", 320, 128, 128)]);
    let after = windows::integrity_check_post_compilation(&before, &sections, &vec![c]).unwrap();
    assert_eq!(&after[330..394], hash(&before[256..316], Some(&c.salt)).as_slice());
    assert_eq!(&after[..330], &before[..330]);
    assert_eq!(&after[394..], &before[394..]);
}

#[test]
fn a_pe_binary_without_the_salt_is_left_alone() {
    let c = check(0x11, 0x22);
    let before = pe_image(&c, false);
    let sections = pe_sections(&before);
    assert_eq!(
        windows::integrity_check_post_compilation(&before, &sections, &vec![c]),
        Ok(before)
    );
}

#[test]
fn a_pe_binary_shorter_than_its_sections_is_refused() {
    let c = check(0x11, 0x22);
    let whole = pe_image(&c, true);
    let sections = pe_sections(&whole);
    let mut truncated = whole;
    truncated.truncate(300);
    assert_eq!(
        windows::integrity_check_post_compilation(&truncated, &sections, &vec![c]),
        Err(PatchError::SectionOutOfImage)
    );
}

/// An ELF image: `.text` of 64 bytes at 64, `.rodata` of 128 at 128, names at 256, section
/// headers at 288.
fn elf_image(c: &IntegrityCheck, with_salt: bool) -> Vec<u8> {
    let names = b"\0.text\0.rodata\0.shstrtab\0";
    let mut bytes: Vec<u8> = vec![0; 288 + 4 * 64];
    bytes[0..4].copy_from_slice(&[0x7f, b'E', b'L', b'F']);
    bytes[4] = 2;
    bytes[5] = 1;
    bytes[6] = 1;
    put16(&mut bytes, 16, 2);
    put16(&mut bytes, 18, 0x3e);
    put32(&mut bytes, 20, 1);
    put64(&mut bytes, 40, 288);
    put16(&mut bytes, 52, 64);
    put16(&mut bytes, 54, 56);
    put16(&mut bytes, 56, 0);
    put16(&mut bytes, 58, 64);
    put16(&mut bytes, 60, 4);
    put16(&mut bytes, 62, 3);
    bytes[256..256 + names.len()].copy_from_slice(names);
    let headers = [(1u32, 1u32, 64u64, 64u64), (7, 1, 128, 128), (15, 3, 256, names.len() as u64)];
    for (i, (name, kind, offset, size)) in headers.iter().enumerate() {
        let at = 288 + (i + 1) * 64;
        put32(&mut bytes, at, *name);
        put32(&mut bytes, at + 4, *kind);
        put64(&mut bytes, at + 24, *offset);
        put64(&mut bytes, at + 32, *size);
        put64(&mut bytes, at + 48, 1);
    }
    for i in 64..128 {
        bytes[i] = (i % 13) as u8;
    }
    if with_salt {
        bytes[80..112].copy_from_slice(&c.salt);
    }
    bytes[150..214].copy_from_slice(&c.hash);
    bytes
}

#[test]
fn an_elf_binary_is_patched() {
    let c = check(0x11, 0x22);
    let before = elf_image(&c, true);
    let after = linux::integrity_check_post_compilation(&before, &vec![c]).unwrap();
    assert_eq!(&after[150..214], hash(&before[64..128], Some(&c.salt)).as_slice());
    assert_eq!(&after[..150], &before[..150]);
    assert_eq!(&after[214..], &before[214..]);
    let untouched = elf_image(&c, false);
    assert_eq!(linux::integrity_check_post_compilation(&untouched, &vec![c]), Ok(untouched));
}

#[test]
fn what_is_no_elf_binary_is_refused() {
    assert_eq!(
        linux::integrity_check_post_compilation(&vec![0x7f, b'E', b'L'], &Vec::new()),
        Err(PatchError::Parse)
    );
}

#[test]
fn the_state_of_the_pass_patches_with_its_records() {
    let c = check(0x11, 0x22);
    let state = Shatter { inside_unsafe_block: false, integrity_checks: vec![c] };
    let pe = pe_image(&c, true);
    let table = pe_sections(&pe);
    let patched = state.post_compilation(&pe, &table, Target::Windows).unwrap();
    assert_eq!(&patched[330..394], hash(&pe[256..316], Some(&c.salt)).as_slice());
    assert_eq!(
        state.post_compilation(&pe, &table, Target::Linux),
        Err(PatchError::PlaceholderMissing)
    );
    let elf = elf_image(&c, true);
    let table = linux::elf_sections(&elf).unwrap();
    let patched = state.post_compilation(&elf, &table, Target::Linux).unwrap();
    assert_eq!(&patched[150..214], hash(&elf[64..128], Some(&c.salt)).as_slice());
    assert_eq!(
        state.post_compilation(&elf, &table, Target::Windows),
        Err(PatchError::PlaceholderMissing)
    );
    let none = Shatter::new();
    assert_eq!(none.post_compilation(&pe, &pe_sections(&pe), Target::Windows), Ok(pe));
}

#[test]
fn one_check_changes_the_window_of_its_placeholder_only() {
    let c = check(0x11, 0x22);
    let before = image(Some(&c), Some(&c));
    let code = before[16..80].to_vec();
    let data = before[80..176].to_vec();
    let after = patch_once(before.clone(), &code, &data, 80, &c).unwrap();
    assert_eq!(after.len(), before.len());
    assert_eq!(&after[100..164], hash(&code, Some(&c.salt)).as_slice());
    for j in (0..100).chain(164..176) {
        assert_eq!(after[j], before[j]);
    }
    let absent = check(0x33, 0x44);
    assert_eq!(patch_once(before.clone(), &code, &data, 80, &absent), Ok(before.clone()));
    let no_placeholder = image(Some(&c), None);
    let data = no_placeholder[80..176].to_vec();
    assert_eq!(
        patch_once(no_placeholder, &code, &data, 80, &c),
        Err(PatchError::PlaceholderMissing)
    );
}

#[test]
fn every_placeholder_that_is_not_written_over_holds_its_digest() {
    let a = check(0x11, 0x22);
    let b = check(0x55, 0x66);
    let c = check(0x77, 0x88);
    let mut bytes: Vec<u8> = vec![0; 16 + 96 + 256];
    bytes[16..48].copy_from_slice(&a.salt);
    bytes[48..80].copy_from_slice(&b.salt);
    bytes[80..112].copy_from_slice(&c.salt);
    bytes[112..176].copy_from_slice(&a.hash);
    bytes[190..254].copy_from_slice(&b.hash);
    bytes[270..334].copy_from_slice(&c.hash);
    let sections = vec![section(".text", 16, 96, 96), section(".rdata", 112, 256, 256)];
    let checks = vec![a, b, c];
    let after = patch_sections(&bytes, &sections, ".text", ".rdata", &checks).unwrap();
    for (check, at) in [(a, 112usize), (b, 190), (c, 270)] {
        assert_eq!(&after[at..at + 64], hash(&bytes[16..112], Some(&check.salt)).as_slice());
    }
    assert_eq!(after.len(), bytes.len());
    assert_eq!(&after[..112], &bytes[..112]);
    assert_eq!(&after[176..190], &bytes[176..190]);
}

#[test]
fn a_section_without_bytes_in_the_file_may_reach_beyond_it() {
    let c = check(0x11, 0x22);
    let names = b"\0.text\0.rodata\0.shstrtab\0.bss\0";
    let mut bytes = elf_image(&c, true);
    bytes.extend_from_slice(&[0u8; 64]);
    bytes[256..256 + names.len()].copy_from_slice(names);
    put16(&mut bytes, 60, 5);
    put64(&mut bytes, 288 + 3 * 64 + 32, names.len() as u64);
    let at = 288 + 4 * 64;
    put32(&mut bytes, at, 25);
    put32(&mut bytes, at + 4, 8);
    put64(&mut bytes, at + 24, 600);
    put64(&mut bytes, at + 32, 0x100000);
    put64(&mut bytes, at + 48, 1);
    let sections = linux::elf_sections(&bytes).unwrap();
    assert_eq!(sections.len(), 5);
    assert_eq!(sections[1], section(".text", 64, 64, 64));
    assert_eq!(sections[4], section(".bss", 600, 0, 0x100000));
    let after = linux::integrity_check_post_compilation(&bytes, &vec![c]).unwrap();
    assert_eq!(&after[150..214], hash(&bytes[64..128], Some(&c.salt)).as_slice());
    assert_eq!(after.len(), bytes.len());
}
