//! Writing the real hash of the code section over the placeholders of a compiled binary.

use vstd::prelude::*;
use vstd::slice::slice_subrange;
use crate::crypto::hash;
use crate::crypto::HASH_SIZE;
use crate::crypto::salted_digest;
use crate::shatter::IntegrityCheck;

verus! {

/// Where a section lies in a binary on disk and how large it is once loaded.
#[derive(Debug, PartialEq, Eq)]
pub struct Section {
    pub name: String,
    /// Offset of the section's bytes in the file.
    pub pointer_to_raw_data: u64,
    /// Bytes that the file holds for the section.
    pub size_of_raw_data: u64,
    /// Bytes that the section takes in memory.
    pub virtual_size: u64,
}

/// A section as a mathematical value.
pub struct SectionView {
    pub name: Seq<char>,
    pub offset: nat,
    pub raw_size: nat,
    pub virtual_size: nat,
}

impl View for Section {
    type V = SectionView;

    open spec fn view(&self) -> SectionView {
        SectionView {
            name: self.name@,
            offset: self.pointer_to_raw_data as nat,
            raw_size: self.size_of_raw_data as nat,
            virtual_size: self.virtual_size as nat,
        }
    }
}

/// Why a binary could not be patched.
#[derive(Debug, Clone, Copy, PartialEq, Eq, Structural)]
pub enum PatchError {
    /// The binary is not of the expected format.
    Parse,
    /// A named section reaches beyond the end of the file.
    SectionOutOfImage,
    /// The salt of a check stands in the code section, but its placeholder is not in the
    /// read-only data.
    PlaceholderMissing,
}

impl SectionView {
    /// The bytes of the section that are hashed: as many as both the file and the loaded
    /// image hold.
    pub open spec fn hashed_len(self) -> nat {
        if self.virtual_size <= self.raw_size {
            self.virtual_size
        } else {
            self.raw_size
        }
    }

    /// True where the hashed bytes lie within a file of `image_len` bytes.
    pub open spec fn in_image(self, image_len: nat) -> bool {
        self.offset + self.hashed_len() <= image_len
    }
}

/// The views of a list of sections.
pub open spec fn section_views(sections: Seq<Section>) -> Seq<SectionView> {
    sections.map_values(|s: Section| s@)
}

/// True where every section that has a name lies within the file.
pub open spec fn well_placed(sections: Seq<SectionView>, image_len: nat) -> bool {
    forall|i: int| 0 <= i < sections.len() && sections[i].name.len() > 0
        ==> (#[trigger] sections[i]).in_image(image_len)
}

/// The index of the last section called `name`.
pub open spec fn last_named(sections: Seq<SectionView>, name: Seq<char>) -> Option<int>
    decreases sections.len(),
{
    if sections.len() == 0 {
        None
    } else if sections.last().name == name {
        Some(sections.len() - 1)
    } else {
        last_named(sections.drop_last(), name)
    }
}

/// The index of the section that goes by `name`: the last one called so. A section without
/// a name is never found.
pub open spec fn located(sections: Seq<SectionView>, name: Seq<char>) -> Option<int> {
    if name.len() == 0 {
        None
    } else {
        last_named(sections, name)
    }
}

/// Where the hashed bytes of the section called `name` start, or 0 where there is none.
pub open spec fn span_start(sections: Seq<SectionView>, name: Seq<char>) -> nat {
    match located(sections, name) {
        Some(i) => sections[i].offset,
        None => 0,
    }
}

/// How many bytes of the section called `name` are hashed, or 0 where there is none.
pub open spec fn span_len(sections: Seq<SectionView>, name: Seq<char>) -> nat {
    match located(sections, name) {
        Some(i) => sections[i].hashed_len(),
        None => 0,
    }
}

/// The hashed bytes of the section called `name`, empty where there is none.
pub open spec fn section_bytes(image: Seq<u8>, sections: Seq<SectionView>, name: Seq<char>) -> Seq<u8> {
    image.subrange(
        span_start(sections, name) as int,
        (span_start(sections, name) + span_len(sections, name)) as int,
    )
}

/// True where `needle` stands in `haystack` at index `at`.
pub open spec fn occurs_at(haystack: Seq<u8>, needle: Seq<u8>, at: int) -> bool {
    &&& 0 <= at
    &&& at + needle.len() <= haystack.len()
    &&& haystack.subrange(at, at + needle.len()) == needle
}

/// The least index from `from` on at which `needle` stands in `haystack`.
pub open spec fn first_occurrence_from(haystack: Seq<u8>, needle: Seq<u8>, from: int) -> Option<int>
    decreases haystack.len() - from,
{
    if from < 0 || from + needle.len() > haystack.len() {
        None
    } else if occurs_at(haystack, needle, from) || from == haystack.len() {
        Some(from)
    } else {
        first_occurrence_from(haystack, needle, from + 1)
    }
}

/// The least index at which `needle` stands in `haystack`.
pub open spec fn first_occurrence(haystack: Seq<u8>, needle: Seq<u8>) -> Option<int> {
    first_occurrence_from(haystack, needle, 0)
}

/// What the search from `from` on finds is an occurrence, and the first one; what it misses
/// is not there.
pub proof fn lemma_first_occurrence_from(haystack: Seq<u8>, needle: Seq<u8>, from: int)
    requires
        0 <= from,
    ensures
        match first_occurrence_from(haystack, needle, from) {
            Some(at) => from <= at && occurs_at(haystack, needle, at) && forall|j: int|
                from <= j < at ==> !occurs_at(haystack, needle, j),
            None => forall|j: int| from <= j ==> !occurs_at(haystack, needle, j),
        },
    decreases haystack.len() - from,
{
    if from + needle.len() > haystack.len() {
    } else if occurs_at(haystack, needle, from) {
    } else if from == haystack.len() {
        assert(haystack.subrange(from, from + needle.len()) =~= needle);
    } else {
        lemma_first_occurrence_from(haystack, needle, from + 1);
    }
}

/// The first index at which `needle` stands in `haystack`.
pub fn find_subsequence(haystack: &[u8], needle: &[u8]) -> (r: Option<usize>)
    ensures
        r is Some <==> exists|j: int| occurs_at(haystack@, needle@, j),
        r matches Some(at) ==> occurs_at(haystack@, needle@, at as int) && forall|j: int|
            0 <= j < at ==> !occurs_at(haystack@, needle@, j),
        match r {
            Some(at) => first_occurrence(haystack@, needle@) == Some(at as int),
            None => first_occurrence(haystack@, needle@) is None,
        },
{
    proof {
        lemma_first_occurrence_from(haystack@, needle@, 0);
    }
    if needle.len() > haystack.len() {
        return None;
    }
    if needle.len() == 0 {
        assert(haystack@.subrange(0, 0) =~= needle@);
        assert(occurs_at(haystack@, needle@, 0));
        return Some(0);
    }
    let last: usize = haystack.len() - needle.len();
    let mut at: usize = 0;
    while at <= last
        invariant
            needle@.len() <= haystack@.len(),
            last + needle@.len() == haystack@.len(),
            at <= last + 1,
            needle@.len() > 0,
            haystack@.len() <= usize::MAX,
            forall|j: int| 0 <= j < at ==> !occurs_at(haystack@, needle@, j),
            first_occurrence(haystack@, needle@) == first_occurrence_from(
                haystack@,
                needle@,
                at as int,
            ),
        decreases last + 1 - at,
    {
        let mut k: usize = 0;
        let mut same = true;
        while same && k < needle.len()
            invariant
                at <= last,
                last + needle@.len() == haystack@.len(),
                haystack@.len() <= usize::MAX,
                k <= needle@.len(),
                same ==> forall|i: int| 0 <= i < k ==> haystack@[at + i] == needle@[i],
                !same ==> !occurs_at(haystack@, needle@, at as int),
            decreases needle@.len() - k + if same { 1int } else { 0int },
        {
            if haystack[at + k] == needle[k] {
                k = k + 1;
            } else {
                same = false;
                assert(!occurs_at(haystack@, needle@, at as int)) by {
                    if occurs_at(haystack@, needle@, at as int) {
                        assert(haystack@.subrange(at as int, at + needle@.len())[k as int]
                            == needle@[k as int]);
                    }
                }
            }
        }
        if same {
            assert(haystack@.subrange(at as int, at + needle@.len()) =~= needle@);
            assert(occurs_at(haystack@, needle@, at as int));
            return Some(at);
        }
        at = at + 1;
    }
    None
}

/// The image after one check: unchanged where the salt is not in the code section; else
/// the digest of the code section, salted, stands where the placeholder first stood in the
/// read-only data.
pub open spec fn patched_once(
    image: Seq<u8>,
    code: Seq<u8>,
    data: Seq<u8>,
    data_start: nat,
    check: IntegrityCheck,
) -> Result<Seq<u8>, PatchError> {
    if first_occurrence(code, check.salt@) is None {
        Ok(image)
    } else {
        match first_occurrence(data, check.hash@) {
            None => Err(PatchError::PlaceholderMissing),
            Some(at) => Ok(
                image.subrange(0, data_start + at) + salted_digest(check.salt@, code)
                    + image.subrange(data_start + at + HASH_SIZE, image.len() as int),
            ),
        }
    }
}

/// The image after the checks in turn. The code and the read-only data that are searched are
/// those of the image as it was read: a patch is not seen by the checks that follow.
pub open spec fn patched(
    image: Seq<u8>,
    code: Seq<u8>,
    data: Seq<u8>,
    data_start: nat,
    checks: Seq<IntegrityCheck>,
) -> Result<Seq<u8>, PatchError>
    decreases checks.len(),
{
    if checks.len() == 0 {
        Ok(image)
    } else {
        match patched(image, code, data, data_start, checks.drop_last()) {
            Err(e) => Err(e),
            Ok(before) => patched_once(before, code, data, data_start, checks.last()),
        }
    }
}

/// What patching a binary with the given section table gives.
pub open spec fn patched_image(
    image: Seq<u8>,
    sections: Seq<SectionView>,
    code_name: Seq<char>,
    data_name: Seq<char>,
    checks: Seq<IntegrityCheck>,
) -> Result<Seq<u8>, PatchError> {
    if !well_placed(sections, image.len()) {
        Err(PatchError::SectionOutOfImage)
    } else {
        patched(
            image,
            section_bytes(image, sections, code_name),
            section_bytes(image, sections, data_name),
            span_start(sections, data_name),
            checks,
        )
    }
}

/// The index of the last section called `name`.
fn find_section(sections: &Vec<Section>, name: &str) -> (r: Option<usize>)
    ensures
        match r {
            Some(i) => located(section_views(sections@), name@) == Some(i as int)
                && i < sections@.len() && sections@[i as int]@.name.len() > 0,
            None => located(section_views(sections@), name@) is None,
        },
{
    if name.is_empty() {
        return None;
    }
    proof {
        lemma_last_named(section_views(sections@), name@);
    }
    let wanted = name.to_owned();
    let mut found: Option<usize> = None;
    let mut i: usize = 0;
    let ghost views = section_views(sections@);
    assert(views.take(0) =~= Seq::<SectionView>::empty());
    while i < sections.len()
        invariant
            i <= sections@.len(),
            views == section_views(sections@),
            wanted@ == name@,
            match found {
                Some(k) => last_named(views.take(i as int), name@) == Some(k as int) && k < i,
                None => last_named(views.take(i as int), name@) is None,
            },
        decreases sections@.len() - i,
    {
        proof {
            let next = views.take(i + 1);
            assert(next.drop_last() =~= views.take(i as int));
            assert(next.last() == sections@[i as int]@);
        }
        if sections[i].name == wanted {
            found = Some(i);
        }
        i = i + 1;
    }
    assert(views.take(sections@.len() as int) =~= views);
    found
}

/// The number of bytes of a section that are hashed.
fn hashed_len_of(section: &Section) -> (len: u64)
    ensures
        len == section@.hashed_len(),
{
    if section.virtual_size <= section.size_of_raw_data {
        section.virtual_size
    } else {
        section.size_of_raw_data
    }
}

/// Tells whether every section that has a name lies within a file of `image_len` bytes.
fn all_well_placed(sections: &Vec<Section>, image_len: usize) -> (ok: bool)
    ensures
        ok == well_placed(section_views(sections@), image_len as nat),
{
    let ghost views = section_views(sections@);
    let mut i: usize = 0;
    while i < sections.len()
        invariant
            i <= sections@.len(),
            views == section_views(sections@),
            forall|j: int| 0 <= j < i && views[j].name.len() > 0 ==> (#[trigger] views[j]).in_image(
                image_len as nat,
            ),
        decreases sections@.len() - i,
    {
        let section = &sections[i];
        assert(views[i as int] == section@);
        if !section.name.as_str().is_empty() {
            let len = hashed_len_of(section);
            let size = image_len as u64;
            if len > size || section.pointer_to_raw_data > size - len {
                assert(!views[i as int].in_image(image_len as nat));
                return false;
            }
        }
        i = i + 1;
    }
    true
}

/// Where the hashed bytes of a well-placed section start in the file, and how many they are.
fn section_span(sections: &Vec<Section>, i: usize, image_len: usize) -> (span: (usize, usize))
    requires
        i < sections@.len(),
        sections@[i as int]@.name.len() > 0,
        well_placed(section_views(sections@), image_len as nat),
    ensures
        span.0 == sections@[i as int]@.offset,
        span.1 == sections@[i as int]@.hashed_len(),
        span.0 + span.1 <= image_len,
{
    let ghost views = section_views(sections@);
    assert(views[i as int] == sections@[i as int]@);
    assert(views[i as int].in_image(image_len as nat));
    let section = &sections[i];
    (section.pointer_to_raw_data as usize, hashed_len_of(section) as usize)
}

/// True where the salt of a check stands in the code.
pub open spec fn is_present(code: Seq<u8>, check: IntegrityCheck) -> bool {
    first_occurrence(code, check.salt@) is Some
}

/// True where a check is patched: its salt stands in the code and its placeholder in the
/// read-only data.
pub open spec fn is_patched(code: Seq<u8>, data: Seq<u8>, check: IntegrityCheck) -> bool {
    is_present(code, check) && first_occurrence(data, check.hash@) is Some
}

/// Where the placeholder of a check first stands in the read-only data.
pub open spec fn placeholder_at(data: Seq<u8>, check: IntegrityCheck) -> int {
    first_occurrence(data, check.hash@)->0
}

/// True where none of the checks from `k + 1` up to `n` that are patched writes into the
/// 64 bytes of the placeholder of check `k`.
pub open spec fn keeps_window(
    code: Seq<u8>,
    data: Seq<u8>,
    checks: Seq<IntegrityCheck>,
    k: int,
    n: int,
) -> bool {
    forall|j: int|
        k < j < n && is_patched(code, data, #[trigger] checks[j]) ==> placeholder_at(
            data,
            checks[j],
        )
            + HASH_SIZE <= placeholder_at(data, checks[k]) || placeholder_at(data, checks[k])
            + HASH_SIZE <= placeholder_at(data, checks[j])
}

/// True where, after the first `n` checks, the placeholder of every check that was patched
/// and not written over since holds the digest of the code, salted with the salt of the
/// check.
pub open spec fn digests_hold(
    out: Seq<u8>,
    code: Seq<u8>,
    data: Seq<u8>,
    data_start: int,
    checks: Seq<IntegrityCheck>,
    n: int,
) -> bool {
    forall|k: int|
        0 <= k < n && is_patched(code, data, #[trigger] checks[k]) && keeps_window(
            code,
            data,
            checks,
            k,
            n,
        ) ==> out.subrange(
            data_start + placeholder_at(data, checks[k]),
            data_start + placeholder_at(data, checks[k]) + HASH_SIZE,
        ) == salted_digest(checks[k].salt@, code)
}

/// True where the patched image holds, at the placeholder of every check whose salt the
/// code section holds and whose placeholder no later check writes over, the digest of the
/// code section, salted with the salt of the check: the hash that a probe computes when the
/// program runs.
pub open spec fn placeholders_hold_digests(
    out: Seq<u8>,
    image: Seq<u8>,
    sections: Seq<SectionView>,
    code_name: Seq<char>,
    data_name: Seq<char>,
    checks: Seq<IntegrityCheck>,
) -> bool {
    digests_hold(
        out,
        section_bytes(image, sections, code_name),
        section_bytes(image, sections, data_name),
        span_start(sections, data_name) as int,
        checks,
        checks.len() as int,
    )
}

/// Patches an image for one check. Where the salt stands in the code, the digest of the
/// code, salted, is written over the 64 bytes where the placeholder first stands in the
/// read-only data, and no other byte changes; where it does not, the image stays. `code`
/// and `data` are the bytes that were read from the image before any patch; `data_start` is
/// where `data` lies in the image.
pub fn patch_once(
    image: Vec<u8>,
    code: &[u8],
    data: &[u8],
    data_start: usize,
    check: &IntegrityCheck,
) -> (r: Result<Vec<u8>, PatchError>)
    requires
        data_start + data@.len() <= image@.len(),
    ensures
        match r {
            Ok(out) => patched_once(image@, code@, data@, data_start as nat, *check) == Ok::<
                Seq<u8>,
                PatchError,
            >(out@),
            Err(e) => patched_once(image@, code@, data@, data_start as nat, *check) == Err::<
                Seq<u8>,
                PatchError,
            >(e),
        },
        r is Err <==> first_occurrence(code@, check.salt@) is Some && first_occurrence(
            data@,
            check.hash@,
        ) is None,
        r matches Ok(out) ==> out@.len() == image@.len(),
        r matches Ok(out) ==> first_occurrence(code@, check.salt@) is None ==> out@ == image@,
        r matches Ok(out) ==> first_occurrence(code@, check.salt@) is Some ==> ({
            let at = data_start + first_occurrence(data@, check.hash@)->0;
            &&& data_start <= at
            &&& at + HASH_SIZE <= data_start + data@.len()
            &&& out@.subrange(at, at + HASH_SIZE) == salted_digest(check.salt@, code@)
            &&& forall|j: int|
                0 <= j < image@.len() && !(at <= j < at + HASH_SIZE) ==> out@[j] == image@[j]
        }),
{
    let mut out = image;
    let len = out.len();
    if find_subsequence(code, check.salt.as_slice()).is_none() {
        return Ok(out);
    }
    match find_subsequence(data, check.hash.as_slice()) {
        None => Err(PatchError::PlaceholderMissing),
        Some(at) => {
            let digest = hash(code, Some(check.salt.as_slice()));
            let ghost before = out@;
            assert(check.hash@.len() == HASH_SIZE);
            assert(occurs_at(data@, check.hash@, at as int));
            let base: usize = data_start + at;
            let mut k: usize = 0;
            while k < HASH_SIZE
                invariant
                    k <= HASH_SIZE,
                    digest@.len() == HASH_SIZE,
                    base + HASH_SIZE <= out@.len(),
                    out@.len() == before.len(),
                    out@.len() <= usize::MAX,
                    forall|j: int| 0 <= j < base ==> out@[j] == before[j],
                    forall|j: int| 0 <= j < k ==> out@[base + j] == digest@[j],
                    forall|j: int| base + k <= j < out@.len() ==> out@[j] == before[j],
                decreases HASH_SIZE - k,
            {
                out[base + k] = digest[k];
                k = k + 1;
            }
            assert(out@ =~= before.subrange(0, base as int) + digest@ + before.subrange(
                base + HASH_SIZE,
                before.len() as int,
            ));
            assert(out@.subrange(base as int, base + HASH_SIZE) =~= digest@);
            Ok(out)
        },
    }
}

/// Writes over the placeholders of an image the hash of its code section, for each check
/// whose salt the code section holds. `sections` is the section table of the image;
/// `code_name` and `data_name` name the code section and the read-only data. The patched
/// image is as long as the image, and differs from it in the read-only data at most.
pub fn patch_sections(
    image: &Vec<u8>,
    sections: &Vec<Section>,
    code_name: &str,
    data_name: &str,
    checks: &Vec<IntegrityCheck>,
) -> (r: Result<Vec<u8>, PatchError>)
    ensures
        match r {
            Ok(out) => patched_image(
                image@,
                section_views(sections@),
                code_name@,
                data_name@,
                checks@,
            ) == Ok::<Seq<u8>, PatchError>(out@),
            Err(e) => patched_image(
                image@,
                section_views(sections@),
                code_name@,
                data_name@,
                checks@,
            ) == Err::<Seq<u8>, PatchError>(e),
        },
        r matches Ok(out) ==> out@.len() == image@.len(),
        r matches Ok(out) ==> forall|j: int|
            0 <= j < image@.len() && !(span_start(section_views(sections@), data_name@) <= j
                < span_start(section_views(sections@), data_name@) + span_len(
                section_views(sections@),
                data_name@,
            )) ==> out@[j] == image@[j],
        r matches Ok(out) ==> placeholders_hold_digests(
            out@,
            image@,
            section_views(sections@),
            code_name@,
            data_name@,
            checks@,
        ),
{
    if !all_well_placed(sections, image.len()) {
        return Err(PatchError::SectionOutOfImage);
    }
    let ghost views = section_views(sections@);
    let (code_start, code_len) = match find_section(sections, code_name) {
        Some(i) => section_span(sections, i, image.len()),
        None => (0usize, 0usize),
    };
    let (data_start, data_len) = match find_section(sections, data_name) {
        Some(i) => section_span(sections, i, image.len()),
        None => (0usize, 0usize),
    };
    let code = slice_subrange(image.as_slice(), code_start, code_start + code_len);
    let data = slice_subrange(image.as_slice(), data_start, data_start + data_len);
    assert(code@ == section_bytes(image@, views, code_name@));
    assert(data@ == section_bytes(image@, views, data_name@));
    assert(data_start == span_start(views, data_name@));
    assert(data_len == span_len(views, data_name@));

    let mut out: Vec<u8> = image.clone();
    assert(out@ =~= image@);
    let mut n: usize = 0;
    assert(checks@.take(0) =~= Seq::<IntegrityCheck>::empty());
    while n < checks.len()
        invariant
            n <= checks@.len(),
            out@.len() == image@.len(),
            data@.len() == data_len,
            data_start + data@.len() <= image@.len(),
            views == section_views(sections@),
            well_placed(views, image@.len()),
            code@ == section_bytes(image@, views, code_name@),
            data@ == section_bytes(image@, views, data_name@),
            data_start == span_start(views, data_name@),
            data_len == span_len(views, data_name@),
            forall|j: int|
                0 <= j < image@.len() && !(data_start <= j < data_start + data_len) ==> out@[j]
                    == image@[j],
            patched(image@, code@, data@, data_start as nat, checks@.take(n as int)) == Ok::<
                Seq<u8>,
                PatchError,
            >(out@),
            digests_hold(out@, code@, data@, data_start as int, checks@, n as int),
        decreases checks@.len() - n,
    {
        let check = &checks[n];
        let ghost before = out@;
        proof {
            let next = checks@.take(n + 1);
            assert(next.drop_last() =~= checks@.take(n as int));
            assert(next.last() == *check);
        }
        out = match patch_once(out, code, data, data_start, check) {
            Ok(patched_out) => patched_out,
            Err(e) => {
                proof {
                    assert(checks@.take(checks@.len() as int) =~= checks@);
                    assert(patched(image@, code@, data@, data_start as nat, checks@.take(n + 1))
                        == Err::<Seq<u8>, PatchError>(e));
                    lemma_patched_error_stays(
                        image@,
                        code@,
                        data@,
                        data_start as nat,
                        checks@,
                        n + 1,
                    );
                }
                return Err(e);
            },
        };
        proof {
            lemma_digests_hold_on(before, out@, code@, data@, data_start as int, checks@, n as int);
        }
        n = n + 1;
    }
    assert(checks@.take(checks@.len() as int) =~= checks@);
    Ok(out)
}

/// One more check: the placeholders that held their digests and are not written over by
/// the check still hold them, and the placeholder of the check holds its digest.
proof fn lemma_digests_hold_on(
    before: Seq<u8>,
    after: Seq<u8>,
    code: Seq<u8>,
    data: Seq<u8>,
    data_start: int,
    checks: Seq<IntegrityCheck>,
    n: int,
)
    requires
        0 <= n < checks.len(),
        0 <= data_start,
        data_start + data.len() <= before.len(),
        after.len() == before.len(),
        digests_hold(before, code, data, data_start, checks, n),
        !is_present(code, checks[n]) ==> after == before,
        is_present(code, checks[n]) ==> is_patched(code, data, checks[n]),
        is_patched(code, data, checks[n]) ==> ({
            let at = data_start + placeholder_at(data, checks[n]);
            &&& after.subrange(at, at + HASH_SIZE) == salted_digest(checks[n].salt@, code)
            &&& forall|j: int|
                0 <= j < before.len() && !(at <= j < at + HASH_SIZE) ==> after[j] == before[j]
        }),
    ensures
        digests_hold(after, code, data, data_start, checks, n + 1),
{
    assert forall|k: int|
        0 <= k < n + 1 && is_patched(code, data, #[trigger] checks[k]) && keeps_window(
            code,
            data,
            checks,
            k,
            n + 1,
        ) implies after.subrange(
        data_start + placeholder_at(data, checks[k]),
        data_start + placeholder_at(data, checks[k]) + HASH_SIZE,
    ) == salted_digest(checks[k].salt@, code) by {
        if k < n {
            assert(keeps_window(code, data, checks, k, n));
            let at = data_start + placeholder_at(data, checks[k]);
            lemma_first_occurrence_from(data, checks[k].hash@, 0);
            assert(checks[k].hash@.len() == HASH_SIZE);
            assert(before.subrange(at, at + HASH_SIZE) == salted_digest(checks[k].salt@, code));
            if is_patched(code, data, checks[n]) {
                assert(after.subrange(at, at + HASH_SIZE) =~= before.subrange(at, at + HASH_SIZE));
            }
        }
    }
}

/// The section that `last_named` finds has the name that was asked for.
pub proof fn lemma_last_named(sections: Seq<SectionView>, name: Seq<char>)
    ensures
        match last_named(sections, name) {
            Some(i) => 0 <= i < sections.len() && sections[i].name == name,
            None => forall|j: int| 0 <= j < sections.len() ==> sections[j].name != name,
        },
    decreases sections.len(),
{
    if sections.len() > 0 && sections.last().name != name {
        lemma_last_named(sections.drop_last(), name);
        if last_named(sections, name) is None {
            assert forall|j: int| 0 <= j < sections.len() implies sections[j].name != name by {
                if j < sections.len() - 1 {
                    assert(sections.drop_last()[j] == sections[j]);
                }
            }
        }
    }
}

/// Once a check has failed, the checks that follow do not mend it.
proof fn lemma_patched_error_stays(
    image: Seq<u8>,
    code: Seq<u8>,
    data: Seq<u8>,
    data_start: nat,
    checks: Seq<IntegrityCheck>,
    n: int,
)
    requires
        0 <= n <= checks.len(),
        patched(image, code, data, data_start, checks.take(n)) is Err,
    ensures
        patched(image, code, data, data_start, checks) == patched(
            image,
            code,
            data,
            data_start,
            checks.take(n),
        ),
    decreases checks.len() - n,
{
    if n < checks.len() {
        let next = checks.take(n + 1);
        assert(next.drop_last() =~= checks.take(n));
        lemma_patched_error_stays(image, code, data, data_start, checks, n + 1);
    } else {
        assert(checks.take(n) =~= checks);
    }
}

/// A check whose salt the code section does not hold leaves the binary alone, and the
/// patcher does not fail on it: where no salt of `checks` stands in the code section, the
/// patched image is the image.
pub proof fn lemma_absent_salts_leave_image(
    image: Seq<u8>,
    code: Seq<u8>,
    data: Seq<u8>,
    data_start: nat,
    checks: Seq<IntegrityCheck>,
)
    requires
        forall|i: int| 0 <= i < checks.len() ==> first_occurrence(code, (#[trigger] checks[i]).salt@)
            is None,
    ensures
        patched(image, code, data, data_start, checks) == Ok::<Seq<u8>, PatchError>(image),
    decreases checks.len(),
{
    if checks.len() > 0 {
        lemma_absent_salts_leave_image(image, code, data, data_start, checks.drop_last());
        assert(checks.last() == checks[checks.len() - 1]);
    }
}

/// A binary whose code section holds the salt of no check is not touched, and patching it
/// does not fail: where every named section lies within the file, the patched image is the
/// image.
pub proof fn lemma_elided_checks_leave_binary(
    image: Seq<u8>,
    sections: Seq<SectionView>,
    code_name: Seq<char>,
    data_name: Seq<char>,
    checks: Seq<IntegrityCheck>,
)
    requires
        well_placed(sections, image.len()),
        forall|i: int|
            0 <= i < checks.len() ==> first_occurrence(
                section_bytes(image, sections, code_name),
                (#[trigger] checks[i]).salt@,
            ) is None,
    ensures
        patched_image(image, sections, code_name, data_name, checks) == Ok::<Seq<u8>, PatchError>(
            image,
        ),
{
    lemma_absent_salts_leave_image(
        image,
        section_bytes(image, sections, code_name),
        section_bytes(image, sections, data_name),
        span_start(sections, data_name),
        checks,
    );
}

/// After one check whose salt and placeholder are found, the bytes where the placeholder
/// first stood are the salted digest of the code section, and nothing else has changed; so
/// where the placeholder lies outside the code section, the code section of the patched
/// image is that of the image, and a hash of it that is taken when the program runs is the
/// hash that was written. The digest is taken to have the length of a hash, as every digest
/// that is computed has.
pub proof fn lemma_patched_hash_matches(
    image: Seq<u8>,
    code_start: int,
    code_len: int,
    data_start: int,
    data_len: int,
    check: IntegrityCheck,
)
    requires
        0 <= code_start,
        0 <= code_len,
        0 <= data_start,
        0 <= data_len,
        code_start + code_len <= image.len(),
        data_start + data_len <= image.len(),
        code_start + code_len <= data_start || data_start + data_len <= code_start,
        first_occurrence(image.subrange(code_start, code_start + code_len), check.salt@)
            is Some,
        first_occurrence(image.subrange(data_start, data_start + data_len), check.hash@)
            is Some,
        salted_digest(
            check.salt@,
            image.subrange(code_start, code_start + code_len),
        ).len() == HASH_SIZE,
    ensures
        ({
            let code = image.subrange(code_start, code_start + code_len);
            let data = image.subrange(data_start, data_start + data_len);
            let at = data_start + first_occurrence(data, check.hash@).unwrap();
            &&& patched_once(image, code, data, data_start as nat, check) is Ok
            &&& ({
                let out = patched_once(image, code, data, data_start as nat, check).unwrap();
                &&& out.len() == image.len()
                &&& out.subrange(code_start, code_start + code_len) == code
                &&& out.subrange(at, at + HASH_SIZE) == salted_digest(check.salt@, code)
                &&& forall|j: int|
                    0 <= j < image.len() && !(at <= j < at + HASH_SIZE) ==> out[j] == image[j]
            })
        }),
{
    let code = image.subrange(code_start, code_start + code_len);
    let data = image.subrange(data_start, data_start + data_len);
    lemma_first_occurrence_from(data, check.hash@, 0);
    let off = first_occurrence(data, check.hash@).unwrap();
    let at = data_start + off;
    assert(check.hash@.len() == HASH_SIZE);
    let out = patched_once(image, code, data, data_start as nat, check).unwrap();
    assert(out.len() == image.len());
    assert(out.subrange(code_start, code_start + code_len) =~= code);
    assert(out.subrange(at, at + HASH_SIZE) =~= salted_digest(check.salt@, code));
}

/// A probe hashes the code section of the binary that runs; the patcher hashed that of the
/// binary it was given. They are the same bytes: an image that differs from another within
/// the read-only data at most has the code section of the other, where the two sections
/// share no byte of the file.
pub proof fn lemma_code_section_kept(
    image: Seq<u8>,
    out: Seq<u8>,
    sections: Seq<SectionView>,
    code_name: Seq<char>,
    data_name: Seq<char>,
)
    requires
        out.len() == image.len(),
        forall|j: int|
            0 <= j < image.len() && !(span_start(sections, data_name) <= j < span_start(
                sections,
                data_name,
            ) + span_len(sections, data_name)) ==> out[j] == image[j],
        span_start(sections, code_name) + span_len(sections, code_name) <= image.len(),
        span_start(sections, code_name) + span_len(sections, code_name) <= span_start(
            sections,
            data_name,
        ) || span_start(sections, data_name) + span_len(sections, data_name) <= span_start(
            sections,
            code_name,
        ),
    ensures
        section_bytes(out, sections, code_name) == section_bytes(image, sections, code_name),
{
    assert(section_bytes(out, sections, code_name) =~= section_bytes(image, sections, code_name));
}

} // verus!
