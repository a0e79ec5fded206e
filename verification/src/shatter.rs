//! The shatter pass: branching garbage around the statements of a program, and the records
//! that the binary patcher needs afterwards.

use vstd::prelude::*;
use crate::ast::clone_attrs;
use crate::ast::File;
use crate::ast::FileView;
use crate::ast::lemma_stmts_view;
use crate::ast::lemma_stmts_view_push;
use crate::ast::Stmt;
use crate::ast::stmts_view;
use crate::ast::StmtView;
use crate::error::PassError;
use crate::random::random_bytes;
use crate::shatter::condition::kill_date_of;
use crate::shatter::condition::kill_date_target;
use crate::shatter::pass::added_items;
use crate::shatter::pass::shattered_items;
use crate::shatter::pass::shattered_kind;
use crate::shatter::patch::patch_sections;
use crate::shatter::patch::patched_image;
use crate::shatter::patch::placeholders_hold_digests;
use crate::shatter::patch::PatchError;
use crate::shatter::patch::Section;
use crate::shatter::patch::section_views;
use crate::shatter::patch::SectionView;

pub mod assertion;
pub mod condition;
pub mod ident;
pub mod linux;
pub mod pass;
pub mod patch;
pub mod trap;
pub mod windows;
pub mod x86_64;

verus! {

/// The operating system that the obfuscated program is built for.
#[derive(Debug, Clone, Copy, PartialEq, Eq, Structural)]
pub enum Target {
    Linux,
    Windows,
}

/// What the body of a generated branch is for.
#[derive(Debug, Clone, Copy, PartialEq, Eq, Structural)]
pub enum ShatterType {
    /// Bytes that are never run and mislead a disassembler.
    STATIC,
    /// Code that may run, and crashes the program where it does.
    DYNAMIC,
}

/// The kinds of condition that a generated branch can test.
#[derive(Debug, Clone, Copy, PartialEq, Eq, Structural)]
pub enum ConditionType {
    /// A constant `false` that the compiler cannot see through.
    FALSE,
    /// Whether a debugger is attached.
    DEBUG,
    /// Whether the code section has been changed.
    INTEGRITY,
    /// Whether the kill date has passed.
    KILLDATE,
}

/// What an integrity check hashes.
#[derive(Debug, Clone, Copy, PartialEq, Eq, Structural)]
pub enum IntegrityCheckType {
    /// Every byte of the code section.
    ALL,
}

/// The record of one integrity probe that was put into a program.
#[derive(Debug, Clone, Copy, PartialEq, Eq)]
pub struct IntegrityCheck {
    pub check_type: IntegrityCheckType,
    /// The placeholder that the program holds where the real hash belongs.
    pub hash: [u8; 64],
    /// The salt, which the program holds in its code section.
    pub salt: [u8; 32],
}

/// The first 64 bytes of `bytes` as a placeholder.
fn hash_from(bytes: &Vec<u8>) -> (hash: [u8; 64])
    requires
        bytes@.len() == 64,
    ensures
        hash@ == bytes@,
{
    let mut hash = [0u8; 64];
    let mut i: usize = 0;
    while i < 64
        invariant
            i <= 64,
            bytes@.len() == 64,
            hash@.len() == 64,
            forall|j: int| 0 <= j < i ==> hash@[j] == bytes@[j],
        decreases 64 - i,
    {
        hash[i] = bytes[i];
        i = i + 1;
    }
    assert(hash@ =~= bytes@);
    hash
}

/// The first 32 bytes of `bytes` as a salt.
fn salt_from(bytes: &Vec<u8>) -> (salt: [u8; 32])
    requires
        bytes@.len() == 32,
    ensures
        salt@ == bytes@,
{
    let mut salt = [0u8; 32];
    let mut i: usize = 0;
    while i < 32
        invariant
            i <= 32,
            bytes@.len() == 32,
            salt@.len() == 32,
            forall|j: int| 0 <= j < i ==> salt@[j] == bytes@[j],
        decreases 32 - i,
    {
        salt[i] = bytes[i];
        i = i + 1;
    }
    assert(salt@ =~= bytes@);
    salt
}

impl IntegrityCheck {
    /// The record that holds the given placeholder and salt.
    pub fn from_bytes(hash: &Vec<u8>, salt: &Vec<u8>) -> (check: IntegrityCheck)
        requires
            hash@.len() == 64,
            salt@.len() == 32,
        ensures
            check.hash@ == hash@,
            check.salt@ == salt@,
            check.check_type == IntegrityCheckType::ALL,
    {
        IntegrityCheck {
            check_type: IntegrityCheckType::ALL,
            hash: hash_from(hash),
            salt: salt_from(salt),
        }
    }

    /// A record whose placeholder and salt are drawn afresh.
    pub fn generate() -> (check: IntegrityCheck)
        ensures
            check.check_type == IntegrityCheckType::ALL,
    {
        let salt = random_bytes(32);
        let hash = random_bytes(64);
        IntegrityCheck::from_bytes(&hash, &salt)
    }
}

/// A condition for a generated branch: statements that set it up, and the expression that
/// tests it, both as source text.
#[derive(Debug, PartialEq, Eq)]
pub struct ShatterCondition {
    pub setup: String,
    pub check: String,
}

/// A condition as a mathematical value.
pub struct ShatterConditionView {
    pub setup: Seq<char>,
    pub check: Seq<char>,
}

impl View for ShatterCondition {
    type V = ShatterConditionView;

    open spec fn view(&self) -> ShatterConditionView {
        ShatterConditionView { setup: self.setup@, check: self.check@ }
    }
}

/// What the pass has been told, with the kill date worked out and the catalogue read.
#[derive(Debug, PartialEq, Eq)]
pub struct Settings {
    pub target: Target,
    /// The kill date, in seconds since the epoch.
    pub kill_date: u64,
    /// Of a hundred places where a branch may go, how many get one.
    pub inject_percent: u8,
    /// The catalogue of instruction heads.
    pub catalogue: Vec<Vec<Vec<u8>>>,
}

/// The settings of the pass as a mathematical value.
pub struct SettingsView {
    pub target: Target,
    pub kill_date: u64,
    pub inject_percent: u8,
    pub catalogue: Seq<Seq<Seq<u8>>>,
}

impl View for Settings {
    type V = SettingsView;

    open spec fn view(&self) -> SettingsView {
        SettingsView {
            target: self.target,
            kill_date: self.kill_date,
            inject_percent: self.inject_percent,
            catalogue: self.catalogue.deep_view(),
        }
    }
}

/// The state of the pass as it goes through a program.
#[derive(Debug, PartialEq, Eq)]
pub struct Shatter {
    pub inside_unsafe_block: bool,
    pub integrity_checks: Vec<IntegrityCheck>,
}

/// The state of the pass as a mathematical value.
pub struct ShatterView {
    pub inside_unsafe_block: bool,
    pub integrity_checks: Seq<IntegrityCheck>,
}

impl View for Shatter {
    type V = ShatterView;

    open spec fn view(&self) -> ShatterView {
        ShatterView {
            inside_unsafe_block: self.inside_unsafe_block,
            integrity_checks: self.integrity_checks@,
        }
    }
}

/// What the pass is told.
#[derive(Debug, PartialEq, Eq)]
pub struct ShatterConfig {
    pub target: Target,
    /// The kill date as it is configured: seconds since the epoch, in decimal.
    pub kill_date: Option<String>,
    /// True for a debug build, which may go without a configured kill date.
    pub debug: bool,
    /// Of a hundred places where a branch may go, how many get one.
    pub inject_percent: u8,
    /// The catalogue of instruction heads, as JSON.
    pub catalogue: String,
}

/// What the pass is told, as a mathematical value.
pub struct ShatterConfigView {
    pub target: Target,
    pub kill_date: Option<Seq<char>>,
    pub debug: bool,
    pub inject_percent: u8,
    pub catalogue: Seq<char>,
}

impl View for ShatterConfig {
    type V = ShatterConfigView;

    open spec fn view(&self) -> ShatterConfigView {
        ShatterConfigView {
            target: self.target,
            kill_date: match self.kill_date {
                Some(text) => Some(text@),
                None => None,
            },
            debug: self.debug,
            inject_percent: self.inject_percent,
            catalogue: self.catalogue@,
        }
    }
}

/// The settings that a configuration gives once the kill date is worked out.
pub open spec fn settings_of(config: ShatterConfigView, kill_date: u64) -> SettingsView {
    SettingsView {
        target: config.target,
        kill_date,
        inject_percent: config.inject_percent,
        catalogue: x86_64::catalogue_or_empty(config.catalogue),
    }
}

/// The state in which the pass leaves a file: outside any `unsafe` block, with the records
/// of the integrity probes that it has put in.
pub open spec fn state_after(src: FileView, dst: FileView) -> ShatterView {
    ShatterView {
        inside_unsafe_block: false,
        integrity_checks: added_items(src.items, dst.items),
    }
}

/// What the pass makes of a file at a given time: it fails where the kill date cannot be
/// used, and else shatters the items of the file and ends outside any `unsafe` block, with
/// the records of the integrity probes that it has put in.
pub open spec fn shattered_file(
    src: FileView,
    config: ShatterConfigView,
    now: u64,
    r: Result<(FileView, ShatterView), PassError>,
) -> bool {
    match kill_date_of(config.kill_date, now, config.debug) {
        Err(e) => r == Err::<(FileView, ShatterView), PassError>(e),
        Ok(kill_date) => {
            &&& r is Ok
            &&& shattered_items(src.items, r->Ok_0.0.items, settings_of(config, kill_date))
            &&& r->Ok_0.1 == state_after(src, r->Ok_0.0)
        },
    }
}

/// `SystemTime::now` and `duration_since` the epoch, in whole seconds; nought for a clock
/// that stands before the epoch. Nothing is claimed of the value.
#[verifier::external_body]
fn unix_time_now() -> u64 {
    std::time::SystemTime::now().duration_since(std::time::UNIX_EPOCH).map(|d| d.as_secs()).unwrap_or(0)
}

/// The result of the pass as a mathematical value.
pub open spec fn result_view(r: Result<(File, Shatter), PassError>) -> Result<
    (FileView, ShatterView),
    PassError,
> {
    match r {
        Ok((file, state)) => Ok((file@, state@)),
        Err(e) => Err(e),
    }
}

/// Shatters a file as if the time were `now`.
pub fn shatter_at(input: &File, config: &ShatterConfig, now: u64) -> (r: Result<(File, Shatter), PassError>)
    ensures
        shattered_file(input@, config@, now, result_view(r)),
{
    let kill_date = match &config.kill_date {
        Some(text) => kill_date_target(Some(text.as_str()), now, config.debug),
        None => kill_date_target(None, now, config.debug),
    };
    let kill_date = match kill_date {
        Ok(secs) => secs,
        Err(e) => {
            return Err(e);
        },
    };
    let settings = Settings {
        target: config.target,
        kill_date,
        inject_percent: config.inject_percent,
        catalogue: x86_64::load_catalogue(config.catalogue.as_str()),
    };
    assert(settings@ == settings_of(config@, kill_date));
    let mut state = Shatter::new();
    let ghost src = stmts_view(input.items@);
    proof {
        lemma_stmts_view(input.items@);
    }
    let mut items: Vec<Stmt> = Vec::new();
    let mut i: usize = 0;
    assert(src.take(0) =~= Seq::<StmtView>::empty());
    assert(stmts_view(items@) =~= Seq::<StmtView>::empty());
    while i < input.items.len()
        invariant
            i <= input.items@.len(),
            items@.len() == i,
            src == stmts_view(input.items@),
            src.len() == input.items@.len(),
            forall|j: int| #![trigger src[j]] 0 <= j < input.items@.len() ==> src[j] == input.items@[j]@,
            !state.inside_unsafe_block,
            forall|j: int|
                0 <= j < i ==> (#[trigger] items@[j])@.attrs == src[j].attrs && shattered_kind(
                    src[j].kind,
                    items@[j]@.kind,
                    false,
                    settings@,
                ),
            state.integrity_checks@ == added_items(src.take(i as int), stmts_view(items@)),
        decreases input.items@.len() - i,
    {
        let item = &input.items[i];
        let ghost before = stmts_view(items@);
        let kind = state.shatter_kind(&item.kind, &settings);
        let made = Stmt { attrs: clone_attrs(&item.attrs), kind };
        proof {
            lemma_stmts_view_push(items@, made);
            let next = src.take(i + 1);
            assert(next.drop_last() =~= src.take(i as int));
            assert(next.last() == item@);
            let after = before.push(made@);
            assert(after.drop_last() =~= before);
            assert(after.last() == made@);
            lemma_stmts_view(items@);
            assert(state.integrity_checks@ =~= added_items(next, after));
        }
        items.push(made);
        i = i + 1;
    }
    assert(src.take(input.items@.len() as int) =~= src);
    let out = File { items };
    proof {
        lemma_stmts_view(out.items@);
        let dst = stmts_view(out.items@);
        assert forall|j: int| 0 <= j < src.len() implies (#[trigger] dst[j]).attrs == src[j].attrs
            && shattered_kind(src[j].kind, dst[j].kind, false, settings@) by {
            assert(dst[j] == out.items@[j]@);
        }
    }
    Ok((out, state))
}

/// Shatters a file: behind the statements of its blocks go branches on conditions that do
/// not hold in an honest run, and its assertions become guarded rabbit holes. Returns what
/// the file has become and the state of the pass, which holds the records of the integrity
/// probes. The time is read from the clock.
pub fn shatter(input: &File, config: &ShatterConfig) -> (r: Result<(File, Shatter), PassError>)
    ensures
        exists|now: u64| #[trigger] shattered_file(input@, config@, now, result_view(r)),
{
    let now = unix_time_now();
    let r = shatter_at(input, config, now);
    assert(shattered_file(input@, config@, now, result_view(r)));
    r
}

impl Shatter {
    /// The state at the start of a program: outside any `unsafe` block, without records.
    pub fn new() -> (state: Shatter)
        ensures
            !state.inside_unsafe_block,
            state.integrity_checks@.len() == 0,
    {
        Shatter { inside_unsafe_block: false, integrity_checks: Vec::new() }
    }

    /// Patches a compiled binary of the target, whose section table has been read, with the
    /// records of the pass: for each record whose salt stands in the code section, the hash
    /// of the code section is written over the placeholder in the read-only data.
    pub fn post_compilation(&self, image: &Vec<u8>, sections: &Vec<Section>, target: Target) -> (r: Result<Vec<u8>, PatchError>)
        ensures
            match r {
                Ok(out) => patched_binary(
                    image@,
                    section_views(sections@),
                    target,
                    self.integrity_checks@,
                ) == Ok::<Seq<u8>, PatchError>(out@),
                Err(e) => patched_binary(
                    image@,
                    section_views(sections@),
                    target,
                    self.integrity_checks@,
                ) == Err::<Seq<u8>, PatchError>(e),
            },
            r matches Ok(out) ==> out@.len() == image@.len(),
            r matches Ok(out) ==> placeholders_hold_digests(
                out@,
                image@,
                section_views(sections@),
                code_section_of(target),
                data_section_of(target),
                self.integrity_checks@,
            ),
    {
        match target {
            Target::Linux => patch_sections(
                image,
                sections,
                linux::CODE_SECTION,
                linux::DATA_SECTION,
                &self.integrity_checks,
            ),
            Target::Windows => windows::integrity_check_post_compilation(
                image,
                sections,
                &self.integrity_checks,
            ),
        }
    }
}

/// The name of the code section in the binaries of a target.
pub open spec fn code_section_of(target: Target) -> Seq<char> {
    match target {
        Target::Linux => linux::CODE_SECTION@,
        Target::Windows => windows::CODE_SECTION@,
    }
}

/// The name of the read-only data section in the binaries of a target.
pub open spec fn data_section_of(target: Target) -> Seq<char> {
    match target {
        Target::Linux => linux::DATA_SECTION@,
        Target::Windows => windows::DATA_SECTION@,
    }
}

/// What patching a binary of a target with the given section table gives.
pub open spec fn patched_binary(
    image: Seq<u8>,
    sections: Seq<SectionView>,
    target: Target,
    checks: Seq<IntegrityCheck>,
) -> Result<Seq<u8>, PatchError> {
    patched_image(image, sections, code_section_of(target), data_section_of(target), checks)
}

} // verus!
