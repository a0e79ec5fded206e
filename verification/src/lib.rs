//! Source-level obfuscation passes and the companion binary patcher.
//!
//! A program is held as a syntax tree ([`ast::File`]). [`obfuscate`] runs the passes over it
//! in turn: [`shuffle::shuffle`] permutes the statements that ask for it,
//! [`strencrypt::encrypt_strings`] replaces string literals by blocks that decrypt them when
//! the program runs, and [`shatter::shatter`] surrounds the statements with branches that an
//! honest run never takes. What comes out is source text, and the records by which
//! [`shatter::Shatter::post_compilation`] later writes the hash of the code section into the
//! compiled binary. The tree is built by whoever parses the source; the passes themselves
//! read and write no files.

use vstd::prelude::*;
use crate::ast::File;
use crate::ast::file_source;
use crate::ast::FileView;
use crate::error::PassError;
use crate::shatter::condition::kill_date_of;
use crate::shatter::pass::shattered_items;
use crate::shatter::settings_of;
use crate::shatter::Shatter;
use crate::shatter::ShatterConfig;
use crate::shatter::ShatterConfigView;
use crate::shatter::shattered_file;
use crate::shatter::ShatterView;
use crate::shatter::state_after;
use crate::shuffle::shuffled_file;
use crate::strencrypt::encrypted_file;
use crate::strencrypt::workable_stmts;

// Crates that generated code names through this one.
pub use goblin;
pub use subtle;

pub mod ast;
pub mod crypto;
pub mod error;
pub mod parse;
mod random;
pub mod shatter;
pub mod shuffle;
pub mod strencrypt;
pub mod text;
pub mod utils;
pub mod workspace;

verus! {

/// The error of the source parser.
#[verifier::external_type_specification]
#[verifier::external_body]
pub struct ExSyntaxError(syn::Error);

/// True where the parser accepts a text as a source file.
pub uninterp spec fn accepted(text: Seq<char>) -> bool;

/// `syn::parse_file`, of which only success or failure is kept: `Ok` where the text is a
/// source file, the parser's error where it is not.
#[verifier::external_body]
fn check_source(text: &str) -> (r: Result<(), syn::Error>)
    ensures
        r is Ok <==> accepted(text@),
{
    syn::parse_file(text).map(|_| ())
}

/// How the passes lead from a file to a result, over what the file is after the shuffle
/// (`shuffled`), after the string pass (`encrypted`) and after the shatter pass
/// (`shattered`) at the time `now`. The string pass fails on malformed macro arguments, the
/// shatter pass on a kill date that cannot be used, and the run as a whole where what the
/// passes have made is not accepted as a source file.
pub open spec fn pipeline(
    src: FileView,
    shuffled: FileView,
    encrypted: FileView,
    shattered: FileView,
    now: u64,
    config: ShatterConfigView,
    r: Result<(Seq<char>, ShatterView), PassError>,
) -> bool {
    &&& shuffled_file(src, shuffled)
    &&& if !workable_stmts(shuffled.items) {
        r == Err::<(Seq<char>, ShatterView), PassError>(PassError::MalformedMacroArguments)
    } else {
        &&& encrypted_file(shuffled, encrypted)
        &&& match kill_date_of(config.kill_date, now, config.debug) {
            Err(e) => r == Err::<(Seq<char>, ShatterView), PassError>(e),
            Ok(kill_date) => {
                &&& shattered_items(
                    encrypted.items,
                    shattered.items,
                    settings_of(config, kill_date),
                )
                &&& if accepted(file_source(shattered)) {
                    r == Ok::<(Seq<char>, ShatterView), PassError>(
                        (file_source(shattered), state_after(encrypted, shattered)),
                    )
                } else {
                    r == Err::<(Seq<char>, ShatterView), PassError>(PassError::Parse)
                }
            },
        }
    }
}

/// The result of the passes as a mathematical value.
pub open spec fn output_view(r: Result<(String, Shatter), PassError>) -> Result<
    (Seq<char>, ShatterView),
    PassError,
> {
    match r {
        Ok((text, state)) => Ok((text@, state@)),
        Err(e) => Err(e),
    }
}

/// Obfuscates a file: shuffle, string pass, shatter pass, and the result as source text that
/// the parser accepts, with the state of the shatter pass for the patcher.
pub fn obfuscate(input: &File, config: &ShatterConfig) -> (r: Result<(String, Shatter), PassError>)
    ensures
        exists|shuffled: FileView, encrypted: FileView, shattered: FileView, now: u64| #[trigger]
            pipeline(input@, shuffled, encrypted, shattered, now, config@, output_view(r)),
        r matches Ok((text, _)) ==> accepted(text@),
{
    let shuffled = shuffle::shuffle(input);
    let encrypted = match strencrypt::encrypt_strings(&shuffled) {
        Ok(encrypted) => encrypted,
        Err(e) => {
            let r = Err(e);
            assert(pipeline(input@, shuffled@, shuffled@, shuffled@, 0, config@, output_view(r)));
            return r;
        },
    };
    let result = shatter::shatter(&encrypted, config);
    let ghost now = choose|now: u64| #[trigger]
        shattered_file(encrypted@, config@, now, shatter::result_view(result));
    let (shattered, state) = match result {
        Ok(pair) => pair,
        Err(e) => {
            let r = Err(e);
            assert(pipeline(
                input@,
                shuffled@,
                encrypted@,
                encrypted@,
                now,
                config@,
                output_view(r),
            ));
            return r;
        },
    };
    let text = shattered.to_source();
    let r = match check_source(text.as_str()) {
        Ok(_) => Ok((text, state)),
        Err(_) => Err(PassError::Parse),
    };
    assert(pipeline(input@, shuffled@, encrypted@, shattered@, now, config@, output_view(r)));
    r
}

} // verus!
