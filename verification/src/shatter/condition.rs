//! The conditions that generated branches test.

use vstd::prelude::*;
use vstd::string::StringExecFns;
use crate::error::PassError;
use crate::random::choose_index;
use crate::shatter::ConditionType;
use crate::shatter::ident::generate_unique_ident;
use crate::shatter::ident::is_unique_ident;
use crate::shatter::IntegrityCheck;
use crate::shatter::linux;
use crate::shatter::Settings;
use crate::shatter::SettingsView;
use crate::shatter::Shatter;
use crate::shatter::ShatterCondition;
use crate::shatter::ShatterConditionView;
use crate::shatter::Target;
use crate::shatter::windows;
use crate::text::decimal;
use crate::text::push_decimal;

verus! {

/// The setup of the condition that is always false, before the first identifier.
pub const FALSE_SETUP_LET: &'static str = "let ";

/// The setup of the condition that is always false, between the first identifier and the
/// second.
pub const FALSE_SETUP_CHOICE: &'static str = " = r2d2::subtle::Choice::from(0u8); let ";

/// The setup of the condition that is always false, behind the second identifier.
pub const FALSE_SETUP_BOOL: &'static str = " = bool::from(";

/// The end of the setup of the condition that is always false.
pub const FALSE_SETUP_END: &'static str = ");";

/// The condition that is always false: a constant-time zero is bound to `choice` and turned
/// into the boolean `result`, which is tested.
pub open spec fn false_condition(choice: Seq<char>, result: Seq<char>) -> ShatterConditionView {
    ShatterConditionView {
        setup: FALSE_SETUP_LET@ + choice + FALSE_SETUP_CHOICE@ + result + FALSE_SETUP_BOOL@
            + choice + FALSE_SETUP_END@,
        check: result,
    }
}

/// The condition that is always false, over the given identifiers.
pub fn false_condition_with(choice: &str, result: &str) -> (cond: ShatterCondition)
    ensures
        cond@ == false_condition(choice@, result@),
{
    let mut setup = String::from_str(FALSE_SETUP_LET);
    setup.append(choice);
    setup.append(FALSE_SETUP_CHOICE);
    setup.append(result);
    setup.append(FALSE_SETUP_BOOL);
    setup.append(choice);
    setup.append(FALSE_SETUP_END);
    ShatterCondition { setup, check: String::from_str(result) }
}

/// The setup of the kill-date condition, before the identifier.
pub const KILL_DATE_LET: &'static str = "let ";

/// The setup of the kill-date condition, behind the identifier.
pub const KILL_DATE_NOW: &'static str =
    " = ::std::time::SystemTime::now().duration_since(::std::time::UNIX_EPOCH).unwrap();";

/// The test of the kill-date condition, between the identifier and the date.
pub const KILL_DATE_TEST: &'static str = ".as_secs() >= ";

/// The test of the kill-date condition, behind the date.
pub const KILL_DATE_SUFFIX: &'static str = "u64";

/// The kill-date condition: the time since the epoch is bound to `now` when the program
/// runs, and its seconds are tested against the date.
pub open spec fn kill_date_condition(now: Seq<char>, target_secs: u64) -> ShatterConditionView {
    ShatterConditionView {
        setup: KILL_DATE_LET@ + now + KILL_DATE_NOW@,
        check: now + KILL_DATE_TEST@ + decimal(target_secs as nat) + KILL_DATE_SUFFIX@,
    }
}

/// The kill-date condition over the given identifier and date.
pub fn kill_date_condition_with(now: &str, target_secs: u64) -> (cond: ShatterCondition)
    ensures
        cond@ == kill_date_condition(now@, target_secs),
{
    let mut setup = String::from_str(KILL_DATE_LET);
    setup.append(now);
    setup.append(KILL_DATE_NOW);
    let mut check = String::from_str(now);
    check.append(KILL_DATE_TEST);
    push_decimal(&mut check, target_secs);
    check.append(KILL_DATE_SUFFIX);
    ShatterCondition { setup, check }
}

/// Seconds that the default kill date of a debug build lies in the future.
pub const DEBUG_KILLDATE_DURATION_SECS: u64 = 6000;

/// The value of a decimal digit, or `None` for any other character.
pub open spec fn digit_value(c: char) -> Option<nat> {
    if c == '0' { Some(0nat) } else if c == '1' { Some(1nat) } else if c == '2' { Some(2nat) }
    else if c == '3' { Some(3nat) } else if c == '4' { Some(4nat) } else if c == '5' { Some(5nat) }
    else if c == '6' { Some(6nat) } else if c == '7' { Some(7nat) } else if c == '8' { Some(8nat) }
    else if c == '9' { Some(9nat) } else { None }
}

/// The number that a text of decimal digits denotes, or `None` where the text is empty or
/// holds anything but digits.
pub open spec fn decimal_value(text: Seq<char>) -> Option<nat>
    decreases text.len(),
{
    if text.len() == 0 {
        None
    } else if text.len() == 1 {
        digit_value(text[0])
    } else {
        match (decimal_value(text.drop_last()), digit_value(text.last())) {
            (Some(high), Some(low)) => Some(high * 10 + low),
            _ => None,
        }
    }
}

/// The seconds that a configured kill date denotes: the number, where the text is one that
/// fits in 64 bits.
pub open spec fn seconds_of(text: Seq<char>) -> Option<u64> {
    match decimal_value(text) {
        Some(n) => if n <= u64::MAX { Some(n as u64) } else { None },
        None => None,
    }
}

/// The value of a decimal digit.
fn digit_of(c: char) -> (d: Option<u64>)
    ensures
        match d {
            Some(v) => digit_value(c) == Some(v as nat) && v < 10,
            None => digit_value(c) is None,
        },
{
    if c == '0' { Some(0) } else if c == '1' { Some(1) } else if c == '2' { Some(2) }
    else if c == '3' { Some(3) } else if c == '4' { Some(4) } else if c == '5' { Some(5) }
    else if c == '6' { Some(6) } else if c == '7' { Some(7) } else if c == '8' { Some(8) }
    else if c == '9' { Some(9) } else { None }
}

/// A prefix of a text of digits denotes at most what the text denotes.
proof fn lemma_decimal_value_grows(text: Seq<char>, n: int)
    requires
        1 <= n <= text.len(),
        decimal_value(text) is Some,
    ensures
        decimal_value(text.take(n)) is Some,
        decimal_value(text.take(n))->0 <= decimal_value(text)->0,
    decreases text.len() - n,
{
    if n < text.len() {
        assert(text.take(n) =~= text.drop_last().take(n));
        lemma_decimal_value_grows(text.drop_last(), n);
    } else {
        assert(text.take(n) =~= text);
    }
}

/// A text with a prefix that denotes nothing denotes nothing.
proof fn lemma_decimal_value_none(text: Seq<char>, n: int)
    requires
        1 <= n <= text.len(),
        decimal_value(text.take(n)) is None,
    ensures
        decimal_value(text) is None,
    decreases text.len() - n,
{
    if n < text.len() {
        assert(text.take(n) =~= text.drop_last().take(n));
        lemma_decimal_value_none(text.drop_last(), n);
    } else {
        assert(text.take(n) =~= text);
    }
}

/// Reads a configured kill date: a decimal number of seconds that fits in 64 bits.
pub fn parse_seconds(text: &str) -> (r: Option<u64>)
    ensures
        r == seconds_of(text@),
{
    let len = text.unicode_len();
    if len == 0 {
        return None;
    }
    let mut value: u64 = 0;
    let mut i: usize = 0;
    while i < len
        invariant
            i <= len,
            len == text@.len(),
            i > 0 ==> decimal_value(text@.take(i as int)) == Some(value as nat),
            i == 0 ==> value == 0,
        decreases len - i,
    {
        let c = text.get_char(i);
        let ghost next = text@.take(i + 1);
        proof {
            assert(next.drop_last() =~= text@.take(i as int));
            assert(next.last() == c);
            if i == 0 {
                assert(next[0] == c);
            }
        }
        match digit_of(c) {
            None => {
                proof {
                    assert(decimal_value(next) is None);
                    lemma_decimal_value_none(text@, i + 1);
                }
                return None;
            },
            Some(d) => {
                if value > (u64::MAX - d) / 10 {
                    proof {
                        if decimal_value(text@) is Some {
                            lemma_decimal_value_grows(text@, i + 1);
                            assert(decimal_value(next) == Some((value * 10 + d) as nat));
                        }
                    }
                    return None;
                }
                value = value * 10 + d;
            },
        }
        i = i + 1;
    }
    assert(text@.take(len as int) =~= text@);
    Some(value)
}

/// The kill date that a build uses: the configured one, which must lie in the future; or,
/// in a debug build without one, a date shortly after `now`.
pub open spec fn kill_date_of(kill_date: Option<Seq<char>>, now: u64, debug: bool) -> Result<
    u64,
    PassError,
> {
    match kill_date {
        Some(text) => match seconds_of(text) {
            None => Err(PassError::KillDateInvalid),
            Some(secs) => if secs <= now {
                Err(PassError::KillDatePast)
            } else {
                Ok(secs)
            },
        },
        None => if !debug {
            Err(PassError::KillDateAbsent)
        } else if now + DEBUG_KILLDATE_DURATION_SECS > u64::MAX {
            Ok(u64::MAX)
        } else {
            Ok((now + DEBUG_KILLDATE_DURATION_SECS) as u64)
        },
    }
}

/// The kill date that a build uses.
pub fn kill_date_target(kill_date: Option<&str>, now: u64, debug: bool) -> (r: Result<u64, PassError>)
    ensures
        r == kill_date_of(
            match kill_date {
                Some(text) => Some(text@),
                None => None,
            },
            now,
            debug,
        ),
{
    match kill_date {
        Some(text) => match parse_seconds(text) {
            None => Err(PassError::KillDateInvalid),
            Some(secs) => if secs <= now {
                Err(PassError::KillDatePast)
            } else {
                Ok(secs)
            },
        },
        None => if !debug {
            Err(PassError::KillDateAbsent)
        } else if now > u64::MAX - DEBUG_KILLDATE_DURATION_SECS {
            Ok(u64::MAX)
        } else {
            Ok(now + DEBUG_KILLDATE_DURATION_SECS)
        },
    }
}

/// True for the conditions that the generator of the constant `false` gives.
pub open spec fn is_false_condition(cond: ShatterConditionView) -> bool {
    exists|choice: Seq<char>, result: Seq<char>|
        {
            &&& is_unique_ident(choice)
            &&& is_unique_ident(result)
            &&& cond == #[trigger] false_condition(choice, result)
        }
}

/// True for the conditions that the generator of the kill-date test gives for a date.
pub open spec fn is_kill_date_condition(cond: ShatterConditionView, target_secs: u64) -> bool {
    exists|now: Seq<char>|
        is_unique_ident(now) && cond == #[trigger] kill_date_condition(now, target_secs)
}

/// True for the probes for a debugger that the backend of a target gives.
pub open spec fn is_anti_debug_condition(cond: ShatterConditionView, target: Target) -> bool {
    match target {
        Target::Linux => linux::is_anti_debug_check(cond),
        Target::Windows => cond == windows::anti_debug_check(),
    }
}

/// True for the integrity probes that the backend of a target gives, with their record.
pub open spec fn is_integrity_condition(
    cond: ShatterConditionView,
    record: Option<IntegrityCheck>,
    target: Target,
) -> bool {
    &&& record is Some
    &&& match target {
        Target::Linux => linux::is_integrity_check(cond, record->0),
        Target::Windows => windows::is_integrity_check(cond, record->0),
    }
}

/// True for the conditions that the pass gives a branch: one of the four kinds, and with a
/// record where and only where the kind is the integrity probe.
pub open spec fn is_branch_condition(
    cond: ShatterConditionView,
    record: Option<IntegrityCheck>,
    settings: SettingsView,
) -> bool {
    ||| record is None && is_false_condition(cond)
    ||| record is None && is_anti_debug_condition(cond, settings.target)
    ||| is_integrity_condition(cond, record, settings.target)
    ||| record is None && is_kill_date_condition(cond, settings.kill_date)
}

/// The records that follow from appending what a generator has made.
pub open spec fn with_record(checks: Seq<IntegrityCheck>, record: Option<IntegrityCheck>) -> Seq<IntegrityCheck> {
    match record {
        Some(check) => checks.push(check),
        None => checks,
    }
}

impl Shatter {
    /// A condition that is always false, over names that are minted afresh.
    pub fn generate_false_condition(&self) -> (cond: ShatterCondition)
        ensures
            is_false_condition(cond@),
    {
        let choice = generate_unique_ident();
        let result = generate_unique_ident();
        let cond = false_condition_with(choice.as_str(), result.as_str());
        assert(cond@ == false_condition(choice@, result@));
        cond
    }

    /// The probe for a debugger of the target.
    pub fn generate_anti_debug_check(&self, target: Target) -> (cond: ShatterCondition)
        ensures
            is_anti_debug_condition(cond@, target),
    {
        match target {
            Target::Linux => linux::generate_anti_debug_check(),
            Target::Windows => windows::generate_anti_debug_check(),
        }
    }

    /// The integrity probe of the target. Its record is appended to the records of the pass.
    pub fn generate_integrity_check(&mut self, target: Target) -> (r: (ShatterCondition, IntegrityCheck))
        ensures
            is_integrity_condition(r.0@, Some(r.1), target),
            final(self).integrity_checks@ == old(self).integrity_checks@.push(r.1),
            final(self).inside_unsafe_block == old(self).inside_unsafe_block,
    {
        let (cond, check) = match target {
            Target::Linux => linux::generate_integrity_check(),
            Target::Windows => windows::generate_integrity_check(),
        };
        self.integrity_checks.push(check);
        (cond, check)
    }

    /// The kill-date test for a date, over a name that is minted afresh.
    pub fn generate_kill_date_check(&self, target_secs: u64) -> (cond: ShatterCondition)
        ensures
            is_kill_date_condition(cond@, target_secs),
    {
        let now = generate_unique_ident();
        let cond = kill_date_condition_with(now.as_str(), target_secs);
        assert(cond@ == kill_date_condition(now@, target_secs));
        cond
    }

    /// A condition of the given kind.
    pub fn generate_condition(&mut self, kind: ConditionType, settings: &Settings) -> (r: (ShatterCondition, Option<IntegrityCheck>))
        ensures
            match kind {
                ConditionType::FALSE => r.1 is None && is_false_condition(r.0@),
                ConditionType::DEBUG => r.1 is None && is_anti_debug_condition(
                    r.0@,
                    settings.target,
                ),
                ConditionType::INTEGRITY => is_integrity_condition(r.0@, r.1, settings.target),
                ConditionType::KILLDATE => r.1 is None && is_kill_date_condition(
                    r.0@,
                    settings.kill_date,
                ),
            },
            is_branch_condition(r.0@, r.1, settings@),
            final(self).integrity_checks@ == with_record(old(self).integrity_checks@, r.1),
            final(self).inside_unsafe_block == old(self).inside_unsafe_block,
    {
        match kind {
            ConditionType::FALSE => (self.generate_false_condition(), None),
            ConditionType::DEBUG => (self.generate_anti_debug_check(settings.target), None),
            ConditionType::INTEGRITY => {
                let (cond, check) = self.generate_integrity_check(settings.target);
                (cond, Some(check))
            },
            ConditionType::KILLDATE => (self.generate_kill_date_check(settings.kill_date), None),
        }
    }

    /// A condition of a kind that is chosen at random among the four.
    pub fn generate_branch_condition(&mut self, settings: &Settings) -> (r: (ShatterCondition, Option<IntegrityCheck>))
        ensures
            is_branch_condition(r.0@, r.1, settings@),
            final(self).integrity_checks@ == with_record(old(self).integrity_checks@, r.1),
            final(self).inside_unsafe_block == old(self).inside_unsafe_block,
    {
        let kind = match choose_index(4) {
            Some(0) => ConditionType::FALSE,
            Some(1) => ConditionType::DEBUG,
            Some(2) => ConditionType::INTEGRITY,
            _ => ConditionType::KILLDATE,
        };
        self.generate_condition(kind, settings)
    }
}

} // verus!
