//! The mint of identifiers that no program holds already.

use vstd::prelude::*;
use vstd::string::StringExecFns;
use crate::random::random_u64;
use crate::text::fixed_hex;
use crate::text::is_ident_continue;
use crate::text::is_ident_start;
use crate::text::lower_digit;
use crate::text::pow16;
use crate::text::push_fixed_hex;

verus! {

/// How every minted identifier starts.
pub const IDENT_PREFIX: &'static str = "var_";

/// The identifier that 128 random bits give: the prefix and the bits as 32 hexadecimal
/// digits.
pub open spec fn unique_ident(high: u64, low: u64) -> Seq<char> {
    IDENT_PREFIX@ + fixed_hex(high as nat, 16) + fixed_hex(low as nat, 16)
}

/// True for the identifiers that the mint gives.
pub open spec fn is_unique_ident(text: Seq<char>) -> bool {
    exists|high: u64, low: u64| text == #[trigger] unique_ident(high, low)
}

/// The identifier that 128 random bits give.
pub fn unique_ident_from(high: u64, low: u64) -> (ident: String)
    ensures
        ident@ == unique_ident(high, low),
{
    let mut ident = String::from_str(IDENT_PREFIX);
    push_fixed_hex(&mut ident, high, 16);
    push_fixed_hex(&mut ident, low, 16);
    ident
}

/// Mints an identifier from 128 bits that are drawn afresh.
pub fn generate_unique_ident() -> (ident: String)
    ensures
        is_unique_ident(ident@),
{
    let high = random_u64();
    let low = random_u64();
    let ident = unique_ident_from(high, low);
    assert(ident@ == unique_ident(high, low));
    ident
}

/// A fixed number of hexadecimal digits: as many characters as asked for, each a digit.
pub proof fn lemma_fixed_hex(n: nat, width: nat)
    ensures
        fixed_hex(n, width).len() == width,
        forall|i: int| 0 <= i < width ==> is_ident_continue(#[trigger] fixed_hex(n, width)[i]),
    decreases width,
{
    if width > 0 {
        lemma_fixed_hex(n / 16, (width - 1) as nat);
    }
}

/// A minted identifier is one: 36 characters, the first a letter, the rest letters, digits
/// or underscores.
pub proof fn lemma_unique_ident_valid(high: u64, low: u64)
    ensures
        unique_ident(high, low).len() == 36,
        is_ident_start(unique_ident(high, low)[0]),
        forall|i: int| 0 <= i < 36 ==> is_ident_continue(#[trigger] unique_ident(high, low)[i]),
{
    reveal_strlit("var_");
    lemma_fixed_hex(high as nat, 16);
    lemma_fixed_hex(low as nat, 16);
    let ident = unique_ident(high, low);
    assert(ident.len() == 36);
    assert(ident[0] == 'v');
    assert forall|i: int| 0 <= i < 36 implies is_ident_continue(#[trigger] ident[i]) by {
        if i < 4 {
            assert(ident[i] == IDENT_PREFIX@[i]);
        } else if i < 20 {
            assert(ident[i] == fixed_hex(high as nat, 16)[i - 4]);
        } else {
            assert(ident[i] == fixed_hex(low as nat, 16)[i - 20]);
        }
    }
}

/// Numbers below a power of sixteen with the same fixed digits are the same number.
pub proof fn lemma_fixed_hex_injective(a: nat, b: nat, width: nat)
    requires
        a < pow16(width),
        b < pow16(width),
        fixed_hex(a, width) == fixed_hex(b, width),
    ensures
        a == b,
    decreases width,
{
    if width > 0 {
        let w = (width - 1) as nat;
        lemma_fixed_hex(a / 16, w);
        lemma_fixed_hex(b / 16, w);
        let fa = fixed_hex(a, width);
        let fb = fixed_hex(b, width);
        assert(fa.drop_last() =~= fixed_hex(a / 16, w));
        assert(fb.drop_last() =~= fixed_hex(b / 16, w));
        assert(fa.last() == lower_digit((a % 16) as int));
        assert(fb.last() == lower_digit((b % 16) as int));
        assert(a % 16 == b % 16);
        assert(a / 16 < pow16(w)) by (nonlinear_arith)
            requires
                a < 16 * pow16(w),
        ;
        assert(b / 16 < pow16(w)) by (nonlinear_arith)
            requires
                b < 16 * pow16(w),
        ;
        lemma_fixed_hex_injective(a / 16, b / 16, w);
    }
}

/// Different bits give different identifiers: among the identifiers of any number of
/// draws, two are the same only where the 128 bits drawn were the same.
pub proof fn lemma_unique_ident_injective(high1: u64, low1: u64, high2: u64, low2: u64)
    requires
        unique_ident(high1, low1) == unique_ident(high2, low2),
    ensures
        high1 == high2,
        low1 == low2,
{
    reveal_strlit("var_");
    lemma_fixed_hex(high1 as nat, 16);
    lemma_fixed_hex(low1 as nat, 16);
    lemma_fixed_hex(high2 as nat, 16);
    lemma_fixed_hex(low2 as nat, 16);
    let a = unique_ident(high1, low1);
    let b = unique_ident(high2, low2);
    assert(a.subrange(4, 20) =~= fixed_hex(high1 as nat, 16));
    assert(b.subrange(4, 20) =~= fixed_hex(high2 as nat, 16));
    assert(a.subrange(20, 36) =~= fixed_hex(low1 as nat, 16));
    assert(b.subrange(20, 36) =~= fixed_hex(low2 as nat, 16));
    assert(pow16(16) == 0x1_0000_0000_0000_0000) by {
        reveal_with_fuel(pow16, 17);
    }
    lemma_fixed_hex_injective(high1 as nat, high2 as nat, 16);
    lemma_fixed_hex_injective(low1 as nat, low2 as nat, 16);
}

} // verus!
