//! Messages under keys that two parties share, with nonces that count up.

use vstd::prelude::*;
use vstd::pervasive::unreached;
use crate::crypto::fits_cipher;
use crate::crypto::open;
use crate::crypto::opened;
use crate::crypto::seal;
use crate::crypto::sealed;
use crate::crypto::TAG_SIZE;

verus! {

/// The keys and counters of one party: one pair for what it sends, one for what it
/// receives.
#[derive(Debug, PartialEq, Eq)]
pub struct CryptoCtx {
    pub tx_key: [u8; 32],
    pub rx_key: [u8; 32],
    pub tx_counter: u64,
    pub rx_counter: u64,
}

impl Default for CryptoCtx {
    fn default() -> (ctx: CryptoCtx)
        ensures
            ctx.tx_key@ == Seq::new(32, |i: int| 0u8),
            ctx.rx_key@ == Seq::new(32, |i: int| 0u8),
            ctx.tx_counter == 0,
            ctx.rx_counter == 0,
    {
        let ctx = CryptoCtx { tx_key: [0u8; 32], rx_key: [0u8; 32], tx_counter: 0, rx_counter: 0 };
        assert(ctx.tx_key@ =~= Seq::new(32, |i: int| 0u8));
        assert(ctx.rx_key@ =~= Seq::new(32, |i: int| 0u8));
        ctx
    }
}

/// The greatest counter whose digits fit in a nonce: 19 nines.
pub const MAX_COUNTER: u64 = 9_999_999_999_999_999_999;

/// Ten to the power `e`.
pub open spec fn pow10(e: nat) -> nat
    decreases e,
{
    if e == 0 {
        1
    } else {
        10 * pow10((e - 1) as nat)
    }
}

/// The nonce for a counter: the five letters of `Nonce` and the counter in 19 decimal
/// digits, zeros first, all in ASCII.
pub open spec fn counter_nonce(counter: u64) -> Seq<u8> {
    Seq::new(
        24,
        |i: int|
            if i == 0 {
                78u8
            } else if i == 1 {
                111u8
            } else if i == 2 {
                110u8
            } else if i == 3 {
                99u8
            } else if i == 4 {
                101u8
            } else {
                (48 + (counter as nat / pow10((23 - i) as nat)) % 10) as u8
            },
    )
}

/// The nonce for a counter.
pub fn nonce_for(counter: u64) -> (nonce: [u8; 24])
    ensures
        nonce@ == counter_nonce(counter),
{
    let mut nonce = [0u8; 24];
    nonce[0] = 78;
    nonce[1] = 111;
    nonce[2] = 110;
    nonce[3] = 99;
    nonce[4] = 101;
    let mut rest = counter;
    let mut at: usize = 24;
    assert(pow10((24 - at) as nat) == 1);
    assert(counter as nat / 1 == counter as nat);
    while at > 5
        invariant
            5 <= at <= 24,
            nonce@.len() == 24,
            nonce@[0] == 78 && nonce@[1] == 111 && nonce@[2] == 110 && nonce@[3] == 99 && nonce@[4]
                == 101,
            rest as nat == counter as nat / pow10((24 - at) as nat),
            forall|i: int| at <= i < 24 ==> nonce@[i] == counter_nonce(counter)[i],
        decreases at,
    {
        at = at - 1;
        let digit = (rest % 10) as u8;
        nonce[at] = 48 + digit;
        proof {
            let e = (23 - at) as nat;
            assert(pow10(e + 1) == 10 * pow10(e));
            lemma_pow10_positive(e);
            assert(counter as nat / (10 * pow10(e)) == (counter as nat / pow10(e)) / 10)
                by (nonlinear_arith)
                requires
                    pow10(e) > 0,
            ;
        }
        rest = rest / 10;
    }
    assert(nonce@ =~= counter_nonce(counter));
    nonce
}

/// A power of ten is positive.
pub proof fn lemma_pow10_positive(e: nat)
    ensures
        pow10(e) > 0,
    decreases e,
{
    if e > 0 {
        lemma_pow10_positive((e - 1) as nat);
    }
}

/// Encrypts a message under the sending key and the nonce of the sending counter, and
/// counts up. The counter must not have run out of digits.
pub fn encrypt_message(crypto: &mut CryptoCtx, data: &[u8]) -> (message: Vec<u8>)
    requires
        old(crypto).tx_counter <= MAX_COUNTER,
        fits_cipher(data@.len()),
    ensures
        message@ == sealed(old(crypto).tx_key@, counter_nonce(old(crypto).tx_counter), data@),
        message@.len() == data@.len() + TAG_SIZE,
        final(crypto).tx_counter == old(crypto).tx_counter + 1,
        final(crypto).tx_key == old(crypto).tx_key,
        final(crypto).rx_key == old(crypto).rx_key,
        final(crypto).rx_counter == old(crypto).rx_counter,
{
    let nonce = nonce_for(crypto.tx_counter);
    crypto.tx_counter = crypto.tx_counter + 1;
    match seal(&crypto.tx_key, &nonce, data) {
        Some(message) => message,
        None => unreached(),
    }
}

/// What the next message that is received decrypts to, if it authenticates.
pub open spec fn received(crypto: CryptoCtx, data: Seq<u8>) -> Option<Seq<u8>> {
    opened(crypto.rx_key@, counter_nonce(crypto.rx_counter), data)
}

/// Decrypts a message that authenticates under the receiving key and the nonce of the
/// receiving counter, and counts up.
pub fn decrypt_message(crypto: &mut CryptoCtx, data: &[u8]) -> (message: Vec<u8>)
    requires
        old(crypto).rx_counter <= MAX_COUNTER,
        received(*old(crypto), data@) is Some,
    ensures
        Some(message@) == received(*old(crypto), data@),
        final(crypto).rx_counter == old(crypto).rx_counter + 1,
        final(crypto).tx_key == old(crypto).tx_key,
        final(crypto).rx_key == old(crypto).rx_key,
        final(crypto).tx_counter == old(crypto).tx_counter,
{
    let nonce = nonce_for(crypto.rx_counter);
    crypto.rx_counter = crypto.rx_counter + 1;
    match open(&crypto.rx_key, &nonce, data) {
        Some(message) => message,
        None => unreached(),
    }
}

/// Decrypts a message and counts up, or says that the message does not authenticate or the
/// counter is spent, and leaves the counter.
pub fn try_decrypt_message(crypto: &mut CryptoCtx, data: &[u8]) -> (r: Option<Vec<u8>>)
    ensures
        r is Some <==> old(crypto).rx_counter <= MAX_COUNTER && received(*old(crypto), data@)
            is Some,
        r matches Some(message) ==> Some(message@) == received(*old(crypto), data@),
        r is Some ==> final(crypto).rx_counter == old(crypto).rx_counter + 1,
        r is None ==> final(crypto).rx_counter == old(crypto).rx_counter,
        final(crypto).tx_key == old(crypto).tx_key,
        final(crypto).rx_key == old(crypto).rx_key,
        final(crypto).tx_counter == old(crypto).tx_counter,
{
    if crypto.rx_counter > MAX_COUNTER {
        return None;
    }
    let nonce = nonce_for(crypto.rx_counter);
    if open(&crypto.rx_key, &nonce, data).is_some() {
        Some(decrypt_message(crypto, data))
    } else {
        None
    }
}

} // verus!
