//! Addresses that nobody owns, and the random draws that split a sweep between them.
use vstd::prelude::*;
use vstd::utf8::encode_utf8;
use crate::seeds::SeedSchedule;

verus! {

/// The fixed address that receives the swept seeds that do not go to a void address.
pub const FALLBACK_SWEEP_ADDRESS: &'static str = "t1m9v0fhkbr7q1sfg59prke1sbpt0gm2qgrb166mp8n8m59962gdm0";

/// The covenant that checks an ed25519 signature by public key `pk`.
pub uninterp spec fn std_ed25519_covenant(pk: Seq<u8>) -> Seq<u8>;

/// The address of a covenant: its hash.
pub uninterp spec fn covenant_hash(covenant: Seq<u8>) -> Seq<u8>;

/// The text form of an address.
pub uninterp spec fn address_text(address: Seq<u8>) -> Seq<char>;

/// The address that a text form denotes, if any.
pub uninterp spec fn parsed_address(text: Seq<char>) -> Option<Seq<u8>>;

/// Relies on `tmelcrypt::ed25519_keygen`: the public half of a fresh random key pair.
#[verifier::external_body]
#[allow(deprecated)]
fn fresh_public_key() -> (pk: [u8; 32]) {
    tmelcrypt::ed25519_keygen().0.0
}

/// Relies on `Covenant::std_ed25519_pk_new` of themelio-stf: the covenant bytes depend on
/// the key alone.
#[verifier::external_body]
fn std_covenant(pk: &[u8; 32]) -> (covenant: Vec<u8>)
    ensures
        covenant@ == std_ed25519_covenant(pk@),
{
    themelio_stf::melvm::Covenant::std_ed25519_pk_new(tmelcrypt::Ed25519PK(*pk)).0
}

/// Relies on `Covenant::hash` of themelio-stf: a 32-byte address that depends on the
/// covenant alone.
#[verifier::external_body]
fn covenant_address(covenant: &Vec<u8>) -> (address: [u8; 32])
    ensures
        address@ == covenant_hash(covenant@),
{
    themelio_stf::melvm::Covenant(covenant.clone()).hash().0.0
}

/// Relies on the `Display` of themelio-stf's `Address`: the text depends on the address
/// alone.
#[verifier::external_body]
fn address_to_text(address: &[u8; 32]) -> (text: String)
    ensures
        text@ == address_text(address@),
{
    themelio_stf::melvm::Address(tmelcrypt::HashVal(*address)).to_string()
}

/// Relies on the `FromStr` of themelio-stf's `Address`: the result depends on the text
/// alone. It checks the length before it removes every `-` and then slices the text after
/// its second byte, so the text must be ASCII and hold no `-`.
#[verifier::external_body]
fn parse_address_text(text: &str) -> (address: Option<[u8; 32]>)
    requires
        vstd::string::is_ascii(text),
        forall|i: int| 0 <= i < text@.len() ==> text@[i] != '-',
    ensures
        match address {
            Some(a) => parsed_address(text@) == Some(a@),
            None => parsed_address(text@) is None,
        },
{
    text.parse::<themelio_stf::melvm::Address>().ok().map(|a| a.0.0)
}

/// Relies on `fastrand::u128` over the full range: any value.
#[verifier::external_body]
fn random_u128() -> (r: u128) {
    fastrand::u128(..)
}

/// A new address that nobody can spend from: the covenant of a random key pair whose
/// secret half is thrown away.
pub fn new_void_address() -> (address: [u8; 32])
    ensures
        exists|pk: Seq<u8>| address@ == covenant_hash(std_ed25519_covenant(pk)),
{
    let pk = fresh_public_key();
    let covenant = std_covenant(&pk);
    covenant_address(&covenant)
}

/// The text of an address starts with `t0000`, as UTF-8 bytes.
pub open spec fn null_prefixed(text: Seq<u8>) -> bool {
    &&& text.len() >= 5
    &&& text[0] == 116
    &&& text[1] == 48
    &&& text[2] == 48
    &&& text[3] == 48
    &&& text[4] == 48
}

/// Whether the text of `address` starts with `t0000`.
pub fn is_null_address(address: &[u8; 32]) -> (r: bool)
    ensures
        r == null_prefixed(encode_utf8(address_text(address@))),
{
    let text = address_to_text(address);
    let bytes = text.as_str().as_bytes();
    bytes.len() >= 5 && bytes[0] == 116 && bytes[1] == 48 && bytes[2] == 48 && bytes[3] == 48
        && bytes[4] == 48
}

/// Draws void addresses until one whose text starts with `t0000`, the "null" of the chain;
/// gives up after `max_tries` draws.
pub fn new_null_dst(max_tries: u64) -> (address: Option<[u8; 32]>)
    ensures
        address matches Some(a) ==> null_prefixed(encode_utf8(address_text(a@))),
        max_tries == 0 ==> address is None,
{
    let mut tries: u64 = 0;
    while tries < max_tries
        decreases max_tries - tries,
    {
        let candidate = new_void_address();
        if is_null_address(&candidate) {
            return Some(candidate);
        }
        tries = tries + 1;
    }
    None
}

/// The fixed fallback address of sweeps.
pub fn fallback_sweep_address() -> (address: Option<[u8; 32]>)
    ensures
        match address {
            Some(a) => parsed_address(FALLBACK_SWEEP_ADDRESS@) == Some(a@),
            None => parsed_address(FALLBACK_SWEEP_ADDRESS@) is None,
        },
{
    proof {
        reveal_strlit("t1m9v0fhkbr7q1sfg59prke1sbpt0gm2qgrb166mp8n8m59962gdm0");
    }
    assert(vstd::string::is_ascii(FALLBACK_SWEEP_ADDRESS));
    assert(forall|i: int|
        0 <= i < FALLBACK_SWEEP_ADDRESS@.len() ==> FALLBACK_SWEEP_ADDRESS@[i] != '-');
    parse_address_text(FALLBACK_SWEEP_ADDRESS)
}

/// `n` random draws, one per expired group, that pick each group's sweep destination.
pub fn draw_sweep_choices(n: usize) -> (draws: Vec<u128>)
    ensures
        draws@.len() == n,
{
    let mut draws: Vec<u128> = Vec::new();
    let mut i: usize = 0;
    while i < n
        invariant
            i <= n,
            draws@.len() == i,
        decreases n - i,
    {
        draws.push(random_u128());
        i = i + 1;
    }
    draws
}

/// Where swept seeds go when their draw is even: the schedule's fixed void address, or a
/// fresh one.
pub fn sweep_void_destination(schedule: &SeedSchedule) -> (address: [u8; 32])
    ensures
        schedule.covnull matches Some(a) ==> address == a,
        schedule.covnull is None ==> exists|pk: Seq<u8>| address@ == covenant_hash(
            std_ed25519_covenant(pk),
        ),
{
    match schedule.covnull {
        Some(a) => a,
        None => new_void_address(),
    }
}

} // verus!
