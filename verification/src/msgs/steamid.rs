//! SteamID composition and helpers.

use vstd::prelude::*;

use crate::text::{decimal, string_from_chars, u64_decimal};

verus! {

pub const UNIVERSE_PUBLIC: u64 = 1;
pub const TYPE_INDIVIDUAL: u64 = 1;
pub const TYPE_ANON_USER: u64 = 10;
pub const INSTANCE_DESKTOP: u64 = 1;

/// The 64-bit SteamID built from its fields.
pub open spec fn steamid_of(universe: u64, account_type: u64, instance: u64, account_id: u32) -> u64 {
    (universe << 56u64) | (account_type << 52u64) | (instance << 32u64) | (account_id as u64)
}

/// The account-type field (bits 52..56) of a SteamID.
pub open spec fn account_type_of(steamid: u64) -> u64 {
    (steamid >> 52u64) & 0xFu64
}

/// Composes a SteamID from universe, account type, instance and account id.
pub fn make(universe: u64, account_type: u64, instance: u64, account_id: u32) -> (r: u64)
    ensures
        r == steamid_of(universe, account_type, instance, account_id),
        universe < 256 && account_type < 16 && instance < 0x10_0000 ==> r == universe
            * 0x0100_0000_0000_0000 + account_type * 0x0010_0000_0000_0000 + instance
            * 0x1_0000_0000 + account_id,
{
    let a = account_id as u64;
    assert(universe < 256 && account_type < 16 && instance < 0x10_0000 && a < 0x1_0000_0000
        ==> (universe << 56u64) | (account_type << 52u64) | (instance << 32u64) | a == universe
        * 0x0100_0000_0000_0000 + account_type * 0x0010_0000_0000_0000 + instance * 0x1_0000_0000
        + a) by (bit_vector);
    (universe << 56) | (account_type << 52) | (instance << 32) | a
}

/// The SteamID of an anonymous user session.
pub fn anonymous() -> (r: u64)
    ensures
        r == 0x01A0_0000_0000_0000,
        account_type_of(r) == TYPE_ANON_USER,
{
    let r = make(UNIVERSE_PUBLIC, TYPE_ANON_USER, 0, 0);
    assert(account_type_of(0x01A0_0000_0000_0000u64) == 10u64) by (bit_vector);
    r
}

/// The SteamID of an individual desktop account.
pub fn individual(account_id: u32) -> (r: u64)
    ensures
        r == 0x0110_0001_0000_0000 + account_id,
        account_type_of(r) == TYPE_INDIVIDUAL,
{
    let r = make(UNIVERSE_PUBLIC, TYPE_INDIVIDUAL, INSTANCE_DESKTOP, account_id);
    let a = account_id as u64;
    assert(a < 0x1_0000_0000 ==> account_type_of((0x0110_0001_0000_0000u64 + a) as u64) == 1u64)
        by (bit_vector);
    r
}

/// The account id: the low 32 bits of a SteamID.
pub fn account_id(steamid: u64) -> (r: u32)
    ensures
        r == steamid % 0x1_0000_0000,
{
    assert(steamid & 0xFFFF_FFFFu64 == steamid % 0x1_0000_0000) by (bit_vector);
    (steamid & 0xFFFF_FFFF) as u32
}

/// `"STEAM_1:<account & 1>:<account >> 1>"`, the ID32 text of a SteamID.
pub open spec fn id32_text(steamid: u64) -> Seq<char> {
    let account = steamid % 0x1_0000_0000;
    seq!['S', 'T', 'E', 'A', 'M', '_', '1', ':'] + decimal((account % 2) as nat) + seq![':']
        + decimal((account / 2) as nat)
}

fn push_chars(out: &mut Vec<char>, more: &Vec<char>)
    ensures
        final(out)@ == old(out)@ + more@,
{
    let ghost base = out@;
    let mut i: usize = 0;
    while i < more.len()
        invariant
            i <= more.len(),
            out@ == base + more@.subrange(0, i as int),
        decreases more.len() - i,
    {
        out.push(more[i]);
        i = i + 1;
        assert(out@ =~= base + more@.subrange(0, i as int));
    }
    assert(more@.subrange(0, more.len() as int) =~= more@);
}

/// Renders the ID32 text `STEAM_1:x:y` of a SteamID.
pub fn to_id32(steamid: u64) -> (r: String)
    ensures
        r@ == id32_text(steamid),
{
    let account = account_id(steamid);
    let mut cs: Vec<char> = vec!['S', 'T', 'E', 'A', 'M', '_', '1', ':'];
    let x = u64_decimal((account % 2) as u64);
    push_chars(&mut cs, &x);
    cs.push(':');
    let y = u64_decimal((account / 2) as u64);
    push_chars(&mut cs, &y);
    assert(cs@ =~= id32_text(steamid));
    string_from_chars(cs.as_slice())
}

/// Whether a SteamID is an anonymous user session (account type 10).
pub fn is_anonymous(steamid: u64) -> (r: bool)
    ensures
        r == (account_type_of(steamid) == TYPE_ANON_USER),
{
    (steamid >> 52) & 0xF == 10
}

/// Extracting the account id of an individual SteamID gives back the id.
pub proof fn lemma_individual_account_id(account_id: u32)
    ensures
        ((0x0110_0001_0000_0000 + account_id) as u64) % 0x1_0000_0000 == account_id,
{
}

} // verus!
