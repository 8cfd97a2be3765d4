//! Identifiers. Every id in the campaign is a ULID, held here as its 128-bit
//! value; the ULID crate mints fresh ones and converts to and from the
//! canonical 26-character text.
use std::collections::HashMap;
use vstd::prelude::*;
use vstd::arithmetic::power::pow;

verus! {

/// The character of a base32 digit in the `ulid` crate's alphabet,
/// `0123456789ABCDEFGHJKMNPQRSTVWXYZ` (Crockford's: no I, L, O or U).
pub open spec fn crockford_digit(d: int) -> char {
    let c: int = if d < 10 {
        48 + d
    } else if d < 18 {
        65 + (d - 10)
    } else if d < 20 {
        74 + (d - 18)
    } else if d < 22 {
        77 + (d - 20)
    } else if d < 27 {
        80 + (d - 22)
    } else {
        86 + (d - 27)
    };
    c as char
}

/// The digit a character of a ULID text stands for, a lowercase letter
/// reading as its uppercase; `None` for a character outside the alphabet.
pub open spec fn crockford_value(c: char) -> Option<int> {
    let u = c as int;
    let up = if 97 <= u <= 122 { u - 32 } else { u };
    if 48 <= up <= 57 {
        Some(up - 48)
    } else if 65 <= up <= 72 {
        Some(up - 55)
    } else if up == 74 || up == 75 {
        Some(up - 56)
    } else if up == 77 || up == 78 {
        Some(up - 57)
    } else if 80 <= up <= 84 {
        Some(up - 58)
    } else if 86 <= up <= 90 {
        Some(up - 59)
    } else {
        None
    }
}

/// The ULID text of a value: 26 base32 digits, most significant first.
pub open spec fn ulid_text(value: u128) -> Seq<char> {
    Seq::new(26, |i: int| crockford_digit(((value as int) / pow(32, (25 - i) as nat)) % 32))
}

/// The number the first `n` digits of a text spell, most significant first.
pub open spec fn digits_value(text: Seq<char>, n: int) -> int
    decreases n,
{
    if n <= 0 {
        0
    } else {
        digits_value(text, n - 1) * 32 + crockford_value(text[n - 1]).unwrap()
    }
}

/// The value the `ulid` crate decodes from a text: `None` unless it is 26
/// characters of the alphabet; the digits then shift into a 128-bit value,
/// the bits shifted past the top being dropped.
pub open spec fn ulid_parse(text: Seq<char>) -> Option<u128> {
    if text.len() == 26 && forall|i: int| 0 <= i < 26 ==> (#[trigger] crockford_value(text[i])) is Some {
        Some((digits_value(text, 26) % 0x1_0000_0000_0000_0000_0000_0000_0000_0000int) as u128)
    } else {
        None
    }
}

/// Every digit reads back as itself.
proof fn lemma_digit_value(d: int)
    requires
        0 <= d < 32,
    ensures
        crockford_value(crockford_digit(d)) == Some(d),
{
}

/// The first `n` digits of a value's text spell the value without its
/// last `26 - n` digits.
proof fn lemma_ulid_prefix(value: u128, n: int)
    requires
        0 <= n <= 26,
    ensures
        digits_value(ulid_text(value), n) == (value as int) / pow(32, (26 - n) as nat),
        forall|i: int| 0 <= i < n ==> (#[trigger] crockford_value(ulid_text(value)[i])) is Some,
    decreases n,
{
    reveal(pow);
    let v = value as int;
    if n == 0 {
        assert(pow(32, 26) == 1361129467683753853853498429727072845824int) by {
            reveal_with_fuel(pow, 27);
        }
        assert(v / pow(32, 26) == 0);
    } else {
        lemma_ulid_prefix(value, n - 1);
        let b = pow(32, (26 - n) as nat);
        vstd::arithmetic::power::lemma_pow_positive(32, (26 - n) as nat);
        assert(pow(32, (27 - n) as nat) == 32 * b);
        let a = v / b;
        let d = a % 32;
        lemma_digit_value(d);
        assert(ulid_text(value)[n - 1] == crockford_digit(d));
        vstd::arithmetic::div_mod::lemma_div_denominator(v, b, 32);
        assert(v / (b * 32) == a / 32);
        assert(32 * b == b * 32) by (nonlinear_arith);
        vstd::arithmetic::div_mod::lemma_fundamental_div_mod(a, 32);
        assert forall|i: int| 0 <= i < n implies (#[trigger] crockford_value(ulid_text(value)[i])) is Some by {
            if i == n - 1 {
                assert(crockford_value(ulid_text(value)[i]) == Some(d));
            }
        }
    }
}

/// A value's ULID text decodes back to the value.
pub proof fn lemma_ulid_round_trip(value: u128)
    ensures
        ulid_text(value).len() == 26,
        ulid_parse(ulid_text(value)) == Some(value),
{
    reveal(pow);
    lemma_ulid_prefix(value, 26);
    assert(pow(32, 0) == 1);
    assert(digits_value(ulid_text(value), 26) == value as int);
}

/// `ulid::Ulid::to_string`: the crate's base32 encoder writes the 26 digits
/// of the value, most significant first, from its alphabet.
#[verifier::external_body]
fn encode_ulid(value: u128) -> (s: String)
    ensures
        s@ == ulid_text(value),
{
    ulid::Ulid(value).to_string()
}

/// `ulid::Ulid::from_string`: the crate's decoder refuses a text whose byte
/// length is not 26 and any byte outside its lookup table (which holds the
/// alphabet in both cases), and otherwise shifts the 26 digits into a
/// 128-bit value.
#[verifier::external_body]
fn decode_ulid(text: &str) -> (r: Option<u128>)
    ensures
        r == ulid_parse(text@),
{
    match ulid::Ulid::from_string(text) {
        Ok(u) => Some(u.0),
        Err(_) => None,
    }
}

/// A fresh ULID value. Calls `ulid::Ulid::new`, which draws on the clock
/// and a random source: nothing is claimed of the value.
#[verifier::external_body]
pub(crate) fn fresh_ulid() -> (v: u128) {
    ulid::Ulid::new().0
}

/// The 26-character ULID text of a value, which decodes back to it.
pub(crate) fn ulid_to_string(value: u128) -> (s: String)
    ensures
        s@ == ulid_text(value),
        s@.len() == 26,
        ulid_parse(s@) == Some(value),
{
    proof {
        lemma_ulid_round_trip(value);
    }
    encode_ulid(value)
}

/// Decode a ULID text; a text whose length is not 26 is refused.
pub(crate) fn ulid_from_str(text: &str) -> (r: Option<u128>)
    ensures
        r == ulid_parse(text@),
        text@.len() != 26 ==> r is None,
{
    decode_ulid(text)
}

/// A fresh row id for a persisted row: the text of a fresh ULID.
pub fn fresh_row_id() -> (s: String)
    ensures
        s@.len() == 26,
        ulid_parse(s@) is Some,
        s@ == ulid_text(ulid_parse(s@).unwrap()),
{
    let v = fresh_ulid();
    ulid_to_string(v)
}

/// A campaign.
#[derive(Debug, Clone, Copy, PartialEq, Eq, Hash, Structural)]
pub struct CampaignId(pub u128);

/// A user of the platform.
#[derive(Debug, Clone, Copy, PartialEq, Eq, Hash, Structural)]
pub struct UserId(pub u128);

/// A page (entity, template or session page).
#[derive(Debug, Clone, Copy, PartialEq, Eq, Hash, Structural)]
pub struct PageId(pub u128);

/// A session's temporal row.
#[derive(Debug, Clone, Copy, PartialEq, Eq, Hash, Structural)]
pub struct SessionId(pub u128);

/// A relationship row.
#[derive(Debug, Clone, Copy, PartialEq, Eq, Hash, Structural)]
pub struct RelationshipId(pub u128);

/// A content block of a page.
#[derive(Debug, Clone, Copy, PartialEq, Eq, Hash, Structural)]
pub struct BlockId(pub u128);

/// An agent conversation (the source of ToC suggestions).
#[derive(Debug, Clone, Copy, PartialEq, Eq, Hash, Structural)]
pub struct ConversationId(pub u128);

impl CampaignId {
    pub fn generate() -> CampaignId {
        CampaignId(fresh_ulid())
    }
}

impl UserId {
    pub fn generate() -> UserId {
        UserId(fresh_ulid())
    }
}

impl PageId {
    pub fn generate() -> PageId {
        PageId(fresh_ulid())
    }

    /// The page id's ULID text.
    pub fn to_text(&self) -> (s: String)
        ensures
            s@ == ulid_text(self.0),
            s@.len() == 26,
    {
        ulid_to_string(self.0)
    }
}

impl SessionId {
    pub fn generate() -> SessionId {
        SessionId(fresh_ulid())
    }
}

impl RelationshipId {
    pub fn generate() -> RelationshipId {
        RelationshipId(fresh_ulid())
    }
}

impl BlockId {
    pub fn generate() -> BlockId {
        BlockId(fresh_ulid())
    }
}

impl ConversationId {
    pub fn generate() -> ConversationId {
        ConversationId(fresh_ulid())
    }
}

/// Every key a map's key iterator yields (`ks`) is one of the map's keys
/// (`dom`), and every key of the map is yielded.
pub(crate) proof fn lemma_keys_listed(ks: Seq<&u128>, dom: Set<u128>)
    requires
        ks.unref().to_set() == dom,
    ensures
        forall|i: int| 0 <= i < ks.len() ==> dom.contains(*#[trigger] ks[i]),
        forall|k: u128| #[trigger] dom.contains(k) ==> exists|i: int| 0 <= i < ks.len() && *ks[i] == k,
{
    assert forall|i: int| 0 <= i < ks.len() implies dom.contains(*#[trigger] ks[i]) by {
        assert(ks.unref()[i] == *ks[i]);
        assert(ks.unref().contains(*ks[i]));
    }
    assert forall|k: u128| #[trigger] dom.contains(k) implies exists|i: int| 0 <= i < ks.len() && *ks[i] == k by {
        assert(ks.unref().contains(k));
        let i = choose|i: int| 0 <= i < ks.unref().len() && ks.unref()[i] == k;
        assert(*ks[i] == k);
    }
}

/// Remove every listed key from an id-keyed map; the other entries stay
/// as they were.
pub(crate) fn remove_keys<V>(m: &mut HashMap<u128, V>, keys: &Vec<u128>)
    ensures
        forall|k: u128| #[trigger] final(m)@.contains_key(k) <==> (old(m)@.contains_key(k) && !keys@.contains(k)),
        forall|k: u128| #[trigger] final(m)@.contains_key(k) ==> final(m)@[k] == old(m)@[k],
{
    broadcast use vstd::std_specs::hash::group_hash_axioms;
    let ghost m0 = m@;
    let mut i: usize = 0;
    while i < keys.len()
        invariant
            0 <= i <= keys@.len(),
            forall|k: u128| #[trigger] m@.contains_key(k) <==>
                (m0.contains_key(k) && forall|j: int| 0 <= j < i ==> #[trigger] keys@[j] != k),
            forall|k: u128| #[trigger] m@.contains_key(k) ==> m@[k] == m0[k],
        decreases keys@.len() - i,
    {
        m.remove(&keys[i]);
        i = i + 1;
    }
    proof {
        assert forall|k: u128| #[trigger] m@.contains_key(k) <==> (m0.contains_key(k) && !keys@.contains(k)) by {
            if keys@.contains(k) {
                let j = choose|j: int| 0 <= j < keys@.len() && keys@[j] == k;
                assert(keys@[j] == k);
            }
        }
    }
}

} // verus!
