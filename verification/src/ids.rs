//! Identifiers: nodes and bundles are named by UUIDs, held as their 128-bit value.
use vstd::prelude::*;
use vstd::utf8::encode_utf8;

verus! {

/// What `uuid::Uuid::new_v5` makes of a namespace and a name: the
/// version-5 UUID, a SHA-1 digest of the namespace's and the name's bytes,
/// as its 128-bit value.
pub uninterp spec fn uuid_v5(namespace: u128, name: Seq<u8>) -> u128;

/// The DNS namespace 6ba7b810-9dad-11d1-80b4-00c04fd430c8, in which node
/// names are turned into ids.
pub const DNS_NAMESPACE: u128 = 0x6ba7b810_9dad_11d1_80b4_00c04fd430c8;

/// The id of the node called `name`: the version-5 UUID of the UTF-8 bytes
/// of the name in the DNS namespace.
pub open spec fn name_uuid(name: Seq<char>) -> u128 {
    uuid_v5(DNS_NAMESPACE, encode_utf8(name))
}

/// The id of the acknowledgement of the data bundle `data_id`: the
/// version-5 UUID of the name "ack" in the namespace `data_id`, so that each
/// data bundle has one acknowledgement id.
pub open spec fn ack_id_of(data_id: u128) -> u128 {
    uuid_v5(data_id, seq![97u8, 99u8, 107u8])
}

/// What `uuid::Uuid::parse_str` makes of `text`: `Some` of the UUID's
/// 128-bit value, or `None` where it refuses the text.
pub uninterp spec fn uuid_from_text(text: Seq<char>) -> Option<u128>;

/// The version field of a UUID (bits 76 to 79 of its 128-bit value).
pub open spec fn uuid_version(id: u128) -> int {
    (id as int / 0x1_0000_0000_0000_0000_000int) % 16
}

/// The `k`-th hexadecimal digit of `id`, most significant first.
pub open spec fn nibble(id: u128, k: int) -> int {
    (id as int / vstd::arithmetic::power2::pow2((4 * (31 - k)) as nat) as int) % 16
}

/// Lower-case character of a hexadecimal digit.
pub open spec fn hex_char(d: int) -> char {
    if d < 10 {
        (48 + d) as char
    } else {
        (87 + d) as char
    }
}

/// The 32 lower-case hexadecimal digits of `id`.
pub open spec fn hex_digits(id: u128) -> Seq<char> {
    Seq::new(32, |k: int| hex_char(nibble(id, k)))
}

/// The hyphenated text of a UUID: digits grouped 8-4-4-4-12.
pub open spec fn hyphenated(id: u128) -> Seq<char> {
    let h = hex_digits(id);
    h.subrange(0, 8) + seq!['-'] + h.subrange(8, 12) + seq!['-'] + h.subrange(12, 16) + seq!['-']
        + h.subrange(16, 20) + seq!['-'] + h.subrange(20, 32)
}

/// A fresh random identifier from `uuid::Uuid::new_v4()` (its 128-bit value).
/// Only its version field, 4, is promised; the rest is chance. The uuid crate
/// panics where the operating system gives no random bytes.
#[verifier::external_body]
pub(crate) fn random_id() -> (id: u128)
    ensures
        uuid_version(id) == 4,
{
    uuid::Uuid::new_v4().as_u128()
}

/// `uuid::Uuid::new_v5(&Uuid::from_u128(namespace), name)`, as its 128-bit
/// value: the name `uuid_v5` of the namespace and the name's bytes. The
/// crate's builder sets the version field to 5.
#[verifier::external_body]
pub(crate) fn v5_uuid(namespace: u128, name: &[u8]) -> (id: u128)
    ensures
        id == uuid_v5(namespace, name@),
        uuid_version(id) == 5,
{
    uuid::Uuid::new_v5(&uuid::Uuid::from_u128(namespace), name).as_u128()
}

/// `Uuid::from_u128(id).to_string()`: the hyphenated lower-case text of the
/// UUID, which `Uuid::parse_str` reads back as the same UUID.
#[verifier::external_body]
pub(crate) fn uuid_string(id: u128) -> (text: String)
    ensures
        text@ == hyphenated(id),
        uuid_from_text(text@) == Some(id),
{
    uuid::Uuid::from_u128(id).to_string()
}

/// `Uuid::parse_str(text)`, as the UUID's 128-bit value where it succeeds.
#[verifier::external_body]
pub(crate) fn parse_uuid(text: &str) -> (id: Option<u128>)
    ensures
        id == uuid_from_text(text@),
{
    match uuid::Uuid::parse_str(text) {
        Ok(u) => Some(u.as_u128()),
        Err(_) => None,
    }
}

/// The id a UUID text names, where it names one (as `Uuid::parse_str` reads it).
pub fn parse_node_id(text: &str) -> (id: Option<u128>)
    ensures
        id == uuid_from_text(text@),
{
    parse_uuid(text)
}

/// The identifier of the node called `name`: the version-5 UUID of the name
/// in the namespace 6ba7b810-9dad-11d1-80b4-00c04fd430c8.
pub fn node_id(name: &str) -> (id: u128)
    ensures
        id == name_uuid(name@),
        uuid_version(id) == 5,
{
    v5_uuid(DNS_NAMESPACE, name.as_bytes())
}

/// The id of the acknowledgement of the data bundle `data_id`: the same for
/// every acknowledgement of that bundle.
pub fn ack_id_for(data_id: u128) -> (id: u128)
    ensures
        id == ack_id_of(data_id),
        uuid_version(id) == 5,
{
    let mut name: Vec<u8> = Vec::new();
    name.push(97u8);
    name.push(99u8);
    name.push(107u8);
    assert(name@ =~= seq![97u8, 99u8, 107u8]);
    v5_uuid(data_id, name.as_slice())
}

} // verus!
