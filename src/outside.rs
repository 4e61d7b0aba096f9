//! The calls this library makes into other crates and into the parts of std
//! that carry no specification of their own.

use vstd::prelude::*;
use sha2::Digest;
use crate::transaction::Transaction;

verus! {

/// The lowercase hex SHA-256 digest of a byte string.
pub uninterp spec fn sha256_hex_of(data: Seq<u8>) -> Seq<char>;

/// Relies on sha2's `Sha256::digest` and on generic-array's `LowerHex`
/// formatting of the 32-byte output: two lowercase hex digits per byte.
#[verifier::external_body]
pub(crate) fn sha256_hex(data: &[u8]) -> (r: String)
    ensures
        r@ == sha256_hex_of(data@),
        r@.len() == 64,
{
    format!("{:x}", sha2::Sha256::digest(data))
}

/// Relies on `std::str::from_utf8`: it succeeds exactly on valid UTF-8,
/// and the string then holds the characters those bytes encode.
#[verifier::external_body]
pub(crate) fn utf8_to_string(b: &[u8]) -> (r: Option<String>)
    ensures
        r is Some <==> vstd::utf8::valid_utf8(b@),
        r is Some ==> r->Some_0@ == vstd::utf8::decode_utf8(b@),
{
    std::str::from_utf8(b).ok().map(|s| s.to_string())
}

/// Relies on uuid's `Uuid::new_v4` and `Uuid::as_u128`: a random
/// identifier as its 128-bit value. Nothing is promised of the value.
#[verifier::external_body]
pub(crate) fn random_id() -> (r: u128) {
    uuid::Uuid::new_v4().as_u128()
}

/// Relies on chrono's `Utc::now` and `DateTime::timestamp`: the current
/// wall-clock time in whole seconds since the Unix epoch. Nothing is
/// promised of the value.
#[verifier::external_body]
pub(crate) fn unix_seconds_now() -> (r: i64) {
    chrono::Utc::now().timestamp()
}

/// Declares std's monotonic clock reading, carried through opaquely.
#[verifier::external_type_specification]
#[verifier::external_body]
pub struct ExInstant(std::time::Instant);

/// Relies on `std::time::Instant::now`: the current monotonic clock reading.
#[verifier::external_body]
pub(crate) fn instant_now() -> (r: std::time::Instant) {
    std::time::Instant::now()
}

/// Relies on `std::time::Instant::elapsed` and `Duration::as_nanos`: the
/// nanoseconds since `start`. Nothing is promised of the value.
#[verifier::external_body]
pub(crate) fn nanos_since(start: &std::time::Instant) -> (r: u128) {
    start.elapsed().as_nanos()
}

} // verus!

verus! {

/// Declares dashmap's concurrent map, held opaquely.
#[verifier::external_type_specification]
#[verifier::external_body]
#[verifier::reject_recursive_types(K)]
#[verifier::reject_recursive_types(V)]
#[verifier::reject_recursive_types(S)]
pub struct ExDashMap<K, V, S>(dashmap::DashMap<K, V, S>);

/// The entries of a map from account labels to balances.
pub uninterp spec fn account_entries(m: dashmap::DashMap<String, u64>) -> Map<Seq<char>, u64>;

/// The entries of a map from transaction ids to transactions.
pub uninterp spec fn pool_entries(m: dashmap::DashMap<u128, Transaction>) -> Map<u128, Transaction>;

/// Relies on dashmap's `DashMap::new`: a map with no entries.
#[verifier::external_body]
pub(crate) fn new_account_map() -> (r: dashmap::DashMap<String, u64>)
    ensures
        account_entries(r).dom() == Set::<Seq<char>>::empty(),
{
    dashmap::DashMap::new()
}

/// Relies on dashmap's `DashMap::get`: the value stored under `key`, if any.
#[verifier::external_body]
pub(crate) fn account_get(m: &dashmap::DashMap<String, u64>, key: &str) -> (r: Option<u64>)
    ensures
        r == (if account_entries(*m).contains_key(key@) {
            Some(account_entries(*m)[key@])
        } else {
            None
        }),
{
    m.get(key).map(|entry| *entry.value())
}

/// Relies on dashmap's `DashMap::insert`: stores `value` under `key`,
/// replacing any earlier value.
#[verifier::external_body]
pub(crate) fn account_insert(m: &mut dashmap::DashMap<String, u64>, key: String, value: u64)
    ensures
        account_entries(*final(m)) == account_entries(*old(m)).insert(key@, value),
{
    m.insert(key, value);
}

/// Relies on dashmap's `DashMap::new`: a map with no entries.
#[verifier::external_body]
pub(crate) fn new_pool() -> (r: dashmap::DashMap<u128, Transaction>)
    ensures
        pool_entries(r).dom() == Set::<u128>::empty(),
{
    dashmap::DashMap::new()
}

/// Relies on dashmap's `DashMap::contains_key`: whether `id` has an entry.
#[verifier::external_body]
pub(crate) fn pool_contains(m: &dashmap::DashMap<u128, Transaction>, id: u128) -> (r: bool)
    ensures
        r == pool_entries(*m).contains_key(id),
{
    m.contains_key(&id)
}

/// Relies on dashmap's `DashMap::insert`: stores `tx` under `id`, replacing
/// any earlier entry.
#[verifier::external_body]
pub(crate) fn pool_insert(m: &mut dashmap::DashMap<u128, Transaction>, id: u128, tx: Transaction)
    ensures
        pool_entries(*final(m)) == pool_entries(*old(m)).insert(id, tx),
{
    m.insert(id, tx);
}

} // verus!
