//! The Soroban host objects the contract logic works with: the environment,
//! host-side vectors of tick indices, and the host's SHA-256.

use vstd::prelude::*;
use crate::consensus::WeightedEntry;

verus! {

/// The Soroban environment handle.
#[verifier::external_type_specification]
#[verifier::external_body]
pub struct ExEnv(soroban_sdk::Env);

/// A host-side vector.
#[verifier::external_type_specification]
#[verifier::external_body]
#[verifier::reject_recursive_types(T)]
pub struct ExHostVec<T>(soroban_sdk::Vec<T>);

/// The error the SDK reports when a host value cannot be read as an `i32`.
#[verifier::external_type_specification]
#[verifier::external_body]
pub struct ExConversionError(soroban_sdk::ConversionError);

/// The host's error value, which the SDK reports when a host value cannot
/// be read as a `u64` or a pair.
#[verifier::external_type_specification]
#[verifier::external_body]
pub struct ExHostError(soroban_sdk::Error);

/// The elements of a host-side vector of tick indices, in order, each read
/// as an `i32`.
pub uninterp spec fn tick_list_contents(list: soroban_sdk::Vec<i32>) -> Seq<i32>;

/// Whether every element of a host-side vector of tick indices is an `i32`
/// on the host (a vector built through the SDK's typed methods always is;
/// one converted from an untyped host value need not be).
pub uninterp spec fn tick_list_typed(list: soroban_sdk::Vec<i32>) -> bool;

/// `soroban_sdk::Vec::<i32>::len`: the number of elements.
#[verifier::external_body]
pub(crate) fn tick_list_len(list: &soroban_sdk::Vec<i32>) -> (r: u32)
    ensures
        r as int == tick_list_contents(*list).len(),
{
    list.len()
}

/// `soroban_sdk::Vec::<i32>::try_get`: the element at `i`, or `None` past
/// the end; an error when the element there is not an `i32`, which a
/// vector whose elements are all `i32` never gives.
#[verifier::external_body]
pub(crate) fn tick_list_get(list: &soroban_sdk::Vec<i32>, i: u32) -> (r: Result<Option<i32>, soroban_sdk::ConversionError>)
    ensures
        i >= tick_list_contents(*list).len() ==> r is Ok && r->Ok_0 is None,
        i < tick_list_contents(*list).len() && r is Ok ==> r->Ok_0 == Some(tick_list_contents(*list)[i as int]),
        tick_list_typed(*list) ==> r is Ok,
{
    list.try_get(i)
}

/// `soroban_sdk::Vec::<i32>::insert`: insert `x` at position `i`, shifting
/// later elements right (the host panics when `i` is past the end, or when
/// the vector already holds `u32::MAX` elements).
#[verifier::external_body]
pub(crate) fn tick_list_insert(list: &mut soroban_sdk::Vec<i32>, i: u32, x: i32)
    requires
        i <= tick_list_contents(*old(list)).len(),
        tick_list_contents(*old(list)).len() < u32::MAX,
    ensures
        tick_list_contents(*final(list)) == tick_list_contents(*old(list)).insert(i as int, x),
        tick_list_typed(*final(list)) == tick_list_typed(*old(list)),
{
    list.insert(i, x)
}

/// `soroban_sdk::Vec::<i32>::remove`: remove the element at `i`; `None`
/// and no change when `i` is past the end.
#[verifier::external_body]
pub(crate) fn tick_list_remove(list: &mut soroban_sdk::Vec<i32>, i: u32) -> (r: Option<()>)
    ensures
        i < tick_list_contents(*old(list)).len() ==> r is Some
            && tick_list_contents(*final(list)) == tick_list_contents(*old(list)).remove(i as int),
        i >= tick_list_contents(*old(list)).len() ==> r is None
            && tick_list_contents(*final(list)) == tick_list_contents(*old(list)),
        tick_list_typed(*old(list)) ==> tick_list_typed(*final(list)),
{
    list.remove(i)
}

/// The elements of a host-side vector of `u64` values, in order, each read
/// as a `u64`.
pub uninterp spec fn u64_list_contents(list: soroban_sdk::Vec<u64>) -> Seq<u64>;

/// Whether every element of a host-side vector of `u64` values is a `u64`
/// on the host.
pub uninterp spec fn u64_list_typed(list: soroban_sdk::Vec<u64>) -> bool;

/// `soroban_sdk::Vec::<u64>::new`: an empty vector.
#[verifier::external_body]
pub(crate) fn u64_list_new(env: &soroban_sdk::Env) -> (r: soroban_sdk::Vec<u64>)
    ensures
        u64_list_contents(r) == Seq::<u64>::empty(),
        u64_list_typed(r),
{
    soroban_sdk::Vec::new(env)
}

/// `soroban_sdk::Vec::<u64>::len`: the number of elements.
#[verifier::external_body]
pub(crate) fn u64_list_len(list: &soroban_sdk::Vec<u64>) -> (r: u32)
    ensures
        r as int == u64_list_contents(*list).len(),
{
    list.len()
}

/// `soroban_sdk::Vec::<u64>::try_get`: the element at `i`, or `None` past
/// the end; an error when the element there is not a `u64`, which a vector
/// whose elements are all `u64` never gives.
#[verifier::external_body]
pub(crate) fn u64_list_get(list: &soroban_sdk::Vec<u64>, i: u32) -> (r: Result<Option<u64>, soroban_sdk::Error>)
    ensures
        i >= u64_list_contents(*list).len() ==> r is Ok && r->Ok_0 is None,
        i < u64_list_contents(*list).len() && r is Ok ==> r->Ok_0 == Some(u64_list_contents(*list)[i as int]),
        u64_list_typed(*list) ==> r is Ok,
{
    list.try_get(i)
}

/// `soroban_sdk::Vec::<u64>::push_back`: append `x` at the end (a host vector
/// holds at most `u32::MAX` elements).
#[verifier::external_body]
pub(crate) fn u64_list_push_back(list: &mut soroban_sdk::Vec<u64>, x: u64)
    requires
        u64_list_contents(*old(list)).len() < u32::MAX,
    ensures
        u64_list_contents(*final(list)) == u64_list_contents(*old(list)).push(x),
        u64_list_typed(*final(list)) == u64_list_typed(*old(list)),
{
    list.push_back(x)
}

/// The rows of a host-side vector of `(value, weight)` pairs, in order, each
/// read as a pair of `u64`.
pub uninterp spec fn entry_list_contents(list: soroban_sdk::Vec<(u64, u64)>) -> Seq<(u64, u64)>;

/// Whether every row of a host-side vector of `(value, weight)` pairs is a
/// pair of `u64` on the host.
pub uninterp spec fn entry_list_typed(list: soroban_sdk::Vec<(u64, u64)>) -> bool;

/// `soroban_sdk::Vec::<(u64, u64)>::new`: an empty vector.
#[verifier::external_body]
pub(crate) fn entry_list_new(env: &soroban_sdk::Env) -> (r: soroban_sdk::Vec<(u64, u64)>)
    ensures
        entry_list_contents(r) == Seq::<(u64, u64)>::empty(),
        entry_list_typed(r),
{
    soroban_sdk::Vec::new(env)
}

/// `soroban_sdk::Vec::<(u64, u64)>::len`: the number of rows.
#[verifier::external_body]
pub(crate) fn entry_list_len(list: &soroban_sdk::Vec<(u64, u64)>) -> (r: u32)
    ensures
        r as int == entry_list_contents(*list).len(),
{
    list.len()
}

/// `soroban_sdk::Vec::<(u64, u64)>::try_get`: the row at `i` as a
/// `WeightedEntry`, or `None` past the end; an error when the row there is
/// not a pair of `u64`, which a vector of such pairs never gives.
#[verifier::external_body]
pub(crate) fn entry_list_get(list: &soroban_sdk::Vec<(u64, u64)>, i: u32) -> (r: Result<Option<WeightedEntry>, soroban_sdk::Error>)
    ensures
        i >= entry_list_contents(*list).len() ==> r is Ok && r->Ok_0 is None,
        i < entry_list_contents(*list).len() && r is Ok ==> r->Ok_0 == Some(
            WeightedEntry { value: entry_list_contents(*list)[i as int].0, weight: entry_list_contents(*list)[i as int].1 }),
        entry_list_typed(*list) ==> r is Ok,
{
    list.try_get(i).map(|row| row.map(|(value, weight)| WeightedEntry { value, weight }))
}

/// `soroban_sdk::Vec::<(u64, u64)>::set`: overwrite the row at `i` (the host
/// panics when `i` is past the end).
#[verifier::external_body]
pub(crate) fn entry_list_set(list: &mut soroban_sdk::Vec<(u64, u64)>, i: u32, e: WeightedEntry)
    requires
        i < entry_list_contents(*old(list)).len(),
    ensures
        entry_list_contents(*final(list)) == entry_list_contents(*old(list)).update(i as int, (e.value, e.weight)),
        entry_list_typed(*old(list)) ==> entry_list_typed(*final(list)),
{
    list.set(i, (e.value, e.weight))
}

/// `soroban_sdk::Vec::<(u64, u64)>::push_back`: append a row at the end (a
/// host vector holds at most `u32::MAX` elements).
#[verifier::external_body]
pub(crate) fn entry_list_push_back(list: &mut soroban_sdk::Vec<(u64, u64)>, e: WeightedEntry)
    requires
        entry_list_contents(*old(list)).len() < u32::MAX,
    ensures
        entry_list_contents(*final(list)) == entry_list_contents(*old(list)).push((e.value, e.weight)),
        entry_list_typed(*final(list)) == entry_list_typed(*old(list)),
{
    list.push_back((e.value, e.weight))
}

/// SHA-256 of a byte string, as the host computes it.
pub uninterp spec fn sha256_of(data: Seq<u8>) -> Seq<u8>;

/// `soroban_sdk::crypto::Crypto::sha256` over the bytes of `data`: the
/// 32-byte SHA-256 digest, a function of the data alone.
#[verifier::external_body]
pub(crate) fn sha256_digest(env: &soroban_sdk::Env, data: &[u8]) -> (r: [u8; 32])
    ensures
        r@ == sha256_of(data@),
{
    env.crypto().sha256(&soroban_sdk::Bytes::from_slice(env, data)).to_array()
}

} // verus!
