//! What the hash table asks of a key, and the integer keys that provide it.

use std::collections::hash_map::DefaultHasher;
use std::hash::Hash;
use std::hash::Hasher;
use vstd::prelude::*;
use vstd::std_specs::hash::DefaultHasherAdditionalSpecFns;

verus! {

/// What a table asks of its keys: a hash that depends on the key alone, and
/// an equality that agrees with equality of values.
pub trait HashKey: Sized {
    /// The hash of this key.
    spec fn hash_spec(&self) -> u64;

    /// Computes the hash of this key.
    fn hash_code(&self) -> (hash: u64)
        ensures
            hash == self.hash_spec(),
    ;

    /// Tells whether two keys are the same key.
    fn same_key(&self, other: &Self) -> (same: bool)
        ensures
            same == (*self == *other),
    ;
}

/// What a hasher has been fed, as a sequence of writes, once `Hash::hash` of
/// an `i32` has fed `key` to a hasher that had been fed `written` before.
pub uninterp spec fn fed_i32(written: Seq<Seq<u8>>, key: i32) -> Seq<Seq<u8>>;

/// Calls `<i32 as std::hash::Hash>::hash` on a `DefaultHasher`. Nothing is
/// claimed of the bytes that std feeds to the hasher, only that they are
/// settled by the key, so that the hasher's state afterwards is settled by
/// its state before and by the key.
#[verifier::external_body]
fn feed_i32(hasher: &mut DefaultHasher, key: i32)
    ensures
        final(hasher)@ == fed_i32(old(hasher)@, key),
{
    key.hash(hasher)
}

impl HashKey for i32 {
    /// What a fresh `DefaultHasher` makes of the key.
    open spec fn hash_spec(&self) -> u64 {
        DefaultHasher::spec_finish(fed_i32(Seq::empty(), *self))
    }

    fn hash_code(&self) -> (hash: u64) {
        let mut hasher = DefaultHasher::new();
        feed_i32(&mut hasher, *self);
        hasher.finish()
    }

    fn same_key(&self, other: &Self) -> (same: bool) {
        *self == *other
    }
}

/// What a hasher has been fed, as a sequence of writes, once `Hash::hash` of
/// an `i64` has fed `key` to a hasher that had been fed `written` before.
pub uninterp spec fn fed_i64(written: Seq<Seq<u8>>, key: i64) -> Seq<Seq<u8>>;

/// Calls `<i64 as std::hash::Hash>::hash` on a `DefaultHasher`. Nothing is
/// claimed of the bytes that std feeds to the hasher, only that they are
/// settled by the key, so that the hasher's state afterwards is settled by
/// its state before and by the key.
#[verifier::external_body]
fn feed_i64(hasher: &mut DefaultHasher, key: i64)
    ensures
        final(hasher)@ == fed_i64(old(hasher)@, key),
{
    key.hash(hasher)
}

impl HashKey for i64 {
    /// What a fresh `DefaultHasher` makes of the key.
    open spec fn hash_spec(&self) -> u64 {
        DefaultHasher::spec_finish(fed_i64(Seq::empty(), *self))
    }

    fn hash_code(&self) -> (hash: u64) {
        let mut hasher = DefaultHasher::new();
        feed_i64(&mut hasher, *self);
        hasher.finish()
    }

    fn same_key(&self, other: &Self) -> (same: bool) {
        *self == *other
    }
}

/// What a hasher has been fed, as a sequence of writes, once `Hash::hash` of
/// a `u32` has fed `key` to a hasher that had been fed `written` before.
pub uninterp spec fn fed_u32(written: Seq<Seq<u8>>, key: u32) -> Seq<Seq<u8>>;

/// Calls `<u32 as std::hash::Hash>::hash` on a `DefaultHasher`. Nothing is
/// claimed of the bytes that std feeds to the hasher, only that they are
/// settled by the key, so that the hasher's state afterwards is settled by
/// its state before and by the key.
#[verifier::external_body]
fn feed_u32(hasher: &mut DefaultHasher, key: u32)
    ensures
        final(hasher)@ == fed_u32(old(hasher)@, key),
{
    key.hash(hasher)
}

impl HashKey for u32 {
    /// What a fresh `DefaultHasher` makes of the key.
    open spec fn hash_spec(&self) -> u64 {
        DefaultHasher::spec_finish(fed_u32(Seq::empty(), *self))
    }

    fn hash_code(&self) -> (hash: u64) {
        let mut hasher = DefaultHasher::new();
        feed_u32(&mut hasher, *self);
        hasher.finish()
    }

    fn same_key(&self, other: &Self) -> (same: bool) {
        *self == *other
    }
}

/// What a hasher has been fed, as a sequence of writes, once `Hash::hash` of
/// a `u64` has fed `key` to a hasher that had been fed `written` before.
pub uninterp spec fn fed_u64(written: Seq<Seq<u8>>, key: u64) -> Seq<Seq<u8>>;

/// Calls `<u64 as std::hash::Hash>::hash` on a `DefaultHasher`. Nothing is
/// claimed of the bytes that std feeds to the hasher, only that they are
/// settled by the key, so that the hasher's state afterwards is settled by
/// its state before and by the key.
#[verifier::external_body]
fn feed_u64(hasher: &mut DefaultHasher, key: u64)
    ensures
        final(hasher)@ == fed_u64(old(hasher)@, key),
{
    key.hash(hasher)
}

impl HashKey for u64 {
    /// What a fresh `DefaultHasher` makes of the key.
    open spec fn hash_spec(&self) -> u64 {
        DefaultHasher::spec_finish(fed_u64(Seq::empty(), *self))
    }

    fn hash_code(&self) -> (hash: u64) {
        let mut hasher = DefaultHasher::new();
        feed_u64(&mut hasher, *self);
        hasher.finish()
    }

    fn same_key(&self, other: &Self) -> (same: bool) {
        *self == *other
    }
}

/// What a hasher has been fed, as a sequence of writes, once `Hash::hash` of
/// a `usize` has fed `key` to a hasher that had been fed `written` before.
pub uninterp spec fn fed_usize(written: Seq<Seq<u8>>, key: usize) -> Seq<Seq<u8>>;

/// Calls `<usize as std::hash::Hash>::hash` on a `DefaultHasher`. Nothing is
/// claimed of the bytes that std feeds to the hasher, only that they are
/// settled by the key, so that the hasher's state afterwards is settled by
/// its state before and by the key.
#[verifier::external_body]
fn feed_usize(hasher: &mut DefaultHasher, key: usize)
    ensures
        final(hasher)@ == fed_usize(old(hasher)@, key),
{
    key.hash(hasher)
}

impl HashKey for usize {
    /// What a fresh `DefaultHasher` makes of the key.
    open spec fn hash_spec(&self) -> u64 {
        DefaultHasher::spec_finish(fed_usize(Seq::empty(), *self))
    }

    fn hash_code(&self) -> (hash: u64) {
        let mut hasher = DefaultHasher::new();
        feed_usize(&mut hasher, *self);
        hasher.finish()
    }

    fn same_key(&self, other: &Self) -> (same: bool) {
        *self == *other
    }
}

} // verus!
