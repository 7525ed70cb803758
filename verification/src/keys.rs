//! Keys for mark definitions: random, and never one that the block already uses.

use rand::Rng;
use vstd::prelude::*;
use crate::document::{key_in_use, MarkDef, MarkDefView};

verus! {

/// The number of characters of a key as it is first drawn.
pub const KEY_LENGTH: usize = 12;

/// An ASCII letter or digit.
pub open spec fn is_alphanumeric(c: char) -> bool {
    ('0' <= c && c <= '9') || ('A' <= c && c <= 'Z') || ('a' <= c && c <= 'z')
}

/// A key is made of at least `KEY_LENGTH` ASCII letters and digits.
pub open spec fn is_key(key: Seq<char>) -> bool {
    &&& key.len() >= KEY_LENGTH
    &&& forall|i: int| 0 <= i < key.len() ==> is_alphanumeric(#[trigger] key[i])
}

/// Whether `key` is no longer than it has to be to differ from the keys in
/// use: each beginning of it that has at least `KEY_LENGTH` characters is a
/// key in use.
pub open spec fn no_longer_than_needed(defs: Seq<MarkDefView>, key: Seq<char>) -> bool {
    forall|n: int| KEY_LENGTH <= n < key.len() ==> key_in_use(defs, #[trigger] key.take(n))
}

/// The length of the longest key among the definitions.
pub open spec fn longest_key(defs: Seq<MarkDefView>) -> nat
    decreases defs.len(),
{
    if defs.len() == 0 {
        0
    } else {
        let rest = longest_key(defs.drop_last());
        if defs.last().key().len() > rest {
            defs.last().key().len()
        } else {
            rest
        }
    }
}

/// No key in use is longer than the longest.
pub proof fn lemma_longest_key(defs: Seq<MarkDefView>, key: Seq<char>)
    requires
        key_in_use(defs, key),
    ensures
        key.len() <= longest_key(defs),
    decreases defs.len(),
{
    let i = choose|i: int| 0 <= i < defs.len() && (#[trigger] defs[i]).key() == key;
    if i < defs.len() - 1 {
        assert(defs.drop_last()[i].key() == key);
        lemma_longest_key(defs.drop_last(), key);
    }
}

/// Draws one byte from rand's distribution `Alphanumeric`, with `Rng::sample`
/// on the generator that `rand::thread_rng` returns. The contract claims what
/// the distribution documents: the byte is an ASCII letter or digit. Which
/// one is left open.
#[verifier::external_body]
fn random_alphanumeric() -> (byte: u8)
    ensures
        is_alphanumeric(byte as char),
{
    rand::thread_rng().sample(rand::distributions::Alphanumeric)
}

/// A random key of `KEY_LENGTH` characters.
pub fn random_key() -> (key: String)
    ensures
        is_key(key@),
        key@.len() == KEY_LENGTH,
{
    let mut key = String::new();
    let mut drawn: usize = 0;
    while drawn < KEY_LENGTH
        invariant
            drawn <= KEY_LENGTH,
            key@.len() == drawn,
            forall|i: int| 0 <= i < key@.len() ==> is_alphanumeric(#[trigger] key@[i]),
        decreases KEY_LENGTH - drawn,
    {
        key.push(random_alphanumeric() as char);
        drawn += 1;
    }
    key
}

/// Whether one of the definitions has the given key.
pub fn is_key_in_use(defs: &Vec<MarkDef>, key: &String) -> (used: bool)
    ensures
        used == key_in_use(defs.deep_view(), key@),
{
    let mut i: usize = 0;
    while i < defs.len()
        invariant
            i <= defs.len(),
            forall|j: int| 0 <= j < i ==> (#[trigger] defs.deep_view()[j]).key() != key@,
        decreases defs.len() - i,
    {
        if *defs[i].key() == *key {
            assert(defs.deep_view()[i as int].key() == key@);
            return true;
        }
        i += 1;
    }
    false
}

/// A random key that none of the definitions has. It has `KEY_LENGTH`
/// characters unless such a key is already in use; then it is as much longer
/// as it takes to differ from every key in use.
pub fn fresh_key(defs: &Vec<MarkDef>) -> (key: String)
    ensures
        is_key(key@),
        !key_in_use(defs.deep_view(), key@),
        no_longer_than_needed(defs.deep_view(), key@),
{
    let mut key = random_key();
    while is_key_in_use(defs, &key)
        invariant
            is_key(key@),
            no_longer_than_needed(defs.deep_view(), key@),
        decreases longest_key(defs.deep_view()) + 1 - key@.len(),
    {
        let ghost shorter = key@;
        proof {
            lemma_longest_key(defs.deep_view(), key@);
        }
        key.push(random_alphanumeric() as char);
        assert forall|n: int| KEY_LENGTH <= n < key@.len() implies key_in_use(
            defs.deep_view(),
            #[trigger] key@.take(n),
        ) by {
            if n < shorter.len() {
                assert(key@.take(n) =~= shorter.take(n));
            } else {
                assert(key@.take(n) =~= shorter);
            }
        }
    }
    key
}

} // verus!
