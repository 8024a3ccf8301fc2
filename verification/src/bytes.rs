//! Byte strings as the protocol reads them: opaque values that are compared,
//! and big-endian numbers.

use vstd::prelude::*;

verus! {

/// The number that `bytes` spells when read big-endian.
pub open spec fn be_value(bytes: Seq<u8>) -> nat
    decreases bytes.len(),
{
    if bytes.len() == 0 {
        0
    } else {
        be_value(bytes.drop_last()) * 256 + bytes.last() as nat
    }
}

/// Every byte of `bytes` is zero.
pub open spec fn all_zero(bytes: Seq<u8>) -> bool {
    forall|i: int| 0 <= i < bytes.len() ==> bytes[i] == 0
}

/// Reading one more byte multiplies what was read by 256 and adds the byte.
pub proof fn lemma_be_value_step(bytes: Seq<u8>, n: int)
    requires
        0 <= n < bytes.len(),
    ensures
        be_value(bytes.take(n + 1)) == be_value(bytes.take(n)) * 256 + bytes[n] as nat,
{
    assert(bytes.take(n + 1).drop_last() =~= bytes.take(n));
}

/// A byte string spells at least what any of its prefixes spells.
pub proof fn lemma_be_value_prefix(bytes: Seq<u8>, n: int)
    requires
        0 <= n <= bytes.len(),
    ensures
        be_value(bytes.take(n)) <= be_value(bytes),
    decreases bytes.len() - n,
{
    if n == bytes.len() {
        assert(bytes.take(n) =~= bytes);
    } else {
        lemma_be_value_step(bytes, n);
        lemma_be_value_prefix(bytes, n + 1);
    }
}

/// Whether two byte strings hold the same bytes.
pub fn same_bytes(a: &Vec<u8>, b: &Vec<u8>) -> (same: bool)
    ensures
        same == (a@ == b@),
{
    let same = a == b;
    assert(a@ == b@ <==> a@ =~= b@);
    same
}

/// The bytes of `bytes` from place `from` up to, and without, place `to`.
pub fn copy_of_range(bytes: &Vec<u8>, from: usize, to: usize) -> (part: Vec<u8>)
    requires
        from <= to <= bytes@.len(),
    ensures
        part@ == bytes@.subrange(from as int, to as int),
{
    let mut part: Vec<u8> = Vec::new();
    let mut i: usize = from;
    while i < to
        invariant
            from <= i <= to <= bytes@.len(),
            part@ == bytes@.subrange(from as int, i as int),
        decreases to - i,
    {
        part.push(bytes[i]);
        assert(part@ =~= bytes@.subrange(from as int, i + 1));
        i += 1;
    }
    part
}

/// Whether every byte of `bytes` is zero.
pub fn is_all_zero(bytes: &Vec<u8>) -> (zero: bool)
    ensures
        zero == all_zero(bytes@),
{
    let mut i: usize = 0;
    while i < bytes.len()
        invariant
            i <= bytes.len(),
            forall|j: int| 0 <= j < i ==> bytes@[j] == 0,
        decreases bytes.len() - i,
    {
        if bytes[i] != 0 {
            return false;
        }
        i += 1;
    }
    true
}

/// Whether `word`, read big-endian, spells `amount`. A negative amount is
/// spelled by no word.
pub fn spells_amount(word: &Vec<u8>, amount: i128) -> (spells: bool)
    ensures
        spells == (be_value(word@) == amount),
{
    if amount < 0 {
        return false;
    }
    let limit: u128 = 0x7fff_ffff_ffff_ffff_ffff_ffff_ffff_ffff;
    let mut read: u128 = 0;
    let mut i: usize = 0;
    while i < word.len()
        invariant
            i <= word.len(),
            limit == i128::MAX,
            read <= limit,
            read == be_value(word@.take(i as int)),
        decreases word.len() - i,
    {
        let byte: u128 = word[i] as u128;
        proof {
            lemma_be_value_step(word@, i as int);
        }
        if read > (limit - byte) / 256 {
            proof {
                lemma_be_value_prefix(word@, i + 1);
            }
            return false;
        }
        read = read * 256 + byte;
        i += 1;
    }
    assert(word@.take(i as int) =~= word@);
    read == amount as u128
}

} // verus!
