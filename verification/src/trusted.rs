//! Calls into other code whose results are taken on trust.
use std::sync::Arc;
use vstd::prelude::*;

verus! {

/// Calls `Arc::<[T]>::from` on a `Vec<T>`, which moves the elements of the
/// vector into a reference-counted slice. Trusted: the slice holds the same
/// elements in the same order.
#[verifier::external_body]
pub(crate) fn share<T>(items: Vec<T>) -> (shared: Arc<[T]>)
    ensures
        (*shared)@ == items@,
{
    Arc::<[T]>::from(items)
}

/// Byte `k` of a run of words whose bytes are laid out from the lowest to the
/// highest.
pub open spec fn low_byte_first(words: Seq<u32>, k: int) -> u8 {
    let word = words[k / 4] as int;
    let place = k % 4;
    (if place == 0 {
        word % 0x100
    } else if place == 1 {
        word / 0x100 % 0x100
    } else if place == 2 {
        word / 0x1_0000 % 0x100
    } else {
        word / 0x100_0000
    }) as u8
}

/// Byte `k` of a run of words whose bytes are laid out from the highest to
/// the lowest.
pub open spec fn high_byte_first(words: Seq<u32>, k: int) -> u8 {
    low_byte_first(words, k - k % 4 + (3 - k % 4))
}

/// Whether `bytes` is what memory holds of `words`: in one of the two byte
/// orders, the same one throughout.
pub open spec fn memory_image(words: Seq<u32>, bytes: Seq<u8>) -> bool {
    &&& bytes.len() == 4 * words.len()
    &&& {
        ||| forall|k: int|
            0 <= k < bytes.len() ==> #[trigger] bytes[k] == low_byte_first(words, k)
        ||| forall|k: int|
            0 <= k < bytes.len() ==> #[trigger] bytes[k] == high_byte_first(words, k)
    }
}

/// Calls `bytemuck::cast_slice`, which views a slice of words as the bytes
/// that memory holds of them. Trusted: there are four bytes per word, in the
/// byte order of the machine. Which of the two orders that is depends on the
/// machine and is left open.
#[verifier::external_body]
pub(crate) fn bytes_of_words(words: &[u32]) -> (bytes: Vec<u8>)
    ensures
        memory_image(words@, bytes@),
{
    bytemuck::cast_slice::<u32, u8>(words).to_vec()
}

} // verus!
