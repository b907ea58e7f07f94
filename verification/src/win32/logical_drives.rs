//! Drive letters out of the bitmask of logical drives.

use bitvec::boxed::BitBox;
use bitvec::order::Lsb0;
use bitvec::view::BitView;
use vstd::prelude::*;

verus! {

/// Number of letters a drive can have: bit 0 is `A`, bit 25 is `Z`.
pub const LETTERS: usize = 26;

/// Whether bit `i` of `mask` is set, counting from the least significant.
pub open spec fn bit_set(mask: u32, i: int) -> bool {
    0 <= i < 32 && (mask >> (i as u32)) & 1u32 == 1u32
}

/// The letter of bit `i`.
pub open spec fn letter_of(i: int) -> char {
    (('A' as int) + i) as char
}

/// The letters of the bits of `mask` below `n` that are set, in ascending order.
pub open spec fn letters_below(mask: u32, n: int) -> Seq<char>
    decreases n,
{
    if n <= 0 {
        Seq::empty()
    } else if bit_set(mask, n - 1) {
        letters_below(mask, n - 1).push(letter_of(n - 1))
    } else {
        letters_below(mask, n - 1)
    }
}

/// The drive letters that `mask` assigns.
pub open spec fn drive_letters(mask: u32) -> Seq<char> {
    letters_below(mask, LETTERS as int)
}

/// The 32 bits of `mask` through `bitvec`: `view_bits::<Lsb0>` on the word,
/// boxed by `BitBox::from_bitslice` and walked in order. Position `i` of the
/// result holds bit `i` of the word, the least significant first.
#[verifier::external_body]
fn mask_bits(mask: u32) -> (bits: Vec<bool>)
    ensures
        bits@.len() == 32,
        forall|i: int| 0 <= i < 32 ==> bits@[i] == bit_set(mask, i),
{
    BitBox::from_bitslice(mask.view_bits::<Lsb0>()).into_iter().collect()
}

/// The assigned drive letters of a mask of logical drives, `A` first.
/// Bits above the 26th have no letter and are passed over.
pub fn get_logical_driveletters(mask: u32) -> (letters: Vec<char>)
    ensures
        letters@ == drive_letters(mask),
{
    let bits = mask_bits(mask);
    let mut letters: Vec<char> = Vec::new();
    let mut idx: usize = 0;
    while idx < LETTERS
        invariant
            idx <= LETTERS,
            bits@.len() == 32,
            forall|i: int| 0 <= i < 32 ==> bits@[i] == bit_set(mask, i),
            letters@ == letters_below(mask, idx as int),
        decreases LETTERS - idx,
    {
        if bits[idx] {
            let code: u8 = 65u8 + idx as u8;
            letters.push(code as char);
        }
        idx += 1;
    }
    letters
}

/// What `letters_below` holds, by induction on `n`: its members are the
/// letters of the set bits below `n`, each greater than the one before it.
proof fn lemma_letters_below(mask: u32, n: int)
    requires
        0 <= n <= LETTERS,
    ensures
        letters_below(mask, n).len() <= n,
        forall|k: int|
            0 <= k < letters_below(mask, n).len() ==> {
                let i = #[trigger] letters_below(mask, n)[k] as int - 'A' as int;
                0 <= i < n && bit_set(mask, i)
            },
        forall|i: int|
            0 <= i < n && bit_set(mask, i) ==> letters_below(mask, n).contains(
                #[trigger] letter_of(i),
            ),
        forall|j: int, k: int|
            0 <= j < k < letters_below(mask, n).len() ==> (letters_below(mask, n)[j] as int)
                < (letters_below(mask, n)[k] as int),
    decreases n,
{
    if n > 0 {
        lemma_letters_below(mask, n - 1);
        let before = letters_below(mask, n - 1);
        let now = letters_below(mask, n);
        if bit_set(mask, n - 1) {
            assert(now =~= before.push(letter_of(n - 1)));
            assert(now[before.len() as int] == letter_of(n - 1));
            assert forall|i: int| 0 <= i < n && bit_set(mask, i) implies now.contains(
                #[trigger] letter_of(i),
            ) by {
                if i < n - 1 {
                    let k = choose|k: int| 0 <= k < before.len() && before[k] == letter_of(i);
                    assert(now[k] == letter_of(i));
                } else {
                    assert(now[before.len() as int] == letter_of(i));
                }
            }
        } else {
            assert(now =~= before);
        }
    }
}

/// The letters of a mask are exactly those of its set bits 0 to 25, each
/// once and in ascending order; a bit from 26 on contributes nothing.
pub proof fn lemma_drive_letters_exact(mask: u32)
    ensures
        forall|c: char|
            drive_letters(mask).contains(c) <==> exists|i: int|
                0 <= i < LETTERS && bit_set(mask, i) && c == #[trigger] letter_of(i),
        forall|j: int, k: int|
            0 <= j < k < drive_letters(mask).len() ==> (drive_letters(mask)[j] as int) < (
            drive_letters(mask)[k] as int),
        drive_letters(mask) == drive_letters(mask & 0x03ff_ffffu32),
{
    let letters = drive_letters(mask);
    lemma_letters_below(mask, LETTERS as int);
    assert forall|c: char| letters.contains(c) implies exists|i: int|
        0 <= i < LETTERS && bit_set(mask, i) && c == #[trigger] letter_of(i) by {
        let k = choose|k: int| 0 <= k < letters.len() && letters[k] == c;
        let i = letters[k] as int - 'A' as int;
        assert(0 <= i < LETTERS && bit_set(mask, i));
        assert(c == letter_of(i));
    }
    lemma_letters_ignore_high_bits(mask, LETTERS as int);
}

/// Bits from 26 on play no part in `letters_below`.
proof fn lemma_letters_ignore_high_bits(mask: u32, n: int)
    requires
        0 <= n <= LETTERS,
    ensures
        letters_below(mask, n) == letters_below(mask & 0x03ff_ffffu32, n),
    decreases n,
{
    if n > 0 {
        lemma_letters_ignore_high_bits(mask, n - 1);
        let s = (n - 1) as u32;
        assert(((mask & 0x03ff_ffffu32) >> s) & 1u32 == (mask >> s) & 1u32) by (bit_vector)
            requires
                s < 26,
        ;
    }
}

} // verus!
