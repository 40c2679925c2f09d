use vstd::prelude::*;

use crate::errors::FuzzError;
use crate::rng::random_index;

verus! {

/// ASCII uppercasing of one byte: lowercase letters move to their uppercase
/// counterpart, every other byte stays as it is.
pub open spec fn upper_byte(b: u8) -> u8 {
    if 97 <= b <= 122 {
        (b - 32) as u8
    } else {
        b
    }
}

/// ASCII uppercasing of a byte sequence.
pub open spec fn upper_seq(s: Seq<u8>) -> Seq<u8> {
    s.map_values(|b: u8| upper_byte(b))
}

/// Uppercasing never introduces a carriage return: the uppercased sequence
/// holds 0x0D exactly where its input does.
pub proof fn lemma_upper_keeps_bytes(s: Seq<u8>)
    ensures
        upper_seq(s).len() == s.len(),
        forall|k: int| 0 <= k < s.len() ==> upper_seq(s)[k] == upper_byte(s[k]),
        forall|k: int| 0 <= k < s.len() && s[k] != 13u8 ==> upper_seq(s)[k] != 13u8,
{
}

/// Uppercase a word's bytes.
pub fn to_upper(word: &Vec<u8>) -> (r: Vec<u8>)
    ensures
        r@ == upper_seq(word@),
{
    let mut out: Vec<u8> = Vec::new();
    let mut i: usize = 0;
    while i < word.len()
        invariant
            i <= word@.len(),
            out@ == upper_seq(word@.take(i as int)),
        decreases word@.len() - i,
    {
        let b = word[i];
        if 97 <= b && b <= 122 {
            out.push(b - 32);
        } else {
            out.push(b);
        }
        proof {
            assert(out@ =~= upper_seq(word@.take(i as int + 1)));
        }
        i += 1;
    }
    proof {
        assert(word@.take(word@.len() as int) =~= word@);
    }
    out
}

/// Pick one line of the word list with uniform probability, single-pass and
/// with constant extra memory (reservoir sampling: the line at position `i`
/// replaces the running choice with probability 1/(i+1)), then uppercase its
/// ASCII bytes. Fails with `EmptyResource` exactly when the list holds no
/// lines.
pub fn pick_random_word(words: &Vec<Vec<u8>>) -> (r: Result<Vec<u8>, FuzzError>)
    ensures
        r is Ok <==> words@.len() > 0,
        r matches Err(e) ==> e == FuzzError::EmptyResource,
        r matches Ok(w) ==> exists|j: int|
            0 <= j < words@.len() && w@ == upper_seq(#[trigger] words@[j]@),
{
    let n = words.len();
    if n == 0 {
        return Err(FuzzError::EmptyResource);
    }
    let mut chosen: usize = 0;
    let mut i: usize = 1;
    while i < n
        invariant
            1 <= i <= n,
            chosen < n,
            n == words@.len(),
        decreases n - i,
    {
        if random_index(i + 1) == 0 {
            chosen = i;
        }
        i += 1;
    }
    let picked = to_upper(&words[chosen]);
    proof {
        assert(picked@ == upper_seq(words@[chosen as int]@));
    }
    Ok(picked)
}

} // verus!
