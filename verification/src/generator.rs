use vstd::prelude::*;

use crate::dictionary::{pick_random_word, upper_seq};
use crate::errors::FuzzError;
use crate::rng::{coin_flip, random_index, random_payload_byte};

verus! {

/// Every generated command is exactly this long.
pub const COMMAND_LENGTH: usize = 1000;

/// There are eight fixed splitter tokens, including the empty one.
pub const SPLITTER_COUNT: usize = 8;

/// The fixed splitter set: `{"", "+", "%", "!", "$", "#", "^", "*"}`,
/// indexed 0 through 7.
pub open spec fn splitter_spec(i: int) -> Seq<u8> {
    if i == 0 {
        Seq::empty()
    } else if i == 1 {
        seq![43u8]
    } else if i == 2 {
        seq![37u8]
    } else if i == 3 {
        seq![33u8]
    } else if i == 4 {
        seq![36u8]
    } else if i == 5 {
        seq![35u8]
    } else if i == 6 {
        seq![94u8]
    } else {
        seq![42u8]
    }
}

/// No byte of the sequence is the carriage-return terminator.
pub open spec fn no_carriage_return(s: Seq<u8>) -> bool {
    forall|k: int| 0 <= k < s.len() ==> s[k] != 13u8
}

/// The deterministic stem of a command: the literal `AT`, one splitter, and
/// the optional dictionary word. Random padding follows the stem.
pub open spec fn command_stem(i: int, word: Option<Seq<u8>>) -> Seq<u8> {
    seq![65u8, 84u8] + splitter_spec(i) + match word {
        Some(w) => w,
        None => Seq::empty(),
    }
}

/// The part of the stem that survives truncation to the command length.
pub open spec fn stem_kept(stem: Seq<u8>) -> Seq<u8> {
    if stem.len() <= COMMAND_LENGTH {
        stem
    } else {
        stem.take(COMMAND_LENGTH as int)
    }
}

/// What it means for `s` to be a command built from splitter `i` and the
/// optional word `word`: exactly 1000 bytes, no carriage return anywhere,
/// and the (possibly truncated) stem as its prefix.
pub open spec fn is_command_with(s: Seq<u8>, i: int, word: Option<Seq<u8>>) -> bool {
    &&& s.len() == COMMAND_LENGTH
    &&& no_carriage_return(s)
    &&& s.take(stem_kept(command_stem(i, word)).len() as int) == stem_kept(command_stem(i, word))
}

/// One witnessed way the generator can have produced `s`: splitter `i`, and
/// either no word (`j < 0`) or the uppercasing of the list entry at `j`.
pub open spec fn generated_with(s: Seq<u8>, words: Seq<Vec<u8>>, i: int, j: int) -> bool {
    &&& 0 <= i < 8
    &&& if j < 0 {
        is_command_with(s, i, None)
    } else {
        0 <= j < words.len() && is_command_with(s, i, Some(upper_seq(words[j]@)))
    }
}

/// What it means for `s` to be a command the generator can produce over the
/// word list `words`: built from one of the eight splitters, with either no
/// word or the uppercasing of some list entry.
pub open spec fn is_generated_command(s: Seq<u8>, words: Seq<Vec<u8>>) -> bool {
    exists|i: int, j: int| generated_with(s, words, i, j)
}

/// Append one splitter token to the command being built.
fn push_splitter(cmd: &mut Vec<u8>, splitter_index: usize)
    requires
        splitter_index < 8,
    ensures
        final(cmd)@ == old(cmd)@ + splitter_spec(splitter_index as int),
{
    if splitter_index == 1 {
        cmd.push(43);
    } else if splitter_index == 2 {
        cmd.push(37);
    } else if splitter_index == 3 {
        cmd.push(33);
    } else if splitter_index == 4 {
        cmd.push(36);
    } else if splitter_index == 5 {
        cmd.push(35);
    } else if splitter_index == 6 {
        cmd.push(94);
    } else if splitter_index == 7 {
        cmd.push(42);
    }
    proof {
        assert(cmd@ =~= old(cmd)@ + splitter_spec(splitter_index as int));
    }
}

/// Build one command from the given splitter index and optional word: start
/// with `AT`, append the splitter and the word, truncate to 1000 bytes, then
/// pad with rejection-sampled random bytes (never 0x0D) up to exactly 1000.
pub fn build_command(splitter_index: usize, word: Option<&Vec<u8>>) -> (r: Vec<u8>)
    requires
        splitter_index < 8,
        word matches Some(w) ==> no_carriage_return(w@),
    ensures
        word matches Some(w) ==> is_command_with(r@, splitter_index as int, Some(w@)),
        word is None ==> is_command_with(r@, splitter_index as int, None),
        r@.len() == COMMAND_LENGTH,
        no_carriage_return(r@),
        r@[0] == 65u8,
        r@[1] == 84u8,
{
    let ghost word_view: Option<Seq<u8>> = match word {
        Some(w) => Some(w@),
        None => None,
    };
    let ghost stem = command_stem(splitter_index as int, word_view);
    let mut cmd: Vec<u8> = Vec::new();
    cmd.push(65);
    cmd.push(84);
    push_splitter(&mut cmd, splitter_index);
    proof {
        assert(cmd@ =~= seq![65u8, 84u8] + splitter_spec(splitter_index as int));
    }
    match word {
        Some(w) => {
            let mut k: usize = 0;
            while k < w.len()
                invariant
                    k <= w@.len(),
                    no_carriage_return(w@),
                    cmd@ == (seq![65u8, 84u8] + splitter_spec(splitter_index as int)) + w@.take(
                        k as int,
                    ),
                decreases w@.len() - k,
            {
                cmd.push(w[k]);
                proof {
                    assert(cmd@ =~= (seq![65u8, 84u8] + splitter_spec(splitter_index as int))
                        + w@.take(k as int + 1));
                }
                k += 1;
            }
            proof {
                assert(w@.take(w@.len() as int) =~= w@);
                assert(cmd@ =~= stem);
            }
        },
        None => {
            proof {
                assert(cmd@ =~= stem);
            }
        },
    }
    cmd.truncate(COMMAND_LENGTH);
    proof {
        assert(cmd@ =~= stem_kept(stem));
        assert(no_carriage_return(stem)) by {
            assert(forall|k: int|
                0 <= k < splitter_spec(splitter_index as int).len() ==> splitter_spec(
                    splitter_index as int,
                )[k] != 13u8);
        }
        assert(no_carriage_return(cmd@));
    }
    let ghost kept = stem_kept(stem);
    while cmd.len() < COMMAND_LENGTH
        invariant
            kept.len() <= cmd@.len() <= COMMAND_LENGTH,
            cmd@.take(kept.len() as int) == kept,
            no_carriage_return(cmd@),
        decreases COMMAND_LENGTH - cmd@.len(),
    {
        let b = random_payload_byte();
        cmd.push(b);
        proof {
            assert(cmd@.take(kept.len() as int) =~= kept);
        }
    }
    proof {
        assert(cmd@[0] == kept[0]);
        assert(cmd@[1] == kept[1]);
    }
    cmd
}

/// Generate one fuzz payload: choose one of the eight splitters uniformly,
/// flip a fair coin for whether to include a dictionary word, and finish the
/// command with random padding. Succeeds whenever the word list is non-empty;
/// with an empty list it fails with `EmptyResource` exactly when the coin
/// asked for a word.
pub fn make_random_at_command(words: &Vec<Vec<u8>>) -> (r: Result<Vec<u8>, FuzzError>)
    requires
        forall|j: int| 0 <= j < words@.len() ==> no_carriage_return(#[trigger] words@[j]@),
    ensures
        words@.len() > 0 ==> r is Ok,
        r matches Err(e) ==> e == FuzzError::EmptyResource && words@.len() == 0,
        r matches Ok(c) ==> is_generated_command(c@, words@) && c@.len() == COMMAND_LENGTH
            && no_carriage_return(c@) && c@[0] == 65u8 && c@[1] == 84u8,
{
    let splitter_index = random_index(SPLITTER_COUNT);
    if coin_flip() {
        match pick_random_word(words) {
            Ok(w) => {
                proof {
                    let j = choose|j: int|
                        0 <= j < words@.len() && w@ == upper_seq(#[trigger] words@[j]@);
                    crate::dictionary::lemma_upper_keeps_bytes(words@[j]@);
                    assert(no_carriage_return(w@));
                }
                let c = build_command(splitter_index, Some(&w));
                proof {
                    let j = choose|j: int|
                        0 <= j < words@.len() && w@ == upper_seq(#[trigger] words@[j]@);
                    assert(generated_with(c@, words@, splitter_index as int, j));
                    assert(is_generated_command(c@, words@));
                }
                Ok(c)
            },
            Err(e) => Err(e),
        }
    } else {
        let c = build_command(splitter_index, None);
        proof {
            assert(generated_with(c@, words@, splitter_index as int, -1));
            assert(is_generated_command(c@, words@));
        }
        Ok(c)
    }
}

} // verus!
