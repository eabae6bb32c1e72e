//! The bag of words that a text is embedded as. Texts that share words share
//! positions, so that their vectors are close.

use crate::outside;
use crate::text;
use vstd::prelude::*;

verus! {

/// Width of the embeddings that the server returns on the endpoint that all
/// providers but Ollama use. The schema of the vector store has the same one.
pub const EMBED_DIM: usize = 1536;

/// Width of the embeddings that the server returns on Ollama's endpoint.
/// Ollama's provider derives the width from the model's name, and falls back to
/// this one.
pub const OLLAMA_EMBED_DIM: usize = 768;

/// A word without what is neither a letter nor a number, in lower case.
pub open spec fn normalized(word: Seq<char>) -> Seq<char>
    decreases word.len(),
{
    if word.len() == 0 {
        Seq::empty()
    } else {
        let rest = normalized(word.drop_last());
        if outside::alphanumeric(word.last()) {
            rest + outside::lowercase_char(word.last())
        } else {
            rest
        }
    }
}

fn normalize(word: &str) -> (kept: String)
    ensures
        kept@ == normalized(word@),
{
    let chars = text::chars_of(word);
    let mut kept = String::new();
    let mut at: usize = 0;
    assert(word@.take(0) =~= Seq::empty());
    while at < chars.len()
        invariant
            at <= chars.len(),
            chars@ == word@,
            kept@ == normalized(word@.take(at as int)),
        decreases chars.len() - at,
    {
        assert(word@.take(at + 1).drop_last() =~= word@.take(at as int));
        assert(word@.take(at + 1).last() == chars@[at as int]);
        let ch: char = chars[at];
        if outside::is_alphanumeric(ch) {
            let lowered = outside::char_to_lowercase(ch);
            kept.append(lowered.as_str());
        }
        at = at + 1;
    }
    assert(word@.take(at as int) =~= word@);
    kept
}

/// The words that count, of some words: those with a letter or a number.
pub open spec fn counted(words: Seq<Seq<char>>) -> Seq<Seq<char>>
    decreases words.len(),
{
    if words.len() == 0 {
        Seq::empty()
    } else {
        let word = normalized(words.last());
        let rest = counted(words.drop_last());
        if word.len() == 0 {
            rest
        } else {
            rest.push(word)
        }
    }
}

/// The words of a text that count for its embedding, in order.
pub fn embedding_words(sample: &str) -> (kept: Vec<String>)
    ensures
        text::texts(kept@) == counted(text::words(sample@)),
{
    let words = text::split_words(sample);
    let ghost all = text::texts(words@);
    let mut kept: Vec<String> = Vec::new();
    let mut at: usize = 0;
    proof {
        assert(all.take(0) =~= Seq::empty());
        assert(text::texts(kept@) =~= Seq::empty());
    }
    while at < words.len()
        invariant
            at <= words.len(),
            all == text::texts(words@),
            text::texts(kept@) == counted(all.take(at as int)),
        decreases words.len() - at,
    {
        let ghost before = kept@;
        proof {
            assert(all.take(at + 1).drop_last() =~= all.take(at as int));
            assert(all.take(at + 1).last() == words@[at as int]@);
        }
        let word = normalize(words[at].as_str());
        if !word.as_str().is_empty() {
            kept.push(word);
            assert(text::texts(kept@) =~= text::texts(before).push(word@));
        }
        at = at + 1;
    }
    assert(all.take(at as int) =~= all);
    kept
}

/// The position that a word's hash falls on, of `dim` ones.
pub open spec fn position(hash: u64, dim: usize) -> int {
    (hash as usize) as int % dim as int
}

/// How many of some hashes fall on a position.
pub open spec fn hits(hashes: Seq<u64>, dim: usize, at: int) -> nat
    decreases hashes.len(),
{
    if hashes.len() == 0 {
        0
    } else {
        hits(hashes.drop_last(), dim, at) + if position(hashes.last(), dim) == at {
            1nat
        } else {
            0nat
        }
    }
}

proof fn lemma_hits_bounded(hashes: Seq<u64>, dim: usize, at: int)
    ensures
        hits(hashes, dim, at) <= hashes.len(),
    decreases hashes.len(),
{
    if hashes.len() > 0 {
        lemma_hits_bounded(hashes.drop_last(), dim, at);
    }
}

/// Counts the words of a text by position. A text without words counts once
/// at the first position, so that no vector is empty.
pub fn word_counts(hashes: &Vec<u64>, dim: usize) -> (counts: Vec<usize>)
    requires
        dim > 0,
    ensures
        counts@.len() == dim,
        hashes@.len() > 0 ==> forall|at: int|
            0 <= at < dim ==> #[trigger] counts@[at] == hits(hashes@, dim, at),
        hashes@.len() == 0 ==> forall|at: int|
            0 <= at < dim ==> #[trigger] counts@[at] == (if at == 0 {
                1int
            } else {
                0
            }),
{
    let mut counts: Vec<usize> = Vec::new();
    while counts.len() < dim
        invariant
            counts@.len() <= dim,
            forall|at: int| 0 <= at < counts@.len() ==> #[trigger] counts@[at] == 0,
        decreases dim - counts.len(),
    {
        counts.push(0);
    }
    if hashes.len() == 0 {
        counts.set(0, 1);
        return counts;
    }
    let mut n: usize = 0;
    assert(hashes@.take(0) =~= Seq::empty());
    while n < hashes.len()
        invariant
            n <= hashes.len(),
            dim > 0,
            counts@.len() == dim,
            forall|at: int|
                0 <= at < dim ==> #[trigger] counts@[at] == hits(hashes@.take(n as int), dim, at),
        decreases hashes.len() - n,
    {
        let slot: usize = (hashes[n] as usize) % dim;
        let ghost before = counts@;
        proof {
            let longer = hashes@.take(n + 1);
            assert(longer.drop_last() =~= hashes@.take(n as int));
            assert(longer.last() == hashes@[n as int]);
            lemma_hits_bounded(hashes@.take(n as int), dim, slot as int);
            assert(before[slot as int] <= n);
        }
        let count: usize = counts[slot];
        counts.set(slot, count + 1);
        proof {
            let longer = hashes@.take(n + 1);
            assert forall|at: int| 0 <= at < dim implies #[trigger] counts@[at] == hits(
                longer,
                dim,
                at,
            ) by {
                assert(before[at] == hits(hashes@.take(n as int), dim, at));
            }
        }
        n = n + 1;
    }
    assert(hashes@.take(n as int) =~= hashes@);
    counts
}

/// Words count for themselves: those of two texts together count what they
/// count apart, in whatever order the texts stand.
pub proof fn lemma_words_count_for_themselves(first: Seq<u64>, second: Seq<u64>, dim: usize, at: int)
    ensures
        hits(first + second, dim, at) == hits(first, dim, at) + hits(second, dim, at),
    decreases second.len(),
{
    if second.len() == 0 {
        assert(first + second =~= first);
    } else {
        lemma_words_count_for_themselves(first, second.drop_last(), dim, at);
        assert((first + second).drop_last() =~= first + second.drop_last());
    }
}

/// A word keeps its letters and numbers, in order and in lower case, and loses
/// the rest.
pub proof fn lemma_letters_are_kept_in_order(before: Seq<char>, ch: char, after: Seq<char>)
    ensures
        normalized(before + seq![ch] + after) == normalized(before) + (if outside::alphanumeric(
            ch,
        ) {
            outside::lowercase_char(ch)
        } else {
            Seq::empty()
        }) + normalized(after),
        normalized(Seq::empty()).len() == 0,
    decreases after.len(),
{
    let whole = before + seq![ch] + after;
    if after.len() == 0 {
        assert(whole.drop_last() =~= before);
        assert(normalized(whole) =~= normalized(before) + (if outside::alphanumeric(ch) {
            outside::lowercase_char(ch)
        } else {
            Seq::empty()
        }) + normalized(after));
    } else {
        lemma_letters_are_kept_in_order(before, ch, after.drop_last());
        assert(whole.drop_last() =~= before + seq![ch] + after.drop_last());
        assert(whole.last() == after.last());
        assert(normalized(whole) =~= normalized(before) + (if outside::alphanumeric(ch) {
            outside::lowercase_char(ch)
        } else {
            Seq::empty()
        }) + normalized(after));
    }
}

/// A word counts where a letter or a number is left of it, as what is left;
/// words keep their order.
pub proof fn lemma_words_are_kept_in_order(
    before: Seq<Seq<char>>,
    word: Seq<char>,
    after: Seq<Seq<char>>,
)
    ensures
        counted(before + seq![word] + after) == counted(before) + (if normalized(word).len() > 0 {
            seq![normalized(word)]
        } else {
            Seq::empty()
        }) + counted(after),
        counted(Seq::empty()).len() == 0,
    decreases after.len(),
{
    let whole = before + seq![word] + after;
    let kept = if normalized(word).len() > 0 {
        seq![normalized(word)]
    } else {
        Seq::empty()
    };
    if after.len() == 0 {
        assert(whole.drop_last() =~= before);
        assert(whole.last() == word);
        assert(counted(whole) =~= counted(before) + kept + counted(after));
    } else {
        lemma_words_are_kept_in_order(before, word, after.drop_last());
        assert(whole.drop_last() =~= before + seq![word] + after.drop_last());
        assert(whole.last() == after.last());
        assert(counted(whole) =~= counted(before) + kept + counted(after));
    }
}

/// A word counts once, at the position that its hash falls on, and nowhere
/// else.
pub proof fn lemma_a_word_counts_once(hash: u64, dim: usize, at: int)
    ensures
        hits(seq![hash], dim, at) == (if (hash as usize) as int % dim as int == at {
            1nat
        } else {
            0nat
        }),
        hits(Seq::empty(), dim, at) == 0,
{
    assert(seq![hash].drop_last() =~= Seq::empty());
    assert(hits(Seq::empty(), dim, at) == 0);
}


} // verus!
