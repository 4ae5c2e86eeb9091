//! Cairo's byte arrays in a token stream: a count of full words, the words
//! and one pending word, then the length of the pending word.

use crate::decimal::{parse_unsigned, unsigned_value};
use crate::error::DecodeError;
use crate::token::{token_views, tokens_from};
use crate::word::{decode_word, word_text};
use vstd::prelude::*;
use vstd::string::{StrSliceExecFns, StringExecFns};

verus! {

/// Whether a token is the literal zero, which stands for an empty word.
pub open spec fn is_zero_token(token: Seq<char>) -> bool {
    token.len() == 1 && token[0] == '0'
}

/// What one word adds to the text: nothing for the literal zero, else the
/// text that the word spells.
pub open spec fn piece_text(token: Seq<char>) -> Option<Seq<char>> {
    if is_zero_token(token) {
        Some(Seq::empty())
    } else {
        word_text(token)
    }
}

/// The pieces of all the words, joined. `None` where one of the words has no
/// text.
pub open spec fn words_text(words: Seq<Seq<char>>) -> Option<Seq<char>>
    decreases words.len(),
{
    if words.len() == 0 {
        Some(Seq::empty())
    } else {
        match (words_text(words.drop_last()), piece_text(words.last())) {
            (Some(before), Some(piece)) => Some(before + piece),
            _ => None,
        }
    }
}

/// How many tokens the byte array at the front of `tokens` takes: the count
/// `n` of full words, `n + 1` words, and the pending word's length. `None`
/// where the count or the length is no number or tokens are missing.
pub open spec fn byte_array_len(tokens: Seq<Seq<char>>) -> Option<nat> {
    if tokens.len() == 0 {
        None
    } else {
        match unsigned_value(tokens[0], usize::MAX as nat) {
            None => None,
            Some(count) => if count + 3 <= tokens.len() && unsigned_value(
                tokens[count as int + 2],
                usize::MAX as nat,
            ) is Some {
                Some(count + 3)
            } else {
                None
            },
        }
    }
}

/// The words of the byte array at the front of `tokens`, which takes `len`
/// tokens.
pub open spec fn byte_array_words(tokens: Seq<Seq<char>>, len: nat) -> Seq<Seq<char>> {
    tokens.subrange(1, len as int - 1)
}

/// The text of the byte array at the front of `tokens`, and the number of
/// tokens that it takes.
pub open spec fn byte_array(tokens: Seq<Seq<char>>) -> Option<(Seq<char>, nat)> {
    match byte_array_len(tokens) {
        None => None,
        Some(len) => match words_text(byte_array_words(tokens, len)) {
            None => None,
            Some(text) => Some((text, len)),
        },
    }
}

/// Where the first `k` words have no text, all the words have none.
pub proof fn lemma_words_text_prefix(words: Seq<Seq<char>>, k: int)
    requires
        0 <= k <= words.len(),
        words_text(words.take(k)) is None,
    ensures
        words_text(words) is None,
    decreases words.len(),
{
    if k == words.len() {
        assert(words.take(k) =~= words);
    } else {
        assert(words.drop_last().take(k) =~= words.take(k));
        lemma_words_text_prefix(words.drop_last(), k);
    }
}

/// Words that are the literal zero add nothing to the text: the text of the
/// words is the text of those among them that are not the literal zero.
pub proof fn lemma_zero_words_vanish(words: Seq<Seq<char>>)
    ensures
        words_text(words) == words_text(words.filter(|t: Seq<char>| !is_zero_token(t))),
    decreases words.len(),
{
    let keep = |t: Seq<char>| !is_zero_token(t);
    reveal(Seq::filter);
    if words.len() > 0 {
        lemma_zero_words_vanish(words.drop_last());
        let before = words_text(words.drop_last());
        if is_zero_token(words.last()) {
            if before is Some {
                assert(before->0 + Seq::<char>::empty() =~= before->0);
            }
        } else {
            assert(words.filter(keep).drop_last() =~= words.drop_last().filter(keep));
        }
    }
}

/// The text of a byte array is decided by the tokens that it takes, whatever
/// follows them.
pub proof fn lemma_byte_array_is_local(tokens: Seq<Seq<char>>, other: Seq<Seq<char>>)
    requires
        byte_array_len(tokens) is Some,
        other.len() >= byte_array_len(tokens)->0,
        other.take(byte_array_len(tokens)->0 as int) == tokens.take(
            byte_array_len(tokens)->0 as int,
        ),
    ensures
        byte_array_len(other) == byte_array_len(tokens),
        byte_array(other) == byte_array(tokens),
{
    let len = byte_array_len(tokens)->0 as int;
    let shared = tokens.take(len);
    assert(tokens[0] == shared[0]);
    assert(other[0] == other.take(len)[0]);
    assert(tokens[len - 1] == shared[len - 1]);
    assert(other[len - 1] == other.take(len)[len - 1]);
    assert(byte_array_words(tokens, len as nat) =~= shared.subrange(1, len - 1));
    assert(byte_array_words(other, len as nat) =~= other.take(len).subrange(1, len - 1));
}

/// Whether a token is the literal zero.
pub fn token_is_zero(token: &str) -> (b: bool)
    ensures
        b == is_zero_token(token@),
{
    token.unicode_len() == 1 && token.get_char(0) == '0'
}

/// Decodes the byte array that starts at `tokens[start]`. Returns its text
/// and the index of the token just behind it.
pub fn decode_byte_array(tokens: &Vec<&str>, start: usize) -> (r: Result<
    (String, usize),
    DecodeError,
>)
    ensures
        match byte_array(tokens_from(token_views(tokens@), start as int)) {
            Some((text, len)) => r matches Ok((s, next)) && s@ == text && next == start + len,
            None => r matches Err(DecodeError::AddressDecodeError),
        },
{
    let ghost all = token_views(tokens@);
    let ghost rest = tokens_from(all, start as int);
    let total: usize = tokens.len();
    if start >= total {
        return Err(DecodeError::AddressDecodeError);
    }
    assert(rest[0] == tokens@[start as int]@);
    let count: usize = match parse_unsigned(tokens[start], usize::MAX as u64) {
        Some(count) => count as usize,
        None => return Err(DecodeError::AddressDecodeError),
    };
    if total - start < 3 || count > total - start - 3 {
        return Err(DecodeError::AddressDecodeError);
    }
    let last: usize = start + count + 2;
    assert(rest[count + 2] == tokens@[last as int]@);
    if parse_unsigned(tokens[last], usize::MAX as u64).is_none() {
        return Err(DecodeError::AddressDecodeError);
    }
    let ghost words = byte_array_words(rest, (count + 3) as nat);
    let mut text: String = String::new();
    let mut i: usize = start + 1;
    assert(words.take(0) =~= Seq::<Seq<char>>::empty());
    assert(words =~= all.subrange(start + 1, last as int));
    while i < last
        invariant
            start + 1 <= i <= last < tokens@.len(),
            last == start + count + 2,
            all == token_views(tokens@),
            rest == all.skip(start as int),
            byte_array_len(rest) == Some((count + 3) as nat),
            words == byte_array_words(rest, (count + 3) as nat),
            words_text(words.take(i - start - 1)) == Some(text@),
        decreases last - i,
    {
        let token: &str = tokens[i];
        let ghost k = i - start - 1;
        proof {
            assert(words[k] == token@);
            assert(words.take(k + 1).drop_last() =~= words.take(k));
            assert(words.take(k + 1).last() == token@);
        }
        if !token_is_zero(token) {
            match decode_word(token) {
                Ok(word) => {
                    text.append(word.as_str());
                },
                Err(e) => {
                    proof {
                        lemma_words_text_prefix(words, k + 1);
                    }
                    return Err(e);
                },
            }
        } else {
            assert(text@ + Seq::<char>::empty() =~= text@);
        }
        i = i + 1;
    }
    assert(words.take(count + 1) =~= words);
    Ok((text, last + 1))
}

} // verus!
