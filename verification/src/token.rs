//! The token stream of a program's output: the text between one pair of
//! square brackets, split on whitespace.

use vstd::prelude::*;
use vstd::std_specs::iter::IteratorSpec;
use vstd::string::StrSliceExecFns;

verus! {

broadcast use vstd::string::group_string_axioms;

/// Whether `c` separates tokens: the characters with the Unicode property
/// `White_Space`.
pub open spec fn is_whitespace(c: char) -> bool {
    ||| '\u{9}' <= c <= '\u{d}'
    ||| c == ' '
    ||| c == '\u{85}'
    ||| c == '\u{a0}'
    ||| c == '\u{1680}'
    ||| '\u{2000}' <= c <= '\u{200a}'
    ||| c == '\u{2028}'
    ||| c == '\u{2029}'
    ||| c == '\u{202f}'
    ||| c == '\u{205f}'
    ||| c == '\u{3000}'
}

/// The text without one leading `[` and, after that, without one trailing `]`.
pub open spec fn strip_brackets(s: Seq<char>) -> Seq<char> {
    let opened = if s.len() > 0 && s[0] == '[' {
        s.skip(1)
    } else {
        s
    };
    if opened.len() > 0 && opened.last() == ']' {
        opened.drop_last()
    } else {
        opened
    }
}

/// How many characters stand before the first whitespace of `s`.
pub open spec fn token_len(s: Seq<char>) -> nat
    decreases s.len(),
{
    if s.len() == 0 || is_whitespace(s[0]) {
        0
    } else {
        1 + token_len(s.skip(1))
    }
}

/// The maximal runs of characters of `s` that hold no whitespace, in order.
pub open spec fn split_whitespace(s: Seq<char>) -> Seq<Seq<char>>
    decreases s.len(),
{
    if s.len() == 0 {
        Seq::empty()
    } else if is_whitespace(s[0]) {
        split_whitespace(s.skip(1))
    } else {
        proof {
            lemma_token_len_bound(s);
        }
        let n = token_len(s) as int;
        seq![s.take(n)] + split_whitespace(s.skip(n))
    }
}

/// The token stream of a program's raw output.
pub open spec fn tokens_of(input: Seq<char>) -> Seq<Seq<char>> {
    split_whitespace(strip_brackets(input))
}

/// The text of each token of a sequence.
pub open spec fn token_views(tokens: Seq<&str>) -> Seq<Seq<char>> {
    tokens.map_values(|t: &str| t@)
}

/// The tokens from index `start` on; none where `start` is past the end.
pub open spec fn tokens_from(tokens: Seq<Seq<char>>, start: int) -> Seq<Seq<char>> {
    if 0 <= start <= tokens.len() {
        tokens.skip(start)
    } else {
        Seq::empty()
    }
}

/// A token is never longer than the text it starts.
pub proof fn lemma_token_len_bound(s: Seq<char>)
    ensures
        token_len(s) <= s.len(),
        s.len() > 0 && !is_whitespace(s[0]) ==> token_len(s) >= 1,
    decreases s.len(),
{
    if s.len() > 0 && !is_whitespace(s[0]) {
        lemma_token_len_bound(s.skip(1));
    }
}

/// A run of `n` characters without whitespace that ends at whitespace, or at
/// the end of the text, is the first token.
pub proof fn lemma_token_len_is(s: Seq<char>, n: int)
    requires
        0 <= n <= s.len(),
        forall|k: int| 0 <= k < n ==> !is_whitespace(#[trigger] s[k]),
        n == s.len() || is_whitespace(s[n]),
    ensures
        token_len(s) == n,
    decreases n,
{
    if n > 0 {
        let rest = s.skip(1);
        assert forall|k: int| 0 <= k < n - 1 implies !is_whitespace(#[trigger] rest[k]) by {
            assert(rest[k] == s[k + 1]);
        }
        lemma_token_len_is(rest, n - 1);
    }
}

/// Whether `t` can be a token: it is not empty and holds no whitespace.
pub open spec fn is_token(t: Seq<char>) -> bool {
    t.len() > 0 && forall|k: int| 0 <= k < t.len() ==> !is_whitespace(#[trigger] t[k])
}

/// No whitespace stands in the first token of a text.
pub proof fn lemma_token_holds_no_whitespace(s: Seq<char>)
    ensures
        forall|k: int| 0 <= k < token_len(s) ==> !is_whitespace(#[trigger] s[k]),
    decreases s.len(),
{
    if s.len() > 0 && !is_whitespace(s[0]) {
        let rest = s.skip(1);
        lemma_token_holds_no_whitespace(rest);
        lemma_token_len_bound(rest);
        assert forall|k: int| 0 <= k < token_len(s) implies !is_whitespace(#[trigger] s[k]) by {
            if k > 0 {
                assert(s[k] == rest[k - 1]);
            }
        }
    }
}

/// Every token of a text is a run of one or more characters that holds no
/// whitespace.
pub proof fn lemma_split_gives_tokens(s: Seq<char>)
    ensures
        forall|i: int|
            0 <= i < split_whitespace(s).len() ==> is_token(#[trigger] split_whitespace(s)[i]),
    decreases s.len(),
{
    if s.len() == 0 {
        assert(split_whitespace(s).len() == 0);
    } else if is_whitespace(s[0]) {
        lemma_split_gives_tokens(s.skip(1));
        assert(split_whitespace(s) == split_whitespace(s.skip(1)));
    } else {
        lemma_token_len_bound(s);
        lemma_token_holds_no_whitespace(s);
        let n = token_len(s) as int;
        let first = s.take(n);
        let others = split_whitespace(s.skip(n));
        lemma_split_gives_tokens(s.skip(n));
        assert(is_token(first));
        assert(split_whitespace(s) == seq![first] + others);
        assert forall|i: int| 0 <= i < split_whitespace(s).len() implies is_token(
            #[trigger] split_whitespace(s)[i],
        ) by {
            if i > 0 {
                assert(split_whitespace(s)[i] == others[i - 1]);
            }
        }
    }
}

/// Whether `c` separates tokens.
pub fn char_is_whitespace(c: char) -> (b: bool)
    ensures
        b == is_whitespace(c),
{
    ('\u{9}' <= c && c <= '\u{d}')
        || c == ' '
        || c == '\u{85}'
        || c == '\u{a0}'
        || c == '\u{1680}'
        || ('\u{2000}' <= c && c <= '\u{200a}')
        || c == '\u{2028}'
        || c == '\u{2029}'
        || c == '\u{202f}'
        || c == '\u{205f}'
        || c == '\u{3000}'
}

/// The characters of a string, in order.
pub fn chars_of(s: &str) -> (out: Vec<char>)
    ensures
        out@ == s@,
{
    let mut out: Vec<char> = Vec::new();
    for c in it: s.chars()
        invariant
            out@ == it.seq().take(it.index() as int),
            it.seq() == s@,
    {
        out.push(c);
    }
    out
}

/// Splits a program's raw output into its tokens.
pub fn tokenize<'a>(input: &'a str) -> (tokens: Vec<&'a str>)
    ensures
        token_views(tokens@) == tokens_of(input@),
{
    let chars: Vec<char> = chars_of(input);
    let mut lo: usize = 0;
    let mut hi: usize = chars.len();
    if lo < hi && chars[lo] == '[' {
        lo = 1;
    }
    if lo < hi && chars[hi - 1] == ']' {
        hi = hi - 1;
    }
    let ghost body = chars@.subrange(lo as int, hi as int);
    assert(body =~= strip_brackets(input@));
    let mut tokens: Vec<&'a str> = Vec::new();
    let mut i: usize = lo;
    assert(body.skip(0) =~= body);
    assert(token_views(tokens@) =~= Seq::<Seq<char>>::empty());
    while i < hi
        invariant
            lo <= i <= hi <= chars@.len(),
            chars@ == input@,
            body == chars@.subrange(lo as int, hi as int),
            split_whitespace(body) == token_views(tokens@) + split_whitespace(body.skip(i - lo)),
        decreases hi - i,
    {
        let ghost rest = body.skip(i - lo);
        if char_is_whitespace(chars[i]) {
            assert(rest.skip(1) =~= body.skip(i + 1 - lo));
            i = i + 1;
        } else {
            let start: usize = i;
            while i < hi && !char_is_whitespace(chars[i])
                invariant
                    lo <= start <= i <= hi <= chars@.len(),
                    forall|k: int| start <= k < i ==> !is_whitespace(#[trigger] chars@[k]),
                decreases hi - i,
            {
                i = i + 1;
            }
            let token: &'a str = input.substring_char(start, i);
            proof {
                let n = i - start;
                assert forall|k: int| 0 <= k < n implies !is_whitespace(#[trigger] rest[k]) by {
                    assert(rest[k] == chars@[start + k]);
                }
                lemma_token_len_is(rest, n);
                assert(rest.take(n) =~= token@);
                assert(rest.skip(n) =~= body.skip(i - lo));
                assert(token_views(tokens@.push(token)) =~= token_views(tokens@) + seq![token@]);
            }
            tokens.push(token);
        }
    }
    assert(split_whitespace(body.skip(hi - lo)) =~= Seq::<Seq<char>>::empty());
    tokens
}

} // verus!
