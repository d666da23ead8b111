//! The tokenizer: markup text to a sequence of text and tag tokens.

use crate::text::string_from_chars;
use vstd::prelude::*;

verus! {

/// A lexical unit of markup.
#[derive(Debug, Clone, PartialEq, Eq)]
pub enum Token {
    /// Character data between two tags.
    Text(String),
    /// What stood between `<` and `>`, without the brackets.
    Tag(String),
}

/// A token as plain values.
pub enum TokenModel {
    Text(Seq<char>),
    Tag(Seq<char>),
}

impl View for Token {
    type V = TokenModel;

    open spec fn view(&self) -> TokenModel {
        match self {
            Token::Text(t) => TokenModel::Text(t@),
            Token::Tag(t) => TokenModel::Tag(t@),
        }
    }
}

/// The views of a sequence of tokens.
pub open spec fn token_models(tokens: Seq<Token>) -> Seq<TokenModel> {
    tokens.map_values(|t: Token| t@)
}

/// Whether `c` is one of the two angle brackets.
pub open spec fn is_bracket(c: char) -> bool {
    c == '<' || c == '>'
}

/// Length of the longest prefix of `s` that holds no bracket.
pub open spec fn bracket_free_prefix(s: Seq<char>) -> nat
    decreases s.len(),
{
    if s.len() > 0 && !is_bracket(s[0]) {
        1 + bracket_free_prefix(s.skip(1))
    } else {
        0
    }
}

/// The tokens of `s`.
///
/// The brackets cut `s` into pieces. A piece that ends at `>` is a tag,
/// whatever it holds. A piece that ends at `<` is text, and is dropped when
/// empty. What follows the last bracket belongs to no token.
pub open spec fn tokens_of(s: Seq<char>) -> Seq<TokenModel>
    decreases s.len(),
{
    let n = bracket_free_prefix(s);
    if n >= s.len() {
        Seq::empty()
    } else {
        let piece = s.take(n as int);
        let rest = tokens_of(s.skip(n as int + 1));
        if s[n as int] == '>' {
            seq![TokenModel::Tag(piece)] + rest
        } else if n > 0 {
            seq![TokenModel::Text(piece)] + rest
        } else {
            rest
        }
    }
}

/// A run of `n` bracket-free characters that ends the sequence or is
/// followed by a bracket is the bracket-free prefix.
pub proof fn lemma_bracket_free_prefix(s: Seq<char>, n: nat)
    requires
        n <= s.len(),
        forall|k: int| 0 <= k < n ==> !is_bracket(#[trigger] s[k]),
        n == s.len() || is_bracket(s[n as int]),
    ensures
        bracket_free_prefix(s) == n,
    decreases n,
{
    if n > 0 {
        let t = s.skip(1);
        assert forall|k: int| 0 <= k < n - 1 implies !is_bracket(#[trigger] t[k]) by {
            assert(t[k] == s[k + 1]);
        }
        lemma_bracket_free_prefix(t, (n - 1) as nat);
    }
}

/// The bracket-free prefix lies inside the sequence, holds no bracket, and
/// ends the sequence or is followed by a bracket.
pub proof fn lemma_bracket_free_prefix_ends(s: Seq<char>)
    ensures
        bracket_free_prefix(s) <= s.len(),
        forall|k: int| 0 <= k < bracket_free_prefix(s) ==> !is_bracket(#[trigger] s[k]),
        bracket_free_prefix(s) == s.len() || is_bracket(s[bracket_free_prefix(s) as int]),
    decreases s.len(),
{
    if s.len() > 0 && !is_bracket(s[0]) {
        let t = s.skip(1);
        lemma_bracket_free_prefix_ends(t);
        assert forall|k: int| 0 <= k < bracket_free_prefix(s) implies !is_bracket(
            #[trigger] s[k],
        ) by {
            if k > 0 {
                assert(s[k] == t[k - 1]);
            }
        }
    }
}

/// Splits markup into tokens. Never fails: every string has tokens.
pub fn lex(source: &str) -> (tokens: Vec<Token>)
    ensures
        token_models(tokens@) == tokens_of(source@),
{
    let mut tokens: Vec<Token> = Vec::new();
    let mut text: Vec<char> = Vec::new();
    let ghost mut start: int = 0;
    assert(source@.skip(0) == source@);
    for c in it: source.chars()
        invariant
            it.seq() == source@,
            0 <= start <= it.index(),
            text@ == source@.subrange(start, it.index() as int),
            forall|k: int| start <= k < it.index() ==> !is_bracket(#[trigger] source@[k]),
            tokens_of(source@) == token_models(tokens@) + tokens_of(source@.skip(start)),
    {
        let ghost i = it.index() as int;
        let ghost tail = source@.skip(start);
        let ghost before = tokens@;
        if c == '<' || c == '>' {
            proof {
                assert forall|k: int| 0 <= k < i - start implies !is_bracket(
                    #[trigger] tail[k],
                ) by {
                    assert(tail[k] == source@[start + k]);
                }
                lemma_bracket_free_prefix(tail, (i - start) as nat);
                assert(tail.take(i - start) == text@);
                assert(tail.skip(i - start + 1) == source@.skip(i + 1));
            }
            if c == '>' {
                tokens.push(Token::Tag(string_from_chars(&text)));
                assert(token_models(tokens@) == token_models(before) + seq![
                    TokenModel::Tag(text@),
                ]);
            } else if text.len() > 0 {
                tokens.push(Token::Text(string_from_chars(&text)));
                assert(token_models(tokens@) == token_models(before) + seq![
                    TokenModel::Text(text@),
                ]);
            }
            text = Vec::new();
            proof {
                start = i + 1;
            }
        } else {
            text.push(c);
            assert(text@ == source@.subrange(start, i + 1));
        }
    }
    proof {
        let tail = source@.skip(start);
        assert forall|k: int| 0 <= k < tail.len() implies !is_bracket(#[trigger] tail[k]) by {
            assert(tail[k] == source@[start + k]);
        }
        lemma_bracket_free_prefix(tail, tail.len());
    }
    tokens
}

/// The markup that a token stands for: text as it is, a tag between its
/// brackets.
pub open spec fn token_markup(t: TokenModel) -> Seq<char> {
    match t {
        TokenModel::Text(body) => body,
        TokenModel::Tag(body) => seq!['<'] + body + seq!['>'],
    }
}

/// The markup of all tokens, one after the other.
pub open spec fn markup_of(tokens: Seq<TokenModel>) -> Seq<char>
    decreases tokens.len(),
{
    if tokens.len() == 0 {
        Seq::empty()
    } else {
        token_markup(tokens[0]) + markup_of(tokens.skip(1))
    }
}

/// Whether the brackets of `s` are balanced: every `<` is followed by a `>`
/// before the next `<`, and no `>` stands without a `<` before it.
pub open spec fn balanced(s: Seq<char>) -> bool
    decreases s.len(),
{
    let n = bracket_free_prefix(s);
    if n >= s.len() {
        true
    } else if s[n as int] == '>' {
        false
    } else {
        let t = s.skip(n as int + 1);
        let m = bracket_free_prefix(t);
        m < t.len() && t[m as int] == '>' && balanced(t.skip(m as int + 1))
    }
}

/// Whether nothing follows the last tag of `s`.
pub open spec fn ends_with_tag(s: Seq<char>) -> bool {
    s.len() == 0 || s.last() == '>'
}

/// Putting the tokens of balanced markup back between their brackets gives
/// the markup again, provided that it ends with a tag: text after the last
/// tag belongs to no token.
pub proof fn lemma_tokens_reconstruct(s: Seq<char>)
    requires
        balanced(s),
        ends_with_tag(s),
    ensures
        markup_of(tokens_of(s)) == s,
    decreases s.len(),
{
    let n = bracket_free_prefix(s);
    lemma_bracket_free_prefix_ends(s);
    if n >= s.len() {
        if s.len() > 0 {
            assert(!is_bracket(s[s.len() - 1]));
        }
    } else {
        let t = s.skip(n as int + 1);
        let m = bracket_free_prefix(t);
        lemma_bracket_free_prefix_ends(t);
        let u = t.skip(m as int + 1);
        assert(ends_with_tag(u)) by {
            if u.len() > 0 {
                assert(u.last() == s.last());
            }
        }
        lemma_tokens_reconstruct(u);
        let text = s.take(n as int);
        let tag = t.take(m as int);
        let open = TokenModel::Tag(tag);
        assert(tokens_of(t) == seq![open] + tokens_of(u));
        let inner = tokens_of(t);
        assert(inner[0] == open);
        assert(inner.skip(1) == tokens_of(u));
        if n > 0 {
            let all = tokens_of(s);
            assert(all == seq![TokenModel::Text(text)] + inner);
            assert(all.skip(1) == inner);
            assert(markup_of(all) == text + markup_of(inner));
        } else {
            assert(tokens_of(s) == inner);
        }
    }
}

} // verus!
