//! Splitting an input line into tokens.
//!
//! A token ends at a space that stands outside double quotes and outside
//! braces and is not escaped by a backslash. The tokenizer is a small state
//! machine over the characters of the line; `tokenizer_step` is its
//! transition function and `parse_input_spec` the tokens it yields.

use vstd::prelude::*;
use crate::text::lemma_encoding_not_shorter;
use vstd::std_specs::iter::IteratorSpec;

verus! {

/// The state of the tokenizer between two characters.
pub struct Tokenizer {
    /// The tokens that are complete.
    pub tokens: Seq<Seq<char>>,
    /// The token that is being read.
    pub current: Seq<char>,
    /// Whether an odd number of unescaped double quotes has been read.
    pub in_quotes: bool,
    /// Opening braces minus closing braces, counted outside quotes.
    pub depth: int,
    /// Whether the last character was a backslash that escapes the next one.
    pub escaped: bool,
}

/// The tokenizer before the first character.
pub open spec fn tokenizer_start() -> Tokenizer {
    Tokenizer { tokens: Seq::empty(), current: Seq::empty(), in_quotes: false, depth: 0, escaped: false }
}

/// Whether `c`, read in state `t`, ends the current token.
pub open spec fn is_separator(t: Tokenizer, c: char) -> bool {
    c == ' ' && !t.in_quotes && t.depth == 0 && !t.escaped
}

/// The state after reading `c` in state `t`.
pub open spec fn tokenizer_step(t: Tokenizer, c: char) -> Tokenizer {
    if c == '"' && !t.escaped {
        Tokenizer { in_quotes: !t.in_quotes, current: t.current.push(c), ..t }
    } else if c == '{' && !t.in_quotes {
        Tokenizer { depth: t.depth + 1, current: t.current.push(c), ..t }
    } else if c == '}' && !t.in_quotes {
        Tokenizer { depth: t.depth - 1, current: t.current.push(c), ..t }
    } else if c == '\\' && !t.escaped {
        Tokenizer { escaped: true, ..t }
    } else if is_separator(t, c) {
        if t.current.len() > 0 {
            Tokenizer { tokens: t.tokens.push(t.current), current: Seq::empty(), ..t }
        } else {
            t
        }
    } else {
        Tokenizer { escaped: false, current: t.current.push(c), ..t }
    }
}

/// The state after reading all of `chars`, from the left.
pub open spec fn tokenizer_run(chars: Seq<char>) -> Tokenizer
    decreases chars.len(),
{
    if chars.len() == 0 {
        tokenizer_start()
    } else {
        tokenizer_step(tokenizer_run(chars.drop_last()), chars.last())
    }
}

/// The tokens of a state at the end of the input: the complete ones, and the
/// one being read if it is not empty.
pub open spec fn tokenizer_finish(t: Tokenizer) -> Seq<Seq<char>> {
    if t.current.len() > 0 {
        t.tokens.push(t.current)
    } else {
        t.tokens
    }
}

/// The tokens of an input line.
pub open spec fn parse_input_spec(chars: Seq<char>) -> Seq<Seq<char>> {
    tokenizer_finish(tokenizer_run(chars))
}

/// The character sequences that a vector of strings stands for.
pub open spec fn token_views(tokens: Seq<String>) -> Seq<Seq<char>> {
    Seq::new(tokens.len(), |i: int| tokens[i]@)
}

/// No complete token of a reachable state is empty.
pub proof fn lemma_tokens_nonempty(chars: Seq<char>)
    ensures
        forall|i: int|
            0 <= i < tokenizer_run(chars).tokens.len() ==> #[trigger] tokenizer_run(
                chars,
            ).tokens[i].len() > 0,
        -chars.len() <= tokenizer_run(chars).depth <= chars.len(),
    decreases chars.len(),
{
    if chars.len() > 0 {
        lemma_tokens_nonempty(chars.drop_last());
    }
}

/// Parses a command line input into tokens.
pub fn parse_input(input: &str) -> (tokens: Vec<String>)
    ensures
        token_views(tokens@) == parse_input_spec(input@),
        forall|i: int| 0 <= i < tokens@.len() ==> (#[trigger] tokens@[i])@.len() > 0,
{
    let mut tokens: Vec<String> = Vec::new();
    let mut current_token = String::new();
    let mut in_quotes = false;
    let mut in_braces: i128 = 0;
    let mut escape_next = false;
    let mut chars = input.chars();
    let ghost mut done: int = 0;
    let ghost mut state = tokenizer_start();
    proof {
        assert(input@.take(0) =~= Seq::<char>::empty());
        assert(token_views(tokens@) =~= state.tokens);
    }
    let byte_len: usize = input.as_bytes().len();
    proof {
        lemma_encoding_not_shorter(input@);
    }
    loop
        invariant
            0 <= done <= input@.len() <= usize::MAX,
            chars.remaining() == input@.skip(done),
            state == tokenizer_run(input@.take(done)),
            token_views(tokens@) == state.tokens,
            current_token@ == state.current,
            in_quotes == state.in_quotes,
            in_braces == state.depth,
            escape_next == state.escaped,
            -done <= in_braces <= done,
        ensures
            done == input@.len(),
        decreases input@.len() - done,
    {
        match chars.next() {
            Some(c) => {
                proof {
                    assert(c == input@[done]);
                    assert(input@.take(done + 1).drop_last() =~= input@.take(done));
                    assert(input@.skip(done).drop_first() =~= input@.skip(done + 1));
                    state = tokenizer_step(state, c);
                    done = done + 1;
                }
                if c == '"' && !escape_next {
                    in_quotes = !in_quotes;
                    current_token.push(c);
                } else if c == '{' && !in_quotes {
                    in_braces = in_braces + 1;
                    current_token.push(c);
                } else if c == '}' && !in_quotes {
                    in_braces = in_braces - 1;
                    current_token.push(c);
                } else if c == '\\' && !escape_next {
                    escape_next = true;
                } else if c == ' ' && !in_quotes && in_braces == 0 && !escape_next {
                    if !current_token.as_str().is_empty() {
                        let ghost before = tokens@;
                        tokens.push(current_token);
                        current_token = String::new();
                        proof {
                            assert(token_views(tokens@) =~= token_views(before).push(
                                tokens@.last()@,
                            ));
                        }
                    }
                } else {
                    escape_next = false;
                    current_token.push(c);
                }
            },
            None => {
                break;
            },
        }
    }
    proof {
        assert(input@.take(done) =~= input@);
        lemma_tokens_nonempty(input@);
    }
    if !current_token.as_str().is_empty() {
        let ghost before = tokens@;
        tokens.push(current_token);
        proof {
            assert(token_views(tokens@) =~= token_views(before).push(tokens@.last()@));
        }
    }
    proof {
        assert forall|i: int| 0 <= i < tokens@.len() implies (#[trigger] tokens@[i])@.len() > 0 by {
            assert(token_views(tokens@)[i] == tokens@[i]@);
        }
    }
    tokens
}

} // verus!
