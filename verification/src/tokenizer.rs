//! Whitespace tokenization of an input line.
//!
//! An input line is split on runs of whitespace into tokens; no quoting,
//! escaping or expansion is performed.  The spec function [`tokens_of`]
//! is the mathematical model of that split, and the executable functions
//! are proved against it.

use vstd::prelude::*;
use vstd::string::StrSliceExecFns;

verus! {

/// The characters an input line is split on: the Unicode White_Space
/// set.
pub open spec fn is_wspace(c: char) -> bool {
    ||| c == ' '
    ||| c == '\t'
    ||| c == '\n'
    ||| c == '\r'
    ||| c == '\u{b}'
    ||| c == '\u{c}'
    ||| c == '\u{85}'
    ||| c == '\u{a0}'
    ||| c == '\u{1680}'
    ||| (0x2000 <= c as int && c as int <= 0x200a)
    ||| c == '\u{2028}'
    ||| c == '\u{2029}'
    ||| c == '\u{202f}'
    ||| c == '\u{205f}'
    ||| c == '\u{3000}'
}

/// Index of the first whitespace character at or after `i`, or `s.len()`
/// if the rest of the line is one unbroken token.
pub open spec fn token_end(s: Seq<char>, i: int) -> int
    decreases s.len() - i,
{
    if i >= s.len() {
        s.len() as int
    } else if is_wspace(s[i]) {
        i
    } else {
        token_end(s, i + 1)
    }
}

proof fn lemma_token_end_properties(s: Seq<char>, i: int)
    requires
        0 <= i <= s.len(),
    ensures
        i <= token_end(s, i) <= s.len(),
        forall|j: int| i <= j < token_end(s, i) ==> !is_wspace(s[j]),
        token_end(s, i) < s.len() ==> is_wspace(s[token_end(s, i)]),
    decreases s.len() - i,
{
    if i < s.len() && !is_wspace(s[i]) {
        lemma_token_end_properties(s, i + 1);
    }
}

/// The tokens of `s` that start at or after position `i`: maximal runs
/// of non-whitespace characters, in order.
pub open spec fn tokens_from(s: Seq<char>, i: int) -> Seq<Seq<char>>
    decreases s.len() - i,
    via tokens_from_decreases_proof
{
    if i < 0 || i >= s.len() {
        Seq::empty()
    } else if is_wspace(s[i]) {
        tokens_from(s, i + 1)
    } else {
        seq![s.subrange(i, token_end(s, i))] + tokens_from(s, token_end(s, i))
    }
}

#[via_fn]
proof fn tokens_from_decreases_proof(s: Seq<char>, i: int) {
    if 0 <= i && i < s.len() && !is_wspace(s[i]) {
        lemma_token_end_properties(s, i + 1);
    }
}

/// The whitespace-split of a whole line.
pub open spec fn tokens_of(s: Seq<char>) -> Seq<Seq<char>> {
    tokens_from(s, 0)
}

/// A line made only of whitespace yields no tokens at all.
pub proof fn lemma_whitespace_only_yields_nothing(s: Seq<char>)
    requires
        forall|j: int| 0 <= j < s.len() ==> is_wspace(s[j]),
    ensures
        tokens_of(s).len() == 0,
{
    lemma_whitespace_tokens_from(s, 0);
}

proof fn lemma_whitespace_tokens_from(s: Seq<char>, i: int)
    requires
        0 <= i,
        forall|j: int| 0 <= j < s.len() ==> is_wspace(s[j]),
    ensures
        tokens_from(s, i).len() == 0,
    decreases s.len() - i,
{
    if i < s.len() {
        lemma_whitespace_tokens_from(s, i + 1);
    }
}

/// Every token of a line is non-empty and holds no whitespace
/// character: a command's name and arguments are never empty and
/// never contain whitespace.
pub proof fn lemma_tokens_wellformed(s: Seq<char>)
    ensures
        forall|t: int| 0 <= t < tokens_of(s).len() ==> (#[trigger] tokens_of(s)[t]).len() > 0,
        forall|t: int, j: int|
            0 <= t < tokens_of(s).len() && 0 <= j < tokens_of(s)[t].len() ==> !is_wspace(
                #[trigger] tokens_of(s)[t][j],
            ),
{
    lemma_tokens_from_wellformed(s, 0);
}

proof fn lemma_tokens_from_wellformed(s: Seq<char>, i: int)
    requires
        0 <= i,
    ensures
        forall|t: int|
            0 <= t < tokens_from(s, i).len() ==> (#[trigger] tokens_from(s, i)[t]).len() > 0,
        forall|t: int, j: int|
            0 <= t < tokens_from(s, i).len() && 0 <= j < tokens_from(s, i)[t].len() ==> !is_wspace(
                #[trigger] tokens_from(s, i)[t][j],
            ),
    decreases s.len() - i,
{
    if i >= s.len() {
        assert(tokens_from(s, i).len() == 0);
    } else if is_wspace(s[i]) {
        lemma_tokens_from_wellformed(s, i + 1);
        assert(tokens_from(s, i) == tokens_from(s, i + 1));
        assert forall|t: int| 0 <= t < tokens_from(s, i).len() implies (#[trigger] tokens_from(
            s,
            i,
        )[t]).len() > 0 by {
            assert(tokens_from(s, i)[t] == tokens_from(s, i + 1)[t]);
        }
        assert forall|t: int, j: int|
            0 <= t < tokens_from(s, i).len() && 0 <= j < tokens_from(s, i)[t].len()
            implies !is_wspace(#[trigger] tokens_from(s, i)[t][j]) by {
            assert(tokens_from(s, i)[t] == tokens_from(s, i + 1)[t]);
        }
    } else {
        lemma_token_end_properties(s, i);
        let te = token_end(s, i);
        assert(i < te <= s.len());
        lemma_tokens_from_wellformed(s, te);
        let first = s.subrange(i, te);
        assert(tokens_from(s, i) == seq![first] + tokens_from(s, te));
        assert forall|t: int| 0 <= t < tokens_from(s, i).len() implies (#[trigger] tokens_from(
            s,
            i,
        )[t]).len() > 0 by {
            if t == 0 {
                assert(tokens_from(s, i)[0] == first);
            } else {
                assert(tokens_from(s, i)[t] == tokens_from(s, te)[t - 1]);
            }
        }
        assert forall|t: int, j: int|
            0 <= t < tokens_from(s, i).len() && 0 <= j < tokens_from(s, i)[t].len()
            implies !is_wspace(#[trigger] tokens_from(s, i)[t][j]) by {
            if t == 0 {
                assert(tokens_from(s, i)[0] == first);
                assert(first[j] == s[i + j]);
            } else {
                assert(tokens_from(s, i)[t] == tokens_from(s, te)[t - 1]);
            }
        }
    }
}

fn char_is_wspace(c: char) -> (r: bool)
    ensures
        r == is_wspace(c),
{
    let u = c as u32;
    c == ' ' || c == '\t' || c == '\n' || c == '\r' || c == '\u{b}' || c == '\u{c}'
        || c == '\u{85}' || c == '\u{a0}' || c == '\u{1680}' || (0x2000 <= u && u <= 0x200a)
        || c == '\u{2028}' || c == '\u{2029}' || c == '\u{202f}' || c == '\u{205f}'
        || c == '\u{3000}'
}

/// Splits a line into its whitespace-delimited tokens, in order.
pub fn split_tokens(s: &str) -> (r: Vec<String>)
    ensures
        r.deep_view() == tokens_of(s@),
{
    let n = s.unicode_len();
    let mut toks: Vec<String> = Vec::new();
    let mut i: usize = 0;
    while i < n
        invariant
            n == s@.len(),
            i <= n,
            toks.deep_view() + tokens_from(s@, i as int) == tokens_of(s@),
        decreases n - i,
    {
        let c = s.get_char(i);
        if char_is_wspace(c) {
            proof {
                assert(tokens_from(s@, i as int) == tokens_from(s@, i + 1));
            }
            i = i + 1;
        } else {
            let ghost start = i as int;
            let ghost pre = toks.deep_view();
            let mut j: usize = i + 1;
            proof {
                assert(token_end(s@, start) == token_end(s@, j as int));
            }
            while j < n && !char_is_wspace(s.get_char(j))
                invariant
                    n == s@.len(),
                    start < j <= n,
                    token_end(s@, start) == token_end(s@, j as int),
                decreases n - j,
            {
                proof {
                    assert(token_end(s@, j as int) == token_end(s@, j + 1));
                }
                j = j + 1;
            }
            proof {
                assert(token_end(s@, j as int) == j);
                lemma_token_end_properties(s@, start);
            }
            let tok = s.substring_char(i, j).to_owned();
            toks.push(tok);
            proof {
                assert(tokens_from(s@, start) == seq![s@.subrange(start, j as int)]
                    + tokens_from(s@, j as int));
                assert(toks.deep_view() =~~= pre.push(s@.subrange(start, j as int)));
                assert(toks.deep_view() + tokens_from(s@, j as int) =~~= tokens_of(s@));
            }
            i = j;
        }
    }
    proof {
        assert(toks.deep_view() =~~= tokens_of(s@));
    }
    toks
}

/// Splits the line into tokens; yields nothing for a blank line.  This
/// is the normal "no command entered" outcome, not a failure.
pub fn parse_input(input: &str) -> (r: Option<Vec<String>>)
    ensures
        match r {
            Some(v) => v.deep_view() == tokens_of(input@) && tokens_of(input@).len() > 0,
            None => tokens_of(input@).len() == 0,
        },
{
    let toks = split_tokens(input);
    if toks.len() == 0 {
        None
    } else {
        Some(toks)
    }
}

/// The arguments of a token list: everything after the command name,
/// minus the trailing `&` marker when `background` holds.
pub open spec fn command_args(toks: Seq<Seq<char>>, background: bool) -> Seq<Seq<char>> {
    let end = if background {
        toks.len() - 1
    } else {
        toks.len() as int
    };
    if end <= 1 {
        Seq::empty()
    } else {
        toks.subrange(1, end)
    }
}

/// Compares a token against a literal.
pub fn string_eq_literal(s: &String, lit: &str) -> (r: bool)
    ensures
        r == (s@ == lit@),
{
    let other = lit.to_owned();
    s.eq(&other)
}

/// Splits a non-empty token list into the command name, its arguments
/// and the background marker: the command runs in the background iff
/// the last *raw* token is the literal `&`, which is then not an
/// argument.  So a lone-`&` line is a background command whose name is
/// the marker, with no arguments.  Its counterpart,
/// [`crate::command_builder::CommandBuilder::build_command`], reads
/// the marker off the last *argument* instead, so there the same line
/// is a foreground command: the two faces deliberately keep both
/// readings of the trailing marker, and differ on that line alone.
pub fn parse_command(input: Vec<String>) -> (r: (String, Vec<String>, bool))
    requires
        input@.len() > 0,
    ensures
        r.0@ == input.deep_view()[0],
        r.2 == (input.deep_view().last() == "&"@),
        r.1.deep_view() == command_args(input.deep_view(), r.2),
{
    let name = input[0].clone();
    let background = string_eq_literal(&input[input.len() - 1], "&");
    let end = if background {
        input.len() - 1
    } else {
        input.len()
    };
    let mut args: Vec<String> = Vec::new();
    let mut k: usize = 1;
    proof {
        assert(args.deep_view() =~~= input.deep_view().subrange(1, 1));
    }
    while k < end
        invariant
            end <= input@.len(),
            1 <= k,
            k <= end || k == 1,
            args.deep_view() == input.deep_view().subrange(1, k as int),
        decreases end - k,
    {
        let ghost before = args.deep_view();
        args.push(input[k].clone());
        proof {
            assert(args.deep_view() =~~= before.push(input@[k as int]@));
            assert(before.push(input@[k as int]@) =~~= input.deep_view().subrange(1, k + 1));
        }
        k = k + 1;
    }
    proof {
        if end > 1 {
            assert(k == end);
        } else {
            assert(args.deep_view() =~~= Seq::<Seq<char>>::empty());
        }
        assert(input.deep_view().last() == input@[input@.len() - 1]@);
    }
    (name, args, background)
}

} // verus!
