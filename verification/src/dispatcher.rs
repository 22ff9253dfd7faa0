//! The dispatcher's decision: what one parsed command asks for.
//!
//! The interpreter's main loop reads a line, tokenizes it, and then
//! needs one decision: is the command a built-in (`exit`, `jobs`,
//! `fg`), and if not, does it run in the foreground or the background?
//! [`decide`] makes that decision from plain values; the surrounding
//! program performs the resulting action (spawning, waiting, printing)
//! and owns every blocking call.

use vstd::prelude::*;
use vstd::string::StrSliceExecFns;

use crate::tokenizer::string_eq_literal;

verus! {

/// What the interpreter must do with one parsed command.
#[derive(Clone, Copy, PartialEq, Eq, Structural, Debug)]
pub enum Action {
    /// Terminate the interpreter immediately.
    Exit,
    /// Print the job table listing; nothing is mutated.
    ListJobs,
    /// Wait for the job at this 1-based position to complete.
    Foreground(usize),
    /// The `fg` argument was not an integer: report a parse error and
    /// continue the loop.
    ForegroundArgError,
    /// Run the command as an external process, blocking until it
    /// completes.
    RunForeground,
    /// Spawn the command as an external process and register it as a
    /// background job.
    SpawnBackground,
}

/// A decimal digit.
pub open spec fn is_digit(c: char) -> bool {
    48 <= c as int && c as int <= 57
}

/// The numeric value of a run of decimal digits.
pub open spec fn digits_value(s: Seq<char>) -> int
    decreases s.len(),
{
    if s.len() == 0 {
        0
    } else {
        digits_value(s.drop_last()) * 10 + (s.last() as int - 48)
    }
}

/// A non-empty run of decimal digits.
pub open spec fn all_digits(s: Seq<char>) -> bool {
    s.len() > 0 && forall|i: int| 0 <= i < s.len() ==> is_digit(#[trigger] s[i])
}

/// The position a `fg` argument denotes, when it is a decimal integer
/// that fits the machine word: an optional leading `+` sign followed
/// by digits.
pub open spec fn parsed_position(s: Seq<char>) -> Option<usize> {
    let digits = if s.len() > 0 && s[0] == '+' {
        s.drop_first()
    } else {
        s
    };
    if all_digits(digits) && digits_value(digits) <= usize::MAX {
        Some(digits_value(digits) as usize)
    } else {
        None
    }
}

proof fn lemma_digits_value_nonneg(s: Seq<char>)
    requires
        forall|i: int| 0 <= i < s.len() ==> is_digit(#[trigger] s[i]),
    ensures
        digits_value(s) >= 0,
    decreases s.len(),
{
    if s.len() > 0 {
        lemma_digits_value_nonneg(s.drop_last());
    }
}

proof fn lemma_digits_value_prefix(s: Seq<char>, j: int)
    requires
        0 <= j <= s.len(),
        forall|i: int| 0 <= i < s.len() ==> is_digit(#[trigger] s[i]),
    ensures
        digits_value(s.take(j)) <= digits_value(s),
    decreases s.len(),
{
    if j == s.len() {
        assert(s.take(j) =~~= s);
    } else {
        lemma_digits_value_nonneg(s.drop_last());
        lemma_digits_value_prefix(s.drop_last(), j);
        assert(s.drop_last().take(j) =~~= s.take(j));
    }
}

/// Parses `fg`'s position argument: an optional `+` sign followed by
/// decimal digits, rejected exactly when malformed or too large for
/// the machine word.
pub fn parse_position(s: &str) -> (r: Option<usize>)
    ensures
        r == parsed_position(s@),
{
    let n = s.unicode_len();
    let mut i: usize = 0;
    if n > 0 && s.get_char(0) == '+' {
        i = 1;
    }
    let ghost digits = if s@.len() > 0 && s@[0] == '+' {
        s@.drop_first()
    } else {
        s@
    };
    proof {
        assert(digits =~~= s@.subrange(i as int, n as int));
    }
    if i >= n {
        return None;
    }
    let mut acc: usize = 0;
    let mut k: usize = i;
    proof {
        assert(s@.subrange(i as int, i as int) =~~= Seq::<char>::empty());
    }
    while k < n
        invariant
            n == s@.len(),
            i <= k <= n,
            i < n,
            digits == (if s@.len() > 0 && s@[0] == '+' {
                s@.drop_first()
            } else {
                s@
            }),
            digits == s@.subrange(i as int, n as int),
            forall|t: int| i <= t < k ==> is_digit(#[trigger] s@[t]),
            acc == digits_value(s@.subrange(i as int, k as int)),
        decreases n - k,
    {
        let c = s.get_char(k);
        let u = c as u32;
        if u < 48 || u > 57 {
            proof {
                assert(digits[k - i] == s@[k as int]);
                assert(!all_digits(digits));
            }
            return None;
        }
        let d = (u - 48) as usize;
        let ghost prefix = s@.subrange(i as int, k as int);
        let ghost longer = s@.subrange(i as int, k + 1);
        proof {
            assert(longer.drop_last() =~~= prefix);
            assert(longer.last() == s@[k as int]);
            assert(digits_value(longer) == acc * 10 + d);
        }
        let step = match acc.checked_mul(10) {
            Some(x) => x.checked_add(d),
            None => None,
        };
        match step {
            Some(next) => {
                acc = next;
            },
            None => {
                proof {
                    // the value is already beyond the machine word, so
                    // however the rest of the argument looks, it is
                    // rejected
                    if all_digits(digits) {
                        lemma_digits_value_prefix(digits, k + 1 - i);
                        assert(digits.take(k + 1 - i) =~~= longer);
                    }
                }
                return None;
            },
        }
        k = k + 1;
    }
    proof {
        assert(s@.subrange(i as int, k as int) =~~= digits);
        assert(forall|t: int| 0 <= t < digits.len() ==> digits[t] == s@[i + t]);
        assert(all_digits(digits));
    }
    Some(acc)
}

/// The decision for one parsed command: built-ins are resolved on the
/// command name before anything is spawned; any other name is an
/// external command, backgrounded iff the line asked for it.
pub open spec fn decide_spec(name: Seq<char>, args: Seq<Seq<char>>, background: bool) -> Action {
    if name == "exit"@ {
        Action::Exit
    } else if name == "jobs"@ {
        Action::ListJobs
    } else if name == "fg"@ {
        if args.len() == 0 {
            Action::Foreground(1)
        } else {
            match parsed_position(args[0]) {
                Some(pos) => Action::Foreground(pos),
                None => Action::ForegroundArgError,
            }
        }
    } else if background {
        Action::SpawnBackground
    } else {
        Action::RunForeground
    }
}

/// Maps one parsed command to the action the interpreter must take.
pub fn decide(name: &String, args: &Vec<String>, background: bool) -> (a: Action)
    ensures
        a == decide_spec(name@, args.deep_view(), background),
{
    if string_eq_literal(name, "exit") {
        Action::Exit
    } else if string_eq_literal(name, "jobs") {
        Action::ListJobs
    } else if string_eq_literal(name, "fg") {
        if args.len() == 0 {
            proof {
                assert(args.deep_view().len() == 0);
            }
            Action::Foreground(1)
        } else {
            proof {
                assert(args.deep_view()[0] == args@[0]@);
            }
            match parse_position(args[0].as_str()) {
                Some(pos) => Action::Foreground(pos),
                None => Action::ForegroundArgError,
            }
        }
    } else if background {
        Action::SpawnBackground
    } else {
        Action::RunForeground
    }
}

/// `fg` with no argument targets position 1: the decision is exactly
/// the one `fg 1` produces.
pub proof fn lemma_fg_default_is_position_one(background: bool)
    ensures
        decide_spec("fg"@, Seq::empty(), background) == decide_spec(
            "fg"@,
            seq!["1"@],
            background,
        ),
{
    reveal_strlit("fg");
    reveal_strlit("exit");
    reveal_strlit("jobs");
    reveal_strlit("1");
    let one = "1"@;
    assert(one.len() == 1);
    assert(one[0] == '1');
    assert(one.drop_last() =~~= Seq::<char>::empty());
    assert(digits_value(Seq::<char>::empty()) == 0);
    assert(one.last() == '1' && '1' as int == 49);
    assert(digits_value(one) == 1);
    assert(all_digits(one));
    assert(parsed_position(one) == Some(1usize));
}

} // verus!
