//! Building a command from a raw input line.
//!
//! This is the tokenizer's public face: [`CommandBuilder::build_command`]
//! trims and splits the line, takes the first token as the command
//! name, the rest as arguments, and strips a single trailing `&`
//! argument as the background marker.

use vstd::prelude::*;

use crate::tokenizer::{split_tokens, string_eq_literal, tokens_of};

verus! {

/// Outcome of building a command from a raw input line: a blank line
/// holds no command, which is a normal outcome, not a failure.
pub enum CommandStatus {
    Empty,
    Command(CommandBuilder),
}

/// A command built from an input line: its name, its arguments, and
/// whether the trailing `&` marker asked for background execution.
/// Immutable once produced.
pub struct CommandBuilder {
    name: String,
    args: Vec<String>,
    background: bool,
}

impl CommandBuilder {
    /// The command's name: the line's first token.
    pub closed spec fn spec_name(&self) -> Seq<char> {
        self.name@
    }

    /// The command's arguments, in order.
    pub closed spec fn spec_args(&self) -> Seq<Seq<char>> {
        self.args.deep_view()
    }

    /// Whether the command was asked to run in the background.
    pub closed spec fn spec_background(&self) -> bool {
        self.background
    }

    pub fn get_name(&self) -> (r: &str)
        ensures
            r@ == self.spec_name(),
    {
        self.name.as_str()
    }

    pub fn get_args(&self) -> (r: &Vec<String>)
        ensures
            r.deep_view() == self.spec_args(),
    {
        &self.args
    }

    pub fn get_background(&self) -> (r: bool)
        ensures
            r == self.spec_background(),
    {
        self.background
    }

    /// Builds a command from a raw line.  A line with no tokens holds
    /// no command.  Otherwise the first token is the name and the rest
    /// are the arguments, except that a last *argument* that is exactly
    /// `&` is stripped — once only — and marks the command as a
    /// background command.  The marker is never read off the name, so
    /// a lone-`&` line is a foreground command named `&`; its
    /// counterpart, [`crate::tokenizer::parse_command`], reads the
    /// marker off the last *raw* token instead and makes that line a
    /// background command.  The two faces deliberately keep both
    /// readings of the trailing marker, and differ on that line alone.
    pub fn build_command(input: &str) -> (r: CommandStatus)
        ensures
            ({
                let toks = tokens_of(input@);
                match r {
                    CommandStatus::Empty => toks.len() == 0,
                    CommandStatus::Command(c) => {
                        &&& toks.len() > 0
                        &&& c.spec_name() == toks[0]
                        &&& c.spec_background() == (toks.len() >= 2 && toks.last() == "&"@)
                        &&& c.spec_args() == (if toks.len() >= 2 && toks.last() == "&"@ {
                            toks.subrange(1, toks.len() - 1)
                        } else {
                            toks.subrange(1, toks.len() as int)
                        })
                    },
                }
            }),
    {
        let toks = split_tokens(input);
        if toks.len() == 0 {
            return CommandStatus::Empty;
        }
        let ghost tv = toks.deep_view();
        let name = toks[0].clone();
        let mut args: Vec<String> = Vec::new();
        let mut k: usize = 1;
        proof {
            assert(args.deep_view() =~~= tv.subrange(1, 1));
        }
        while k < toks.len()
            invariant
                tv == toks.deep_view(),
                1 <= k <= tv.len(),
                args.deep_view() == tv.subrange(1, k as int),
            decreases tv.len() - k,
        {
            let ghost before = args.deep_view();
            args.push(toks[k].clone());
            proof {
                assert(args.deep_view() =~~= before.push(tv[k as int]));
                assert(before.push(tv[k as int]) =~~= tv.subrange(1, k + 1));
            }
            k = k + 1;
        }
        let mut background = false;
        if args.len() > 0 {
            let ghost all_args = args.deep_view();
            proof {
                assert(all_args.last() == tv.last());
            }
            if string_eq_literal(&args[args.len() - 1], "&") {
                args.pop();
                background = true;
                proof {
                    assert(args.deep_view() =~~= all_args.drop_last());
                    assert(all_args.drop_last() =~~= tv.subrange(1, tv.len() - 1));
                }
            }
        }
        let c = CommandBuilder { name, args, background };
        proof {
            assert(c.spec_name() == tv[0]);
        }
        CommandStatus::Command(c)
    }
}

} // verus!
