//! The older parser: turns the tokens of a command line into a pipeline of statements.
//!
//! It reads the same grammar as [`crate::syntax::parser::Parser`]; what it gives is the
//! older form of a command line.
use crate::commands::command::Command;
use crate::commands::statement::{Pipeline, Redirect, RedirectMode, RedirectStatement, redirect_view, statements_view};
use crate::syntax::parser::{ParseOutcome, invocation_of, lemma_scan_invocation_bounds, parse_tokens, pipeline_from, scan_invocation};
use crate::syntax::command_invocation::InvocationView;
use crate::syntax::scanner::token::{Token, TokenType, tokens_view};
use crate::text::strings_view;
use vstd::prelude::*;

verus! {

/// What the exec pipeline reader produced.
enum PipelineStep {
    Parsed(Pipeline),
    Rejected(String),
    Undefined,
}

/// A parser over the tokens of one command line.
pub struct Parser {
    tokens: Vec<Token>,
    position: usize,
}

impl Parser {
    /// The tokens being parsed.
    pub closed spec fn tokens(&self) -> Seq<(TokenType, Seq<char>)> {
        tokens_view(self.tokens@)
    }

    /// The position where the next parse starts.
    pub closed spec fn position(&self) -> int {
        self.position as int
    }

    /// A parser at the start of `tokens`.
    pub fn new(tokens: Vec<Token>) -> (parser: Self)
        ensures
            parser.tokens() == tokens_view(tokens@),
            parser.position() == 0,
    {
        Parser { tokens, position: 0 }
    }

    /// Whether `parse` is defined on these tokens.
    pub fn is_parsable(&self) -> (parsable: bool)
        requires
            self.position() <= self.tokens().len(),
        ensures
            parsable == !(parse_tokens(self.tokens(), self.position()).0 is Undefined),
    {
        if self.tokens.len() == 0 || self.tokens[0].token_type == TokenType::Eof {
            return true;
        }
        let (step, _end) = self.pipeline(self.position);
        match step {
            PipelineStep::Undefined => false,
            _ => true,
        }
    }

    /// Parses the tokens: `Ok(None)` when there is nothing to run, `Ok(Some(pipeline))`
    /// for a pipeline, and the message of the error for a `&` that does not end the line.
    pub fn parse(&mut self) -> (result: Result<Option<Pipeline>, String>)
        requires
            old(self).position() <= old(self).tokens().len(),
            !(parse_tokens(old(self).tokens(), old(self).position()).0 is Undefined),
        ensures
            final(self).tokens() == old(self).tokens(),
            final(self).position() == parse_tokens(old(self).tokens(), old(self).position()).1,
            match parse_tokens(old(self).tokens(), old(self).position()).0 {
                ParseOutcome::Nothing => result is Ok && result->Ok_0 is None,
                ParseOutcome::Parsed(p) => result is Ok && result->Ok_0 is Some
                    && result->Ok_0->Some_0@ == p,
                ParseOutcome::Rejected(m) => result matches Err(e) && e@ == m,
                ParseOutcome::Undefined => false,
            },
    {
        if self.tokens.len() == 0 || self.tokens[0].token_type == TokenType::Eof {
            return Ok(None);
        }
        let (step, end) = self.pipeline(self.position);
        self.position = end;
        match step {
            PipelineStep::Parsed(pipeline) => Ok(Some(pipeline)),
            PipelineStep::Rejected(message) => Err(message),
            PipelineStep::Undefined => Ok(None),
        }
    }

    fn pipeline(&self, start: usize) -> (result: (PipelineStep, usize))
        requires
            start <= self.tokens@.len(),
        ensures
            result.1 == pipeline_from(self.tokens(), start as int, seq![], false).1,
            match pipeline_from(self.tokens(), start as int, seq![], false).0 {
                ParseOutcome::Parsed(p) => result.0 matches PipelineStep::Parsed(q) && q@ == p,
                ParseOutcome::Rejected(m) => result.0 matches PipelineStep::Rejected(e) && e@ == m,
                ParseOutcome::Undefined => result.0 is Undefined,
                ParseOutcome::Nothing => false,
            },
    {
        let ghost tokens = self.tokens();
        let ghost target = pipeline_from(tokens, start as int, seq![], false);
        let mut commands: Vec<RedirectStatement> = Vec::new();
        let mut is_background = false;
        let mut position = start;
        let len = self.tokens.len();
        proof {
            assert(statements_view(commands@) =~= Seq::<InvocationView>::empty());
        }

        while position < len && self.tokens[position].token_type != TokenType::Eof
            invariant
                len == self.tokens@.len(),
                tokens == self.tokens(),
                position <= len,
                target == pipeline_from(tokens, start as int, seq![], false),
                pipeline_from(tokens, position as int, statements_view(commands@), is_background)
                    == target,
            decreases len - position,
        {
            let ghost pos = position as int;
            let ghost scan = scan_invocation(tokens, pos, seq![], None, None);
            proof {
                lemma_scan_invocation_bounds(tokens, pos, seq![], None, None);
            }
            proof {
                assert(tokens[pos].0 == self.tokens@[pos]@.0);
                assert(tokens[pos].0 != TokenType::Eof);
            }
            let ghost cmds_before = statements_view(commands@);
            let (invocation, end) = self.redirect_statement(position);
            position = end;
            match invocation {
                None => {
                    proof {
                        assert(pipeline_from(tokens, pos, cmds_before, is_background) == (
                            ParseOutcome::Undefined,
                            scan.3,
                        ));
                        assert(target == (ParseOutcome::Undefined, scan.3));
                        assert(position == scan.3);
                    }
                    return (PipelineStep::Undefined, position);
                },
                Some(invocation) => {
                    let ghost before = statements_view(commands@);
                    commands.push(invocation);
                    proof {
                        assert(statements_view(commands@) =~= before.push(
                            invocation_of(scan.0, scan.1, scan.2),
                        ));
                    }
                },
            }
            if position < len && self.tokens[position].token_type == TokenType::Pipe {
                position = position + 1;
            } else if position < len && self.tokens[position].token_type == TokenType::Ampersand {
                position = position + 1;
                is_background = true;
                if position >= len {
                    return (PipelineStep::Undefined, position);
                }
                if self.tokens[position].token_type != TokenType::Eof {
                    let message = String::from_str(
                        "Syntax error: '&' must be at the end of the command",
                    );
                    return (PipelineStep::Rejected(message), position);
                }
            } else {
                return (PipelineStep::Parsed(Pipeline { segments: commands, is_background }), position);
            }
        }
        (PipelineStep::Parsed(Pipeline { segments: commands, is_background }), position)
    }

    /// Reads one command from `start` on; `None` when it has no word.
    fn redirect_statement(&self, start: usize) -> (result: (Option<RedirectStatement>, usize))
        requires
            start <= self.tokens@.len(),
        ensures
            ({
                let scan = scan_invocation(self.tokens(), start as int, seq![], None, None);
                &&& result.1 == scan.3
                &&& result.0 is Some <==> scan.0.len() > 0
                &&& result.0 matches Some(c) ==> c@ == invocation_of(scan.0, scan.1, scan.2)
            }),
    {
        let ghost tokens = self.tokens();
        let ghost target = scan_invocation(tokens, start as int, seq![], None, None);
        let mut words: Vec<String> = Vec::new();
        let mut stdout_redirection: Option<Redirect> = None;
        let mut stderr_redirection: Option<Redirect> = None;
        let mut position = start;
        let len = self.tokens.len();
        proof {
            assert(strings_view(words@) =~= Seq::<Seq<char>>::empty());
        }

        while position < len && self.tokens[position].token_type != TokenType::Eof
            && self.tokens[position].token_type != TokenType::Pipe
            && self.tokens[position].token_type != TokenType::Ampersand
            invariant
                len == self.tokens@.len(),
                tokens == self.tokens(),
                position <= len,
                scan_invocation(
                    tokens,
                    position as int,
                    strings_view(words@),
                    redirect_view(stdout_redirection),
                    redirect_view(stderr_redirection),
                ) == target,
                target == scan_invocation(tokens, start as int, seq![], None, None),
            decreases len - position,
        {
            let token_type = self.tokens[position].token_type;
            if token_type == TokenType::Word {
                let ghost before = strings_view(words@);
                words.push(self.tokens[position].lexeme.clone());
                proof {
                    assert(strings_view(words@) =~= before.push(tokens[position as int].1));
                }
                position = position + 1;
            } else if token_type == TokenType::RedirectOut || token_type
                == TokenType::RedirectAppend {
                let mode = if token_type == TokenType::RedirectAppend {
                    RedirectMode::Append
                } else {
                    RedirectMode::Overwrite
                };
                position = position + 1;
                if position < len && self.tokens[position].token_type == TokenType::Word {
                    stdout_redirection = Some(
                        Redirect { redirect_mode: mode, file_location: self.tokens[position].lexeme.clone() },
                    );
                    position = position + 1;
                }
            } else if token_type == TokenType::RedirectStdErr || token_type
                == TokenType::RedirectStdErrAppend {
                let mode = if token_type == TokenType::RedirectStdErrAppend {
                    RedirectMode::Append
                } else {
                    RedirectMode::Overwrite
                };
                position = position + 1;
                if position < len && self.tokens[position].token_type == TokenType::Word {
                    stderr_redirection = Some(
                        Redirect { redirect_mode: mode, file_location: self.tokens[position].lexeme.clone() },
                    );
                    position = position + 1;
                }
            } else {
                position = position + 1;
            }
        }
        if words.len() == 0 {
            return (None, position);
        }
        let ghost all_words = strings_view(words@);
        let name = words.remove(0);
        proof {
            assert(strings_view(words@) =~= all_words.subrange(1, all_words.len() as int));
        }
        let invocation = RedirectStatement {
            command: Command { command: name, arguments: words },
            redirect_std_out: stdout_redirection,
            redirect_std_err: stderr_redirection,
        };
        (Some(invocation), position)
    }
}

} // verus!
