//! Turns the tokens of a command line into a pipeline of command invocations.
use crate::syntax::command_invocation::{CommandInvocation, InvocationView, invocations_view};
use crate::syntax::error::SyntaxError;
use crate::syntax::pipeline::{Pipeline, PipelineView};
use crate::syntax::redirection::{Redirection, RedirectionMode, redirection_view};
use crate::syntax::scanner::token::{Token, TokenType, tokens_view};
use crate::text::strings_view;
use vstd::prelude::*;

pub mod parser;

verus! {

/// A redirection as the parser sees it: its mode and its target file.
pub type RedirectionSpec = (RedirectionMode, Seq<char>);

/// Token kinds that end one command of a pipeline.
pub open spec fn ends_invocation(t: TokenType) -> bool {
    t == TokenType::Eof || t == TokenType::Pipe || t == TokenType::Ampersand
}

/// The mode of a redirection operator.
pub open spec fn redirection_mode_of(t: TokenType) -> RedirectionMode {
    if t == TokenType::RedirectAppend || t == TokenType::RedirectStdErrAppend {
        RedirectionMode::Append
    } else {
        RedirectionMode::Overwrite
    }
}

/// Reads one command from position `pos` on, given the words and redirections read so far.
/// Gives the words, the last stdout and stderr redirections, and the position where the
/// command ends. A redirection operator not followed by a word is skipped, as is any other
/// token that is not a word.
pub open spec fn scan_invocation(
    tokens: Seq<(TokenType, Seq<char>)>,
    pos: int,
    words: Seq<Seq<char>>,
    stdout: Option<RedirectionSpec>,
    stderr: Option<RedirectionSpec>,
) -> (Seq<Seq<char>>, Option<RedirectionSpec>, Option<RedirectionSpec>, int)
    decreases tokens.len() - pos,
{
    if pos < 0 || pos >= tokens.len() || ends_invocation(tokens[pos].0) {
        (words, stdout, stderr, pos)
    } else {
        let t = tokens[pos].0;
        let has_target = pos + 1 < tokens.len() && tokens[pos + 1].0 == TokenType::Word;
        if t == TokenType::Word {
            scan_invocation(tokens, pos + 1, words.push(tokens[pos].1), stdout, stderr)
        } else if t == TokenType::RedirectOut || t == TokenType::RedirectAppend {
            if has_target {
                scan_invocation(
                    tokens,
                    pos + 2,
                    words,
                    Some((redirection_mode_of(t), tokens[pos + 1].1)),
                    stderr,
                )
            } else {
                scan_invocation(tokens, pos + 1, words, stdout, stderr)
            }
        } else if t == TokenType::RedirectStdErr || t == TokenType::RedirectStdErrAppend {
            if has_target {
                scan_invocation(
                    tokens,
                    pos + 2,
                    words,
                    stdout,
                    Some((redirection_mode_of(t), tokens[pos + 1].1)),
                )
            } else {
                scan_invocation(tokens, pos + 1, words, stdout, stderr)
            }
        } else {
            scan_invocation(tokens, pos + 1, words, stdout, stderr)
        }
    }
}

/// Reading a command moves forward, stays in the tokens and never drops a word.
pub proof fn lemma_scan_invocation_bounds(
    tokens: Seq<(TokenType, Seq<char>)>,
    pos: int,
    words: Seq<Seq<char>>,
    stdout: Option<RedirectionSpec>,
    stderr: Option<RedirectionSpec>,
)
    requires
        0 <= pos <= tokens.len(),
    ensures
        pos <= scan_invocation(tokens, pos, words, stdout, stderr).3 <= tokens.len(),
        words.len() <= scan_invocation(tokens, pos, words, stdout, stderr).0.len(),
    decreases tokens.len() - pos,
{
    if pos < tokens.len() && !ends_invocation(tokens[pos].0) {
        let t = tokens[pos].0;
        let has_target = pos + 1 < tokens.len() && tokens[pos + 1].0 == TokenType::Word;
        if t == TokenType::Word {
            lemma_scan_invocation_bounds(tokens, pos + 1, words.push(tokens[pos].1), stdout, stderr);
        } else if t == TokenType::RedirectOut || t == TokenType::RedirectAppend {
            if has_target {
                lemma_scan_invocation_bounds(
                    tokens,
                    pos + 2,
                    words,
                    Some((redirection_mode_of(t), tokens[pos + 1].1)),
                    stderr,
                );
            } else {
                lemma_scan_invocation_bounds(tokens, pos + 1, words, stdout, stderr);
            }
        } else if t == TokenType::RedirectStdErr || t == TokenType::RedirectStdErrAppend {
            if has_target {
                lemma_scan_invocation_bounds(
                    tokens,
                    pos + 2,
                    words,
                    stdout,
                    Some((redirection_mode_of(t), tokens[pos + 1].1)),
                );
            } else {
                lemma_scan_invocation_bounds(tokens, pos + 1, words, stdout, stderr);
            }
        } else {
            lemma_scan_invocation_bounds(tokens, pos + 1, words, stdout, stderr);
        }
    }
}

/// The command made of the words read: the first word names it, the rest are its arguments.
pub open spec fn invocation_of(
    words: Seq<Seq<char>>,
    stdout: Option<RedirectionSpec>,
    stderr: Option<RedirectionSpec>,
) -> InvocationView {
    InvocationView {
        name: words[0],
        arguments: words.subrange(1, words.len() as int),
        stdout_redirection: stdout,
        stderr_redirection: stderr,
    }
}

/// What parsing a token sequence comes to.
pub enum ParseOutcome {
    /// There was nothing to parse.
    Nothing,
    /// A pipeline was read.
    Parsed(PipelineView),
    /// The tokens are refused, with this message.
    Rejected(Seq<char>),
    /// The tokens hold a command with no word, or end in `&` without an end-of-input
    /// token: inputs that the parser is not defined on.
    Undefined,
}

/// The message for a `&` that is not at the end of the line.
pub open spec fn misplaced_ampersand_message() -> Seq<char> {
    "Syntax error: '&' must be at the end of the command"@
}

/// Reads the rest of a pipeline from `pos` on, given the commands read so far and whether
/// a `&` was seen. Gives the outcome and the position where reading stopped.
pub open spec fn pipeline_from(
    tokens: Seq<(TokenType, Seq<char>)>,
    pos: int,
    commands: Seq<InvocationView>,
    is_background: bool,
) -> (ParseOutcome, int)
    decreases tokens.len() - pos,
{
    if pos < 0 || pos >= tokens.len() || tokens[pos].0 == TokenType::Eof {
        (ParseOutcome::Parsed(PipelineView { commands, is_background }), pos)
    } else {
        let scan = scan_invocation(tokens, pos, seq![], None, None);
        let end = scan.3;
        if scan.0.len() == 0 {
            (ParseOutcome::Undefined, end)
        } else {
            let commands = commands.push(invocation_of(scan.0, scan.1, scan.2));
            if end < tokens.len() && tokens[end].0 == TokenType::Pipe {
                proof {
                    lemma_scan_invocation_bounds(tokens, pos, seq![], None, None);
                }
                pipeline_from(tokens, end + 1, commands, is_background)
            } else if end < tokens.len() && tokens[end].0 == TokenType::Ampersand {
                if end + 1 >= tokens.len() {
                    (ParseOutcome::Undefined, end + 1)
                } else if tokens[end + 1].0 != TokenType::Eof {
                    (ParseOutcome::Rejected(misplaced_ampersand_message()), end + 1)
                } else {
                    (ParseOutcome::Parsed(PipelineView { commands, is_background: true }), end + 1)
                }
            } else {
                (ParseOutcome::Parsed(PipelineView { commands, is_background }), end)
            }
        }
    }
}

/// Parsing `tokens` from position `start`: nothing when there are no tokens or the first is
/// the end of input, otherwise a pipeline read from `start`; and the position where
/// parsing stopped.
pub open spec fn parse_tokens(tokens: Seq<(TokenType, Seq<char>)>, start: int) -> (
    ParseOutcome,
    int,
) {
    if tokens.len() == 0 || tokens[0].0 == TokenType::Eof {
        (ParseOutcome::Nothing, start)
    } else {
        pipeline_from(tokens, start, seq![], false)
    }
}

proof fn lemma_pipeline_from_keeps_commands(
    tokens: Seq<(TokenType, Seq<char>)>,
    pos: int,
    commands: Seq<InvocationView>,
    is_background: bool,
)
    requires
        0 <= pos <= tokens.len(),
    ensures
        pipeline_from(tokens, pos, commands, is_background).0 matches ParseOutcome::Parsed(p)
            ==> p.commands.len() >= commands.len() && p.commands.subrange(
            0,
            commands.len() as int,
        ) == commands,
    decreases tokens.len() - pos,
{
    if pos < tokens.len() && tokens[pos].0 != TokenType::Eof {
        let scan = scan_invocation(tokens, pos, seq![], None, None);
        lemma_scan_invocation_bounds(tokens, pos, seq![], None, None);
        if scan.0.len() > 0 {
            let next = commands.push(invocation_of(scan.0, scan.1, scan.2));
            let end = scan.3;
            if end < tokens.len() && tokens[end].0 == TokenType::Pipe {
                lemma_pipeline_from_keeps_commands(tokens, end + 1, next, is_background);
                if pipeline_from(tokens, end + 1, next, is_background).0 is Parsed {
                    let p = pipeline_from(tokens, end + 1, next, is_background).0->Parsed_0;
                    assert(p.commands.subrange(0, commands.len() as int) =~= p.commands.subrange(
                        0,
                        next.len() as int,
                    ).subrange(0, commands.len() as int));
                    assert(next.subrange(0, commands.len() as int) =~= commands);
                }
            } else {
                assert(next.subrange(0, commands.len() as int) =~= commands);
            }
        }
    } else {
        assert(commands.subrange(0, commands.len() as int) =~= commands);
    }
}

/// Law: a line that does not start with the end of input parses, when it parses, to a
/// pipeline of at least one command, and every command has a name.
pub proof fn law_parsed_pipelines_have_commands(tokens: Seq<(TokenType, Seq<char>)>)
    requires
        tokens.len() > 0,
        tokens[0].0 != TokenType::Eof,
    ensures
        parse_tokens(tokens, 0).0 matches ParseOutcome::Parsed(p) ==> p.commands.len() >= 1,
{
    let scan = scan_invocation(tokens, 0, seq![], None, None);
    lemma_scan_invocation_bounds(tokens, 0, seq![], None, None);
    if scan.0.len() > 0 {
        let first = seq![invocation_of(scan.0, scan.1, scan.2)];
        assert(Seq::<InvocationView>::empty().push(invocation_of(scan.0, scan.1, scan.2))
            == first);
        let end = scan.3;
        if end < tokens.len() && tokens[end].0 == TokenType::Pipe {
            lemma_pipeline_from_keeps_commands(tokens, end + 1, first, false);
        }
    }
}

/// The redirection that an operator followed by the file `file` gives to the stream it
/// redirects: `>` and `>>` act on standard output, `2>` and `2>>` on standard error; a
/// doubled `>` appends, a single one overwrites.
pub open spec fn redirect_of(op: TokenType, file: Seq<char>, stream_is_stderr: bool) -> Option<
    RedirectionSpec,
> {
    if stream_is_stderr {
        if op == TokenType::RedirectStdErr {
            Some((RedirectionMode::Overwrite, file))
        } else if op == TokenType::RedirectStdErrAppend {
            Some((RedirectionMode::Append, file))
        } else {
            None
        }
    } else {
        if op == TokenType::RedirectOut {
            Some((RedirectionMode::Overwrite, file))
        } else if op == TokenType::RedirectAppend {
            Some((RedirectionMode::Append, file))
        } else {
            None
        }
    }
}

/// Law: a command word followed by a redirection operator and a file parses to one
/// command with no arguments whose redirection has the operator's mode and names the
/// file: `>` overwrites and `>>` appends standard output, `2>` overwrites and `2>>`
/// appends standard error.
pub proof fn law_redirections_keep_their_mode(
    name: Seq<char>,
    op: TokenType,
    op_text: Seq<char>,
    file: Seq<char>,
)
    requires
        op == TokenType::RedirectOut || op == TokenType::RedirectAppend || op
            == TokenType::RedirectStdErr || op == TokenType::RedirectStdErrAppend,
    ensures
        parse_tokens(
            seq![
                (TokenType::Word, name),
                (op, op_text),
                (TokenType::Word, file),
                (TokenType::Eof, Seq::<char>::empty()),
            ],
            0,
        ).0 == ParseOutcome::Parsed(
            PipelineView {
                commands: seq![
                    InvocationView {
                        name,
                        arguments: Seq::<Seq<char>>::empty(),
                        stdout_redirection: redirect_of(op, file, false),
                        stderr_redirection: redirect_of(op, file, true),
                    },
                ],
                is_background: false,
            },
        ),
{
    let tokens = seq![
        (TokenType::Word, name),
        (op, op_text),
        (TokenType::Word, file),
        (TokenType::Eof, Seq::<char>::empty()),
    ];
    let spec = Some((redirection_mode_of(op), file));
    let out: Option<RedirectionSpec> = if op == TokenType::RedirectOut || op
        == TokenType::RedirectAppend {
        spec
    } else {
        None
    };
    let err: Option<RedirectionSpec> = if op == TokenType::RedirectStdErr || op
        == TokenType::RedirectStdErrAppend {
        spec
    } else {
        None
    };
    assert(scan_invocation(tokens, 3, seq![name], out, err) == (seq![name], out, err, 3int));
    assert(scan_invocation(tokens, 1, seq![name], None, None) == (seq![name], out, err, 3int));
    assert(Seq::<Seq<char>>::empty().push(name) == seq![name]);
    assert(scan_invocation(tokens, 0, seq![], None, None) == (seq![name], out, err, 3int));
    assert(seq![name].subrange(1, 1) =~= Seq::<Seq<char>>::empty());
    assert(out == redirect_of(op, file, false));
    assert(err == redirect_of(op, file, true));
    let inv = invocation_of(seq![name], out, err);
    assert(Seq::<InvocationView>::empty().push(inv) =~= seq![inv]);
}

/// What the exec pipeline reader produced.
enum PipelineStep {
    Parsed(Pipeline),
    Rejected(String),
    Undefined,
}

/// A parser over the tokens of one command line.
pub struct Parser {
    tokens: Vec<Token>,
    position: usize,
}

impl Parser {
    /// The tokens being parsed.
    pub closed spec fn tokens(&self) -> Seq<(TokenType, Seq<char>)> {
        tokens_view(self.tokens@)
    }

    /// The position where the next parse starts.
    pub closed spec fn position(&self) -> int {
        self.position as int
    }

    /// A parser at the start of `tokens`.
    pub fn new(tokens: Vec<Token>) -> (parser: Self)
        ensures
            parser.tokens() == tokens_view(tokens@),
            parser.position() == 0,
    {
        Parser { tokens, position: 0 }
    }

    /// Whether `parse` is defined on these tokens.
    pub fn is_parsable(&self) -> (parsable: bool)
        requires
            self.position() <= self.tokens().len(),
        ensures
            parsable == !(parse_tokens(self.tokens(), self.position()).0 is Undefined),
    {
        if self.tokens.len() == 0 || self.tokens[0].token_type == TokenType::Eof {
            return true;
        }
        let (step, _end) = self.pipeline(self.position);
        match step {
            PipelineStep::Undefined => false,
            _ => true,
        }
    }

    /// Parses the tokens: `Ok(None)` when there is nothing to run, `Ok(Some(pipeline))`
    /// for a pipeline, and an error for a `&` that does not end the line.
    pub fn parse(&mut self) -> (result: Result<Option<Pipeline>, SyntaxError>)
        requires
            old(self).position() <= old(self).tokens().len(),
            !(parse_tokens(old(self).tokens(), old(self).position()).0 is Undefined),
        ensures
            final(self).tokens() == old(self).tokens(),
            final(self).position() == parse_tokens(old(self).tokens(), old(self).position()).1,
            match parse_tokens(old(self).tokens(), old(self).position()).0 {
                ParseOutcome::Nothing => result is Ok && result->Ok_0 is None,
                ParseOutcome::Parsed(p) => result is Ok && result->Ok_0 is Some
                    && result->Ok_0->Some_0@ == p,
                ParseOutcome::Rejected(m) => result is Err && (result->Err_0 matches SyntaxError::Parser(
                    e,
                ) && e@ == m),
                ParseOutcome::Undefined => false,
            },
    {
        if self.tokens.len() == 0 || self.tokens[0].token_type == TokenType::Eof {
            return Ok(None);
        }
        let (step, end) = self.pipeline(self.position);
        self.position = end;
        match step {
            PipelineStep::Parsed(pipeline) => Ok(Some(pipeline)),
            PipelineStep::Rejected(message) => Err(SyntaxError::Parser(message)),
            PipelineStep::Undefined => Ok(None),
        }
    }

    fn pipeline(&self, start: usize) -> (result: (PipelineStep, usize))
        requires
            start <= self.tokens@.len(),
        ensures
            result.1 == pipeline_from(self.tokens(), start as int, seq![], false).1,
            match pipeline_from(self.tokens(), start as int, seq![], false).0 {
                ParseOutcome::Parsed(p) => result.0 matches PipelineStep::Parsed(q) && q@ == p,
                ParseOutcome::Rejected(m) => result.0 matches PipelineStep::Rejected(e) && e@ == m,
                ParseOutcome::Undefined => result.0 is Undefined,
                ParseOutcome::Nothing => false,
            },
    {
        let ghost tokens = self.tokens();
        let ghost target = pipeline_from(tokens, start as int, seq![], false);
        let mut commands: Vec<CommandInvocation> = Vec::new();
        let mut is_background = false;
        let mut position = start;
        let len = self.tokens.len();
        proof {
            assert(invocations_view(commands@) =~= Seq::<InvocationView>::empty());
        }

        while position < len && self.tokens[position].token_type != TokenType::Eof
            invariant
                len == self.tokens@.len(),
                tokens == self.tokens(),
                position <= len,
                target == pipeline_from(tokens, start as int, seq![], false),
                pipeline_from(tokens, position as int, invocations_view(commands@), is_background)
                    == target,
            decreases len - position,
        {
            let ghost pos = position as int;
            let ghost scan = scan_invocation(tokens, pos, seq![], None, None);
            proof {
                lemma_scan_invocation_bounds(tokens, pos, seq![], None, None);
            }
            proof {
                assert(tokens[pos].0 == self.tokens@[pos]@.0);
                assert(tokens[pos].0 != TokenType::Eof);
            }
            let ghost cmds_before = invocations_view(commands@);
            let (invocation, end) = self.command_invocation(position);
            position = end;
            match invocation {
                None => {
                    proof {
                        assert(pipeline_from(tokens, pos, cmds_before, is_background) == (
                            ParseOutcome::Undefined,
                            scan.3,
                        ));
                        assert(target == (ParseOutcome::Undefined, scan.3));
                        assert(position == scan.3);
                    }
                    return (PipelineStep::Undefined, position);
                },
                Some(invocation) => {
                    let ghost before = invocations_view(commands@);
                    commands.push(invocation);
                    proof {
                        assert(invocations_view(commands@) =~= before.push(
                            invocation_of(scan.0, scan.1, scan.2),
                        ));
                    }
                },
            }
            if position < len && self.tokens[position].token_type == TokenType::Pipe {
                position = position + 1;
            } else if position < len && self.tokens[position].token_type == TokenType::Ampersand {
                position = position + 1;
                is_background = true;
                if position >= len {
                    return (PipelineStep::Undefined, position);
                }
                if self.tokens[position].token_type != TokenType::Eof {
                    let message = String::from_str(
                        "Syntax error: '&' must be at the end of the command",
                    );
                    return (PipelineStep::Rejected(message), position);
                }
            } else {
                return (PipelineStep::Parsed(Pipeline { commands, is_background }), position);
            }
        }
        (PipelineStep::Parsed(Pipeline { commands, is_background }), position)
    }

    /// Reads one command from `start` on; `None` when it has no word.
    fn command_invocation(&self, start: usize) -> (result: (Option<CommandInvocation>, usize))
        requires
            start <= self.tokens@.len(),
        ensures
            ({
                let scan = scan_invocation(self.tokens(), start as int, seq![], None, None);
                &&& result.1 == scan.3
                &&& result.0 is Some <==> scan.0.len() > 0
                &&& result.0 matches Some(c) ==> c@ == invocation_of(scan.0, scan.1, scan.2)
            }),
    {
        let ghost tokens = self.tokens();
        let ghost target = scan_invocation(tokens, start as int, seq![], None, None);
        let mut words: Vec<String> = Vec::new();
        let mut stdout_redirection: Option<Redirection> = None;
        let mut stderr_redirection: Option<Redirection> = None;
        let mut position = start;
        let len = self.tokens.len();
        proof {
            assert(strings_view(words@) =~= Seq::<Seq<char>>::empty());
        }

        while position < len && self.tokens[position].token_type != TokenType::Eof
            && self.tokens[position].token_type != TokenType::Pipe
            && self.tokens[position].token_type != TokenType::Ampersand
            invariant
                len == self.tokens@.len(),
                tokens == self.tokens(),
                position <= len,
                scan_invocation(
                    tokens,
                    position as int,
                    strings_view(words@),
                    redirection_view(stdout_redirection),
                    redirection_view(stderr_redirection),
                ) == target,
                target == scan_invocation(tokens, start as int, seq![], None, None),
            decreases len - position,
        {
            let token_type = self.tokens[position].token_type;
            if token_type == TokenType::Word {
                let ghost before = strings_view(words@);
                words.push(self.tokens[position].lexeme.clone());
                proof {
                    assert(strings_view(words@) =~= before.push(tokens[position as int].1));
                }
                position = position + 1;
            } else if token_type == TokenType::RedirectOut || token_type
                == TokenType::RedirectAppend {
                let mode = if token_type == TokenType::RedirectAppend {
                    RedirectionMode::Append
                } else {
                    RedirectionMode::Overwrite
                };
                position = position + 1;
                if position < len && self.tokens[position].token_type == TokenType::Word {
                    stdout_redirection = Some(
                        Redirection { mode, file_path: self.tokens[position].lexeme.clone() },
                    );
                    position = position + 1;
                }
            } else if token_type == TokenType::RedirectStdErr || token_type
                == TokenType::RedirectStdErrAppend {
                let mode = if token_type == TokenType::RedirectStdErrAppend {
                    RedirectionMode::Append
                } else {
                    RedirectionMode::Overwrite
                };
                position = position + 1;
                if position < len && self.tokens[position].token_type == TokenType::Word {
                    stderr_redirection = Some(
                        Redirection { mode, file_path: self.tokens[position].lexeme.clone() },
                    );
                    position = position + 1;
                }
            } else {
                position = position + 1;
            }
        }
        if words.len() == 0 {
            return (None, position);
        }
        let ghost all_words = strings_view(words@);
        let name = words.remove(0);
        proof {
            assert(strings_view(words@) =~= all_words.subrange(1, all_words.len() as int));
        }
        let invocation = CommandInvocation {
            name,
            arguments: words,
            stdout_redirection,
            stderr_redirection,
        };
        (Some(invocation), position)
    }
}

} // verus!
