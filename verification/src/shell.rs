//! Reading one command line: recording it, scanning it and parsing it.
use crate::numbers::{decimal, u32_to_string, usize_to_string};
use crate::state::history_store::{self, HistoryStore};
use crate::syntax::error::SyntaxError;
use crate::syntax::parser::{ParseOutcome, Parser, parse_tokens};
use crate::syntax::pipeline::Pipeline;
use crate::syntax::scanner::lexer::{Lexer, QuoteKind, lex, open_quotes};
use crate::text::join;
use vstd::prelude::*;

verus! {

impl QuoteKind {
    /// The warning shown for a quote left open.
    pub fn message(&self) -> (text: &'static str)
        ensures
            text@ == match self {
                QuoteKind::Single => "Unterminated single quote"@,
                QuoteKind::Double => "Unterminated double quote"@,
            },
    {
        match self {
            QuoteKind::Single => "Unterminated single quote",
            QuoteKind::Double => "Unterminated double quote",
        }
    }
}

/// What a command line comes to.
#[derive(Debug)]
pub enum LineOutcome {
    /// Nothing to run.
    Empty,
    /// A pipeline to run.
    Run(Pipeline),
    /// The line is refused.
    Rejected(SyntaxError),
    /// The line holds a command without a word (such as `| ls` or `> file`), on which
    /// the parser is not defined.
    Unparsable,
}

/// Records `line` in the history, then scans and parses it. Also gives the quotes that
/// the line left open, to be reported.
pub fn prepare_line(line: String, history: &mut HistoryStore) -> (result: (Vec<QuoteKind>, LineOutcome))
    ensures
        final(history)@ == old(history)@.push(line@),
        result.0@ == open_quotes(line@),
        match parse_tokens(lex(line@), 0).0 {
            ParseOutcome::Nothing => result.1 is Empty,
            ParseOutcome::Parsed(p) => result.1 matches LineOutcome::Run(q) && q@ == p,
            ParseOutcome::Rejected(m) => result.1 matches LineOutcome::Rejected(
                SyntaxError::Parser(e),
            ) && e@ == m,
            ParseOutcome::Undefined => result.1 is Unparsable,
        },
{
    let ghost text = line@;
    history_store::push(history, line.clone());
    let scanner = Lexer::new(line);
    let (tokens, open_quotes) = scanner.scan();
    let mut parser = Parser::new(tokens);
    proof {
        assert(parser.tokens() == lex(text));
    }
    if !parser.is_parsable() {
        return (open_quotes, LineOutcome::Unparsable);
    }
    match parser.parse() {
        Ok(None) => (open_quotes, LineOutcome::Empty),
        Ok(Some(pipeline)) => (open_quotes, LineOutcome::Run(pipeline)),
        Err(error) => (open_quotes, LineOutcome::Rejected(error)),
    }
}

/// The line announcing a job started in the background: its number in brackets, then the
/// process ids separated by spaces.
pub open spec fn job_started_text(id: usize, pids: Seq<u32>) -> Seq<char> {
    "["@ + decimal(id as nat) + "] "@ + join(pids.map_values(|p: u32| decimal(p as nat)), " "@)
        + "\n"@
}

/// The line announcing a job started in the background.
pub fn job_started_message(id: usize, pids: &Vec<u32>) -> (text: String)
    ensures
        text@ == job_started_text(id, pids@),
{
    let mut text = String::from_str("[");
    text.append(usize_to_string(id).as_str());
    text.append("] ");
    let ghost parts = pids@.map_values(|p: u32| decimal(p as nat));
    let mut i: usize = 0;
    while i < pids.len()
        invariant
            i <= pids@.len(),
            parts == pids@.map_values(|p: u32| decimal(p as nat)),
            text@ == "["@ + decimal(id as nat) + "] "@ + join(parts.take(i as int), " "@),
        decreases pids@.len() - i,
    {
        let ghost before = text@;
        if i > 0 {
            text.append(" ");
        }
        text.append(u32_to_string(pids[i]).as_str());
        proof {
            assert(parts.take(i + 1).drop_last() =~= parts.take(i as int));
            if i == 0 {
                assert(parts.take(1) =~= seq![parts[0]]);
                assert(parts.take(0) =~= Seq::<Seq<char>>::empty());
            }
            assert(text@ =~= "["@ + decimal(id as nat) + "] "@ + join(parts.take(i + 1), " "@));
        }
        i = i + 1;
    }
    proof {
        assert(parts.take(pids@.len() as int) =~= parts);
    }
    text.append("\n");
    text
}

} // verus!
