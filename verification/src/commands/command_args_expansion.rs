//! The older expansion of variables in the arguments of statements: everything after the
//! first `$` that is not the last character names a variable.
use crate::commands::command::Command;
use crate::commands::expansion::variable_value;
use crate::commands::statement::{Pipeline, RedirectStatement, statements_view};
use crate::state::declare_store::{self, DeclareStore};
use crate::syntax::command_invocation::InvocationView;
use crate::syntax::pipeline::PipelineView;
use crate::text::{chars_of, find_char, lemma_find_char, push_char, strings_view, string_from_range};
use vstd::prelude::*;

verus! {

/// The position of the `$` that starts a variable reference: the first `$`, unless it is
/// the last character.
pub open spec fn reference_start(arg: Seq<char>) -> Option<int> {
    match find_char(arg, '$', 0) {
        Some(i) => if i < arg.len() - 1 {
            Some(i)
        } else {
            None
        },
        None => None,
    }
}

/// An argument after expansion: the text before the reference, followed by the value of
/// the variable named by the rest of the argument (nothing when it is not declared).
pub open spec fn expand_argument(arg: Seq<char>, vars: Map<Seq<char>, Seq<char>>) -> Seq<char> {
    match reference_start(arg) {
        Some(i) => arg.take(i) + variable_value(vars, arg.skip(i + 1)),
        None => arg,
    }
}

/// A statement with its arguments expanded.
pub open spec fn expand_statement(s: InvocationView, vars: Map<Seq<char>, Seq<char>>) -> InvocationView {
    InvocationView {
        arguments: s.arguments.map_values(|a: Seq<char>| expand_argument(a, vars)),
        ..s
    }
}

/// A pipeline with the arguments of every statement expanded.
pub open spec fn expand_statements(p: PipelineView, vars: Map<Seq<char>, Seq<char>>) -> PipelineView {
    PipelineView {
        commands: p.commands.map_values(|s: InvocationView| expand_statement(s, vars)),
        ..p
    }
}

/// Expands the variable references in the arguments of every statement of the pipeline.
pub fn command_args_expansion(pipeline: &mut Pipeline, store: &DeclareStore)
    ensures
        final(pipeline)@ == expand_statements(old(pipeline)@, store@),
{
    let ghost initial = pipeline@;
    let n = pipeline.segments.len();
    let mut segments: Vec<RedirectStatement> = Vec::new();
    let mut i: usize = 0;
    while i < n
        invariant
            i <= n,
            n == initial.commands.len(),
            initial == old(pipeline)@,
            statements_view(pipeline.segments@) == initial.commands.skip(i as int),
            pipeline.segments@.len() == n - i,
            pipeline.is_background == initial.is_background,
            statements_view(segments@) == initial.commands.take(i as int).map_values(
                |s: InvocationView| expand_statement(s, store@),
            ),
        decreases n - i,
    {
        let ghost remaining = statements_view(pipeline.segments@);
        proof {
            assert(remaining[0] == initial.commands.skip(i as int)[0]);
        }
        let mut segment = pipeline.segments.remove(0);
        proof {
            assert(segment@ == remaining[0]);
            assert(segment@ == initial.commands[i as int]);
            assert(statements_view(pipeline.segments@) =~= remaining.drop_first());
            assert(remaining.drop_first() =~= initial.commands.skip(i + 1));
        }
        expand_command_arguments(&mut segment.command, store);
        let ghost before = statements_view(segments@);
        segments.push(segment);
        proof {
            assert(statements_view(segments@) =~= before.push(
                expand_statement(initial.commands[i as int], store@),
            ));
            assert(initial.commands.take(i + 1) =~= initial.commands.take(i as int).push(
                initial.commands[i as int],
            ));
        }
        i = i + 1;
    }
    proof {
        assert(initial.commands.take(n as int) =~= initial.commands);
        assert(initial.commands.map_values(|s: InvocationView| expand_statement(s, store@))
            == expand_statements(initial, store@).commands);
    }
    pipeline.segments = segments;
    proof {
        assert(pipeline@ =~= expand_statements(initial, store@));
    }
}

fn expand_one(arg: &String, store: &DeclareStore) -> (expanded: String)
    ensures
        expanded@ == expand_argument(arg@, store@),
{
    let chars = chars_of(arg.as_str());
    let n = chars.len();
    let mut i: usize = 0;
    while i < n && chars[i] != '$'
        invariant
            i <= n,
            n == chars@.len(),
            chars@ == arg@,
            find_char(arg@, '$', i as int) == find_char(arg@, '$', 0),
        decreases n - i,
    {
        i = i + 1;
    }
    proof {
        lemma_find_char(arg@, '$', 0);
    }
    if i >= n || i == n - 1 {
        return arg.clone();
    }
    let mut expanded = string_from_range(&chars, 0, i);
    let name = string_from_range(&chars, i + 1, n);
    proof {
        assert(name@ =~= arg@.skip(i + 1));
        assert(expanded@ =~= arg@.take(i as int));
    }
    match declare_store::get(store, name.as_str()) {
        Some(value) => {
            expanded.append(value.as_str());
        },
        None => {},
    }
    expanded
}

fn expand_command_arguments(command: &mut Command, store: &DeclareStore)
    ensures
        final(command)@.0 == old(command)@.0,
        final(command)@.1 == old(command)@.1.map_values(|a: Seq<char>| expand_argument(a, store@)),
{
    let ghost initial = command@.1;
    let mut expanded: Vec<String> = Vec::new();
    let mut i: usize = 0;
    while i < command.arguments.len()
        invariant
            i <= command.arguments@.len(),
            strings_view(command.arguments@) == initial,
            command@.0 == old(command)@.0,
            initial == old(command)@.1,
            strings_view(expanded@) == initial.take(i as int).map_values(
                |a: Seq<char>| expand_argument(a, store@),
            ),
        decreases command.arguments@.len() - i,
    {
        let value = expand_one(&command.arguments[i], store);
        let ghost before = strings_view(expanded@);
        expanded.push(value);
        proof {
            assert(strings_view(expanded@) =~= before.push(expand_argument(initial[i as int], store@)));
            assert(initial.take(i + 1) =~= initial.take(i as int).push(initial[i as int]));
        }
        i = i + 1;
    }
    proof {
        assert(initial.take(command.arguments@.len() as int) =~= initial);
    }
    command.arguments = expanded;
}

} // verus!
