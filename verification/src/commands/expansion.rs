//! Replaces `$NAME` and `${NAME}` in command arguments by the values of declared variables.
//!
//! `${NAME}` ends at the first `}`. `$NAME` takes the whole rest of the argument as the
//! name. A `$` at the end of an argument, or followed by a `{` that is never closed, stays
//! as it is. Undeclared variables expand to nothing, and arguments that expand to nothing
//! are dropped.
use crate::state::declare_store::{self, DeclareStore};
use crate::syntax::command_invocation::{CommandInvocation, InvocationView, invocations_view};
use crate::syntax::pipeline::{Pipeline, PipelineView};
use crate::text::{chars_of, push_char, string_from_range, strings_view};
use vstd::prelude::*;

verus! {

/// The value of a variable, or nothing when it is not declared.
pub open spec fn variable_value(vars: Map<Seq<char>, Seq<char>>, name: Seq<char>) -> Seq<char> {
    if vars.contains_key(name) {
        vars[name]
    } else {
        seq![]
    }
}

/// The position of the first `}` at or after `from`.
pub open spec fn closing_brace(src: Seq<char>, from: int) -> Option<int>
    decreases src.len() - from,
{
    if from < 0 || from >= src.len() {
        None
    } else if src[from] == '}' {
        Some(from)
    } else {
        closing_brace(src, from + 1)
    }
}

/// `closing_brace` finds a `}` at or after `from`, and finds none only when there is none
/// there.
pub proof fn lemma_closing_brace(src: Seq<char>, from: int)
    requires
        0 <= from,
    ensures
        closing_brace(src, from) matches Some(j) ==> from <= j < src.len() && src[j] == '}',
        closing_brace(src, from) is None ==> forall|k: int| from <= k < src.len() ==> src[k]
            != '}',
    decreases src.len() - from,
{
    if from < src.len() && src[from] != '}' {
        lemma_closing_brace(src, from + 1);
    }
}

/// The expansion of the characters of an argument from position `i` on.
pub open spec fn expand_from(src: Seq<char>, i: int, vars: Map<Seq<char>, Seq<char>>) -> Seq<char>
    decreases src.len() - i,
{
    if i < 0 || i >= src.len() {
        seq![]
    } else if src[i] != '$' {
        seq![src[i]] + expand_from(src, i + 1, vars)
    } else if i + 1 >= src.len() {
        seq!['$']
    } else if src[i + 1] == '{' {
        match closing_brace(src, i + 2) {
            Some(j) => {
                proof {
                    lemma_closing_brace(src, i + 2);
                }
                variable_value(vars, src.subrange(i + 2, j)) + expand_from(src, j + 1, vars)
            },
            None => seq!['$'] + expand_from(src, i + 1, vars),
        }
    } else {
        variable_value(vars, src.subrange(i + 1, src.len() as int))
    }
}

/// The expansion of one argument.
pub open spec fn expand_word(word: Seq<char>, vars: Map<Seq<char>, Seq<char>>) -> Seq<char> {
    expand_from(word, 0, vars)
}

/// The expanded arguments, without those that expand to nothing.
pub open spec fn expand_arguments(args: Seq<Seq<char>>, vars: Map<Seq<char>, Seq<char>>) -> Seq<
    Seq<char>,
> {
    args.map_values(|a: Seq<char>| expand_word(a, vars)).filter(|a: Seq<char>| a.len() > 0)
}

/// A command with its arguments expanded.
pub open spec fn expand_invocation(c: InvocationView, vars: Map<Seq<char>, Seq<char>>) -> InvocationView {
    InvocationView {
        name: c.name,
        arguments: expand_arguments(c.arguments, vars),
        stdout_redirection: c.stdout_redirection,
        stderr_redirection: c.stderr_redirection,
    }
}

/// A pipeline with the arguments of every command expanded.
pub open spec fn expand_pipeline_view(p: PipelineView, vars: Map<Seq<char>, Seq<char>>) -> PipelineView {
    PipelineView {
        commands: p.commands.map_values(|c: InvocationView| expand_invocation(c, vars)),
        is_background: p.is_background,
    }
}

/// Law: an argument without `$` expands to itself.
pub proof fn law_text_without_dollar_is_kept(word: Seq<char>, vars: Map<Seq<char>, Seq<char>>)
    requires
        !word.contains('$'),
    ensures
        expand_word(word, vars) == word,
{
    lemma_expand_without_dollar(word, 0, vars);
    assert(word.subrange(0, word.len() as int) =~= word);
}

proof fn lemma_expand_without_dollar(word: Seq<char>, i: int, vars: Map<Seq<char>, Seq<char>>)
    requires
        0 <= i <= word.len(),
        !word.contains('$'),
    ensures
        expand_from(word, i, vars) == word.subrange(i, word.len() as int),
    decreases word.len() - i,
{
    if i < word.len() {
        if word[i] == '$' {
            assert(word.contains('$'));
        }
        lemma_expand_without_dollar(word, i + 1, vars);
        assert(seq![word[i]] + word.subrange(i + 1, word.len() as int) =~= word.subrange(
            i,
            word.len() as int,
        ));
    } else {
        assert(word.subrange(i, word.len() as int) =~= Seq::<char>::empty());
    }
}

/// Law: `$NAME`, where the name does not start with `{`, expands to the variable's value
/// (to nothing when it is not declared).
pub proof fn law_plain_reference_expands_to_value(name: Seq<char>, vars: Map<Seq<char>, Seq<char>>)
    requires
        name.len() > 0,
        name[0] != '{',
    ensures
        expand_word(seq!['$'] + name, vars) == variable_value(vars, name),
{
    let src = seq!['$'] + name;
    assert(src.subrange(1, src.len() as int) =~= name);
}

proof fn lemma_closing_brace_shift(p: Seq<char>, r: Seq<char>, k: int)
    requires
        0 <= k,
    ensures
        closing_brace(p + r, p.len() + k) == match closing_brace(r, k) {
            Some(j) => Some(j + p.len()),
            None => None,
        },
    decreases r.len() - k,
{
    if k < r.len() {
        assert((p + r)[p.len() + k] == r[k]);
        if r[k] != '}' {
            lemma_closing_brace_shift(p, r, k + 1);
        }
    }
}

proof fn lemma_expand_shift(p: Seq<char>, r: Seq<char>, k: int, vars: Map<Seq<char>, Seq<char>>)
    requires
        0 <= k,
    ensures
        expand_from(p + r, p.len() + k, vars) == expand_from(r, k, vars),
    decreases r.len() - k,
{
    let src = p + r;
    let i = p.len() + k;
    if k < r.len() {
        assert(src[i] == r[k]);
        if r[k] != '$' {
            lemma_expand_shift(p, r, k + 1, vars);
        } else if k + 1 < r.len() {
            assert(src[i + 1] == r[k + 1]);
            if r[k + 1] == '{' {
                lemma_closing_brace_shift(p, r, k + 2);
                match closing_brace(r, k + 2) {
                    Some(j) => {
                        lemma_closing_brace(r, k + 2);
                        assert(src.subrange(i + 2, j + p.len()) =~= r.subrange(k + 2, j));
                        lemma_expand_shift(p, r, j + 1, vars);
                    },
                    None => {
                        lemma_expand_shift(p, r, k + 1, vars);
                    },
                }
            } else {
                assert(src.subrange(i + 1, src.len() as int) =~= r.subrange(k + 1, r.len() as int));
            }
        }
    }
}

/// Law: `${NAME}` followed by more text expands to the variable's value followed by the
/// expansion of that text, when the name holds no `}`.
pub proof fn law_braced_reference_expands_to_value(
    name: Seq<char>,
    rest: Seq<char>,
    vars: Map<Seq<char>, Seq<char>>,
)
    requires
        !name.contains('}'),
    ensures
        expand_word(seq!['$', '{'] + name + seq!['}'] + rest, vars) == variable_value(vars, name)
            + expand_word(rest, vars),
{
    let head = seq!['$', '{'] + name + seq!['}'];
    let src = head + rest;
    let close: int = name.len() as int + 2;
    assert forall|k: int| 2 <= k < close implies src[k] != '}' by {
        assert(src[k] == name[k - 2]);
        if name[k - 2] == '}' {
            assert(name.contains('}'));
        }
    }
    assert(src[close] == '}');
    lemma_closing_brace_found(src, 2, close);
    assert(src.subrange(2, close) =~= name);
    lemma_expand_shift(head, rest, 0, vars);
    assert(head.len() == close + 1);
}

proof fn lemma_closing_brace_found(src: Seq<char>, from: int, close: int)
    requires
        0 <= from <= close < src.len(),
        src[close] == '}',
        forall|k: int| from <= k < close ==> src[k] != '}',
    ensures
        closing_brace(src, from) == Some(close),
    decreases close - from,
{
    if from < close {
        lemma_closing_brace_found(src, from + 1, close);
    }
}

/// Law: no argument expands to nothing: those that would are dropped.
pub proof fn law_expanded_arguments_are_nonempty(
    args: Seq<Seq<char>>,
    vars: Map<Seq<char>, Seq<char>>,
)
    ensures
        forall|k: int|
            0 <= k < expand_arguments(args, vars).len() ==> (#[trigger] expand_arguments(
                args,
                vars,
            )[k]).len() > 0,
{
    let mapped = args.map_values(|a: Seq<char>| expand_word(a, vars));
    let keep = |a: Seq<char>| a.len() > 0;
    assert forall|k: int| 0 <= k < expand_arguments(args, vars).len() implies (
    #[trigger] expand_arguments(args, vars)[k]).len() > 0 by {
        mapped.lemma_filter_pred(keep, k);
    }
}

/// Expands the arguments of every command of the pipeline.
pub fn expand_pipeline(pipeline: &mut Pipeline, store: &DeclareStore)
    ensures
        final(pipeline)@ == expand_pipeline_view(old(pipeline)@, store@),
{
    let ghost all = invocations_view(pipeline.commands@);
    let mut remaining: Vec<CommandInvocation> = Vec::new();
    std::mem::swap(&mut remaining, &mut pipeline.commands);
    let n = remaining.len();
    let mut done: Vec<CommandInvocation> = Vec::new();
    let mut k: usize = 0;
    let ghost f = |c: InvocationView| expand_invocation(c, store@);
    while k < n
        invariant
            n == all.len(),
            k <= n,
            remaining@.len() == n - k,
            invocations_view(remaining@) == all.skip(k as int),
            invocations_view(done@) == all.take(k as int).map_values(f),
            f == (|c: InvocationView| expand_invocation(c, store@)),
        decreases n - k,
    {
        let ghost rem_before = remaining@;
        let mut command = remaining.remove(0);
        proof {
            assert(invocations_view(rem_before)[0] == all.skip(k as int)[0]);
            assert(command@ == all[k as int]);
            assert forall|j: int| 0 <= j < remaining@.len() implies #[trigger] invocations_view(
                remaining@,
            )[j] == all.skip(k + 1)[j] by {
                assert(remaining@[j] == rem_before[j + 1]);
                assert(invocations_view(rem_before)[j + 1] == all.skip(k as int)[j + 1]);
            }
            assert(invocations_view(remaining@) =~= all.skip(k + 1));
        }
        expand_command_arguments(&mut command, store);
        let ghost before = invocations_view(done@);
        done.push(command);
        k = k + 1;
        proof {
            assert(all.take(k as int) =~= all.take(k - 1).push(all[k - 1]));
            assert(invocations_view(done@) =~= before.push(f(all[k - 1])));
            assert(invocations_view(done@) =~= all.take(k as int).map_values(f));
        }
    }
    proof {
        assert(all.take(n as int) =~= all);
    }
    pipeline.commands = done;
}

/// Expands the arguments of one command and drops those that expand to nothing.
fn expand_command_arguments(command: &mut CommandInvocation, store: &DeclareStore)
    ensures
        final(command)@ == expand_invocation(old(command)@, store@),
{
    let ghost args = strings_view(command.arguments@);
    let ghost expanded = args.map_values(|a: Seq<char>| expand_word(a, store@));
    let ghost keep = |a: Seq<char>| a.len() > 0;
    let mut kept: Vec<String> = Vec::new();
    let mut i: usize = 0;
    let n = command.arguments.len();
    proof {
        reveal(Seq::filter);
        assert(expanded.take(0) =~= Seq::<Seq<char>>::empty());
        assert(strings_view(kept@) =~= expanded.take(0).filter(keep));
    }
    while i < n
        invariant
            n == command.arguments@.len(),
            args == strings_view(command.arguments@),
            expanded == args.map_values(|a: Seq<char>| expand_word(a, store@)),
            keep == (|a: Seq<char>| a.len() > 0),
            i <= n,
            strings_view(kept@) == expanded.take(i as int).filter(keep),
        decreases n - i,
    {
        let scanner = ArgScanner::new(&command.arguments[i]);
        let value = scanner.scan_argument(store);
        proof {
            assert(expanded.take(i + 1) =~= expanded.take(i as int).push(expanded[i as int]));
            expanded.take(i as int).lemma_filter_push(expanded[i as int], keep);
        }
        if !value.as_str().is_empty() {
            let ghost before = strings_view(kept@);
            kept.push(value);
            proof {
                assert(strings_view(kept@) =~= before.push(expanded[i as int]));
            }
        }
        i = i + 1;
    }
    proof {
        assert(expanded.take(n as int) =~= expanded);
    }
    command.arguments = kept;
}

/// Scans one argument, expanding the variables in it.
struct ArgScanner {
    source: Vec<char>,
    current: usize,
    string_builder: String,
}

impl ArgScanner {
    fn new(argument_string: &String) -> (scanner: ArgScanner)
        ensures
            scanner.source@ == argument_string@,
            scanner.current == 0,
            scanner.string_builder@ == Seq::<char>::empty(),
    {
        ArgScanner {
            source: chars_of(argument_string.as_str()),
            current: 0,
            string_builder: String::new(),
        }
    }

    fn scan_argument(self, store: &DeclareStore) -> (expanded: String)
        requires
            self.current == 0,
            self.string_builder@ == Seq::<char>::empty(),
        ensures
            expanded@ == expand_word(self.source@, store@),
    {
        let mut scanner = self;
        let ghost src = scanner.source@;
        while !scanner.is_at_end()
            invariant
                scanner.source@ == src,
                scanner.current <= src.len(),
                scanner.string_builder@ + expand_from(src, scanner.current as int, store@)
                    == expand_from(src, 0, store@),
            decreases src.len() - scanner.current,
        {
            scanner.scan_char(store);
        }
        proof {
            assert(scanner.string_builder@ + Seq::<char>::empty() == scanner.string_builder@);
        }
        scanner.string_builder
    }

    fn is_at_end(&self) -> (at_end: bool)
        ensures
            at_end == (self.current >= self.source@.len()),
    {
        self.current >= self.source.len()
    }

    /// Scans the character at the current position, and a variable reference that it
    /// starts.
    fn scan_char(&mut self, store: &DeclareStore)
        requires
            old(self).current < old(self).source@.len(),
        ensures
            final(self).source@ == old(self).source@,
            old(self).current < final(self).current <= final(self).source@.len(),
            final(self).string_builder@ + expand_from(
                final(self).source@,
                final(self).current as int,
                store@,
            ) == old(self).string_builder@ + expand_from(
                old(self).source@,
                old(self).current as int,
                store@,
            ),
    {
        let ghost src = self.source@;
        let ghost i = self.current as int;
        let c = self.advance();
        if c == '$' {
            if self.is_at_end() {
                push_char(&mut self.string_builder, '$');
                proof {
                    assert(expand_from(src, self.current as int, store@) =~= Seq::<char>::empty());
                    assert(self.string_builder@ + Seq::<char>::empty() =~= old(
                        self,
                    ).string_builder@ + seq!['$']);
                }
            } else {
                self.expand_variable(store);
            }
        } else {
            push_char(&mut self.string_builder, c);
            proof {
                assert(self.string_builder@ + expand_from(src, self.current as int, store@)
                    =~= old(self).string_builder@ + (seq![c] + expand_from(src, i + 1, store@)));
            }
        }
    }

    /// Expands the variable reference that follows a `$` just consumed.
    fn expand_variable(&mut self, store: &DeclareStore)
        requires
            1 <= old(self).current < old(self).source@.len(),
            old(self).source@[old(self).current - 1] == '$',
        ensures
            final(self).source@ == old(self).source@,
            old(self).current <= final(self).current <= final(self).source@.len(),
            final(self).string_builder@ + expand_from(
                final(self).source@,
                final(self).current as int,
                store@,
            ) == old(self).string_builder@ + expand_from(
                old(self).source@,
                old(self).current - 1,
                store@,
            ),
    {
        let ghost src = self.source@;
        let ghost i = self.current - 1;
        let len = self.source.len();
        let name_start: usize;
        let name_end: usize;
        let resume_at: usize;
        if self.peek() == '{' {
            match self.find_closing_brace() {
                Some(closing_brace_index) => {
                    proof {
                        lemma_closing_brace(src, i + 2);
                    }
                    name_start = self.current + 1;
                    name_end = closing_brace_index;
                    resume_at = closing_brace_index + 1;
                },
                None => {
                    push_char(&mut self.string_builder, '$');
                    proof {
                        assert(self.string_builder@ + expand_from(src, self.current as int, store@)
                            =~= old(self).string_builder@ + (seq!['$'] + expand_from(
                            src,
                            i + 1,
                            store@,
                        )));
                    }
                    return ;
                },
            }
        } else {
            name_start = self.current;
            name_end = len;
            resume_at = len;
        }
        let variable_name = string_from_range(&self.source, name_start, name_end);
        match declare_store::get(store, variable_name.as_str()) {
            Some(variable_value) => {
                self.string_builder.append(variable_value.as_str());
            },
            None => {
                proof {
                    assert(self.string_builder@ =~= self.string_builder@ + variable_value(
                        store@,
                        variable_name@,
                    ));
                }
            },
        }
        self.current = resume_at;
        proof {
            if resume_at == len {
                assert(expand_from(src, len as int, store@) =~= Seq::<char>::empty());
            }
            assert(self.string_builder@ + expand_from(src, self.current as int, store@) =~= old(
                self,
            ).string_builder@ + expand_from(src, i, store@));
        }
    }

    /// The position of the `}` that closes the `{` at the current position, if any.
    fn find_closing_brace(&self) -> (found: Option<usize>)
        ensures
            found == (if char_at_scanner(self.source@, self.current as int) != '{' {
                None
            } else {
                match closing_brace(self.source@, self.current + 1) {
                    Some(j) => Some(j as usize),
                    None => None,
                }
            }),
    {
        if self.peek() != '{' {
            return None;
        }
        let ghost src = self.source@;
        let len = self.source.len();
        let mut index = self.current + 1;
        while index < len
            invariant
                len == src.len(),
                char_at_scanner(src, self.current as int) == '{',
                self.current < index <= src.len(),
                src == self.source@,
                closing_brace(src, index as int) == closing_brace(src, self.current + 1),
            decreases src.len() - index,
        {
            if self.source[index] == '}' {
                return Some(index);
            }
            index = index + 1;
        }
        None
    }

    fn advance(&mut self) -> (c: char)
        requires
            old(self).current < old(self).source@.len(),
        ensures
            c == old(self).source@[old(self).current as int],
            final(self).current == old(self).current + 1,
            final(self).source@ == old(self).source@,
            final(self).string_builder@ == old(self).string_builder@,
    {
        let len = self.source.len();
        let c = self.source[self.current];
        proof {
            assert(self.current < len);
        }
        self.current = self.current + 1;
        c
    }

    fn peek(&self) -> (c: char)
        ensures
            c == char_at_scanner(self.source@, self.current as int),
    {
        if self.is_at_end() {
            '\0'
        } else {
            self.source[self.current]
        }
    }
}

/// The character at `i`, or `'\0'` past the end.
spec fn char_at_scanner(src: Seq<char>, i: int) -> char {
    if 0 <= i < src.len() {
        src[i]
    } else {
        '\0'
    }
}

} // verus!
