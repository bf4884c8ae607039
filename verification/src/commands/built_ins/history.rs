//! `history`: lists the command lines entered, and reads or writes history files.
use crate::completion::starts_with;
use crate::numbers::{decimal, parse_usize, usize_text_value, usize_to_string};
use crate::state::history_store::{self, HistoryStore};
use crate::syntax::command_invocation::CommandInvocation;
use crate::text::{
    append_padded_left,
    is_nonempty,
    join,
    join_strings,
    lemma_lines_of_line_then_rest,
    lines,
    nonempty_lines,
    pad_left,
    split_lines,
    str_eq,
    strings_view,
};
use vstd::prelude::*;

verus! {

/// What a history file is used for.
#[derive(Clone, Copy, Debug, PartialEq, Eq, Structural)]
pub enum HistoryFileAction {
    /// `history -a`: append the entries since the last `history -a`.
    Append,
    /// `history -r`: read entries from the file.
    Read,
    /// `history -w`: write all entries to the file.
    Write,
}

/// A history file operation that `history` asks the caller to carry out.
#[derive(Debug)]
pub struct HistoryFileRequest {
    pub action: HistoryFileAction,
    pub path: String,
}

impl View for HistoryFileRequest {
    type V = (HistoryFileAction, Seq<char>);

    open spec fn view(&self) -> (HistoryFileAction, Seq<char>) {
        (self.action, self.path@)
    }
}

/// The listing line of entry `k`: its number right-aligned in five columns, two spaces and
/// the entry.
pub open spec fn history_line(entries: Seq<Seq<char>>, k: int) -> Seq<char> {
    pad_left(decimal((k + 1) as nat), 5) + "  "@ + entries[k] + "\n"@
}

/// The listing lines of the entries from `from` up to `to`.
pub open spec fn history_listing(entries: Seq<Seq<char>>, from: int, to: int) -> Seq<char>
    decreases to - from,
{
    if to <= from {
        seq![]
    } else {
        history_listing(entries, from, to - 1) + history_line(entries, to - 1)
    }
}

/// The first entry shown when asked for the last `n` entries; all are shown when `n` is
/// negative.
pub open spec fn first_shown(count: int, n: i16) -> int {
    if n < 0 {
        0
    } else if count > n {
        count - n
    } else {
        0
    }
}

/// Writes the last `n_entries_to_show` entries, or all of them when it is negative.
pub fn print_history(n_entries_to_show: i16, store: &HistoryStore, output: &mut String)
    ensures
        final(output)@ == old(output)@ + history_listing(
            store@,
            first_shown(store@.len() as int, n_entries_to_show),
            store@.len() as int,
        ),
{
    let entries = history_store::get_all(store);
    let count = entries.len();
    let skip: usize = if n_entries_to_show < 0 {
        0
    } else {
        count.saturating_sub(n_entries_to_show as usize)
    };
    let mut i = skip;
    while i < count
        invariant
            skip <= i <= count,
            count == entries@.len(),
            strings_view(entries@) == store@,
            skip == first_shown(count as int, n_entries_to_show),
            output@ == old(output)@ + history_listing(store@, skip as int, i as int),
        decreases count - i,
    {
        let number = usize_to_string(i + 1);
        append_padded_left(output, number.as_str(), 5);
        output.append("  ");
        output.append(entries[i].as_str());
        output.append("\n");
        proof {
            assert(store@[i as int] == entries@[i as int]@);
        }
        i = i + 1;
    }
}

/// What `history` writes to its output and error stream, and the file operation it asks
/// for.
pub open spec fn history_result(arguments: Seq<Seq<char>>, entries: Seq<Seq<char>>) -> (
    Seq<char>,
    Seq<char>,
    Option<(HistoryFileAction, Seq<char>)>,
) {
    if arguments.len() == 0 {
        (history_listing(entries, 0, entries.len() as int), seq![], None)
    } else if arguments[0] == "-a"@ {
        if arguments.len() < 2 {
            (seq![], "history: -a: filename argument required\n"@, None)
        } else {
            (seq![], seq![], Some((HistoryFileAction::Append, arguments[1])))
        }
    } else if arguments[0] == "-r"@ {
        if arguments.len() < 2 {
            (seq![], "history: -r: filename argument required\n"@, None)
        } else {
            (seq![], seq![], Some((HistoryFileAction::Read, arguments[1])))
        }
    } else if arguments[0] == "-w"@ {
        if arguments.len() < 2 {
            (seq![], "history: -w: filename argument required\n"@, None)
        } else {
            (seq![], seq![], Some((HistoryFileAction::Write, arguments[1])))
        }
    } else {
        match usize_text_value(arguments[0]) {
            Some(limit) => (
                history_listing(
                    entries,
                    first_shown(entries.len() as int, limit as i16),
                    entries.len() as int,
                ),
                seq![],
                None,
            ),
            None => (
                seq![],
                "history: "@ + arguments[0]
                    + ": use either numeric value to show last N commands in history or \"-r\" option to load history from file\n"@,
                None,
            ),
        }
    }
}

/// The view of an optional file request.
pub open spec fn request_view(r: Option<HistoryFileRequest>) -> Option<
    (HistoryFileAction, Seq<char>),
> {
    match r {
        Some(r) => Some(r@),
        None => None,
    }
}

/// Handles `history`, `history N`, `history -a FILE`, `history -r FILE` and
/// `history -w FILE`. Listings are written at once; a file operation is returned for the
/// caller to carry out.
pub fn history(
    command: &CommandInvocation,
    store: &HistoryStore,
    output: &mut String,
    stderr: &mut String,
) -> (request: Option<HistoryFileRequest>)
    ensures
        final(output)@ == old(output)@ + history_result(command@.arguments, store@).0,
        final(stderr)@ == old(stderr)@ + history_result(command@.arguments, store@).1,
        request_view(request) == history_result(command@.arguments, store@).2,
{
    let arguments = &command.arguments;
    if arguments.len() == 0 {
        print_history(-1, store, output);
        return None;
    }
    let first = arguments[0].as_str();
    if str_eq(first, "-a") || str_eq(first, "-r") || str_eq(first, "-w") {
        let (action, option) = if str_eq(first, "-a") {
            (HistoryFileAction::Append, "-a")
        } else if str_eq(first, "-r") {
            (HistoryFileAction::Read, "-r")
        } else {
            (HistoryFileAction::Write, "-w")
        };
        if arguments.len() < 2 {
            stderr.append("history: ");
            stderr.append(option);
            stderr.append(": filename argument required\n");
            proof {
                reveal_strlit("history: ");
                reveal_strlit(": filename argument required\n");
                reveal_strlit("-a");
                reveal_strlit("-r");
                reveal_strlit("-w");
                reveal_strlit("history: -a: filename argument required\n");
                reveal_strlit("history: -r: filename argument required\n");
                reveal_strlit("history: -w: filename argument required\n");
                assert(stderr@ =~= old(stderr)@ + history_result(command@.arguments, store@).1);
            }
            return None;
        }
        return Some(HistoryFileRequest { action, path: arguments[1].clone() });
    }
    match parse_usize(first) {
        Some(history_limit) => {
            print_history(history_limit as i16, store, output);
        },
        None => {
            stderr.append("history: ");
            stderr.append(first);
            stderr.append(
                ": use either numeric value to show last N commands in history or \"-r\" option to load history from file\n",
            );
        },
    }
    None
}

/// Adds each non-empty line of `contents` to the history, in order.
pub fn load_history_from_contents(store: &mut HistoryStore, contents: &str)
    ensures
        final(store)@ == old(store)@ + nonempty_lines(contents@),
{
    let all_lines = split_lines(contents);
    let ghost ls = lines(contents@);
    let ghost keep = is_nonempty();
    let mut i: usize = 0;
    proof {
        reveal(Seq::filter);
        assert(ls.take(0) =~= Seq::<Seq<char>>::empty());
        assert(store@ =~= old(store)@ + ls.take(0).filter(keep));
    }
    while i < all_lines.len()
        invariant
            i <= all_lines@.len(),
            strings_view(all_lines@) == ls,
            keep == is_nonempty(),
            store@ == old(store)@ + ls.take(i as int).filter(keep),
        decreases all_lines@.len() - i,
    {
        proof {
            assert(ls.take(i + 1) =~= ls.take(i as int).push(ls[i as int]));
            ls.take(i as int).lemma_filter_push(ls[i as int], keep);
            assert(ls[i as int] == all_lines@[i as int]@);
        }
        if !all_lines[i].as_str().is_empty() {
            history_store::push(store, all_lines[i].clone());
        }
        i = i + 1;
    }
    proof {
        assert(ls.take(all_lines@.len() as int) =~= ls);
    }
}

/// Each part followed by a newline.
pub open spec fn terminated_lines(parts: Seq<Seq<char>>) -> Seq<char>
    decreases parts.len(),
{
    if parts.len() == 0 {
        seq![]
    } else {
        terminated_lines(parts.drop_last()) + parts.last() + "\n"@
    }
}

/// What `history -w` writes: all entries, each on its own line.
pub open spec fn history_file_text(entries: Seq<Seq<char>>) -> Seq<char> {
    join(entries, "\n"@) + "\n"@
}

/// The contents that `history -w` writes to its file.
pub fn history_file_contents(store: &HistoryStore) -> (contents: String)
    ensures
        contents@ == history_file_text(store@),
{
    let entries = history_store::get_all(store);
    let mut contents = join_strings(&entries, "\n");
    contents.append("\n");
    contents
}

/// Whether an entry is itself a `history -a` command.
pub open spec fn is_append_command(entry: Seq<char>) -> bool {
    entry.len() >= "history -a"@.len() && entry.subrange(0, "history -a"@.len() as int)
        == "history -a"@
}

/// The position after the latest `history -a` entry at or before `j`, or 0.
pub open spec fn after_last_append(entries: Seq<Seq<char>>, j: int) -> int
    decreases j + 1,
{
    if j < 0 {
        0
    } else if is_append_command(entries[j]) {
        j + 1
    } else {
        after_last_append(entries, j - 1)
    }
}

/// The entries that `history -a` appends: those after the previous `history -a`, the
/// latest entry always included.
pub open spec fn entries_to_append(entries: Seq<Seq<char>>) -> Seq<Seq<char>> {
    entries.subrange(after_last_append(entries, entries.len() - 2), entries.len() as int)
}

/// Whether `entry` starts with `history -a`.
fn starts_with_append_command(entry: &String) -> (starts: bool)
    ensures
        starts == is_append_command(entry@),
{
    let prefix = crate::text::chars_of("history -a");
    let chars = crate::text::chars_of(entry.as_str());
    if chars.len() < prefix.len() {
        return false;
    }
    let mut i: usize = 0;
    while i < prefix.len()
        invariant
            prefix@ == "history -a"@,
            chars@ == entry@,
            prefix@.len() <= chars@.len(),
            i <= prefix@.len(),
            forall|k: int| 0 <= k < i ==> chars@[k] == prefix@[k],
        decreases prefix@.len() - i,
    {
        if chars[i] != prefix[i] {
            proof {
                assert(chars@.subrange(0, prefix@.len() as int)[i as int] != prefix@[i as int]);
            }
            return false;
        }
        i = i + 1;
    }
    proof {
        assert(chars@.subrange(0, prefix@.len() as int) =~= prefix@);
    }
    true
}

proof fn lemma_after_last_append_skip(entries: Seq<Seq<char>>, j: int, k: int)
    requires
        -1 <= k <= j,
        j < entries.len(),
        forall|p: int| k < p <= j ==> !is_append_command(#[trigger] entries[p]),
    ensures
        after_last_append(entries, j) == after_last_append(entries, k),
    decreases j - k,
{
    if j > k {
        lemma_after_last_append_skip(entries, j - 1, k);
    }
}

/// Law: `history -a` appends every entry after the latest earlier entry that begins with
/// `history -a` (every entry, when there is none), the latest entry included. Other
/// entries, such as `history` or `history 5`, do not end the range.
pub proof fn law_append_takes_entries_since_last_append(entries: Seq<Seq<char>>, k: int)
    requires
        -1 <= k < entries.len() - 1,
        k >= 0 ==> starts_with(entries[k], "history -a"@),
        forall|p: int| k < p < entries.len() - 1 ==> !starts_with(#[trigger] entries[p], "history -a"@),
    ensures
        entries_to_append(entries) == entries.skip(k + 1),
{
    assert forall|p: int| k < p <= entries.len() - 2 implies !is_append_command(
        #[trigger] entries[p],
    ) by {
        assert(!starts_with(entries[p], "history -a"@));
        assert(entries[p].take("history -a"@.len() as int) =~= entries[p].subrange(
            0,
            "history -a"@.len() as int,
        ));
    }
    lemma_after_last_append_skip(entries, entries.len() - 2, k);
    if k >= 0 {
        assert(entries[k].take("history -a"@.len() as int) =~= entries[k].subrange(
            0,
            "history -a"@.len() as int,
        ));
        assert(is_append_command(entries[k]));
    }
    assert(entries.subrange(k + 1, entries.len() as int) =~= entries.skip(k + 1));
}

/// The text that `history -a` appends to its file: the entries since the previous
/// `history -a`, each on its own line.
pub fn history_append_contents(store: &HistoryStore) -> (contents: String)
    ensures
        contents@ == terminated_lines(entries_to_append(store@)),
{
    let entries = history_store::get_all(store);
    let ghost all = store@;
    let count = entries.len();
    let mut start = count;
    let mut index: usize = 0;
    proof {
        if count == 0 {
            assert(after_last_append(all, count - 2) == 0);
        }
    }
    while index < count
        invariant_except_break
            count == all.len(),
            strings_view(entries@) == all,
            index <= count,
            start == count - index,
            forall|p: int| start <= p <= count - 2 ==> !is_append_command(#[trigger] all[p]),
            index == count ==> start == after_last_append(all, count - 2),
        ensures
            count == all.len(),
            strings_view(entries@) == all,
            start <= count,
            start == after_last_append(all, count - 2),
        decreases count - index,
    {
        let position = count - 1 - index;
        proof {
            assert(all[position as int] == entries@[position as int]@);
        }
        if index > 0 && starts_with_append_command(&entries[position]) {
            proof {
                lemma_after_last_append_skip(all, count - 2, position as int);
            }
            break;
        }
        start = position;
        index = index + 1;
        proof {
            if index == count {
                lemma_after_last_append_skip(all, count - 2, -1);
            }
        }
    }
    let mut contents = String::new();
    let mut p = start;
    proof {
        assert(all.subrange(start as int, start as int) =~= Seq::<Seq<char>>::empty());
    }
    while p < count
        invariant
            start <= p <= count,
            count == all.len(),
            strings_view(entries@) == all,
            contents@ == terminated_lines(all.subrange(start as int, p as int)),
        decreases count - p,
    {
        contents.append(entries[p].as_str());
        contents.append("\n");
        proof {
            assert(all.subrange(start as int, p + 1).drop_last() =~= all.subrange(
                start as int,
                p as int,
            ));
            assert(all[p as int] == entries@[p as int]@);
        }
        p = p + 1;
    }
    contents
}

/// Whether an entry is written to a history file and read back unchanged: it is not
/// empty, holds no newline and does not end with `\r`.
pub open spec fn survives_history_file(entry: Seq<char>) -> bool {
    entry.len() > 0 && !entry.contains('\n') && entry.last() != '\r'
}

proof fn lemma_join_then_newline(entries: Seq<Seq<char>>)
    requires
        entries.len() > 0,
    ensures
        history_file_text(entries) == terminated_lines(entries),
    decreases entries.len(),
{
    if entries.len() == 1 {
        assert(entries.drop_last() =~= Seq::<Seq<char>>::empty());
        assert(terminated_lines(entries.drop_last()) =~= Seq::<char>::empty());
        assert(join(entries, "\n"@) == entries[0]);
        assert(terminated_lines(entries) =~= entries[0] + "\n"@);
    } else {
        lemma_join_then_newline(entries.drop_last());
        assert(join(entries, "\n"@) + "\n"@ =~= join(entries.drop_last(), "\n"@) + "\n"@
            + entries.last() + "\n"@);
    }
}

proof fn lemma_terminated_front(entries: Seq<Seq<char>>)
    requires
        entries.len() > 0,
    ensures
        terminated_lines(entries) == entries[0] + "\n"@ + terminated_lines(entries.drop_first()),
    decreases entries.len(),
{
    if entries.len() == 1 {
        assert(entries.drop_last() =~= Seq::<Seq<char>>::empty());
        assert(entries.drop_first() =~= Seq::<Seq<char>>::empty());
        assert(terminated_lines(entries.drop_last()) =~= Seq::<char>::empty());
        assert(terminated_lines(entries.drop_first()) =~= Seq::<char>::empty());
        assert(entries.last() == entries[0]);
        assert(terminated_lines(entries) =~= entries[0] + "\n"@ + Seq::<char>::empty());
    } else {
        let d = entries.drop_last();
        lemma_terminated_front(d);
        assert(entries.drop_first().drop_last() =~= d.drop_first());
        assert(entries.drop_first().last() == entries.last());
        assert(d[0] == entries[0]);
        assert(terminated_lines(entries) =~= entries[0] + "\n"@ + terminated_lines(
            entries.drop_first(),
        ));
    }
}

proof fn lemma_lines_of_terminated(entries: Seq<Seq<char>>)
    requires
        forall|k: int| 0 <= k < entries.len() ==> survives_history_file(#[trigger] entries[k]),
    ensures
        lines(terminated_lines(entries)) == entries,
    decreases entries.len(),
{
    if entries.len() > 0 {
        lemma_terminated_front(entries);
        assert(survives_history_file(entries[0]));
        lemma_lines_of_line_then_rest(entries[0], terminated_lines(entries.drop_first()));
        assert forall|k: int| 0 <= k < entries.drop_first().len() implies survives_history_file(
            #[trigger] entries.drop_first()[k],
        ) by {
            assert(entries.drop_first()[k] == entries[k + 1]);
        }
        lemma_lines_of_terminated(entries.drop_first());
        assert(seq![entries[0]] + entries.drop_first() =~= entries);
    }
}

proof fn lemma_filter_keeps_all(s: Seq<Seq<char>>)
    requires
        forall|k: int| 0 <= k < s.len() ==> (#[trigger] s[k]).len() > 0,
    ensures
        s.filter(is_nonempty()) == s,
    decreases s.len(),
{
    reveal(Seq::filter);
    if s.len() > 0 {
        assert forall|k: int| 0 <= k < s.drop_last().len() implies (
        #[trigger] s.drop_last()[k]).len() > 0 by {
            assert(s.drop_last()[k] == s[k]);
        }
        lemma_filter_keeps_all(s.drop_last());
        assert(s.drop_last().push(s.last()) =~= s);
    }
}

/// Law: what `history -w` writes, `history -r` reads back, entry for entry, when no entry
/// is empty, holds a newline or ends with `\r`.
pub proof fn law_history_file_reads_back(entries: Seq<Seq<char>>)
    requires
        forall|k: int| 0 <= k < entries.len() ==> survives_history_file(#[trigger] entries[k]),
    ensures
        nonempty_lines(history_file_text(entries)) == entries,
{
    reveal(Seq::filter);
    if entries.len() == 0 {
        reveal_strlit("\n");
        lemma_lines_of_line_then_rest(seq![], seq![]);
        assert(history_file_text(entries) =~= Seq::<char>::empty() + "\n"@ + Seq::<char>::empty());
        assert(lines(Seq::<char>::empty()) =~= Seq::<Seq<char>>::empty());
        let ls = lines(history_file_text(entries));
        assert(ls =~= seq![Seq::<char>::empty()]);
        assert(ls.drop_last() =~= Seq::<Seq<char>>::empty());
        assert(ls.filter(is_nonempty()) =~= entries);
    } else {
        lemma_join_then_newline(entries);
        lemma_lines_of_terminated(entries);
        lemma_filter_keeps_all(entries);
    }
}

} // verus!
