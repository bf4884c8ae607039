//! Tab completion: which words are offered for the text before the cursor.
//!
//! A word with no space before it is completed from the built-in commands and the
//! programs found on `PATH`. After a space, the program registered with `complete -C`
//! for the command is asked first; when it offers nothing, file names are offered. The
//! caller runs that program and lists the file names; this module decides what is asked
//! and turns the answers into candidates.
use crate::numbers::{decimal, usize_to_string};
use crate::state::complete_store::{CompleteStore, first_record_for, program_for};
use crate::text::{
    chars_of,
    is_nonempty,
    lemma_text_le_reflexive,
    lemma_text_le_total,
    lemma_text_le_transitive,
    lines,
    nonempty_lines,
    push_char,
    split_lines,
    string_from_range,
    strings_view,
    text_le,
    text_less_or_equal,
};
use vstd::prelude::*;

verus! {

/// A completion candidate: what is listed, and what replaces the word being completed.
#[derive(Debug)]
pub struct CompletionPair {
    pub display: String,
    pub replacement: String,
}

impl View for CompletionPair {
    /// The listed text and the replacement.
    type V = (Seq<char>, Seq<char>);

    open spec fn view(&self) -> (Seq<char>, Seq<char>) {
        (self.display@, self.replacement@)
    }
}

impl CompletionPair {
    /// A copy of this candidate.
    pub fn copy(&self) -> (c: CompletionPair)
        ensures
            c@ == self@,
    {
        CompletionPair { display: self.display.clone(), replacement: self.replacement.clone() }
    }
}

/// The views of a sequence of candidates.
pub open spec fn pairs_view(pairs: Seq<CompletionPair>) -> Seq<(Seq<char>, Seq<char>)> {
    pairs.map_values(|p: CompletionPair| p@)
}

/// The candidate for a whole word: the word, replaced by the word and a space.
pub open spec fn word_candidate(word: Seq<char>) -> (Seq<char>, Seq<char>) {
    (word, word + " "@)
}

/// The candidate for a whole word.
pub fn word_completion(word: &str) -> (pair: CompletionPair)
    ensures
        pair@ == word_candidate(word@),
{
    let display = word.to_owned();
    let mut replacement = word.to_owned();
    push_char(&mut replacement, ' ');
    proof {
        reveal_strlit(" ");
        assert(replacement@ =~= word@ + " "@);
    }
    CompletionPair { display, replacement }
}

/// The built-in commands offered when a command name is completed, in this order.
pub open spec fn builtin_words() -> Seq<Seq<char>> {
    seq!["exit"@, "echo"@, "cd"@, "exec"@, "pwd"@, "history"@]
}

/// The candidates for the built-in commands.
pub fn builtin_completions() -> (pairs: Vec<CompletionPair>)
    ensures
        pairs_view(pairs@) == builtin_words().map_values(|w: Seq<char>| word_candidate(w)),
{
    let mut pairs: Vec<CompletionPair> = Vec::new();
    pairs.push(word_completion("exit"));
    pairs.push(word_completion("echo"));
    pairs.push(word_completion("cd"));
    pairs.push(word_completion("exec"));
    pairs.push(word_completion("pwd"));
    pairs.push(word_completion("history"));
    proof {
        assert(pairs_view(pairs@) =~= builtin_words().map_values(
            |w: Seq<char>| word_candidate(w),
        ));
    }
    pairs
}

/// Whether the candidates are in the order of their listed texts.
pub open spec fn sorted_by_display(pairs: Seq<(Seq<char>, Seq<char>)>) -> bool {
    forall|i: int, j: int| 0 <= i < j < pairs.len() ==> text_le(pairs[i].0, pairs[j].0)
}

proof fn lemma_insert_keeps_sorted(
    s: Seq<(Seq<char>, Seq<char>)>,
    j: int,
    x: (Seq<char>, Seq<char>),
)
    requires
        sorted_by_display(s),
        0 <= j <= s.len(),
        forall|k: int| 0 <= k < j ==> text_le(s[k].0, x.0),
        j < s.len() ==> text_le(x.0, s[j].0),
    ensures
        sorted_by_display(s.insert(j, x)),
{
    let t = s.insert(j, x);
    assert forall|a: int, b: int| 0 <= a < b < t.len() implies text_le(t[a].0, t[b].0) by {
        if b < j {
            assert(t[a] == s[a] && t[b] == s[b]);
        } else if b == j {
            assert(t[a] == s[a] && t[b] == x);
        } else if a > j {
            assert(t[a] == s[a - 1] && t[b] == s[b - 1]);
        } else {
            assert(t[b] == s[b - 1]);
            if b - 1 > j {
                assert(text_le(s[j].0, s[b - 1].0));
            } else {
                lemma_text_le_reflexive(s[j].0);
            }
            lemma_text_le_transitive(x.0, s[j].0, s[b - 1].0);
            if a < j {
                assert(t[a] == s[a]);
                lemma_text_le_transitive(s[a].0, x.0, s[b - 1].0);
            } else {
                assert(t[a] == x);
            }
        }
    }
}

/// Whether a candidate is listed as `display`.
pub open spec fn listed_as(display: Seq<char>) -> spec_fn((Seq<char>, Seq<char>)) -> bool {
    |p: (Seq<char>, Seq<char>)| p.0 == display
}

/// Whether `sorted` is `pairs` ordered by listed text as a stable sort orders it: in order,
/// and with the candidates listed as any one text kept in their order.
pub open spec fn stably_sorted(
    sorted: Seq<(Seq<char>, Seq<char>)>,
    pairs: Seq<(Seq<char>, Seq<char>)>,
) -> bool {
    &&& sorted_by_display(sorted)
    &&& forall|d: Seq<char>| #[trigger] sorted.filter(listed_as(d)) == pairs.filter(listed_as(d))
}

proof fn lemma_filter_insert_unmatched<A>(s: Seq<A>, j: int, x: A, pred: spec_fn(A) -> bool)
    requires
        0 <= j <= s.len(),
        !pred(x),
    ensures
        s.insert(j, x).filter(pred) == s.filter(pred),
    decreases s.len(),
{
    if j == s.len() {
        assert(s.insert(j, x) =~= s.push(x));
        s.lemma_filter_push(x, pred);
    } else {
        let d = s.drop_last();
        assert(s.insert(j, x) =~= d.insert(j, x).push(s.last()));
        assert(s =~= d.push(s.last()));
        lemma_filter_insert_unmatched(d, j, x, pred);
        d.insert(j, x).lemma_filter_push(s.last(), pred);
        d.lemma_filter_push(s.last(), pred);
    }
}

proof fn lemma_filter_insert_after_matches<A>(s: Seq<A>, j: int, x: A, pred: spec_fn(A) -> bool)
    requires
        0 <= j <= s.len(),
        pred(x),
        forall|k: int| j <= k < s.len() ==> !pred(#[trigger] s[k]),
    ensures
        s.insert(j, x).filter(pred) == s.filter(pred).push(x),
    decreases s.len(),
{
    if j == s.len() {
        assert(s.insert(j, x) =~= s.push(x));
        s.lemma_filter_push(x, pred);
    } else {
        let d = s.drop_last();
        assert(s.insert(j, x) =~= d.insert(j, x).push(s.last()));
        assert(s =~= d.push(s.last()));
        assert(!pred(s[s.len() - 1]));
        assert forall|k: int| j <= k < d.len() implies !pred(#[trigger] d[k]) by {
            assert(d[k] == s[k]);
        }
        lemma_filter_insert_after_matches(d, j, x, pred);
        d.insert(j, x).lemma_filter_push(s.last(), pred);
        d.lemma_filter_push(s.last(), pred);
    }
}

/// The candidates ordered by their listed texts, as a stable sort orders them.
pub fn sort_by_display(pairs: &Vec<CompletionPair>) -> (sorted: Vec<CompletionPair>)
    ensures
        stably_sorted(pairs_view(sorted@), pairs_view(pairs@)),
        pairs_view(sorted@).to_multiset() == pairs_view(pairs@).to_multiset(),
{
    broadcast use vstd::seq_lib::group_to_multiset_ensures;

    let ghost all = pairs_view(pairs@);
    let mut sorted: Vec<CompletionPair> = Vec::new();
    let mut i: usize = 0;
    proof {
        assert(pairs_view(sorted@) =~= all.take(0));
    }
    while i < pairs.len()
        invariant
            i <= pairs@.len(),
            all == pairs_view(pairs@),
            sorted_by_display(pairs_view(sorted@)),
            pairs_view(sorted@).to_multiset() == all.take(i as int).to_multiset(),
            forall|d: Seq<char>| #[trigger] pairs_view(sorted@).filter(listed_as(d))
                == all.take(i as int).filter(listed_as(d)),
        decreases pairs@.len() - i,
    {
        let item = pairs[i].copy();
        let ghost x = item@;
        let ghost before = pairs_view(sorted@);
        let mut j: usize = 0;
        let mut searching = true;
        while searching
            invariant
                j <= sorted@.len(),
                before == pairs_view(sorted@),
                x == item@,
                forall|k: int| 0 <= k < j ==> text_le(before[k].0, x.0),
                !searching ==> j == sorted@.len() || !text_le(before[j as int].0, x.0),
            decreases sorted@.len() - j + (if searching {
                1int
            } else {
                0int
            }),
        {
            if j < sorted.len() && text_less_or_equal(
                sorted[j].display.as_str(),
                item.display.as_str(),
            ) {
                j = j + 1;
            } else {
                searching = false;
            }
        }
        proof {
            if j < before.len() {
                lemma_text_le_total(before[j as int].0, x.0);
            }
            lemma_insert_keeps_sorted(before, j as int, x);
            vstd::seq_lib::to_multiset_insert(before, j as int, x);
            assert(all.take(i + 1) =~= all.take(i as int).push(all[i as int]));
            assert(all[i as int] == x);
        }
        sorted.insert(j, item);
        proof {
            assert(pairs_view(sorted@) =~= before.insert(j as int, x));
            all.take(i as int).to_multiset_ensures();
            assert(all.take(i as int).push(x).to_multiset() =~= all.take(
                i as int,
            ).to_multiset().insert(x));
            assert(pairs_view(sorted@).to_multiset() =~= all.take(i + 1).to_multiset());
            assert forall|d: Seq<char>| #[trigger] pairs_view(sorted@).filter(listed_as(d))
                == all.take(i + 1).filter(listed_as(d)) by {
                all.take(i as int).lemma_filter_push(x, listed_as(d));
                if x.0 == d {
                    assert forall|k: int| j <= k < before.len() implies !listed_as(d)(
                        #[trigger] before[k],
                    ) by {
                        if before[k].0 == x.0 {
                            if k > j {
                                assert(text_le(before[j as int].0, before[k].0));
                            } else {
                                lemma_text_le_reflexive(x.0);
                            }
                        }
                    }
                    lemma_filter_insert_after_matches(before, j as int, x, listed_as(d));
                } else {
                    lemma_filter_insert_unmatched(before, j as int, x, listed_as(d));
                }
            }
        }
        i = i + 1;
    }
    proof {
        assert(all.take(pairs@.len() as int) =~= all);
    }
    sorted
}

/// The last part of a path: what follows its last `/`, or the whole path when it has none.
pub open spec fn file_name(path: Seq<char>) -> Seq<char>
    decreases path.len(),
{
    if path.len() == 0 {
        path
    } else if path.last() == '/' {
        seq![]
    } else {
        file_name(path.drop_last()).push(path.last())
    }
}

/// The last part of a path.
pub fn path_file_name(path: &str) -> (name: String)
    ensures
        name@ == file_name(path@),
{
    let chars = chars_of(path);
    let mut name = String::new();
    let mut i: usize = 0;
    while i < chars.len()
        invariant
            i <= chars@.len(),
            chars@ == path@,
            name@ == file_name(chars@.take(i as int)),
        decreases chars@.len() - i,
    {
        proof {
            assert(chars@.take(i + 1).drop_last() =~= chars@.take(i as int));
        }
        if chars[i] == '/' {
            name = String::new();
        } else {
            push_char(&mut name, chars[i]);
        }
        i = i + 1;
    }
    proof {
        assert(chars@.take(chars@.len() as int) =~= chars@);
    }
    name
}

/// The candidate for a program found at `path`: its file name.
pub open spec fn program_candidate(path: Seq<char>) -> (Seq<char>, Seq<char>) {
    word_candidate(file_name(path))
}

/// The candidates for the programs at the given paths, ordered by name.
pub fn executable_completions(paths: &Vec<String>) -> (pairs: Vec<CompletionPair>)
    ensures
        stably_sorted(
            pairs_view(pairs@),
            strings_view(paths@).map_values(|p: Seq<char>| program_candidate(p)),
        ),
        pairs_view(pairs@).to_multiset() == strings_view(paths@).map_values(
            |p: Seq<char>| program_candidate(p),
        ).to_multiset(),
{
    let ghost wanted = strings_view(paths@).map_values(|p: Seq<char>| program_candidate(p));
    let mut found: Vec<CompletionPair> = Vec::new();
    let mut i: usize = 0;
    while i < paths.len()
        invariant
            i <= paths@.len(),
            wanted == strings_view(paths@).map_values(|p: Seq<char>| program_candidate(p)),
            pairs_view(found@) == wanted.take(i as int),
        decreases paths@.len() - i,
    {
        let name = path_file_name(paths[i].as_str());
        let pair = word_completion(name.as_str());
        let ghost before = pairs_view(found@);
        found.push(pair);
        proof {
            assert(pairs_view(found@) =~= before.push(pair@));
            assert(wanted.take(i + 1) =~= wanted.take(i as int).push(wanted[i as int]));
        }
        i = i + 1;
    }
    proof {
        assert(wanted.take(paths@.len() as int) =~= wanted);
    }
    sort_by_display(&found)
}

/// The candidates offered by a completion program: one per non-empty line of its output.
pub open spec fn program_output_candidates(output: Seq<char>) -> Seq<(Seq<char>, Seq<char>)> {
    nonempty_lines(output).map_values(|l: Seq<char>| word_candidate(l))
}

/// The candidates in the output of a completion program, in order.
pub fn program_candidates(output: &str) -> (pairs: Vec<CompletionPair>)
    ensures
        pairs_view(pairs@) == program_output_candidates(output@),
{
    let all_lines = split_lines(output);
    let ghost ls = lines(output@);
    let ghost keep = is_nonempty();
    let mut pairs: Vec<CompletionPair> = Vec::new();
    let mut i: usize = 0;
    proof {
        reveal(Seq::filter);
        assert(pairs_view(pairs@) =~= ls.take(0).filter(keep).map_values(
            |l: Seq<char>| word_candidate(l),
        ));
    }
    while i < all_lines.len()
        invariant
            i <= all_lines@.len(),
            strings_view(all_lines@) == ls,
            ls == lines(output@),
            keep == is_nonempty(),
            pairs_view(pairs@) == ls.take(i as int).filter(keep).map_values(
                |l: Seq<char>| word_candidate(l),
            ),
        decreases all_lines@.len() - i,
    {
        let ghost before = pairs_view(pairs@);
        proof {
            assert(ls.take(i + 1) =~= ls.take(i as int).push(ls[i as int]));
            ls.take(i as int).lemma_filter_push(ls[i as int], keep);
            assert(ls[i as int] == all_lines@[i as int]@);
        }
        if !all_lines[i].as_str().is_empty() {
            let pair = word_completion(all_lines[i].as_str());
            pairs.push(pair);
            proof {
                assert(pairs_view(pairs@) =~= before.push(pair@));
                assert(ls.take(i + 1).filter(keep) =~= ls.take(i as int).filter(keep).push(
                    ls[i as int],
                ));
                assert(ls.take(i + 1).filter(keep).map_values(|l: Seq<char>| word_candidate(l))
                    =~= before.push(word_candidate(ls[i as int])));
            }
        } else {
            proof {
                assert(ls.take(i + 1).filter(keep) =~= ls.take(i as int).filter(keep));
            }
        }
        i = i + 1;
    }
    proof {
        assert(ls.take(all_lines@.len() as int) =~= ls);
    }
    pairs
}

/// A file name candidate as it is offered: a directory (its replacement ends in `/`) is
/// listed with a `/` and completed without a space; any other file is completed with a
/// space after it.
pub open spec fn file_candidate(found: (Seq<char>, Seq<char>)) -> (Seq<char>, Seq<char>) {
    if found.1.len() > 0 && found.1.last() == '/' {
        (found.0 + "/"@, found.1)
    } else {
        (found.0, found.1 + " "@)
    }
}

/// The file name candidates as they are offered, ordered by their listed texts.
pub fn file_candidates(found: &Vec<CompletionPair>) -> (pairs: Vec<CompletionPair>)
    ensures
        stably_sorted(
            pairs_view(pairs@),
            pairs_view(found@).map_values(|f: (Seq<char>, Seq<char>)| file_candidate(f)),
        ),
        pairs_view(pairs@).to_multiset() == pairs_view(found@).map_values(
            |f: (Seq<char>, Seq<char>)| file_candidate(f),
        ).to_multiset(),
{
    let ghost wanted = pairs_view(found@).map_values(
        |f: (Seq<char>, Seq<char>)| file_candidate(f),
    );
    let mut shaped: Vec<CompletionPair> = Vec::new();
    let mut i: usize = 0;
    proof {
        reveal_strlit("/");
        reveal_strlit(" ");
    }
    while i < found.len()
        invariant
            i <= found@.len(),
            wanted == pairs_view(found@).map_values(
                |f: (Seq<char>, Seq<char>)| file_candidate(f),
            ),
            pairs_view(shaped@) == wanted.take(i as int),
            "/"@ == seq!['/'],
            " "@ == seq![' '],
        decreases found@.len() - i,
    {
        let mut display = found[i].display.clone();
        let mut replacement = found[i].replacement.clone();
        let chars = chars_of(replacement.as_str());
        if chars.len() > 0 && chars[chars.len() - 1] == '/' {
            push_char(&mut display, '/');
        } else {
            push_char(&mut replacement, ' ');
        }
        let pair = CompletionPair { display, replacement };
        let ghost before = pairs_view(shaped@);
        shaped.push(pair);
        proof {
            assert(pair@ =~= file_candidate(found@[i as int]@));
            assert(pairs_view(shaped@) =~= before.push(pair@));
            assert(wanted.take(i + 1) =~= wanted.take(i as int).push(wanted[i as int]));
        }
        i = i + 1;
    }
    proof {
        assert(wanted.take(found@.len() as int) =~= wanted);
    }
    sort_by_display(&shaped)
}

/// Whether `text` begins with `prefix`.
pub open spec fn starts_with(text: Seq<char>, prefix: Seq<char>) -> bool {
    prefix.len() <= text.len() && text.take(prefix.len() as int) == prefix
}

/// Whether a candidate's listed text begins with `prefix`.
pub open spec fn listed_with_prefix(prefix: Seq<char>) -> spec_fn((Seq<char>, Seq<char>)) -> bool {
    |c: (Seq<char>, Seq<char>)| starts_with(c.0, prefix)
}

/// Whether `text` begins with `prefix`.
pub fn text_starts_with(text: &str, prefix: &str) -> (b: bool)
    ensures
        b == starts_with(text@, prefix@),
{
    let t = chars_of(text);
    let p = chars_of(prefix);
    if p.len() > t.len() {
        return false;
    }
    let mut i: usize = 0;
    while i < p.len()
        invariant
            i <= p@.len() <= t@.len(),
            t@ == text@,
            p@ == prefix@,
            t@.take(i as int) == p@.take(i as int),
        decreases p@.len() - i,
    {
        if t[i] != p[i] {
            proof {
                assert(t@.take(p@.len() as int)[i as int] != p@[i as int]);
            }
            return false;
        }
        proof {
            assert(t@.take(i + 1) =~= t@.take(i as int).push(t@[i as int]));
            assert(p@.take(i + 1) =~= p@.take(i as int).push(p@[i as int]));
        }
        i = i + 1;
    }
    proof {
        assert(p@.take(p@.len() as int) =~= p@);
    }
    true
}

/// The candidates whose listed text begins with `prefix`, in order.
pub fn matching_candidates(candidates: &Vec<CompletionPair>, prefix: &str) -> (pairs: Vec<
    CompletionPair,
>)
    ensures
        pairs_view(pairs@) == pairs_view(candidates@).filter(listed_with_prefix(prefix@)),
{
    let ghost all = pairs_view(candidates@);
    let ghost keep = listed_with_prefix(prefix@);
    let mut pairs: Vec<CompletionPair> = Vec::new();
    let mut i: usize = 0;
    proof {
        reveal(Seq::filter);
        assert(pairs_view(pairs@) =~= all.take(0).filter(keep));
    }
    while i < candidates.len()
        invariant
            i <= candidates@.len(),
            all == pairs_view(candidates@),
            keep == listed_with_prefix(prefix@),
            pairs_view(pairs@) == all.take(i as int).filter(keep),
        decreases candidates@.len() - i,
    {
        proof {
            assert(all.take(i + 1) =~= all.take(i as int).push(all[i as int]));
            all.take(i as int).lemma_filter_push(all[i as int], keep);
        }
        if text_starts_with(candidates[i].display.as_str(), prefix) {
            let ghost before = pairs_view(pairs@);
            let pair = candidates[i].copy();
            pairs.push(pair);
            proof {
                assert(pairs_view(pairs@) =~= before.push(all[i as int]));
            }
        }
        i = i + 1;
    }
    proof {
        assert(all.take(candidates@.len() as int) =~= all);
    }
    pairs
}

/// Whether a character is white space: whether it has Unicode's `White_Space` property,
/// which is what `char::is_whitespace` tests.
pub open spec fn is_white_space(c: char) -> bool {
    let u = c as u32;
    ||| 0x9 <= u <= 0xd
    ||| u == 0x20
    ||| u == 0x85
    ||| u == 0xa0
    ||| u == 0x1680
    ||| 0x2000 <= u <= 0x200a
    ||| u == 0x2028
    ||| u == 0x2029
    ||| u == 0x202f
    ||| u == 0x205f
    ||| u == 0x3000
}

/// Whether a character is white space.
pub fn white_space(c: char) -> (b: bool)
    ensures
        b == is_white_space(c),
{
    let u = c as u32;
    (0x9 <= u && u <= 0xd) || u == 0x20 || u == 0x85 || u == 0xa0 || u == 0x1680 || (0x2000 <= u
        && u <= 0x200a) || u == 0x2028 || u == 0x2029 || u == 0x202f || u == 0x205f || u == 0x3000
}

/// The words of a text as `str::split_whitespace` gives them: the longest runs of
/// characters that are not white space, in order.
pub open spec fn words(s: Seq<char>) -> Seq<Seq<char>>
    decreases s.len(),
{
    if s.len() == 0 {
        seq![]
    } else {
        let w = words(s.drop_last());
        if is_white_space(s.last()) {
            w
        } else if s.len() >= 2 && !is_white_space(s[s.len() - 2]) {
            w.update(w.len() - 1, w.last().push(s.last()))
        } else {
            w.push(seq![s.last()])
        }
    }
}

/// The words of a text, as `str::split_whitespace` gives them.
pub fn split_words(text: &str) -> (result: Vec<String>)
    ensures
        strings_view(result@) == words(text@),
{
    let chars = chars_of(text);
    let mut result: Vec<String> = Vec::new();
    let mut i: usize = 0;
    proof {
        assert(chars@.take(0) =~= Seq::<char>::empty());
        assert(strings_view(result@) =~= words(chars@.take(0)));
    }
    while i < chars.len()
        invariant
            i <= chars@.len(),
            chars@ == text@,
            strings_view(result@) == words(chars@.take(i as int)),
            i > 0 && !is_white_space(chars@[i - 1]) ==> result@.len() > 0,
        decreases chars@.len() - i,
    {
        let c = chars[i];
        let ghost before = strings_view(result@);
        let ghost prefix = chars@.take(i + 1);
        proof {
            assert(prefix.drop_last() =~= chars@.take(i as int));
            assert(prefix.last() == c);
            if i > 0 {
                assert(prefix[i - 1] == chars@[i - 1]);
            }
        }
        if white_space(c) {
        } else if i > 0 && !white_space(chars[i - 1]) {
            let mut last = result.pop().unwrap();
            push_char(&mut last, c);
            result.push(last);
            proof {
                assert(strings_view(result@) =~= before.update(
                    before.len() - 1,
                    before.last().push(c),
                ));
            }
        } else {
            let mut word = String::new();
            push_char(&mut word, c);
            result.push(word);
            proof {
                assert(strings_view(result@) =~= before.push(seq![c]));
            }
        }
        i = i + 1;
    }
    proof {
        assert(chars@.take(chars@.len() as int) =~= chars@);
    }
    result
}

/// The position of the last `c` in `s`, if there is one.
pub open spec fn last_index_of(s: Seq<char>, c: char) -> Option<int>
    decreases s.len(),
{
    if s.len() == 0 {
        None
    } else if s.last() == c {
        Some(s.len() - 1)
    } else {
        last_index_of(s.drop_last(), c)
    }
}

/// `last_index_of` finds the last occurrence, and finds one whenever there is one.
pub proof fn lemma_last_index_of(s: Seq<char>, c: char)
    ensures
        last_index_of(s, c) matches Some(k) ==> 0 <= k < s.len() && s[k] == c && forall|j: int|
            k < j < s.len() ==> s[j] != c,
        last_index_of(s, c) is None <==> !s.contains(c),
    decreases s.len(),
{
    if s.len() > 0 && s.last() != c {
        lemma_last_index_of(s.drop_last(), c);
        if let Some(k) = last_index_of(s, c) {
            assert forall|j: int| k < j < s.len() implies s[j] != c by {
                if j < s.len() - 1 {
                    assert(s[j] == s.drop_last()[j]);
                }
            }
        }
        if s.contains(c) {
            let j = choose|j: int| 0 <= j < s.len() && s[j] == c;
            assert(s.drop_last()[j] == c);
        }
        if s.drop_last().contains(c) {
            let j = choose|j: int| 0 <= j < s.drop_last().len() && s.drop_last()[j] == c;
            assert(s[j] == c);
        }
    } else if s.len() > 0 {
        assert(s[s.len() - 1] == c);
    }
}

/// The text before the cursor: the characters of the first `pos` bytes of `line`.
pub open spec fn text_before_cursor(line: Seq<char>, pos: int) -> Seq<char> {
    vstd::utf8::decode_utf8(vstd::utf8::encode_utf8(line).subrange(0, pos))
}

/// The byte offset at which the word being completed begins: just after the last space
/// before the cursor, or 0 when there is none.
pub open spec fn word_start(before: Seq<char>) -> int {
    match last_index_of(before, ' ') {
        Some(k) => vstd::utf8::encode_utf8(before.take(k + 1)).len() as int,
        None => 0,
    }
}

/// Whether the text before the cursor ends with a space.
pub open spec fn ends_with_space(before: Seq<char>) -> bool {
    before.len() > 0 && before.last() == ' '
}

/// The word being completed: none right after a space, else the last word.
pub open spec fn current_word(before: Seq<char>) -> Seq<char> {
    let w = words(before);
    if ends_with_space(before) || w.len() == 0 {
        seq![]
    } else {
        w.last()
    }
}

/// The word before the one being completed.
pub open spec fn previous_word(before: Seq<char>) -> Seq<char> {
    let w = words(before);
    if ends_with_space(before) {
        if w.len() > 0 {
            w.last()
        } else {
            seq![]
        }
    } else if w.len() >= 2 {
        w[w.len() - 2]
    } else {
        seq![]
    }
}

/// The UTF-8 encoding of two texts one after the other is the encoding of the first
/// followed by that of the second.
pub proof fn lemma_encode_utf8_concat(a: Seq<char>, b: Seq<char>)
    ensures
        vstd::utf8::encode_utf8(a + b) == vstd::utf8::encode_utf8(a) + vstd::utf8::encode_utf8(b),
    decreases a.len(),
{
    if a.len() == 0 {
        assert(a + b =~= b);
        assert(vstd::utf8::encode_utf8(a) =~= Seq::<u8>::empty());
        assert(vstd::utf8::encode_utf8(a) + vstd::utf8::encode_utf8(b) =~= vstd::utf8::encode_utf8(b));
    } else {
        assert((a + b).drop_first() =~= a.drop_first() + b);
        assert((a + b)[0] == a[0]);
        lemma_encode_utf8_concat(a.drop_first(), b);
        let first = vstd::utf8::encode_scalar(a[0] as u32);
        assert(vstd::utf8::encode_utf8(a + b) == first + vstd::utf8::encode_utf8(a.drop_first() + b));
        assert(first + (vstd::utf8::encode_utf8(a.drop_first()) + vstd::utf8::encode_utf8(b)) =~= (first
            + vstd::utf8::encode_utf8(a.drop_first())) + vstd::utf8::encode_utf8(b));
    }
}

/// What completing the word before the cursor takes.
#[derive(Debug)]
pub enum CompletionStep {
    /// The candidates are known: the replacement starts at byte `start`.
    Offer { start: usize, candidates: Vec<CompletionPair> },
    /// Run `program` with `arguments`, and with `COMP_LINE` and `COMP_POINT` set in its
    /// environment; offer the candidates in its output from byte `start` when there are
    /// any, and else list file names.
    AskProgram {
        start: usize,
        program: String,
        arguments: Vec<String>,
        comp_line: String,
        comp_point: String,
    },
    /// List file names.
    ListFiles,
}

/// What completing the text before byte `pos` of `line` takes, given the candidates for
/// command names and the registered completion programs.
pub open spec fn completion_step_is(
    step: CompletionStep,
    line: Seq<char>,
    pos: int,
    commands: Seq<(Seq<char>, Seq<char>)>,
    records: Seq<(Seq<char>, Seq<char>)>,
) -> bool {
    let before = text_before_cursor(line, pos);
    let w = words(before);
    match step {
        CompletionStep::Offer { start, candidates } => {
            &&& !before.contains(' ')
            &&& start == 0
            &&& pairs_view(candidates@) == commands.filter(listed_with_prefix(before))
        },
        CompletionStep::AskProgram { start, program, arguments, comp_line, comp_point } => {
            &&& before.contains(' ')
            &&& w.len() > 0
            &&& first_record_for(records, w[0], 0) matches Some(k)
            &&& program@ == records[k].0
            &&& start == word_start(before)
            &&& strings_view(arguments@) == seq![w[0], current_word(before), previous_word(before)]
            &&& comp_line@ == before
            &&& comp_point@ == decimal(pos as nat)
        },
        CompletionStep::ListFiles => {
            &&& before.contains(' ')
            &&& (w.len() == 0 || first_record_for(records, w[0], 0) is None)
        },
    }
}

/// Decides how to complete the text before byte `pos` of `line`: a first word is
/// completed from `commands`; after a space, the program registered for the command is
/// asked, or else file names are listed.
pub fn first_completion_step(
    line: &str,
    pos: usize,
    commands: &Vec<CompletionPair>,
    store: &CompleteStore,
) -> (step: CompletionStep)
    requires
        vstd::utf8::is_char_boundary(vstd::utf8::encode_utf8(line@), pos as int),
        vstd::utf8::encode_utf8(line@).len() <= usize::MAX,
    ensures
        completion_step_is(step, line@, pos as int, pairs_view(commands@), store@),
{
    broadcast use vstd::utf8::encode_utf8_decode_utf8;

    let (head, _) = line.split_at(pos);
    let ghost before = head@;
    proof {
        assert(vstd::utf8::decode_utf8(vstd::utf8::encode_utf8(head@)) == before);
        assert(before == text_before_cursor(line@, pos as int));
        vstd::utf8::encode_utf8_valid_utf8(line@);
        assert(pos <= vstd::utf8::encode_utf8(line@).len());
        assert(vstd::utf8::encode_utf8(before).len() == pos);
    }
    let chars = chars_of(head);
    let mut k: usize = chars.len();
    let mut found = false;
    proof {
        assert(before.take(k as int) =~= before);
    }
    while k > 0 && !found
        invariant
            k <= chars@.len(),
            chars@ == before,
            last_index_of(before, ' ') == (if found {
                Some(k as int)
            } else {
                last_index_of(before.take(k as int), ' ')
            }),
            found ==> k < chars@.len(),
        decreases k + (if found {
            0int
        } else {
            1int
        }),
    {
        proof {
            assert(before.take(k as int).drop_last() =~= before.take(k - 1));
            assert(before.take(k as int).last() == before[k - 1]);
        }
        if chars[k - 1] == ' ' {
            k = k - 1;
            found = true;
        } else {
            k = k - 1;
        }
    }
    proof {
        if !found {
            assert(before.take(0) =~= Seq::<char>::empty());
        }
        assert(before.take(before.len() as int) =~= before);
        lemma_last_index_of(before, ' ');
    }
    if !found {
        return CompletionStep::Offer { start: 0, candidates: matching_candidates(commands, head) };
    }
    let w = split_words(head);
    if w.len() == 0 {
        return CompletionStep::ListFiles;
    }
    let program = match program_for(store, w[0].as_str()) {
        Some(p) => p,
        None => {
            return CompletionStep::ListFiles;
        },
    };
    let up_to_space = string_from_range(&chars, 0, k + 1);
    proof {
        lemma_encode_utf8_concat(before.take(k + 1), before.skip(k + 1));
        assert(before.take(k + 1) + before.skip(k + 1) =~= before);
        assert(up_to_space@ == before.take(k + 1));
    }
    let start = up_to_space.as_str().len();
    let ends_with_space = chars.len() > 0 && chars[chars.len() - 1] == ' ';
    let current = if ends_with_space || w.len() == 0 {
        String::new()
    } else {
        w[w.len() - 1].clone()
    };
    let previous = if ends_with_space {
        if w.len() > 0 {
            w[w.len() - 1].clone()
        } else {
            String::new()
        }
    } else if w.len() >= 2 {
        w[w.len() - 2].clone()
    } else {
        String::new()
    };
    let mut arguments: Vec<String> = Vec::new();
    arguments.push(w[0].clone());
    arguments.push(current);
    arguments.push(previous);
    proof {
        assert(strings_view(arguments@) =~= seq![
            words(before)[0],
            current_word(before),
            previous_word(before),
        ]);
    }
    let comp_line = head.to_owned();
    let comp_point = usize_to_string(head.len());
    CompletionStep::AskProgram { start, program, arguments, comp_line, comp_point }
}

/// Law: when the first word is being completed, every candidate offered begins with the
/// text typed before the cursor, and every command candidate that does is offered.
pub proof fn law_offered_commands_begin_with_the_word(
    line: Seq<char>,
    pos: int,
    commands: Seq<(Seq<char>, Seq<char>)>,
    records: Seq<(Seq<char>, Seq<char>)>,
    start: usize,
    candidates: Vec<CompletionPair>,
)
    requires
        completion_step_is(
            CompletionStep::Offer { start, candidates },
            line,
            pos,
            commands,
            records,
        ),
    ensures
        forall|k: int|
            0 <= k < candidates@.len() ==> starts_with(
                (#[trigger] candidates@[k])@.0,
                text_before_cursor(line, pos),
            ),
        forall|k: int|
            0 <= k < commands.len() && starts_with(
                (#[trigger] commands[k]).0,
                text_before_cursor(line, pos),
            ) ==> pairs_view(candidates@).contains(commands[k]),
{
    let before = text_before_cursor(line, pos);
    let keep = listed_with_prefix(before);
    assert forall|k: int| 0 <= k < candidates@.len() implies starts_with(
        (#[trigger] candidates@[k])@.0,
        before,
    ) by {
        assert(pairs_view(candidates@)[k] == candidates@[k]@);
        commands.lemma_filter_pred(keep, k);
    }
    assert forall|k: int|
        0 <= k < commands.len() && starts_with(
            (#[trigger] commands[k]).0,
            before,
        ) implies pairs_view(candidates@).contains(commands[k]) by {
        commands.lemma_filter_contains(keep, k);
    }
}

/// Law: the completion program is asked with the command (the first word before the
/// cursor), the word being completed and the word before it. After a space, the word
/// being completed is empty and the word before it is the last word; otherwise the word
/// being completed is the last word and the word before it is the one before that (empty
/// when there is none).
pub proof fn law_program_gets_the_words_around_the_cursor(
    line: Seq<char>,
    pos: int,
    commands: Seq<(Seq<char>, Seq<char>)>,
    records: Seq<(Seq<char>, Seq<char>)>,
    start: usize,
    program: String,
    arguments: Vec<String>,
    comp_line: String,
    comp_point: String,
)
    requires
        completion_step_is(
            CompletionStep::AskProgram { start, program, arguments, comp_line, comp_point },
            line,
            pos,
            commands,
            records,
        ),
    ensures
        ({
            let before = text_before_cursor(line, pos);
            let w = words(before);
            &&& arguments@.len() == 3
            &&& arguments@[0]@ == w[0]
            &&& before.last() == ' ' ==> arguments@[1]@ == Seq::<char>::empty()
                && arguments@[2]@ == w[w.len() - 1]
            &&& before.last() != ' ' ==> arguments@[1]@ == w[w.len() - 1]
            &&& before.last() != ' ' && w.len() >= 2 ==> arguments@[2]@ == w[w.len() - 2]
            &&& before.last() != ' ' && w.len() < 2 ==> arguments@[2]@ == Seq::<char>::empty()
        }),
{
    let before = text_before_cursor(line, pos);
    let view = strings_view(arguments@);
    assert(view.len() == 3);
    assert(view[0] == arguments@[0]@);
    assert(view[1] == arguments@[1]@);
    assert(view[2] == arguments@[2]@);
    if before.len() == 0 {
        assert(!before.contains(' '));
    }
}

} // verus!
