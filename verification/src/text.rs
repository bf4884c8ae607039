//! Small verified helpers for working with strings as sequences of characters.
use vstd::prelude::*;

verus! {

/// The views of a sequence of strings.
pub open spec fn strings_view(v: Seq<String>) -> Seq<Seq<char>> {
    v.map_values(|s: String| s@)
}

/// Appends one character to a string.
///
/// Trusted: `String::push` appends the character at the end of the string,
/// as its documentation states.
#[verifier::external_body]
pub fn push_char(s: &mut String, c: char)
    ensures
        final(s)@ == old(s)@.push(c),
{
    s.push(c);
}

/// The characters of a string, in order.
pub fn chars_of(s: &str) -> (v: Vec<char>)
    ensures
        v@ == s@,
{
    let mut v: Vec<char> = Vec::new();
    for c in it: s.chars()
        invariant
            v@ == it.seq().take(it.index() as int),
    {
        v.push(c);
    }
    v
}

/// The string made of the given characters.
pub fn string_of(chars: &[char]) -> (s: String)
    ensures
        s@ == chars@,
{
    let mut s = String::new();
    let mut i: usize = 0;
    while i < chars.len()
        invariant
            i <= chars@.len(),
            s@ == chars@.take(i as int),
        decreases chars@.len() - i,
    {
        push_char(&mut s, chars[i]);
        i = i + 1;
        proof {
            assert(s@ =~= chars@.take(i as int));
        }
    }
    proof {
        assert(chars@.take(chars@.len() as int) =~= chars@);
    }
    s
}

/// Whether two strings hold the same characters.
pub fn str_eq(a: &str, b: &str) -> (eq: bool)
    ensures
        eq == (a@ == b@),
{
    let x = chars_of(a);
    let y = chars_of(b);
    if x.len() != y.len() {
        return false;
    }
    let mut i: usize = 0;
    while i < x.len()
        invariant
            x@ == a@,
            y@ == b@,
            x@.len() == y@.len(),
            i <= x@.len(),
            forall|j: int| 0 <= j < i ==> x@[j] == y@[j],
        decreases x@.len() - i,
    {
        if x[i] != y[i] {
            return false;
        }
        i = i + 1;
    }
    proof {
        assert(x@ =~= y@);
    }
    true
}

/// A copy of a string.
pub fn copy_string(s: &String) -> (c: String)
    ensures
        c@ == s@,
{
    s.clone()
}

/// A copy of a list of strings.
pub fn copy_strings(v: &Vec<String>) -> (c: Vec<String>)
    ensures
        strings_view(c@) == strings_view(v@),
{
    let mut c: Vec<String> = Vec::new();
    let mut i: usize = 0;
    while i < v.len()
        invariant
            i <= v@.len(),
            c@.len() == i,
            strings_view(c@) == strings_view(v@).take(i as int),
        decreases v@.len() - i,
    {
        let item = v[i].clone();
        c.push(item);
        proof {
            assert(c@[i as int]@ == v@[i as int]@);
        }
        i = i + 1;
        proof {
            assert(strings_view(c@) =~= strings_view(v@).take(i as int));
        }
    }
    proof {
        assert(strings_view(v@).take(v@.len() as int) =~= strings_view(v@));
    }
    c
}

/// The string made of the characters of `chars` from `from` up to `to`.
pub fn string_from_range(chars: &Vec<char>, from: usize, to: usize) -> (s: String)
    requires
        from <= to <= chars@.len(),
    ensures
        s@ == chars@.subrange(from as int, to as int),
{
    let mut s = String::new();
    let mut i: usize = from;
    while i < to
        invariant
            from <= i <= to <= chars@.len(),
            s@ == chars@.subrange(from as int, i as int),
        decreases to - i,
    {
        push_char(&mut s, chars[i]);
        i = i + 1;
        proof {
            assert(s@ =~= chars@.subrange(from as int, i as int));
        }
    }
    s
}

/// The parts joined with `sep` between consecutive parts.
pub open spec fn join(parts: Seq<Seq<char>>, sep: Seq<char>) -> Seq<char>
    decreases parts.len(),
{
    if parts.len() == 0 {
        seq![]
    } else if parts.len() == 1 {
        parts[0]
    } else {
        join(parts.drop_last(), sep) + sep + parts.last()
    }
}

/// Joins the strings with `sep` between consecutive ones.
pub fn join_strings(parts: &Vec<String>, sep: &str) -> (joined: String)
    ensures
        joined@ == join(strings_view(parts@), sep@),
{
    let ghost all = strings_view(parts@);
    let mut joined = String::new();
    let mut i: usize = 0;
    proof {
        assert(all.take(0) =~= Seq::<Seq<char>>::empty());
    }
    while i < parts.len()
        invariant
            i <= parts@.len(),
            all == strings_view(parts@),
            joined@ == join(all.take(i as int), sep@),
        decreases parts@.len() - i,
    {
        if i > 0 {
            joined.append(sep);
        }
        joined.append(parts[i].as_str());
        proof {
            assert(all.take(i + 1).drop_last() =~= all.take(i as int));
            if i == 0 {
                assert(all.take(1) =~= seq![all[0]]);
            }
        }
        i = i + 1;
    }
    proof {
        assert(all.take(parts@.len() as int) =~= all);
    }
    joined
}

/// `n` spaces.
pub open spec fn spaces(n: int) -> Seq<char> {
    Seq::new(if n > 0 { n as nat } else { 0 }, |i: int| ' ')
}

/// `s` followed by spaces up to `width` characters, as `{:<width}` writes it.
pub open spec fn pad_right(s: Seq<char>, width: int) -> Seq<char> {
    s + spaces(width - s.len())
}

/// `s` preceded by spaces up to `width` characters, as `{:>width}` writes it.
pub open spec fn pad_left(s: Seq<char>, width: int) -> Seq<char> {
    spaces(width - s.len()) + s
}

fn push_spaces(s: &mut String, n: usize)
    ensures
        final(s)@ == old(s)@ + spaces(n as int),
{
    let mut i: usize = 0;
    while i < n
        invariant
            i <= n,
            s@ == old(s)@ + spaces(i as int),
        decreases n - i,
    {
        push_char(s, ' ');
        i = i + 1;
        proof {
            assert(s@ =~= old(s)@ + spaces(i as int));
        }
    }
}

/// The number of characters of a string.
pub fn char_count(s: &str) -> (n: usize)
    ensures
        n == s@.len(),
{
    s.unicode_len()
}

/// Appends `text` padded with spaces on the right to `width` characters.
pub fn append_padded_right(out: &mut String, text: &str, width: usize)
    ensures
        final(out)@ == old(out)@ + pad_right(text@, width as int),
{
    out.append(text);
    let n = char_count(text);
    if n < width {
        push_spaces(out, width - n);
    } else {
        proof {
            assert(spaces(width - n) =~= Seq::<char>::empty());
        }
    }
    proof {
        assert(out@ =~= old(out)@ + pad_right(text@, width as int));
    }
}

/// Appends `text` padded with spaces on the left to `width` characters.
pub fn append_padded_left(out: &mut String, text: &str, width: usize)
    ensures
        final(out)@ == old(out)@ + pad_left(text@, width as int),
{
    let n = char_count(text);
    if n < width {
        push_spaces(out, width - n);
    } else {
        proof {
            assert(spaces(width - n) =~= Seq::<char>::empty());
        }
    }
    out.append(text);
    proof {
        assert(out@ =~= old(out)@ + pad_left(text@, width as int));
    }
}

/// The position of the first `c` at or after `from`.
pub open spec fn find_char(s: Seq<char>, c: char, from: int) -> Option<int>
    decreases s.len() - from,
{
    if from < 0 || from >= s.len() {
        None
    } else if s[from] == c {
        Some(from)
    } else {
        find_char(s, c, from + 1)
    }
}

/// `find_char` finds an occurrence at or after `from`, and finds none only when there is
/// none there.
pub proof fn lemma_find_char(s: Seq<char>, c: char, from: int)
    requires
        0 <= from,
    ensures
        find_char(s, c, from) matches Some(j) ==> from <= j < s.len() && s[j] == c,
        find_char(s, c, from) is None ==> forall|k: int| from <= k < s.len() ==> s[k] != c,
    decreases s.len() - from,
{
    if from < s.len() && s[from] != c {
        lemma_find_char(s, c, from + 1);
    }
}

/// A line without the `\r` that ends it, if any.
pub open spec fn strip_carriage_return(line: Seq<char>) -> Seq<char> {
    if line.len() > 0 && line.last() == '\r' {
        line.drop_last()
    } else {
        line
    }
}

/// The lines of `s` from position `start` on, as `str::lines` gives them: split after
/// each `\n`, with the `\n` and a `\r` before it removed; a last line without `\n` is kept
/// as it is.
pub open spec fn lines_from(s: Seq<char>, start: int) -> Seq<Seq<char>>
    decreases s.len() - start,
{
    if start < 0 || start >= s.len() {
        seq![]
    } else {
        match find_char(s, '\n', start) {
            Some(j) => {
                proof {
                    lemma_find_char(s, '\n', start);
                }
                seq![strip_carriage_return(s.subrange(start, j))] + lines_from(s, j + 1)
            },
            None => seq![s.subrange(start, s.len() as int)],
        }
    }
}

/// The lines of `s`, as `str::lines` gives them.
pub open spec fn lines(s: Seq<char>) -> Seq<Seq<char>> {
    lines_from(s, 0)
}

proof fn lemma_find_char_shift(p: Seq<char>, q: Seq<char>, c: char, j: int)
    requires
        0 <= j,
    ensures
        find_char(p + q, c, p.len() + j) == (match find_char(q, c, j) {
            Some(k) => Some(k + p.len()),
            None => None,
        }),
    decreases q.len() - j,
{
    if j < q.len() {
        assert((p + q)[p.len() + j] == q[j]);
        if q[j] != c {
            lemma_find_char_shift(p, q, c, j + 1);
        }
    }
}

/// The lines of a text that follows `p`, read from a position past `p`, are the lines of
/// that text alone.
pub proof fn lemma_lines_from_shift(p: Seq<char>, q: Seq<char>, j: int)
    requires
        0 <= j,
    ensures
        lines_from(p + q, p.len() + j) == lines_from(q, j),
    decreases q.len() - j,
{
    let s = p + q;
    if j < q.len() {
        lemma_find_char_shift(p, q, '\n', j);
        match find_char(q, '\n', j) {
            Some(k) => {
                lemma_find_char(q, '\n', j);
                assert(s.subrange(p.len() + j, k + p.len()) =~= q.subrange(j, k));
                lemma_lines_from_shift(p, q, k + 1);
                assert(k + p.len() + 1 == p.len() + (k + 1));
            },
            None => {
                assert(s.subrange(p.len() + j, s.len() as int) =~= q.subrange(j, q.len() as int));
            },
        }
    }
}

/// A line followed by a newline, then more text: its lines are that line, then the lines
/// of the rest.
pub proof fn lemma_lines_of_line_then_rest(line: Seq<char>, rest: Seq<char>)
    requires
        !line.contains('\n'),
        line.len() == 0 || line.last() != '\r',
    ensures
        lines(line + "\n"@ + rest) == seq![line] + lines(rest),
{
    reveal_strlit("\n");
    let head = line + "\n"@;
    let s = head + rest;
    assert(line + "\n"@ + rest == s);
    assert forall|k: int| 0 <= k < line.len() implies s[k] != '\n' by {
        assert(s[k] == line[k]);
        if line[k] == '\n' {
            assert(line.contains('\n'));
        }
    }
    assert(s[line.len() as int] == '\n');
    lemma_find_char_until(s, '\n', 0, line.len() as int);
    assert(s.subrange(0, line.len() as int) =~= line);
    assert(strip_carriage_return(line) == line);
    lemma_lines_from_shift(head, rest, 0);
    assert(head.len() + 0 == line.len() + 1);
}

proof fn lemma_find_char_until(s: Seq<char>, c: char, from: int, k: int)
    requires
        0 <= from <= k < s.len(),
        s[k] == c,
        forall|i: int| from <= i < k ==> s[i] != c,
    ensures
        find_char(s, c, from) == Some(k),
    decreases k - from,
{
    if from < k {
        lemma_find_char_until(s, c, from + 1, k);
    }
}

/// Whether a line has at least one character.
pub open spec fn is_nonempty() -> spec_fn(Seq<char>) -> bool {
    |l: Seq<char>| l.len() > 0
}

/// The lines of a text that are not empty, in order.
pub open spec fn nonempty_lines(text: Seq<char>) -> Seq<Seq<char>> {
    lines(text).filter(is_nonempty())
}

/// The lines of a text, as `str::lines` gives them.
pub fn split_lines(text: &str) -> (result: Vec<String>)
    ensures
        strings_view(result@) == lines(text@),
{
    let chars = chars_of(text);
    let ghost s = chars@;
    let len = chars.len();
    let mut result: Vec<String> = Vec::new();
    let mut start: usize = 0;
    while start < len
        invariant
            len == s.len(),
            s == chars@,
            s == text@,
            start <= len,
            strings_view(result@) + lines_from(s, start as int) == lines(s),
        decreases len - start,
    {
        let mut end = start;
        while end < len && chars[end] != '\n'
            invariant
                start <= end <= len,
                len == s.len(),
                s == chars@,
                find_char(s, '\n', end as int) == find_char(s, '\n', start as int),
            decreases len - end,
        {
            end = end + 1;
        }
        let ghost before = strings_view(result@);
        if end < len {
            let mut stop = end;
            if stop > start && chars[stop - 1] == '\r' {
                stop = stop - 1;
            }
            let line = string_from_range(&chars, start, stop);
            proof {
                assert(line@ =~= strip_carriage_return(s.subrange(start as int, end as int)));
            }
            result.push(line);
            proof {
                assert(strings_view(result@) =~= before.push(line@));
                assert(before + lines_from(s, start as int) =~= strings_view(result@) + lines_from(
                    s,
                    end + 1,
                ));
            }
            start = end + 1;
        } else {
            let line = string_from_range(&chars, start, len);
            result.push(line);
            proof {
                assert(strings_view(result@) =~= before.push(line@));
                assert(before + lines_from(s, start as int) =~= strings_view(result@) + lines_from(
                    s,
                    len as int,
                ));
            }
            start = len;
        }
    }
    proof {
        assert(strings_view(result@) + Seq::<Seq<char>>::empty() =~= strings_view(result@));
    }
    result
}

/// Whether `a` comes no later than `b` in the order in which `str` compares: character
/// by character by code point, and a text before every longer text that it begins.
pub open spec fn text_le(a: Seq<char>, b: Seq<char>) -> bool
    decreases a.len(),
{
    if a.len() == 0 {
        true
    } else if b.len() == 0 {
        false
    } else if a[0] != b[0] {
        (a[0] as u32) < (b[0] as u32)
    } else {
        text_le(a.drop_first(), b.drop_first())
    }
}

/// Every text comes no later than itself.
pub proof fn lemma_text_le_reflexive(a: Seq<char>)
    ensures
        text_le(a, a),
    decreases a.len(),
{
    if a.len() > 0 {
        lemma_text_le_reflexive(a.drop_first());
    }
}

/// Of two texts, one comes no later than the other.
pub proof fn lemma_text_le_total(a: Seq<char>, b: Seq<char>)
    ensures
        text_le(a, b) || text_le(b, a),
    decreases a.len(),
{
    if a.len() > 0 && b.len() > 0 {
        if a[0] == b[0] {
            lemma_text_le_total(a.drop_first(), b.drop_first());
        } else {
            vstd::utf8::char_u32_cast(a[0], a[0] as u32);
            vstd::utf8::char_u32_cast(b[0], b[0] as u32);
        }
    }
}

/// The order of texts is transitive.
pub proof fn lemma_text_le_transitive(a: Seq<char>, b: Seq<char>, c: Seq<char>)
    requires
        text_le(a, b),
        text_le(b, c),
    ensures
        text_le(a, c),
    decreases a.len(),
{
    if a.len() > 0 && b.len() > 0 && c.len() > 0 {
        vstd::utf8::char_u32_cast(a[0], a[0] as u32);
        vstd::utf8::char_u32_cast(b[0], b[0] as u32);
        vstd::utf8::char_u32_cast(c[0], c[0] as u32);
        if a[0] == b[0] && b[0] == c[0] {
            lemma_text_le_transitive(a.drop_first(), b.drop_first(), c.drop_first());
        }
    }
}

proof fn lemma_text_le_skip(a: Seq<char>, b: Seq<char>, i: int)
    requires
        0 <= i < a.len(),
        i < b.len(),
        a[i] == b[i],
    ensures
        text_le(a.skip(i), b.skip(i)) == text_le(a.skip(i + 1), b.skip(i + 1)),
{
    assert(a.skip(i).drop_first() =~= a.skip(i + 1));
    assert(b.skip(i).drop_first() =~= b.skip(i + 1));
}

/// Whether `a` comes no later than `b` in the order in which `str` compares.
pub fn text_less_or_equal(a: &str, b: &str) -> (le: bool)
    ensures
        le == text_le(a@, b@),
{
    let x = chars_of(a);
    let y = chars_of(b);
    let mut i: usize = 0;
    proof {
        assert(x@.skip(0) =~= x@);
        assert(y@.skip(0) =~= y@);
    }
    while i < x.len() && i < y.len() && x[i] == y[i]
        invariant
            i <= x@.len(),
            i <= y@.len(),
            x@ == a@,
            y@ == b@,
            text_le(x@, y@) == text_le(x@.skip(i as int), y@.skip(i as int)),
        decreases x@.len() - i,
    {
        proof {
            lemma_text_le_skip(x@, y@, i as int);
        }
        i = i + 1;
    }
    if i == x.len() {
        true
    } else if i == y.len() {
        false
    } else {
        proof {
            assert(x@.skip(i as int)[0] == x@[i as int]);
            assert(y@.skip(i as int)[0] == y@[i as int]);
        }
        (x[i] as u32) < (y[i] as u32)
    }
}

} // verus!
