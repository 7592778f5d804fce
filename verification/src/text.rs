//! Characters, whitespace and lines: the text layer under the line parser.

use vstd::prelude::*;

verus! {

/// The text of an optional string.
pub open spec fn opt_text(o: Option<String>) -> Option<Seq<char>> {
    match o {
        Some(s) => Some(s@),
        None => None,
    }
}

/// The texts of a list of owned strings.
pub open spec fn texts_of(list: Seq<String>) -> Seq<Seq<char>> {
    Seq::new(list.len(), |i: int| list[i]@)
}

/// Whether `c` has the Unicode property White_Space.
pub open spec fn is_space(c: char) -> bool {
    let n = c as u32;
    ||| n == 0x20
    ||| 0x09 <= n <= 0x0d
    ||| n == 0x85
    ||| n == 0xa0
    ||| n == 0x1680
    ||| 0x2000 <= n <= 0x200a
    ||| n == 0x2028
    ||| n == 0x2029
    ||| n == 0x202f
    ||| n == 0x205f
    ||| n == 0x3000
}

/// Tests a character for the Unicode property White_Space.
pub fn is_space_char(c: char) -> (b: bool)
    ensures
        b == is_space(c),
{
    let n: u32 = c as u32;
    n == 0x20 || (0x09 <= n && n <= 0x0d) || n == 0x85 || n == 0xa0 || n == 0x1680 || (0x2000 <= n
        && n <= 0x200a) || n == 0x2028 || n == 0x2029 || n == 0x202f || n == 0x205f || n == 0x3000
}

/// The characters of a string slice, as a vector.
pub fn to_chars(s: &str) -> (v: Vec<char>)
    ensures
        v@ == s@,
{
    let mut v: Vec<char> = Vec::new();
    for c in it: s.chars()
        invariant
            it.seq() == s@,
            v@ == it.seq().take(it.index() as int),
    {
        v.push(c);
    }
    v
}

/// `s` without the whitespace at its start.
pub open spec fn trim_start(s: Seq<char>) -> Seq<char>
    decreases s.len(),
{
    if s.len() > 0 && is_space(s[0]) {
        trim_start(s.drop_first())
    } else {
        s
    }
}

/// `s` without the whitespace at its end.
pub open spec fn trim_end(s: Seq<char>) -> Seq<char>
    decreases s.len(),
{
    if s.len() > 0 && is_space(s.last()) {
        trim_end(s.drop_last())
    } else {
        s
    }
}

/// `s` without the whitespace at its start and at its end.
pub open spec fn trimmed(s: Seq<char>) -> Seq<char> {
    trim_end(trim_start(s))
}

/// `s` neither starts nor ends with whitespace.
pub open spec fn is_trimmed(s: Seq<char>) -> bool {
    s.len() == 0 || (!is_space(s[0]) && !is_space(s.last()))
}

/// What `trim_start` leaves is the end of the text, and it does not start
/// with whitespace.
pub proof fn lemma_trim_start(s: Seq<char>)
    ensures
        trim_start(s).len() <= s.len(),
        trim_start(s) == s.skip(s.len() - trim_start(s).len()),
        trim_start(s).len() > 0 ==> !is_space(trim_start(s)[0]),
    decreases s.len(),
{
    if s.len() > 0 && is_space(s[0]) {
        lemma_trim_start(s.drop_first());
        let r = trim_start(s.drop_first());
        assert(s.drop_first().skip(s.len() - 1 - r.len()) =~= s.skip(s.len() - r.len()));
    } else {
        assert(s.skip(0) =~= s);
    }
}

/// What `trim_end` leaves is the start of the text, and it does not end with
/// whitespace.
pub proof fn lemma_trim_end(s: Seq<char>)
    ensures
        trim_end(s).len() <= s.len(),
        trim_end(s) == s.take(trim_end(s).len() as int),
        trim_end(s).len() > 0 ==> !is_space(trim_end(s).last()),
    decreases s.len(),
{
    if s.len() > 0 && is_space(s.last()) {
        lemma_trim_end(s.drop_last());
        let r = trim_end(s.drop_last());
        assert(s.drop_last().take(r.len() as int) =~= s.take(r.len() as int));
    } else {
        assert(s.take(s.len() as int) =~= s);
    }
}

/// Trimming leaves a text that neither starts nor ends with whitespace, and
/// leaves such a text as it is.
pub proof fn lemma_trimmed(s: Seq<char>)
    ensures
        is_trimmed(trimmed(s)),
        is_trimmed(s) ==> trimmed(s) == s,
{
    lemma_trim_start(s);
    lemma_trim_end(trim_start(s));
    let t = trimmed(s);
    if t.len() > 0 {
        assert(t[0] == trim_start(s)[0]);
    }
}

/// `s` without one quotation mark at its start and one at its end, as far
/// as they are there.
pub open spec fn unquoted(s: Seq<char>) -> Seq<char> {
    let rest = if s.len() > 0 && s[0] == '"' {
        s.drop_first()
    } else {
        s
    };
    if rest.len() > 0 && rest.last() == '"' {
        rest.drop_last()
    } else {
        rest
    }
}

/// `c` stands at `i` in `s` and nowhere before.
pub open spec fn is_first_at(s: Seq<char>, c: char, i: int) -> bool {
    &&& 0 <= i < s.len()
    &&& s[i] == c
    &&& forall|j: int| 0 <= j < i ==> s[j] != c
}

/// The first index at which `c` stands in `s`, where `s` contains `c`.
pub open spec fn first_index(s: Seq<char>, c: char) -> int {
    choose|i: int| is_first_at(s, c, i)
}

/// A character has one first place at most.
pub proof fn lemma_first_index(s: Seq<char>, c: char, i: int)
    requires
        is_first_at(s, c, i),
    ensures
        s.contains(c),
        first_index(s, c) == i,
{
    let j = first_index(s, c);
    assert(is_first_at(s, c, j));
    if j < i {
        assert(s[j] != c);
    } else if i < j {
        assert(s[i] != c);
    }
}

/// What one line holds: without `=` nothing; else the text before the first
/// `=`, trimmed, as the key, and the text after it, trimmed and then freed
/// of one layer of quotation marks, as the value.
pub open spec fn parsed_line(line: Seq<char>) -> Option<(Seq<char>, Seq<char>)> {
    if line.contains('=') {
        let at = first_index(line, '=');
        Some((trimmed(line.take(at)), unquoted(trimmed(line.skip(at + 1)))))
    } else {
        None
    }
}

/// The bounds of `v[from..to]` without the whitespace at its two ends.
pub fn trim_range(v: &Vec<char>, from: usize, to: usize) -> (r: (usize, usize))
    requires
        from <= to <= v.len(),
    ensures
        from <= r.0 <= r.1 <= to,
        v@.subrange(r.0 as int, r.1 as int) == trimmed(v@.subrange(from as int, to as int)),
{
    let mut a: usize = from;
    while a < to && is_space_char(v[a])
        invariant
            from <= a <= to <= v.len(),
            trim_start(v@.subrange(from as int, to as int)) == trim_start(
                v@.subrange(a as int, to as int),
            ),
        decreases to - a,
    {
        proof {
            assert(v@.subrange(a as int, to as int).drop_first() =~= v@.subrange(
                a + 1,
                to as int,
            ));
        }
        a += 1;
    }
    let mut b: usize = to;
    while a < b && is_space_char(v[b - 1])
        invariant
            a <= b <= to <= v.len(),
            trim_end(v@.subrange(a as int, to as int)) == trim_end(v@.subrange(a as int, b as int)),
        decreases b - a,
    {
        proof {
            assert(v@.subrange(a as int, b as int).drop_last() =~= v@.subrange(
                a as int,
                b - 1,
            ));
        }
        b -= 1;
    }
    proof {
        let tail = v@.subrange(a as int, to as int);
        assert(trim_start(tail) == tail);
        assert(trim_end(v@.subrange(a as int, b as int)) == v@.subrange(a as int, b as int));
    }
    (a, b)
}

/// The index of the first `c` in `v`, if `v` contains one.
pub fn find_char(v: &Vec<char>, c: char) -> (r: Option<usize>)
    ensures
        r is Some == v@.contains(c),
        r matches Some(i) ==> is_first_at(v@, c, i as int) && i as int == first_index(v@, c),
{
    let mut i: usize = 0;
    while i < v.len()
        invariant
            i <= v.len(),
            forall|j: int| 0 <= j < i ==> v@[j] != c,
        decreases v.len() - i,
    {
        if v[i] == c {
            proof {
                lemma_first_index(v@, c, i as int);
            }
            return Some(i);
        }
        i += 1;
    }
    None
}

/// Reads one line: see `parsed_line`.
pub fn parse_line(line: &str) -> (r: Option<(String, String)>)
    ensures
        match r {
            Some((key, value)) => parsed_line(line@) == Some((key@, value@)),
            None => parsed_line(line@) is None,
        },
{
    let v = to_chars(line);
    match find_char(&v, '=') {
        None => None,
        Some(at) => {
            let (ka, kb) = trim_range(&v, 0, at);
            let (va, vb) = trim_range(&v, at + 1, v.len());
            let mut a: usize = va;
            let mut b: usize = vb;
            if a < b && v[a] == '"' {
                a += 1;
            }
            if a < b && v[b - 1] == '"' {
                b -= 1;
            }
            proof {
                assert(v@.subrange(0, at as int) =~= line@.take(at as int));
                assert(v@.subrange(at + 1, v.len() as int) =~= line@.skip(at + 1));
                let inner = v@.subrange(va as int, vb as int);
                let rest = if inner.len() > 0 && inner[0] == '"' {
                    inner.drop_first()
                } else {
                    inner
                };
                assert(rest =~= v@.subrange(a as int, vb as int));
                assert(unquoted(inner) =~= v@.subrange(a as int, b as int));
            }
            let key = line.substring_char(ka, kb).to_owned();
            let value = line.substring_char(a, b).to_owned();
            Some((key, value))
        },
    }
}

/// `s` without one carriage return at its end, if there is one.
pub open spec fn strip_cr(s: Seq<char>) -> Seq<char> {
    if s.len() > 0 && s.last() == '\r' {
        s.drop_last()
    } else {
        s
    }
}

/// The lines of a text. A line ends at a line feed, and a carriage return
/// just before that line feed belongs to the line ending. What follows the
/// last line feed is a line of its own unless it is empty.
pub open spec fn lines_of(text: Seq<char>) -> Seq<Seq<char>>
    decreases text.len(),
{
    let at = first_index(text, '\n');
    if text.len() == 0 {
        Seq::empty()
    } else if text.contains('\n') && 0 <= at < text.len() {
        seq![strip_cr(text.take(at))] + lines_of(text.skip(at + 1))
    } else {
        seq![text]
    }
}

/// The lines of a text, first line first: see `lines_of`.
pub fn split_lines(text: &str) -> (lines: Vec<String>)
    ensures
        texts_of(lines@) == lines_of(text@),
{
    let v = to_chars(text);
    let mut lines: Vec<String> = Vec::new();
    let ghost mut done: Seq<Seq<char>> = Seq::empty();
    let mut start: usize = 0;
    let mut i: usize = 0;
    proof {
        assert(text@.skip(0) =~= text@);
        assert(done + lines_of(text@) =~= lines_of(text@));
    }
    while i < v.len()
        invariant
            start <= i <= v.len(),
            v@ == text@,
            forall|j: int| start <= j < i ==> v@[j] != '\n',
            lines_of(text@) == done + lines_of(text@.skip(start as int)),
            lines@.len() == done.len(),
            forall|k: int| 0 <= k < lines@.len() ==> (#[trigger] lines@[k])@ == done[k],
        decreases v.len() - i,
    {
        if v[i] == '\n' {
            let end: usize = if start < i && v[i - 1] == '\r' {
                i - 1
            } else {
                i
            };
            let line = text.substring_char(start, end).to_owned();
            proof {
                let rest = text@.skip(start as int);
                assert(is_first_at(rest, '\n', i - start));
                lemma_first_index(rest, '\n', i - start);
                assert(rest.take(i - start) =~= text@.subrange(start as int, i as int));
                assert(strip_cr(rest.take(i - start)) =~= text@.subrange(start as int, end as int));
                assert(rest.skip(i - start + 1) =~= text@.skip(i + 1));
                assert(done + (seq![line@] + lines_of(text@.skip(i + 1))) =~= done.push(line@)
                    + lines_of(text@.skip(i + 1)));
                done = done.push(line@);
            }
            lines.push(line);
            start = i + 1;
        }
        i += 1;
    }
    if start < v.len() {
        let line = text.substring_char(start, v.len()).to_owned();
        proof {
            let rest = text@.skip(start as int);
            assert(!rest.contains('\n')) by {
                if rest.contains('\n') {
                    let k = choose|k: int| 0 <= k < rest.len() && rest[k] == '\n';
                    assert(v@[start + k] == '\n');
                }
            }
            assert(rest =~= text@.subrange(start as int, v.len() as int));
            assert(done + seq![line@] =~= done.push(line@));
            done = done.push(line@);
        }
        lines.push(line);
    } else {
        proof {
            assert(done + Seq::<Seq<char>>::empty() =~= done);
        }
    }
    proof {
        assert(texts_of(lines@) =~= done);
    }
    lines
}

/// A copy of `s` without the whitespace at its start and at its end.
pub fn trim(s: &str) -> (out: String)
    ensures
        out@ == trimmed(s@),
{
    let v = to_chars(s);
    let (a, b) = trim_range(&v, 0, v.len());
    proof {
        assert(v@.subrange(0, v.len() as int) =~= s@);
    }
    s.substring_char(a, b).to_owned()
}

/// The line that shows a pair: the key, ` = `, and the value between
/// quotation marks.
pub open spec fn pair_line(key: Seq<char>, value: Seq<char>) -> Seq<char> {
    key + seq![' ', '=', ' ', '"'] + value + seq!['"']
}

/// `lines` put together with `sep` between each two.
pub open spec fn joined(lines: Seq<Seq<char>>, sep: Seq<char>) -> Seq<char>
    decreases lines.len(),
{
    if lines.len() == 0 {
        Seq::empty()
    } else if lines.len() == 1 {
        lines[0]
    } else {
        joined(lines.drop_last(), sep) + sep + lines.last()
    }
}

/// The line that shows a pair: see `pair_line`.
pub fn format_pair(key: &str, value: &str) -> (line: String)
    ensures
        line@ == pair_line(key@, value@),
{
    proof {
        reveal_strlit(" = \"");
        reveal_strlit("\"");
        assert(" = \""@ =~= seq![' ', '=', ' ', '"']);
        assert("\""@ =~= seq!['"']);
    }
    let mut line = key.to_owned();
    line.append(" = \"");
    line.append(value);
    line.append("\"");
    line
}

/// `lines` put together with `sep` between each two.
pub fn join_lines(lines: &Vec<String>, sep: &str) -> (out: String)
    ensures
        out@ == joined(texts_of(lines@), sep@),
{
    let mut out = String::new();
    let mut i: usize = 0;
    proof {
        assert(texts_of(lines@).take(0) =~= Seq::<Seq<char>>::empty());
    }
    while i < lines.len()
        invariant
            i <= lines.len(),
            out@ == joined(texts_of(lines@).take(i as int), sep@),
        decreases lines.len() - i,
    {
        proof {
            let upto = texts_of(lines@).take(i + 1);
            assert(upto.drop_last() =~= texts_of(lines@).take(i as int));
            assert(upto.last() == lines@[i as int]@);
            if i == 0 {
                assert(upto[0] == lines@[0]@);
                assert(Seq::<char>::empty() + lines@[0]@ =~= lines@[0]@);
            }
        }
        if i > 0 {
            out.append(sep);
        }
        out.append(lines[i].as_str());
        i += 1;
    }
    proof {
        assert(texts_of(lines@).take(i as int) =~= texts_of(lines@));
    }
    out
}

/// `text` with every match of `search` replaced by `with`. Matches are
/// found from the start and do not overlap. The empty text matches before
/// every character and at the end.
pub open spec fn replaced(text: Seq<char>, search: Seq<char>, with: Seq<char>) -> Seq<char>
    decreases text.len(),
{
    if search.len() == 0 {
        if text.len() == 0 {
            with
        } else {
            with + seq![text[0]] + replaced(text.drop_first(), search, with)
        }
    } else if text.len() < search.len() {
        text
    } else if text.take(search.len() as int) == search {
        with + replaced(text.skip(search.len() as int), search, with)
    } else {
        seq![text[0]] + replaced(text.drop_first(), search, with)
    }
}

/// Whether `search` stands in `text` at `at`.
pub fn matches_at(text: &Vec<char>, search: &Vec<char>, at: usize) -> (b: bool)
    requires
        at + search.len() <= text.len(),
    ensures
        b == (text@.subrange(at as int, at + search.len()) == search@),
{
    let mut k: usize = 0;
    while k < search.len()
        invariant
            k <= search.len(),
            at + search.len() <= text.len(),
            forall|j: int| 0 <= j < k ==> text@[at + j] == search@[j],
        decreases search.len() - k,
    {
        if text[at + k] != search[k] {
            proof {
                assert(text@.subrange(at as int, at + search.len())[k as int] == text@[at + k]);
            }
            return false;
        }
        k += 1;
    }
    proof {
        assert(text@.subrange(at as int, at + search.len()) =~= search@);
    }
    true
}

/// A copy of `text` in which every match of the literal text `search` is
/// replaced by `with`: see `replaced`.
pub fn replace_all(text: &str, search: &str, with: &str) -> (out: String)
    ensures
        out@ == replaced(text@, search@, with@),
{
    let t = to_chars(text);
    let s = to_chars(search);
    let n = t.len();
    let m = s.len();
    let mut out = String::new();
    let mut i: usize = 0;
    proof {
        assert(text@.skip(0) =~= text@);
    }
    if m == 0 {
        while i < n
            invariant
                i <= n,
                n == text@.len(),
                search@.len() == 0,
                replaced(text@, search@, with@) == out@ + replaced(
                    text@.skip(i as int),
                    search@,
                    with@,
                ),
            decreases n - i,
        {
            proof {
                let rest = text@.skip(i as int);
                assert(rest.drop_first() =~= text@.skip(i + 1));
                assert(text@.subrange(i as int, i + 1) =~= seq![rest[0]]);
                assert(out@ + (with@ + seq![rest[0]] + replaced(
                    text@.skip(i + 1),
                    search@,
                    with@,
                )) =~= out@ + with@ + text@.subrange(i as int, i + 1) + replaced(
                    text@.skip(i + 1),
                    search@,
                    with@,
                ));
            }
            out.append(with);
            out.append(text.substring_char(i, i + 1));
            i += 1;
        }
        out.append(with);
        return out;
    }
    let mut from: usize = 0;
    proof {
        assert(out@ + text@.subrange(0, 0) + replaced(text@, search@, with@) =~= replaced(
            text@,
            search@,
            with@,
        ));
    }
    while n - i >= m
        invariant
            from <= i <= n,
            n == t@.len(),
            m == s@.len(),
            m > 0,
            t@ == text@,
            s@ == search@,
            replaced(text@, search@, with@) == out@ + text@.subrange(from as int, i as int)
                + replaced(text@.skip(i as int), search@, with@),
        decreases n - i,
    {
        let ghost rest = text@.skip(i as int);
        let ghost pending = text@.subrange(from as int, i as int);
        proof {
            assert(rest.take(m as int) =~= text@.subrange(i as int, i + m));
        }
        if matches_at(&t, &s, i) {
            proof {
                assert(rest.skip(m as int) =~= text@.skip(i + m));
                assert(text@.subrange(i + m, i + m) =~= Seq::<char>::empty());
                assert(out@ + pending + (with@ + replaced(text@.skip(i + m), search@, with@))
                    =~= out@ + pending + with@ + text@.subrange(i + m, i + m) + replaced(
                    text@.skip(i + m),
                    search@,
                    with@,
                ));
            }
            out.append(text.substring_char(from, i));
            out.append(with);
            i += m;
            from = i;
        } else {
            proof {
                assert(rest.drop_first() =~= text@.skip(i + 1));
                assert(pending + seq![rest[0]] =~= text@.subrange(from as int, i + 1));
                assert(out@ + pending + (seq![rest[0]] + replaced(
                    text@.skip(i + 1),
                    search@,
                    with@,
                )) =~= out@ + text@.subrange(from as int, i + 1) + replaced(
                    text@.skip(i + 1),
                    search@,
                    with@,
                ));
            }
            i += 1;
        }
    }
    proof {
        assert(text@.subrange(from as int, i as int) + text@.skip(i as int) =~= text@.subrange(
            from as int,
            n as int,
        ));
        assert(out@ + text@.subrange(from as int, i as int) + text@.skip(i as int) =~= out@
            + text@.subrange(from as int, n as int));
    }
    out.append(text.substring_char(from, n));
    out
}

/// Putting lines together can be told from the front as well: the first
/// line, the separator, and the rest put together.
pub proof fn lemma_joined_front(lines: Seq<Seq<char>>, sep: Seq<char>)
    requires
        lines.len() >= 2,
    ensures
        joined(lines, sep) == lines[0] + sep + joined(lines.drop_first(), sep),
    decreases lines.len(),
{
    let front = lines.drop_last();
    let rest = lines.drop_first();
    if lines.len() == 2 {
        assert(front =~= seq![lines[0]]);
        assert(rest =~= seq![lines[1]]);
        assert(joined(front, sep) == lines[0]);
        assert(joined(rest, sep) == lines[1]);
    } else {
        lemma_joined_front(front, sep);
        assert(front.drop_first() =~= rest.drop_last());
        assert(front[0] == lines[0]);
        assert(rest.last() == lines.last());
        assert(joined(rest, sep) == joined(rest.drop_last(), sep) + sep + rest.last());
        assert(joined(lines, sep) =~= lines[0] + sep + joined(rest, sep));
    }
}

/// A line that can be written and read again as itself: it is not empty,
/// holds no line feed and does not end with a carriage return.
pub open spec fn is_whole_line(line: Seq<char>) -> bool {
    &&& line.len() > 0
    &&& !line.contains('\n')
    &&& line.last() != '\r'
}

/// Whether `sep` ends a line for `lines_of`: a line feed, alone or behind a
/// carriage return.
pub open spec fn is_line_break(sep: Seq<char>) -> bool {
    sep == seq!['\n'] || sep == seq!['\r', '\n']
}

/// Whole lines that were put together with a line break come apart as the
/// same lines.
pub proof fn lemma_lines_of_joined(lines: Seq<Seq<char>>, sep: Seq<char>)
    requires
        is_line_break(sep),
        forall|i: int| 0 <= i < lines.len() ==> is_whole_line(#[trigger] lines[i]),
    ensures
        lines_of(joined(lines, sep)) == lines,
    decreases lines.len(),
{
    let text = joined(lines, sep);
    if lines.len() == 0 {
        assert(lines_of(text) =~= lines);
    } else if lines.len() == 1 {
        assert(is_whole_line(lines[0]));
        assert(lines_of(text) =~= lines);
    } else {
        let first = lines[0];
        let rest = lines.drop_first();
        assert(is_whole_line(first));
        lemma_joined_front(lines, sep);
        assert forall|i: int| 0 <= i < rest.len() implies is_whole_line(#[trigger] rest[i]) by {
            assert(rest[i] == lines[i + 1]);
        }
        lemma_lines_of_joined(rest, sep);
        let at = first.len() + sep.len() - 1;
        assert(text[at] == '\n');
        assert forall|j: int| 0 <= j < at implies text[j] != '\n' by {
            if j < first.len() {
                assert(text[j] == first[j]);
                assert(first.contains(first[j]));
            } else {
                assert(text[j] == sep[j - first.len()]);
            }
        }
        assert(is_first_at(text, '\n', at));
        lemma_first_index(text, '\n', at);
        assert(text.skip(at + 1) =~= joined(rest, sep));
        if sep.len() == 1 {
            assert(text.take(at) =~= first);
        } else {
            assert(text.take(at) =~= first.push('\r'));
            assert(first.push('\r').drop_last() =~= first);
        }
        assert(strip_cr(text.take(at)) == first);
        assert(seq![first] + rest =~= lines);
    }
}

} // verus!
