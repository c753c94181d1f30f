//! The section parser: from an article's text to its etymology entries.
//!
//! The text is cut into lines, blank lines are dropped, and every run of three
//! consecutive lines that reads "language heading, etymology heading, text"
//! gives one entry, unless the text is the placeholder for a missing etymology.

use vstd::prelude::*;
use crate::text::{has_prefix, has_suffix, range_ends_with, range_equals, range_starts_with, to_chars};

verus! {

/// One extracted entry: the heading line of a language section and the first
/// line of its etymology.
#[derive(Debug, PartialEq, Eq)]
pub struct Wik {
    pub desc: String,
    pub lang: String,
}

/// What an entry is in contracts.
pub struct WikView {
    pub lang: Seq<char>,
    pub desc: Seq<char>,
}

impl View for Wik {
    type V = WikView;

    open spec fn view(&self) -> WikView {
        WikView { lang: self.lang@, desc: self.desc@ }
    }
}

impl Clone for Wik {
    fn clone(&self) -> (out: Self)
        ensures
            out@ == self@,
    {
        Wik { desc: self.desc.clone(), lang: self.lang.clone() }
    }
}

/// The entries of a vector, each by its view.
pub open spec fn views(v: Seq<Wik>) -> Seq<WikView> {
    v.map_values(|w: Wik| w@)
}

/// What a language heading starts with.
pub open spec fn heading_open() -> Seq<char> {
    "== "@
}

/// What a language heading ends with.
pub open spec fn heading_close() -> Seq<char> {
    " =="@
}

/// The heading of an etymology subsection.
pub open spec fn etymology_heading() -> Seq<char> {
    "=== Étymologie ==="@
}

/// The start of the placeholder that stands where an etymology is missing.
pub open spec fn missing_marker() -> Seq<char> {
    "Étymologie manquante ou incomplète"@
}

/// The index of the first newline at or after `i`, or the length of `s`.
pub open spec fn line_end(s: Seq<char>, i: int) -> int
    decreases s.len() - i,
{
    if i >= s.len() || s[i] == '\n' {
        i
    } else {
        line_end(s, i + 1)
    }
}

/// The pieces of `s` from `i` on, cut at each newline.
pub open spec fn lines_from(s: Seq<char>, i: int) -> Seq<Seq<char>>
    decreases s.len() - i,
{
    let k = line_end(s, i);
    if 0 <= i <= k < s.len() {
        seq![s.subrange(i, k)] + lines_from(s, k + 1)
    } else if 0 <= i <= s.len() {
        seq![s.subrange(i, s.len() as int)]
    } else {
        seq![]
    }
}

/// `s` cut at each newline: one piece more than there are newlines.
pub open spec fn split_lines(s: Seq<char>) -> Seq<Seq<char>> {
    lines_from(s, 0)
}

/// The lines that are kept: those with at least one character.
pub open spec fn drop_blank(lines: Seq<Seq<char>>) -> Seq<Seq<char>> {
    lines.filter(|l: Seq<char>| l.len() > 0)
}

/// The non-blank lines of a text, in order.
pub open spec fn non_blank_lines(s: Seq<char>) -> Seq<Seq<char>> {
    drop_blank(split_lines(s))
}

/// Whether three consecutive lines give an entry.
pub open spec fn window_matches(a: Seq<char>, b: Seq<char>, c: Seq<char>) -> bool {
    &&& has_prefix(a, heading_open())
    &&& has_suffix(a, heading_close())
    &&& b == etymology_heading()
    &&& !has_prefix(c, missing_marker())
}

/// The entries of the windows that start at line `i` or later.
pub open spec fn entries_from(lines: Seq<Seq<char>>, i: int) -> Seq<WikView>
    decreases lines.len() - i,
{
    if i < 0 || i + 3 > lines.len() {
        seq![]
    } else if window_matches(lines[i], lines[i + 1], lines[i + 2]) {
        seq![WikView { lang: lines[i], desc: lines[i + 2] }] + entries_from(lines, i + 1)
    } else {
        entries_from(lines, i + 1)
    }
}

/// The entries of a text.
pub open spec fn parse_spec(text: Seq<char>) -> Seq<WikView> {
    entries_from(non_blank_lines(text), 0)
}

proof fn lemma_line_end_bounds(s: Seq<char>, i: int)
    requires
        0 <= i <= s.len(),
    ensures
        i <= line_end(s, i) <= s.len(),
        forall|j: int| i <= j < line_end(s, i) ==> s[j] != '\n',
        line_end(s, i) < s.len() ==> s[line_end(s, i)] == '\n',
    decreases s.len() - i,
{
    if i < s.len() && s[i] != '\n' {
        lemma_line_end_bounds(s, i + 1);
    }
}

proof fn lemma_drop_blank_one(line: Seq<char>, rest: Seq<Seq<char>>)
    ensures
        drop_blank(seq![line] + rest) == if line.len() > 0 {
            seq![line] + drop_blank(rest)
        } else {
            drop_blank(rest)
        },
        drop_blank(seq![line]) == if line.len() > 0 {
            seq![line]
        } else {
            Seq::<Seq<char>>::empty()
        },
{
    let keep = |l: Seq<char>| l.len() > 0;
    let one = seq![line];
    reveal_with_fuel(Seq::filter, 2);
    assert(one.drop_last() =~= Seq::<Seq<char>>::empty());
    assert(one.filter(keep) =~= if line.len() > 0 {
        one
    } else {
        Seq::<Seq<char>>::empty()
    });
    Seq::filter_distributes_over_add(one, rest, keep);
    assert(Seq::<Seq<char>>::empty() + drop_blank(rest) =~= drop_blank(rest));
}

/// Whether `e` is the entry of a matching window of `lines` that starts at
/// line `i` or later.
pub open spec fn from_window(lines: Seq<Seq<char>>, i: int, e: WikView) -> bool {
    exists|k: int|
        {
            &&& i <= k && k + 3 <= lines.len()
            &&& window_matches(lines[k], lines[k + 1], #[trigger] lines[k + 2])
            &&& e.lang == lines[k]
            &&& e.desc == lines[k + 2]
        }
}

/// Every entry that the windows from `i` on give comes from a window of
/// `lines` that matches, and there are no more entries than windows.
pub proof fn lemma_entries_from(lines: Seq<Seq<char>>, i: int)
    requires
        0 <= i,
    ensures
        entries_from(lines, i).len() <= if lines.len() - 2 - i > 0 {
            lines.len() - 2 - i
        } else {
            0
        },
        forall|j: int|
            0 <= j < entries_from(lines, i).len() ==> from_window(
                lines,
                i,
                #[trigger] entries_from(lines, i)[j],
            ),
    decreases lines.len() - i,
{
    if i + 3 <= lines.len() {
        lemma_entries_from(lines, i + 1);
        let rest = entries_from(lines, i + 1);
        let all = entries_from(lines, i);
        assert forall|j: int| 0 <= j < all.len() implies from_window(lines, i, #[trigger] all[j]) by {
            if window_matches(lines[i], lines[i + 1], lines[i + 2]) && j == 0 {
                assert(all[0].desc == lines[i + 2]);
            } else {
                let r = if window_matches(lines[i], lines[i + 1], lines[i + 2]) {
                    j - 1
                } else {
                    j
                };
                assert(all[j] == rest[r]);
                assert(from_window(lines, i + 1, rest[r]));
                let k = choose|k: int|
                    {
                        &&& i + 1 <= k && k + 3 <= lines.len()
                        &&& window_matches(lines[k], lines[k + 1], #[trigger] lines[k + 2])
                        &&& rest[r].lang == lines[k]
                        &&& rest[r].desc == lines[k + 2]
                    };
                assert(all[j].desc == lines[k + 2]);
            }
        }
    }
}

/// No line that is kept is empty.
pub proof fn lemma_non_blank(text: Seq<char>)
    ensures
        forall|j: int|
            0 <= j < non_blank_lines(text).len() ==> (#[trigger] non_blank_lines(text)[j]).len()
                > 0,
{
    let keep = |l: Seq<char>| l.len() > 0;
    assert forall|j: int| 0 <= j < non_blank_lines(text).len() implies (
    #[trigger] non_blank_lines(text)[j]).len() > 0 by {
        split_lines(text).lemma_filter_pred(keep, j);
    }
}

/// No entry's description starts with the placeholder for a missing
/// etymology or is empty, and every entry's language is a heading.
pub proof fn lemma_parse_entries_valid(text: Seq<char>)
    ensures
        forall|j: int|
            0 <= j < parse_spec(text).len() ==> {
                &&& !has_prefix((#[trigger] parse_spec(text)[j]).desc, missing_marker())
                &&& parse_spec(text)[j].desc.len() > 0
                &&& has_prefix(parse_spec(text)[j].lang, heading_open())
                &&& has_suffix(parse_spec(text)[j].lang, heading_close())
            },
{
    let lines = non_blank_lines(text);
    lemma_entries_from(lines, 0);
    lemma_non_blank(text);
    assert forall|j: int| 0 <= j < parse_spec(text).len() implies {
        &&& !has_prefix((#[trigger] parse_spec(text)[j]).desc, missing_marker())
        &&& parse_spec(text)[j].desc.len() > 0
        &&& has_prefix(parse_spec(text)[j].lang, heading_open())
        &&& has_suffix(parse_spec(text)[j].lang, heading_close())
    } by {
        let e = entries_from(lines, 0)[j];
        assert(from_window(lines, 0, e));
        let k = choose|k: int|
            {
                &&& 0 <= k && k + 3 <= lines.len()
                &&& window_matches(lines[k], lines[k + 1], #[trigger] lines[k + 2])
                &&& e.lang == lines[k]
                &&& e.desc == lines[k + 2]
            };
        assert(lines[k + 2].len() > 0);
    }
}

/// A text gives at most as many entries as it has windows: two fewer than
/// its non-blank lines, and none where it has fewer than three.
pub proof fn lemma_parse_count(text: Seq<char>)
    ensures
        parse_spec(text).len() <= if non_blank_lines(text).len() >= 2 {
            non_blank_lines(text).len() - 2
        } else {
            0
        },
{
    lemma_entries_from(non_blank_lines(text), 0);
}

/// The entries depend on the text alone: two results of `parse` for one
/// text hold the same entries in the same order.
pub proof fn lemma_parse_repeatable(text: Seq<char>, first: Seq<Wik>, second: Seq<Wik>)
    requires
        views(first) == parse_spec(text),
        views(second) == parse_spec(text),
    ensures
        first.len() == second.len(),
        forall|j: int|
            0 <= j < first.len() ==> (#[trigger] first[j]).lang@ == second[j].lang@ && first[j].desc@
                == second[j].desc@,
{
    assert(views(first).len() == first.len());
    assert(views(second).len() == second.len());
    assert forall|j: int| 0 <= j < first.len() implies (#[trigger] first[j]).lang@
        == second[j].lang@ && first[j].desc@ == second[j].desc@ by {
        assert(views(first)[j] == first[j]@);
        assert(views(second)[j] == second[j]@);
    }
}

/// An empty text has no entries.
pub proof fn lemma_parse_empty()
    ensures
        parse_spec(Seq::<char>::empty()) == Seq::<WikView>::empty(),
{
    lemma_parse_count(Seq::<char>::empty());
    let s = Seq::<char>::empty();
    assert(split_lines(s) =~= seq![s.subrange(0, 0)]);
    lemma_drop_blank_one(s.subrange(0, 0), Seq::empty());
    assert(parse_spec(s) =~= Seq::<WikView>::empty());
}

/// A run of `n` newlines.
pub open spec fn blank_run(n: nat) -> Seq<char> {
    Seq::new(n, |i: int| '\n')
}

/// Whether `s` is one line that is kept: not empty, and without a newline.
pub open spec fn is_line(s: Seq<char>) -> bool {
    s.len() > 0 && forall|i: int| 0 <= i < s.len() ==> s[i] != '\n'
}

proof fn lemma_line_end_before(x: Seq<char>, y: Seq<char>, i: int)
    requires
        0 <= i <= x.len(),
    ensures
        line_end(x + seq!['\n'] + y, i) == line_end(x, i),
    decreases x.len() - i,
{
    let s = x + seq!['\n'] + y;
    if i < x.len() {
        assert(s[i] == x[i]);
        if x[i] != '\n' {
            lemma_line_end_before(x, y, i + 1);
        }
    } else {
        assert(s[i] == '\n');
    }
}

proof fn lemma_line_end_after(p: Seq<char>, y: Seq<char>, j: int)
    requires
        0 <= j <= y.len(),
    ensures
        line_end(p + y, p.len() + j) == p.len() + line_end(y, j),
    decreases y.len() - j,
{
    let s = p + y;
    if j < y.len() {
        assert(s[p.len() + j] == y[j]);
        if y[j] != '\n' {
            lemma_line_end_after(p, y, j + 1);
        }
    }
}

proof fn lemma_lines_after(p: Seq<char>, y: Seq<char>, j: int)
    requires
        0 <= j <= y.len(),
    ensures
        lines_from(p + y, p.len() + j) == lines_from(y, j),
    decreases y.len() - j,
{
    let s = p + y;
    let k = line_end(y, j);
    lemma_line_end_after(p, y, j);
    lemma_line_end_bounds(y, j);
    assert(s.subrange(p.len() + j, p.len() + k) =~= y.subrange(j, k));
    if k < y.len() {
        lemma_lines_after(p, y, k + 1);
    }
}

proof fn lemma_lines_before(x: Seq<char>, y: Seq<char>, i: int)
    requires
        0 <= i <= x.len(),
    ensures
        lines_from(x + seq!['\n'] + y, i) == lines_from(x, i) + lines_from(y, 0),
    decreases x.len() - i,
{
    let s = x + seq!['\n'] + y;
    let k = line_end(x, i);
    lemma_line_end_before(x, y, i);
    lemma_line_end_bounds(x, i);
    assert(s.subrange(i, k) =~= x.subrange(i, k));
    if k < x.len() {
        lemma_lines_before(x, y, k + 1);
        assert(seq![x.subrange(i, k)] + (lines_from(x, k + 1) + lines_from(y, 0)) =~= (seq![
            x.subrange(i, k),
        ] + lines_from(x, k + 1)) + lines_from(y, 0));
    } else {
        lemma_lines_after(x + seq!['\n'], y, 0);
    }
}

/// Cutting is done line by line: the non-blank lines of two texts joined by
/// a newline are those of the first followed by those of the second.
pub proof fn lemma_lines_of_joined(x: Seq<char>, y: Seq<char>)
    ensures
        split_lines(x + seq!['\n'] + y) == split_lines(x) + split_lines(y),
        non_blank_lines(x + seq!['\n'] + y) == non_blank_lines(x) + non_blank_lines(y),
{
    lemma_lines_before(x, y, 0);
    Seq::filter_distributes_over_add(split_lines(x), split_lines(y), |l: Seq<char>| l.len() > 0);
}

/// A text without characters has no non-blank line, and a text that is one
/// line has that line alone.
pub proof fn lemma_lines_of_one(s: Seq<char>)
    ensures
        s.len() == 0 ==> non_blank_lines(s) == Seq::<Seq<char>>::empty(),
        is_line(s) ==> non_blank_lines(s) == seq![s],
{
    if s.len() == 0 || is_line(s) {
        lemma_line_end_bounds(s, 0);
        assert(line_end(s, 0) == s.len());
        assert(s.subrange(0, s.len() as int) =~= s);
        lemma_drop_blank_one(s, Seq::empty());
    }
}

/// Blank lines are dropped before anything is matched: a run of one or more
/// newlines between two texts separates them as a single newline does.
pub proof fn lemma_blank_lines_ignored(x: Seq<char>, n: nat, y: Seq<char>)
    requires
        n >= 1,
    ensures
        non_blank_lines(x + blank_run(n) + y) == non_blank_lines(x) + non_blank_lines(y),
        parse_spec(x + blank_run(n) + y) == parse_spec(x + seq!['\n'] + y),
    decreases n,
{
    let nl = seq!['\n'];
    lemma_lines_of_joined(x, y);
    if n == 1 {
        assert(blank_run(1) =~= nl);
    } else {
        let m = (n - 1) as nat;
        let empty = Seq::<char>::empty();
        assert(x + blank_run(n) + y =~= (x + blank_run(m) + empty) + nl + y);
        lemma_lines_of_joined(x + blank_run(m) + empty, y);
        lemma_blank_lines_ignored(x, m, empty);
        lemma_lines_of_one(empty);
        assert(non_blank_lines(x) + Seq::<Seq<char>>::empty() =~= non_blank_lines(x));
    }
}

/// A heading, the etymology heading and a text that match give their entry
/// however many blank lines stand between them.
pub proof fn lemma_window_with_blank_lines(
    a: Seq<char>,
    b: Seq<char>,
    c: Seq<char>,
    p: nat,
    q: nat,
)
    requires
        is_line(a),
        is_line(b),
        is_line(c),
        window_matches(a, b, c),
        p >= 1,
        q >= 1,
    ensures
        parse_spec(a + blank_run(p) + b + blank_run(q) + c) == seq![
            WikView { lang: a, desc: c },
        ],
{
    lemma_blank_lines_ignored(a + blank_run(p) + b, q, c);
    lemma_blank_lines_ignored(a, p, b);
    lemma_lines_of_one(a);
    lemma_lines_of_one(b);
    lemma_lines_of_one(c);
    let lines = seq![a, b, c];
    assert(non_blank_lines(a + blank_run(p) + b + blank_run(q) + c) =~= lines);
    assert(entries_from(lines, 1) =~= Seq::<WikView>::empty());
    assert(entries_from(lines, 0) =~= seq![WikView { lang: a, desc: c }]);
}

/// The non-blank lines of `chars`, each as the pair of its first index and the
/// index after its last.
pub fn line_spans(chars: &Vec<char>) -> (spans: Vec<(usize, usize)>)
    ensures
        spans.len() == non_blank_lines(chars@).len(),
        forall|j: int|
            0 <= j < spans.len() ==> {
                &&& (#[trigger] spans[j]).0 < spans[j].1 <= chars.len()
                &&& non_blank_lines(chars@)[j] == chars@.subrange(
                    spans[j].0 as int,
                    spans[j].1 as int,
                )
            },
{
    let n: usize = chars.len();
    let mut spans: Vec<(usize, usize)> = Vec::new();
    let ghost lines: Seq<Seq<char>> = Seq::empty();
    let mut pos: usize = 0;
    let mut done: bool = false;
    assert(lines + drop_blank(lines_from(chars@, 0)) =~= non_blank_lines(chars@));
    while !done
        invariant
            n == chars.len(),
            pos <= n,
            spans.len() == lines.len(),
            forall|j: int|
                0 <= j < spans.len() ==> {
                    &&& (#[trigger] spans[j]).0 < spans[j].1 <= n
                    &&& lines[j] == chars@.subrange(spans[j].0 as int, spans[j].1 as int)
                },
            non_blank_lines(chars@) == if done {
                lines
            } else {
                lines + drop_blank(lines_from(chars@, pos as int))
            },
        decreases n - pos + if done { 0int } else { 1int },
    {
        let mut k: usize = pos;
        while k < n && chars[k] != '\n'
            invariant
                n == chars.len(),
                pos <= k <= n,
                line_end(chars@, k as int) == line_end(chars@, pos as int),
            decreases n - k,
        {
            k += 1;
        }
        proof {
            let line = chars@.subrange(pos as int, k as int);
            let rest = if k < n {
                lines_from(chars@, k + 1)
            } else {
                Seq::<Seq<char>>::empty()
            };
            lemma_drop_blank_one(line, rest);
            assert(lines_from(chars@, pos as int) =~= seq![line] + rest);
            assert(drop_blank(Seq::<Seq<char>>::empty()) =~= Seq::<Seq<char>>::empty()) by {
                reveal_with_fuel(Seq::filter, 1);
            }
            if k > pos {
                assert(lines + (seq![line] + drop_blank(rest)) =~= lines.push(line) + drop_blank(
                    rest,
                ));
                lines = lines.push(line);
            }
            assert(lines + Seq::<Seq<char>>::empty() =~= lines);
        }
        if k > pos {
            spans.push((pos, k));
        }
        if k < n {
            pos = k + 1;
        } else {
            done = true;
        }
    }
    spans
}

/// The characters of `chars` between `from` and `to`, as a string cut out of
/// `text`, which holds the same characters.
fn cut(text: &str, from: usize, to: usize) -> (out: String)
    requires
        from <= to <= text@.len(),
    ensures
        out@ == text@.subrange(from as int, to as int),
{
    text.substring_char(from, to).to_owned()
}

/// Extracts the etymology entries of an article's text.
///
/// The result holds, in the order of the text, one entry for each run of
/// three consecutive non-blank lines of which the first is a language
/// heading, the second the etymology heading, and the third anything but the
/// placeholder for a missing etymology.
pub fn parse(text: &str) -> (out: Vec<Wik>)
    ensures
        views(out@) == parse_spec(text@),
        out.len() == 0 || out.len() + 2 <= non_blank_lines(text@).len(),
        forall|j: int|
            0 <= j < out.len() ==> (#[trigger] out[j]).desc@.len() > 0 && !has_prefix(
                out[j].desc@,
                missing_marker(),
            ),
{
    let chars = to_chars(text);
    let spans = line_spans(&chars);
    let open = to_chars("== ");
    let close = to_chars(" ==");
    let etymology = to_chars("=== Étymologie ===");
    let missing = to_chars("Étymologie manquante ou incomplète");
    let ghost lines = non_blank_lines(text@);
    let m: usize = spans.len();
    let mut out: Vec<Wik> = Vec::new();
    let limit: usize = if m >= 3 {
        m - 2
    } else {
        0
    };
    let mut i: usize = 0;
    assert(views(out@) + entries_from(lines, 0) =~= parse_spec(text@));
    while i < limit
        invariant
            i <= limit,
            limit + 2 == m || (limit == 0 && m < 3),
            chars@ == text@,
            lines == non_blank_lines(text@),
            m == spans.len(),
            m == lines.len(),
            forall|j: int|
                0 <= j < spans.len() ==> {
                    &&& (#[trigger] spans[j]).0 < spans[j].1 <= chars.len()
                    &&& lines[j] == chars@.subrange(spans[j].0 as int, spans[j].1 as int)
                },
            open@ == heading_open(),
            close@ == heading_close(),
            etymology@ == etymology_heading(),
            missing@ == missing_marker(),
            views(out@) + entries_from(lines, i as int) == parse_spec(text@),
        decreases limit - i,
    {
        let a = spans[i];
        let b = spans[i + 1];
        let c = spans[i + 2];
        if range_starts_with(&chars, a.0, a.1, &open) && range_ends_with(&chars, a.0, a.1, &close)
            && range_equals(&chars, b.0, b.1, &etymology) && !range_starts_with(
            &chars,
            c.0,
            c.1,
            &missing,
        ) {
            let entry = Wik { desc: cut(text, c.0, c.1), lang: cut(text, a.0, a.1) };
            proof {
                let e = WikView { lang: lines[i as int], desc: lines[i + 2] };
                assert(entry@ == e);
                assert(views(out@.push(entry)) =~= views(out@).push(e));
                assert(views(out@).push(e) + entries_from(lines, i + 1) =~= views(out@) + (seq![e]
                    + entries_from(lines, i + 1)));
            }
            out.push(entry);
        }
        i += 1;
    }
    proof {
        assert(views(out@) + Seq::<WikView>::empty() =~= views(out@));
        lemma_parse_count(text@);
        lemma_parse_entries_valid(text@);
        assert(views(out@).len() == out.len());
        assert forall|j: int| 0 <= j < out.len() implies (#[trigger] out[j]).desc@.len() > 0
            && !has_prefix(out[j].desc@, missing_marker()) by {
            assert(parse_spec(text@)[j] == out[j]@);
        }
    }
    out
}

} // verus!
