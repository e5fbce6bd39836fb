//! Outbound text: the last stage between the model's output and a QQ message.
//!
//! 1. [`sanitize_reply`] cleans the model's output: line ends are unified, white space
//!    around lines goes, runs of blank lines shrink to one, zero-width characters go.
//! 2. [`cq_escape`] escapes `&`, `[` and `]` as OneBot 11 prescribes for CQ strings, so
//!    that a CQ code in the output is shown and not executed.
//! 3. [`segment_text`] cuts a long text at line boundaries; only a line that is too long
//!    by itself is cut inside.

use vstd::prelude::*;
use vstd::string::*;
use crate::lists;
use crate::text;

verus! {

// ---------- cleaning ----------

/// Carriage returns and zero-width characters, which never reach QQ.
pub open spec fn is_hidden(c: char) -> bool {
    c == '\r' || c == '\u{200B}' || c == '\u{FEFF}' || c == '\u{200E}' || c == '\u{200F}'
}

/// The text without hidden characters.
pub open spec fn visible_of(s: Seq<char>) -> Seq<char>
    decreases s.len(),
{
    if s.len() == 0 {
        s
    } else {
        let init = visible_of(s.drop_last());
        if is_hidden(s.last()) {
            init
        } else {
            init.push(s.last())
        }
    }
}

/// A line with nothing but white space.
pub open spec fn is_blank(line: Seq<char>) -> bool {
    text::trim_of(line).len() == 0
}

/// The trimmed lines, each with its line end; of adjacent blank lines only the first.
pub open spec fn layout_of(lines: Seq<Seq<char>>) -> Seq<char>
    decreases lines.len(),
{
    if lines.len() == 0 {
        Seq::<char>::empty()
    } else {
        let init = layout_of(lines.drop_last());
        let line = text::trim_of(lines.last());
        if line.len() > 0 {
            (init + line).push('\n')
        } else if lines.len() >= 2 && is_blank(lines[lines.len() - 2]) {
            init
        } else {
            init.push('\n')
        }
    }
}

/// What is sent for a model's output.
pub open spec fn sanitize_of(s: Seq<char>) -> Seq<char> {
    text::trim_of(layout_of(text::split_of(visible_of(s), '\n')))
}

fn visible(text: &str) -> (r: String)
    ensures
        r@ == visible_of(text@),
{
    let mut r = String::new();
    for c in it: text.chars()
        invariant
            it.seq() == text@,
            r@ == visible_of(text@.take(it.index() as int)),
    {
        proof {
            assert(text@.take(it.index() + 1).drop_last() == text@.take(it.index() as int));
        }
        if c == '\r' || c == '\u{200B}' || c == '\u{FEFF}' || c == '\u{200E}' || c == '\u{200F}' {
        } else {
            r.push(c);
        }
    }
    assert(text@.take(text@.len() as int) == text@);
    r
}

/// Cleans a model's output for display in QQ.
pub fn sanitize_reply(text: &str) -> (r: String)
    ensures
        r@ == sanitize_of(text@),
{
    let normalized = visible(text);
    let lines = text::split(normalized.as_str(), '\n');
    let mut out = String::new();
    let mut after_blank = false;
    let mut i: usize = 0;
    while i < lines.len()
        invariant
            i <= lines@.len(),
            out@ == layout_of(text::views(lines@).take(i as int)),
            after_blank == (i > 0 && is_blank(text::views(lines@)[i - 1])),
        decreases lines@.len() - i,
    {
        proof {
            let t = text::views(lines@).take(i + 1);
            assert(t.drop_last() == text::views(lines@).take(i as int));
            assert(t.last() == lines@[i as int]@);
            assert(i > 0 ==> t[t.len() - 2] == text::views(lines@)[i - 1]);
        }
        let line = text::trim(lines[i].as_str());
        if line.is_empty() {
            if !after_blank {
                out.push('\n');
            }
            after_blank = true;
        } else {
            out.append(line);
            out.push('\n');
            after_blank = false;
        }
        i += 1;
    }
    assert(text::views(lines@).take(lines@.len() as int) == text::views(lines@));
    text::trim(out.as_str()).to_owned()
}

/// White space meets a line end only in another line end.
pub open spec fn tight(t: Seq<char>) -> bool {
    forall|i: int|
        0 <= i < t.len() - 1 ==> (t[i] == '\n' ==> t[i + 1] == '\n' || !text::is_space(t[i + 1])) && (t[i
            + 1] == '\n' ==> #[trigger] t[i] == '\n' || !text::is_space(t[i]))
}

/// Never three line ends in a row.
pub open spec fn at_most_one_blank(t: Seq<char>) -> bool {
    forall|i: int| 0 <= i < t.len() - 2 ==> !(#[trigger] t[i] == '\n' && t[i + 1] == '\n' && t[i + 2] == '\n')
}

pub open spec fn nothing_hidden(t: Seq<char>) -> bool {
    forall|i: int| 0 <= i < t.len() ==> !is_hidden(#[trigger] t[i])
}

/// A text as it is sent: nothing hidden, no white space around it or around its lines,
/// and never more than one blank line in a row.
pub open spec fn is_clean(t: Seq<char>) -> bool {
    nothing_hidden(t) && text::is_trimmed(t) && tight(t) && at_most_one_blank(t)
}

proof fn lemma_visible(s: Seq<char>)
    ensures
        nothing_hidden(visible_of(s)),
        nothing_hidden(s) ==> visible_of(s) == s,
    decreases s.len(),
{
    if s.len() > 0 {
        lemma_visible(s.drop_last());
        if nothing_hidden(s) {
            assert forall|i: int| 0 <= i < s.len() - 1 implies !is_hidden(#[trigger] s.drop_last()[i]) by {
                assert(s.drop_last()[i] == s[i]);
            }
            assert(!is_hidden(s[s.len() - 1]));
            assert(s.drop_last().push(s.last()) =~= s);
        }
    }
}

/// The lines laid out so far: tight, without three line ends in a row, and ending in a
/// way that the last line explains.
spec fn laid_out(t: Seq<char>, lines: Seq<Seq<char>>) -> bool {
    &&& nothing_hidden(t)
    &&& tight(t)
    &&& at_most_one_blank(t)
    &&& lines.len() == 0 <==> t.len() == 0
    &&& t.len() > 0 ==> t.last() == '\n'
    &&& lines.len() > 0 && !is_blank(lines.last()) ==> t.len() >= 2 && !text::is_space(t[t.len() - 2])
}

proof fn lemma_laid_out(lines: Seq<Seq<char>>)
    requires
        forall|i: int| 0 <= i < lines.len() ==> nothing_hidden(#[trigger] lines[i]),
        forall|i: int, k: int|
            0 <= i < lines.len() && 0 <= k < lines[i].len() ==> #[trigger] lines[i][k] != '\n',
    ensures
        laid_out(layout_of(lines), lines),
    decreases lines.len(),
{
    if lines.len() > 0 {
        let rest = lines.drop_last();
        assert forall|i: int| 0 <= i < rest.len() implies nothing_hidden(#[trigger] rest[i]) by {
            assert(rest[i] == lines[i]);
        }
        assert forall|i: int, k: int| 0 <= i < rest.len() && 0 <= k < rest[i].len() implies
            #[trigger] rest[i][k] != '\n' by {
            assert(rest[i][k] == lines[i][k]);
        }
        lemma_laid_out(rest);
        let init = layout_of(rest);
        let raw = lines[lines.len() - 1];
        let line = text::trim_of(raw);
        text::lemma_trim(raw);
        let from = raw.len() - text::trim_start_of(raw).len();
        text::lemma_trim_start(raw);
        let t = layout_of(lines);
        if line.len() > 0 {
            assert forall|k: int| 0 <= k < line.len() implies #[trigger] line[k] != '\n' && !is_hidden(
                line[k],
            ) by {
                assert(line[k] == raw[from + k]);
                assert(lines[lines.len() - 1][from + k] != '\n');
                assert(!is_hidden(raw[from + k]));
            }
            let n = init.len() as int;
            let m = line.len() as int;
            assert(t =~= init + line + seq!['\n']);
            assert forall|i: int| 0 <= i < t.len() implies !is_hidden(#[trigger] t[i]) by {
                if i < n {
                    assert(t[i] == init[i]);
                } else if i < n + m {
                    assert(t[i] == line[i - n]);
                }
            }
            assert forall|i: int| 0 <= i < t.len() - 1 implies (t[i] == '\n' ==> t[i + 1] == '\n'
                || !text::is_space(t[i + 1])) && (t[i + 1] == '\n' ==> #[trigger] t[i] == '\n'
                || !text::is_space(t[i])) by {
                if i + 1 < n {
                    assert(t[i] == init[i] && t[i + 1] == init[i + 1]);
                } else if i < n {
                    assert(t[i + 1] == line[0]);
                } else if i + 1 < n + m {
                    assert(t[i] == line[i - n] && t[i + 1] == line[i + 1 - n]);
                } else {
                    assert(t[i] == line[m - 1]);
                }
            }
            assert forall|i: int| 0 <= i < t.len() - 2 implies !(#[trigger] t[i] == '\n' && t[i + 1] == '\n'
                && t[i + 2] == '\n') by {
                if i + 2 < n {
                    assert(t[i] == init[i] && t[i + 1] == init[i + 1] && t[i + 2] == init[i + 2]);
                } else if i + 2 < n + m {
                    assert(t[i + 2] == line[i + 2 - n]);
                } else {
                    assert(t[i + 1] == line[m - 1]);
                }
            }
            assert(t[t.len() - 2] == line[m - 1]);
        } else if lines.len() >= 2 && is_blank(lines[lines.len() - 2]) {
        } else {
            assert(t =~= init.push('\n'));
            let n = init.len() as int;
            if n > 0 {
                assert(rest.last() == lines[lines.len() - 2]);
                assert(!text::is_space(init[n - 2]));
            }
            assert forall|i: int| 0 <= i < t.len() implies !is_hidden(#[trigger] t[i]) by {
                if i < n {
                    assert(t[i] == init[i]);
                }
            }
            assert forall|i: int| 0 <= i < t.len() - 1 implies (t[i] == '\n' ==> t[i + 1] == '\n'
                || !text::is_space(t[i + 1])) && (t[i + 1] == '\n' ==> #[trigger] t[i] == '\n'
                || !text::is_space(t[i])) by {
                if i + 1 < n {
                    assert(t[i] == init[i] && t[i + 1] == init[i + 1]);
                }
            }
            assert forall|i: int| 0 <= i < t.len() - 2 implies !(#[trigger] t[i] == '\n' && t[i + 1] == '\n'
                && t[i + 2] == '\n') by {
                if i + 2 < n {
                    assert(t[i] == init[i] && t[i + 1] == init[i + 1] && t[i + 2] == init[i + 2]);
                } else {
                    assert(t[i] == init[n - 2]);
                }
            }
        }
    }
}

/// A stretch of a laid out text is laid out, too.
proof fn lemma_stretch(t: Seq<char>, from: int, r: Seq<char>)
    requires
        nothing_hidden(t),
        tight(t),
        at_most_one_blank(t),
        0 <= from && from + r.len() <= t.len(),
        r == t.subrange(from, from + r.len()),
    ensures
        nothing_hidden(r),
        tight(r),
        at_most_one_blank(r),
{
    assert forall|i: int| 0 <= i < r.len() implies !is_hidden(#[trigger] r[i]) by {
        assert(r[i] == t[from + i]);
    }
    assert forall|i: int| 0 <= i < r.len() - 1 implies (r[i] == '\n' ==> r[i + 1] == '\n' || !text::is_space(
        r[i + 1],
    )) && (r[i + 1] == '\n' ==> #[trigger] r[i] == '\n' || !text::is_space(r[i])) by {
        assert(r[i] == t[from + i] && r[i + 1] == t[from + i + 1]);
    }
    assert forall|i: int| 0 <= i < r.len() - 2 implies !(#[trigger] r[i] == '\n' && r[i + 1] == '\n' && r[i
        + 2] == '\n') by {
        assert(r[i] == t[from + i] && r[i + 1] == t[from + i + 1] && r[i + 2] == t[from + i + 2]);
    }
}

/// What is sent is clean.
pub proof fn law_sanitized_is_clean(s: Seq<char>)
    ensures
        is_clean(sanitize_of(s)),
{
    let v = visible_of(s);
    let lines = text::split_of(v, '\n');
    lemma_visible(s);
    text::lemma_split_pieces(v, '\n');
    text::lemma_split_from(v, '\n');
    assert forall|i: int| 0 <= i < lines.len() implies nothing_hidden(#[trigger] lines[i]) by {
        assert forall|k: int| 0 <= k < lines[i].len() implies !is_hidden(#[trigger] lines[i][k]) by {
            assert(v.contains(lines[i][k]));
            let m = choose|m: int| 0 <= m < v.len() && v[m] == lines[i][k];
            assert(!is_hidden(v[m]));
        }
    }
    lemma_laid_out(lines);
    let t = layout_of(lines);
    let r = sanitize_of(s);
    text::lemma_trim(t);
    text::lemma_trim_start(t);
    let from = t.len() - text::trim_start_of(t).len();
    assert(r == t.subrange(from, from + r.len()));
    lemma_stretch(t, from, r);
}

/// The beginning of a clean text, split: the finished lines laid out are the text up to
/// the line that has begun.
spec fn splits_back(u: Seq<char>) -> bool {
    let lines = text::split_of(u, '\n');
    let done = lines.drop_last();
    let cur = lines.last();
    let b = u.len() - cur.len();
    &&& lines.len() >= 1
    &&& b >= 0
    &&& layout_of(done) == u.take(b)
    &&& cur == u.skip(b)
    &&& done.len() == 0 <==> b == 0
    &&& b > 0 ==> u[b - 1] == '\n'
    &&& done.len() > 0 && is_blank(done.last()) ==> b >= 2 && u[b - 2] == '\n'
}

proof fn lemma_line_ends(t: Seq<char>, n: int)
    requires
        is_clean(t),
        0 <= n <= t.len(),
        splits_back(t.take(n)),
        n < t.len() ==> t[n] == '\n',
        n == t.len() ==> t.len() > 0,
    ensures
        ({
            let lines = text::split_of(t.take(n), '\n');
            &&& layout_of(lines) == t.take(n).push('\n')
            &&& is_blank(lines.last()) ==> n >= 1 && t[n - 1] == '\n'
        }),
{
    let u = t.take(n);
    let lines = text::split_of(u, '\n');
    let done = lines.drop_last();
    let cur = lines.last();
    let b = u.len() - cur.len();
    text::lemma_split_pieces(u, '\n');
    if cur.len() > 0 {
        assert(cur[0] == t[b]);
        assert(lines[lines.len() - 1][0] != '\n');
        if b > 0 {
            assert(u[b - 1] == t[b - 1]);
            assert(t[b - 1] == '\n');
            assert(t[b] != '\n');
        }
        assert(!text::is_space(cur[0]));
        assert(cur.last() == t[n - 1]);
        assert(lines[lines.len() - 1][cur.len() - 1] != '\n');
        if n < t.len() {
            assert(t[n - 1] != '\n');
            assert(!text::is_space(t[n - 1]));
        }
        text::lemma_trim_fixed(cur);
        assert(layout_of(lines) =~= (layout_of(done) + cur).push('\n'));
        assert(u.take(b) + u.skip(b) =~= u);
    } else {
        assert(u.take(b) =~= u);
        assert(text::trim_of(cur).len() == 0);
        if b == 0 {
            assert(n == 0);
            assert(text::is_space(t[0]));
        }
        assert(u[b - 1] == t[n - 1]);
        if n == t.len() {
            assert(text::is_space(t.last()));
        }
        if done.len() > 0 && is_blank(done.last()) {
            assert(u[b - 2] == t[n - 2]);
            assert(t[n - 2] == '\n' && t[n - 1] == '\n' && t[n] == '\n');
        }
        if lines.len() >= 2 {
            assert(done.last() == lines[lines.len() - 2]);
        }
    }
}

proof fn lemma_splits_back(t: Seq<char>, n: int)
    requires
        is_clean(t),
        0 <= n <= t.len(),
    ensures
        splits_back(t.take(n)),
    decreases n,
{
    let u = t.take(n);
    let lines = text::split_of(u, '\n');
    if n == 0 {
        assert(lines.drop_last() =~= Seq::<Seq<char>>::empty());
        assert(lines.last() =~= Seq::<char>::empty());
        assert(u.take(0) =~= Seq::<char>::empty());
        assert(u.skip(0) =~= lines.last());
    } else {
        lemma_splits_back(t, n - 1);
        let v = t.take(n - 1);
        assert(u.drop_last() =~= v);
        let before = text::split_of(v, '\n');
        let b = v.len() - before.last().len();
        if t[n - 1] == '\n' {
            lemma_line_ends(t, n - 1);
            assert(lines.drop_last() =~= before);
            assert(lines.last() =~= Seq::<char>::empty());
            assert(u.take(n) =~= v.push('\n'));
            assert(u.skip(n) =~= lines.last());
            assert(u[n - 1] == '\n');
            if is_blank(before.last()) {
                assert(u[n - 2] == t[n - 2]);
            }
        } else {
            assert(lines.drop_last() =~= before.drop_last());
            assert(lines.last() =~= before.last().push(t[n - 1]));
            assert(u.take(b) =~= v.take(b));
            assert(u.skip(b) =~= v.skip(b).push(t[n - 1]));
            if b > 0 {
                assert(u[b - 1] == v[b - 1]);
            }
            if b >= 2 {
                assert(u[b - 2] == v[b - 2]);
            }
        }
    }
}

/// A clean text is left as it is; in particular, cleaning twice is cleaning once.
pub proof fn law_clean_text_is_kept(t: Seq<char>)
    requires
        is_clean(t),
    ensures
        sanitize_of(t) == t,
{
    lemma_visible(t);
    let lines = text::split_of(t, '\n');
    assert(t.take(t.len() as int) =~= t);
    if t.len() == 0 {
        reveal_with_fuel(layout_of, 2);
        let l = layout_of(lines);
        assert(lines.drop_last() =~= Seq::<Seq<char>>::empty());
        assert(lines.last().len() == 0);
        assert(l =~= seq!['\n']);
        assert(text::trim_start_of(l.skip(1)) =~= Seq::<char>::empty());
        text::lemma_trim(l);
        assert(text::trim_of(l) =~= t) by {
            if text::trim_of(l).len() > 0 {
                assert(text::trim_of(l)[0] == '\n');
            }
        }
    } else {
        lemma_splits_back(t, t.len() as int);
        lemma_line_ends(t, t.len() as int);
        let l = t.push('\n');
        assert(layout_of(lines) == l);
        assert(!text::is_space(l[0]));
        assert(text::trim_start_of(l) == l);
        assert(l.drop_last() =~= t);
        assert(text::trim_end_of(t) == t);
    }
}

/// Cleaning twice is cleaning once.
pub proof fn law_sanitize_twice(s: Seq<char>)
    ensures
        sanitize_of(sanitize_of(s)) == sanitize_of(s),
{
    law_sanitized_is_clean(s);
    law_clean_text_is_kept(sanitize_of(s));
}

// ---------- escaping ----------

/// What stands for a character in a CQ string.
pub open spec fn escaped(c: char) -> Seq<char> {
    if c == '&' {
        "&amp;"@
    } else if c == '[' {
        "&#91;"@
    } else if c == ']' {
        "&#93;"@
    } else {
        seq![c]
    }
}

pub open spec fn cq_escape_of(s: Seq<char>) -> Seq<char>
    decreases s.len(),
{
    if s.len() == 0 {
        s
    } else {
        cq_escape_of(s.drop_last()) + escaped(s.last())
    }
}

/// Escapes plain text for a CQ string.
pub fn cq_escape(text: &str) -> (r: String)
    ensures
        r@ == cq_escape_of(text@),
{
    let mut out = String::new();
    for c in it: text.chars()
        invariant
            it.seq() == text@,
            out@ == cq_escape_of(text@.take(it.index() as int)),
    {
        proof {
            assert(text@.take(it.index() + 1).drop_last() == text@.take(it.index() as int));
        }
        let ghost before = out@;
        if c == '&' {
            out.append("&amp;");
        } else if c == '[' {
            out.append("&#91;");
        } else if c == ']' {
            out.append("&#93;");
        } else {
            out.push(c);
            assert(out@ == before + seq![c]);
        }
    }
    assert(text@.take(text@.len() as int) == text@);
    out
}

/// An escaped text holds no bracket: no CQ code can begin in it.
pub proof fn law_escape_inert(s: Seq<char>)
    ensures
        !cq_escape_of(s).contains('['),
        !cq_escape_of(s).contains(']'),
    decreases s.len(),
{
    reveal_strlit("&amp;");
    reveal_strlit("&#91;");
    reveal_strlit("&#93;");
    if s.len() > 0 {
        law_escape_inert(s.drop_last());
        let a = cq_escape_of(s.drop_last());
        let b = escaped(s.last());
        assert forall|i: int| 0 <= i < (a + b).len() implies (a + b)[i] != '[' && (a + b)[i] != ']' by {
            if i < a.len() {
                assert(a.contains(a[i]));
            } else {
                assert((a + b)[i] == b[i - a.len()]);
            }
        }
    }
}

/// Reads a CQ string back: the three entities stand for `&`, `[` and `]`.
pub open spec fn cq_unescape_of(s: Seq<char>) -> Seq<char>
    decreases s.len(),
{
    if s.len() == 0 {
        s
    } else if text::begins(s, "&amp;"@) && "&amp;"@.len() > 0 {
        seq!['&'] + cq_unescape_of(s.skip("&amp;"@.len() as int))
    } else if text::begins(s, "&#91;"@) && "&#91;"@.len() > 0 {
        seq!['['] + cq_unescape_of(s.skip("&#91;"@.len() as int))
    } else if text::begins(s, "&#93;"@) && "&#93;"@.len() > 0 {
        seq![']'] + cq_unescape_of(s.skip("&#93;"@.len() as int))
    } else {
        seq![s[0]] + cq_unescape_of(s.skip(1))
    }
}

proof fn lemma_escape_head(s: Seq<char>)
    requires
        s.len() > 0,
    ensures
        cq_escape_of(s) == escaped(s[0]) + cq_escape_of(s.skip(1)),
    decreases s.len(),
{
    if s.len() == 1 {
        assert(s.drop_last() == Seq::<char>::empty());
        assert(s.skip(1) == Seq::<char>::empty());
        assert(cq_escape_of(s) =~= escaped(s[0]) + cq_escape_of(s.skip(1)));
    } else {
        lemma_escape_head(s.drop_last());
        assert(s.drop_last().skip(1) == s.skip(1).drop_last());
        assert(cq_escape_of(s) =~= escaped(s[0]) + cq_escape_of(s.skip(1)));
    }
}

/// Whoever reads the CQ string back sees exactly the text that was escaped.
pub proof fn law_escape_lossless(s: Seq<char>)
    ensures
        cq_unescape_of(cq_escape_of(s)) == s,
    decreases s.len(),
{
    reveal_strlit("&amp;");
    reveal_strlit("&#91;");
    reveal_strlit("&#93;");
    if s.len() > 0 {
        lemma_escape_head(s);
        law_escape_lossless(s.skip(1));
        let c = s[0];
        let rest = cq_escape_of(s.skip(1));
        let e = escaped(c) + rest;
        assert(s == seq![c] + s.skip(1));
        assert(e.skip(escaped(c).len() as int) =~= rest);
        assert(e.take(escaped(c).len() as int) =~= escaped(c));
        assert(e[0] == escaped(c)[0]);
        if c == '&' || c == '[' || c == ']' {
            assert("&amp;"@[1] != "&#91;"@[1]);
            assert("&#91;"@[3] != "&#93;"@[3]);
            assert(escaped(c).len() == 5);
            assert(e.take(5) == escaped(c));
        } else {
            assert(e[0] == c);
            assert(e.len() >= 5 ==> e.take(5)[0] == c);
            assert(!text::begins(e, "&amp;"@));
            assert(!text::begins(e, "&#91;"@));
            assert(!text::begins(e, "&#93;"@));
        }
    }
}

// ---------- segmenting ----------

/// A line cut into pieces of `max` characters, and what is left over at its end.
pub open spec fn hard_cut(line: Seq<char>, max: int) -> (Seq<Seq<char>>, Seq<char>)
    decreases line.len(),
{
    if max <= 0 || line.len() <= max {
        (Seq::<Seq<char>>::empty(), line)
    } else {
        let (pieces, rest) = hard_cut(line.skip(max), max);
        (seq![line.take(max)] + pieces, rest)
    }
}

/// The finished segments and the one being filled, after one more line.
pub open spec fn segment_step(
    chunks: Seq<Seq<char>>,
    cur: Seq<char>,
    line: Seq<char>,
    max: int,
) -> (Seq<Seq<char>>, Seq<char>) {
    if cur.len() == 0 && line.len() <= max {
        (chunks, line)
    } else if cur.len() > 0 && cur.len() + 1 + line.len() <= max {
        (chunks, cur.push('\n') + line)
    } else {
        let sealed = if cur.len() > 0 {
            chunks.push(cur)
        } else {
            chunks
        };
        let (pieces, rest) = hard_cut(line, max);
        (sealed + pieces, rest)
    }
}

pub open spec fn segment_fold(lines: Seq<Seq<char>>, max: int) -> (Seq<Seq<char>>, Seq<char>)
    decreases lines.len(),
{
    if lines.len() == 0 {
        (Seq::<Seq<char>>::empty(), Seq::<char>::empty())
    } else {
        let (chunks, cur) = segment_fold(lines.drop_last(), max);
        segment_step(chunks, cur, lines.last(), max)
    }
}

/// At least one character is allowed.
pub open spec fn width_of(max: int) -> int {
    if max < 1 {
        1
    } else {
        max
    }
}

/// The segments filled with the lines of a text, of at most `max` characters each.
pub open spec fn filled_of(text: Seq<char>, max: int) -> Seq<Seq<char>> {
    let (chunks, cur) = segment_fold(text::split_of(text, '\n'), max);
    if cur.len() > 0 {
        chunks.push(cur)
    } else {
        chunks
    }
}

/// The segments of a text of at most `max` characters each (at least one is allowed). A
/// text of line ends alone fills none; as much of it as fits is its one segment.
pub open spec fn segment_of(text: Seq<char>, max: int) -> Seq<Seq<char>> {
    let m = width_of(max);
    let filled = filled_of(text, m);
    if filled.len() == 0 && text.len() > 0 {
        seq![text.take(lists::capped(text.len() as int, m))]
    } else {
        filled
    }
}

proof fn lemma_views_push(v: Seq<String>, s: String)
    ensures
        text::views(v.push(s)) == text::views(v).push(s@),
{
    assert(text::views(v.push(s)) =~= text::views(v).push(s@));
}

/// Cuts a text into segments of at most `max_len` characters.
pub fn segment_text(text: &str, max_len: usize) -> (r: Vec<String>)
    ensures
        text::views(r@) == segment_of(text@, max_len as int),
{
    let max: usize = if max_len < 1 { 1 } else { max_len };
    let lines = text::split(text, '\n');
    let mut chunks: Vec<String> = Vec::new();
    let mut cur = String::new();
    let mut i: usize = 0;
    while i < lines.len()
        invariant
            max >= 1,
            i <= lines@.len(),
            (text::views(chunks@), cur@) == segment_fold(text::views(lines@).take(i as int), max as int),
        decreases lines@.len() - i,
    {
        proof {
            let t = text::views(lines@).take(i + 1);
            assert(t.drop_last() == text::views(lines@).take(i as int));
            assert(t.last() == lines@[i as int]@);
        }
        let line = lines[i].as_str();
        let ghost chunks0 = text::views(chunks@);
        let ghost cur0 = cur@;
        let line_len: usize = line.unicode_len();
        let cur_len: usize = cur.as_str().unicode_len();
        let fits = if cur_len == 0 {
            line_len <= max
        } else {
            line_len < max && cur_len < max - line_len
        };
        if fits {
            if cur_len > 0 {
                cur.push('\n');
            }
            cur.append(line);
            proof {
                if cur0.len() == 0 {
                    assert(cur@ == line@);
                }
            }
        } else {
            if cur_len > 0 {
                proof {
                    lemma_views_push(chunks@, cur);
                }
                chunks.push(cur);
            }
            let ghost sealed = text::views(chunks@);
            let mut rest = line;
            let mut rest_len: usize = line_len;
            assert(text::views(chunks@) + hard_cut(line@, max as int).0 =~= sealed + hard_cut(line@, max as int).0);
            while rest_len > max
                invariant
                    max >= 1,
                    rest_len == rest@.len(),
                    text::views(chunks@) + hard_cut(rest@, max as int).0 == sealed + hard_cut(line@, max as int).0,
                    hard_cut(rest@, max as int).1 == hard_cut(line@, max as int).1,
                decreases rest_len,
            {
                let head = rest.substring_char(0, max);
                let tail = rest.substring_char(max, rest_len);
                let piece = head.to_owned();
                proof {
                    assert(head@ == rest@.take(max as int));
                    assert(tail@ == rest@.skip(max as int));
                    lemma_views_push(chunks@, piece);
                    let more = hard_cut(tail@, max as int).0;
                    assert(text::views(chunks@).push(piece@) + more =~= text::views(chunks@) + (seq![piece@] + more));
                }
                chunks.push(piece);
                rest = tail;
                rest_len = rest_len - max;
            }
            assert(text::views(chunks@) + Seq::<Seq<char>>::empty() =~= text::views(chunks@));
            cur = rest.to_owned();
        }
        i += 1;
    }
    assert(text::views(lines@).take(lines@.len() as int) == text::views(lines@));
    if !cur.as_str().is_empty() {
        proof {
            lemma_views_push(chunks@, cur);
        }
        chunks.push(cur);
    }
    if chunks.len() == 0 && !text.is_empty() {
        let n: usize = text.unicode_len();
        let k: usize = if n > max { max } else { n };
        let piece = text.substring_char(0, k).to_owned();
        proof {
            lemma_views_push(chunks@, piece);
            assert(text::views(chunks@).push(piece@) =~= seq![text@.take(k as int)]);
        }
        chunks.push(piece);
    }
    chunks
}

// ---------- what segmenting keeps ----------

/// The texts one after the other.
pub open spec fn flat_of(parts: Seq<Seq<char>>) -> Seq<char>
    decreases parts.len(),
{
    if parts.len() == 0 {
        Seq::<char>::empty()
    } else {
        flat_of(parts.drop_last()) + parts.last()
    }
}

/// The text without its line ends.
pub open spec fn bare_of(s: Seq<char>) -> Seq<char>
    decreases s.len(),
{
    if s.len() == 0 {
        s
    } else {
        let init = bare_of(s.drop_last());
        if s.last() == '\n' {
            init
        } else {
            init.push(s.last())
        }
    }
}

proof fn lemma_bare_concat(a: Seq<char>, b: Seq<char>)
    ensures
        bare_of(a + b) == bare_of(a) + bare_of(b),
    decreases b.len(),
{
    if b.len() == 0 {
        assert(a + b == a);
        assert(bare_of(a) + b == bare_of(a));
    } else {
        assert((a + b).drop_last() == a + b.drop_last());
        lemma_bare_concat(a, b.drop_last());
        assert(bare_of(a + b) =~= bare_of(a) + bare_of(b));
    }
}

proof fn lemma_bare_push(a: Seq<char>, c: char)
    ensures
        bare_of(a.push(c)) == if c == '\n' {
            bare_of(a)
        } else {
            bare_of(a).push(c)
        },
{
    assert(a.push(c).drop_last() == a);
}

proof fn lemma_flat_concat(a: Seq<Seq<char>>, b: Seq<Seq<char>>)
    ensures
        flat_of(a + b) == flat_of(a) + flat_of(b),
    decreases b.len(),
{
    if b.len() == 0 {
        assert(a + b == a);
        assert(flat_of(a) + flat_of(b) == flat_of(a));
    } else {
        assert((a + b).drop_last() == a + b.drop_last());
        lemma_flat_concat(a, b.drop_last());
        assert(flat_of(a + b) =~= flat_of(a) + flat_of(b));
    }
}

proof fn lemma_flat_push(a: Seq<Seq<char>>, x: Seq<char>)
    ensures
        flat_of(a.push(x)) == flat_of(a) + x,
{
    assert(a.push(x).drop_last() == a);
}

/// Cutting a line loses nothing and gives full pieces and a short rest.
proof fn lemma_hard_cut(line: Seq<char>, max: int)
    requires
        max >= 1,
    ensures
        flat_of(hard_cut(line, max).0) + hard_cut(line, max).1 == line,
        forall|i: int|
            0 <= i < hard_cut(line, max).0.len() ==> (#[trigger] hard_cut(line, max).0[i]).len() == max,
        hard_cut(line, max).1.len() <= max,
    decreases line.len(),
{
    if line.len() <= max {
        assert(flat_of(Seq::<Seq<char>>::empty()) + line =~= line);
    } else {
        lemma_hard_cut(line.skip(max), max);
        let (pieces, rest) = hard_cut(line.skip(max), max);
        let first = seq![line.take(max)];
        lemma_flat_concat(first, pieces);
        assert(first.drop_last() == Seq::<Seq<char>>::empty());
        reveal_with_fuel(flat_of, 2);
        assert(flat_of(first) =~= line.take(max));
        assert(flat_of(first + pieces) + rest =~= line.take(max) + (flat_of(pieces) + rest));
        assert(line =~= line.take(max) + line.skip(max));
        assert forall|i: int| 0 <= i < (first + pieces).len() implies (#[trigger] (first
            + pieces)[i]).len() == max by {
            if i > 0 {
                assert((first + pieces)[i] == pieces[i - 1]);
            }
        }
    }
}

proof fn lemma_segment_fold(lines: Seq<Seq<char>>, max: int)
    requires
        max >= 1,
    ensures
        ({
            let (chunks, cur) = segment_fold(lines, max);
            &&& forall|i: int|
                0 <= i < chunks.len() ==> 1 <= (#[trigger] chunks[i]).len() <= max
            &&& cur.len() <= max
            &&& bare_of(flat_of(chunks) + cur) == bare_of(flat_of(lines))
        }),
    decreases lines.len(),
{
    if lines.len() == 0 {
        assert(flat_of(lines) + Seq::<char>::empty() =~= flat_of(lines));
    } else {
        lemma_segment_fold(lines.drop_last(), max);
        let (chunks, cur) = segment_fold(lines.drop_last(), max);
        let line = lines.last();
        lemma_hard_cut(line, max);
        lemma_bare_concat(flat_of(lines.drop_last()), line);
        lemma_bare_concat(flat_of(chunks), cur);
        if cur.len() == 0 && line.len() <= max {
            assert(flat_of(chunks) + cur =~= flat_of(chunks));
            lemma_bare_concat(flat_of(chunks), line);
        } else if cur.len() > 0 && cur.len() + 1 + line.len() <= max {
            assert(flat_of(chunks) + (cur.push('\n') + line) =~= (flat_of(chunks) + cur).push('\n') + line);
            lemma_bare_concat((flat_of(chunks) + cur).push('\n'), line);
            lemma_bare_push(flat_of(chunks) + cur, '\n');
        } else {
            let sealed = if cur.len() > 0 {
                chunks.push(cur)
            } else {
                chunks
            };
            let (pieces, rest) = hard_cut(line, max);
            lemma_flat_push(chunks, cur);
            assert(flat_of(chunks) + Seq::<char>::empty() =~= flat_of(chunks));
            assert(cur.len() == 0 ==> cur =~= Seq::<char>::empty());
            assert(flat_of(sealed) == flat_of(chunks) + cur);
            lemma_flat_concat(sealed, pieces);
            assert(flat_of(sealed + pieces) + rest =~= flat_of(sealed) + (flat_of(pieces) + rest));
            lemma_bare_concat(flat_of(sealed), line);
            assert forall|i: int| 0 <= i < (sealed + pieces).len() implies 1 <= (#[trigger] (sealed
                + pieces)[i]).len() <= max by {
                if i < sealed.len() {
                    if i < chunks.len() {
                        assert(sealed[i] == chunks[i]);
                    }
                } else {
                    assert((sealed + pieces)[i] == pieces[i - sealed.len()]);
                }
            }
        }
    }
}

/// The lines of a text hold all of it but the line ends.
proof fn lemma_split_bare(s: Seq<char>)
    ensures
        bare_of(flat_of(text::split_of(s, '\n'))) == bare_of(s),
    decreases s.len(),
{
    if s.len() == 0 {
        let one = seq![Seq::<char>::empty()];
        assert(one.drop_last() == Seq::<Seq<char>>::empty());
        reveal_with_fuel(flat_of, 2);
        assert(flat_of(one) =~= s);
    } else {
        lemma_split_bare(s.drop_last());
        text::lemma_split_nonempty(s.drop_last(), '\n');
        let init = text::split_of(s.drop_last(), '\n');
        if s.last() == '\n' {
            lemma_flat_push(init, Seq::<char>::empty());
            assert(flat_of(init) + Seq::<char>::empty() =~= flat_of(init));
        } else {
            let upd = init.update(init.len() - 1, init.last().push(s.last()));
            assert(upd.drop_last() == init.drop_last());
            assert(flat_of(upd) =~= flat_of(init).push(s.last()));
            lemma_bare_push(flat_of(init), s.last());
        }
    }
}

/// A text has nothing but line ends exactly if nothing is left without them.
proof fn lemma_bare_blank(s: Seq<char>)
    ensures
        bare_of(s).len() == 0 <==> forall|i: int| 0 <= i < s.len() ==> #[trigger] s[i] == '\n',
    decreases s.len(),
{
    if s.len() > 0 {
        let init = s.drop_last();
        lemma_bare_blank(init);
        if bare_of(s).len() == 0 {
            assert forall|i: int| 0 <= i < s.len() implies #[trigger] s[i] == '\n' by {
                if i < init.len() {
                    assert(init[i] == '\n');
                }
            }
        }
        if forall|i: int| 0 <= i < s.len() ==> #[trigger] s[i] == '\n' {
            assert forall|i: int| 0 <= i < init.len() implies #[trigger] init[i] == '\n' by {
                assert(s[i] == '\n');
            }
            assert(s[s.len() - 1] == '\n');
        }
    }
}

/// Whether a text is made of line ends alone.
pub fn has_no_words(text: &str) -> (r: bool)
    ensures
        r == (bare_of(text@).len() == 0),
{
    let n: usize = text.unicode_len();
    let mut i: usize = 0;
    proof {
        lemma_bare_blank(text@);
    }
    while i < n
        invariant
            n == text@.len(),
            i <= n,
            bare_of(text@).len() == 0 <==> forall|k: int|
                0 <= k < text@.len() ==> #[trigger] text@[k] == '\n',
            forall|k: int| 0 <= k < i ==> #[trigger] text@[k] == '\n',
        decreases n - i,
    {
        let c: char = text.get_char(i);
        if c != '\n' {
            return false;
        }
        i += 1;
    }
    true
}

/// What the filled segments hold.
proof fn lemma_filled(text: Seq<char>, m: int)
    requires
        m >= 1,
    ensures
        forall|i: int|
            0 <= i < filled_of(text, m).len() ==> 1 <= (#[trigger] filled_of(text, m)[i]).len() <= m,
        bare_of(flat_of(filled_of(text, m))) == bare_of(text),
        filled_of(text, m).len() == 0 ==> forall|i: int|
            0 <= i < text.len() ==> #[trigger] text[i] == '\n',
        text.len() == 0 ==> filled_of(text, m).len() == 0,
{
    lemma_segment_fold(text::split_of(text, '\n'), m);
    lemma_split_bare(text);
    let (chunks, cur) = segment_fold(text::split_of(text, '\n'), m);
    let segs = filled_of(text, m);
    assert forall|i: int| 0 <= i < segs.len() implies 1 <= (#[trigger] segs[i]).len() <= m by {
        if i < chunks.len() {
            assert(segs[i] == chunks[i]);
        }
    }
    lemma_flat_push(chunks, cur);
    assert(cur.len() == 0 ==> flat_of(chunks) + cur =~= flat_of(chunks));
    lemma_bare_blank(text);
    if segs.len() == 0 {
        assert(flat_of(segs).len() == 0);
    }
    if text.len() == 0 && segs.len() > 0 {
        assert(segs.last().len() >= 1);
        let lines = text::split_of(text, '\n');
        assert(lines.drop_last() =~= Seq::<Seq<char>>::empty());
        assert(segment_fold(lines.drop_last(), m) == (
            Seq::<Seq<char>>::empty(),
            Seq::<char>::empty(),
        ));
        assert(segs.len() == 0);
    }
}

/// No segment is empty or longer than allowed.
pub proof fn law_segment_bounds(text: Seq<char>, max: int)
    ensures
        forall|i: int|
            0 <= i < segment_of(text, max).len() ==> 1 <= (#[trigger] segment_of(text, max)[i]).len()
                <= if max < 1 {
                1
            } else {
                max
            },
{
    lemma_filled(text, width_of(max));
}

/// The segments carry the whole text, in order; only line ends may go, at the cuts.
pub proof fn law_segment_keeps_text(text: Seq<char>, max: int)
    ensures
        bare_of(flat_of(segment_of(text, max))) == bare_of(text),
{
    let m = width_of(max);
    lemma_filled(text, m);
    if filled_of(text, m).len() == 0 && text.len() > 0 {
        let piece = text.take(lists::capped(text.len() as int, m));
        let one = segment_of(text, max);
        assert(one.drop_last() =~= Seq::<Seq<char>>::empty());
        reveal_with_fuel(flat_of, 2);
        assert(flat_of(one) =~= piece);
        lemma_bare_blank(text);
        lemma_bare_blank(piece);
        assert(bare_of(piece) =~= bare_of(text));
    }
}

/// A text gives at least one segment, and only the empty text gives none.
pub proof fn law_segment_nonempty(text: Seq<char>, max: int)
    ensures
        segment_of(text, max).len() == 0 <==> text.len() == 0,
{
    lemma_filled(text, width_of(max));
}

/// `piece` is made of the whole lines from one position up to another.
pub open spec fn is_line_run(lines: Seq<Seq<char>>, piece: Seq<char>, a: int, b: int) -> bool {
    0 <= a < b <= lines.len() && piece == text::join_of(lines.subrange(a, b), seq!['\n'])
}

pub open spec fn made_of_lines(lines: Seq<Seq<char>>, piece: Seq<char>) -> bool {
    exists|a: int, b: int| is_line_run(lines, piece, a, b)
}

proof fn lemma_fold_whole_lines(lines: Seq<Seq<char>>, k: int, max: int)
    requires
        max >= 1,
        0 <= k <= lines.len(),
        forall|i: int| 0 <= i < lines.len() ==> (#[trigger] lines[i]).len() <= max,
    ensures
        ({
            let (chunks, cur) = segment_fold(lines.take(k), max);
            &&& forall|i: int| 0 <= i < chunks.len() ==> made_of_lines(lines, #[trigger] chunks[i])
            &&& cur.len() > 0 ==> exists|a: int| is_line_run(lines, cur, a, k)
        }),
    decreases k,
{
    if k > 0 {
        lemma_fold_whole_lines(lines, k - 1, max);
        assert(lines.take(k).drop_last() == lines.take(k - 1));
        let (chunks, cur) = segment_fold(lines.take(k - 1), max);
        let line = lines[k - 1];
        let one = lines.subrange(k - 1, k);
        assert(one == seq![line]);
        assert(text::join_of(one, seq!['\n']) == line);
        if cur.len() == 0 {
            assert(is_line_run(lines, line, k - 1, k));
        } else {
            let j = k - 1;
            let a = choose|a: int| is_line_run(lines, cur, a, j);
            if cur.len() + 1 + line.len() <= max {
                let run = lines.subrange(a, k);
                assert(run.drop_last() == lines.subrange(a, k - 1));
                assert(run.last() == line);
                assert(cur.push('\n') + line =~= cur + seq!['\n'] + line);
                assert(is_line_run(lines, cur.push('\n') + line, a, k));
            } else {
                assert(is_line_run(lines, line, k - 1, k));
                assert(made_of_lines(lines, cur));
                assert(chunks.push(cur) + Seq::<Seq<char>>::empty() =~= chunks.push(cur));
            }
        }
    }
}

/// The lines of a text of line ends alone are empty, and one more than there are ends.
proof fn lemma_split_blank(s: Seq<char>)
    requires
        forall|i: int| 0 <= i < s.len() ==> #[trigger] s[i] == '\n',
    ensures
        text::split_of(s, '\n').len() == s.len() + 1,
        forall|i: int| 0 <= i <= s.len() ==> (#[trigger] text::split_of(s, '\n')[i]).len() == 0,
    decreases s.len(),
{
    if s.len() > 0 {
        let init = s.drop_last();
        assert forall|i: int| 0 <= i < init.len() implies #[trigger] init[i] == '\n' by {
            assert(s[i] == '\n');
        }
        lemma_split_blank(init);
        assert(s[s.len() - 1] == '\n');
        let lines = text::split_of(init, '\n');
        assert forall|i: int| 0 <= i <= s.len() implies (#[trigger] text::split_of(s, '\n')[i]).len() == 0 by {
            if i < lines.len() {
                assert(text::split_of(s, '\n')[i] == lines[i]);
            }
        }
    }
}

/// Empty lines joined are line ends, one fewer than there are lines.
proof fn lemma_join_blank(parts: Seq<Seq<char>>, s: Seq<char>)
    requires
        parts.len() == s.len() + 1,
        forall|i: int| 0 <= i < parts.len() ==> (#[trigger] parts[i]).len() == 0,
        forall|i: int| 0 <= i < s.len() ==> #[trigger] s[i] == '\n',
    ensures
        text::join_of(parts, seq!['\n']) == s,
    decreases s.len(),
{
    if s.len() == 0 {
        assert(parts[0] =~= s);
    } else {
        let init = s.drop_last();
        let less = parts.drop_last();
        assert forall|i: int| 0 <= i < init.len() implies #[trigger] init[i] == '\n' by {
            assert(s[i] == '\n');
        }
        assert forall|i: int| 0 <= i < less.len() implies (#[trigger] less[i]).len() == 0 by {
            assert(parts[i].len() == 0);
        }
        lemma_join_blank(less, init);
        assert(parts[parts.len() - 1].len() == 0);
        assert(s[s.len() - 1] == '\n');
        assert(init + seq!['\n'] + parts.last() =~= s);
    }
}

/// Where no line is too long by itself, every segment is made of whole lines.
pub proof fn law_segment_whole_lines(text: Seq<char>, max: int)
    requires
        max >= 1,
        forall|i: int|
            0 <= i < text::split_of(text, '\n').len() ==> (#[trigger] text::split_of(text, '\n')[i]).len()
                <= max,
    ensures
        forall|i: int|
            0 <= i < segment_of(text, max).len() ==> made_of_lines(
                text::split_of(text, '\n'),
                #[trigger] segment_of(text, max)[i],
            ),
{
    let lines = text::split_of(text, '\n');
    let segs = segment_of(text, max);
    lemma_filled(text, max);
    if filled_of(text, max).len() == 0 && text.len() > 0 {
        let k = lists::capped(text.len() as int, max);
        let run = lines.subrange(0, k + 1);
        lemma_split_blank(text);
        assert forall|i: int| 0 <= i < run.len() implies (#[trigger] run[i]).len() == 0 by {
            assert(lines[i].len() == 0);
        }
        lemma_join_blank(run, text.take(k));
        assert(is_line_run(lines, segs[0], 0, k + 1));
    } else {
        lemma_fold_whole_lines(lines, lines.len() as int, max);
        assert(lines.take(lines.len() as int) == lines);
        let (chunks, cur) = segment_fold(lines, max);
        assert forall|i: int| 0 <= i < segs.len() implies made_of_lines(lines, #[trigger] segs[i]) by {
            if i < chunks.len() {
                assert(segs[i] == chunks[i]);
            } else {
                let a = choose|a: int| is_line_run(lines, cur, a, lines.len() as int);
                assert(is_line_run(lines, segs[i], a, lines.len() as int));
            }
        }
    }
}

// ---------- what cleaning keeps ----------

proof fn lemma_spaceless_concat(a: Seq<char>, b: Seq<char>)
    ensures
        crate::trigger::spaceless(a + b) == crate::trigger::spaceless(a) + crate::trigger::spaceless(b),
    decreases b.len(),
{
    if b.len() == 0 {
        assert(a + b =~= a);
        assert(crate::trigger::spaceless(a) + Seq::<char>::empty() =~= crate::trigger::spaceless(a));
    } else {
        assert((a + b).drop_last() =~= a + b.drop_last());
        lemma_spaceless_concat(a, b.drop_last());
        assert(crate::trigger::spaceless(a + b) =~= crate::trigger::spaceless(a) + crate::trigger::spaceless(b));
    }
}

proof fn lemma_spaceless_space(s: Seq<char>)
    requires
        text::all_space(s),
    ensures
        crate::trigger::spaceless(s).len() == 0,
    decreases s.len(),
{
    if s.len() > 0 {
        assert(text::is_space(s[s.len() - 1]));
        assert forall|i: int| 0 <= i < s.drop_last().len() implies text::is_space(
            #[trigger] s.drop_last()[i],
        ) by {
            assert(s[i] == s.drop_last()[i]);
        }
        lemma_spaceless_space(s.drop_last());
    }
}

proof fn lemma_spaceless_trim(s: Seq<char>)
    ensures
        crate::trigger::spaceless(text::trim_of(s)) == crate::trigger::spaceless(s),
{
    text::law_trim_takes_off_white_space(s);
    let (a, b) = choose|a: Seq<char>, b: Seq<char>| #[trigger]
        text::framed(a, text::trim_of(s), b) == s && text::all_space(a) && text::all_space(b);
    let t = text::trim_of(s);
    lemma_spaceless_concat(a + t, b);
    lemma_spaceless_concat(a, t);
    lemma_spaceless_space(a);
    lemma_spaceless_space(b);
    assert(crate::trigger::spaceless(s) =~= crate::trigger::spaceless(t));
}

proof fn lemma_spaceless_layout(lines: Seq<Seq<char>>)
    ensures
        crate::trigger::spaceless(layout_of(lines)) == crate::trigger::spaceless(flat_of(lines)),
    decreases lines.len(),
{
    if lines.len() > 0 {
        let init = lines.drop_last();
        let line = lines.last();
        lemma_spaceless_layout(init);
        lemma_spaceless_concat(flat_of(init), line);
        lemma_spaceless_trim(line);
        let before = layout_of(init);
        let t = text::trim_of(line);
        lemma_spaceless_concat(before, t);
        assert((before + t).push('\n').drop_last() =~= before + t);
        assert(before.push('\n').drop_last() =~= before);
        if t.len() == 0 {
            assert(before + t =~= before);
        }
    }
}

proof fn lemma_spaceless_split(s: Seq<char>)
    ensures
        crate::trigger::spaceless(flat_of(text::split_of(s, '\n'))) == crate::trigger::spaceless(s),
    decreases s.len(),
{
    text::lemma_split_nonempty(s, '\n');
    let parts = text::split_of(s, '\n');
    if s.len() == 0 {
        reveal_with_fuel(flat_of, 2);
        assert(parts.drop_last() =~= Seq::<Seq<char>>::empty());
        assert(flat_of(parts) =~= s);
    } else {
        let init = s.drop_last();
        lemma_spaceless_split(init);
        text::lemma_split_nonempty(init, '\n');
        let before = text::split_of(init, '\n');
        if s.last() == '\n' {
            assert(parts.drop_last() =~= before);
            assert(flat_of(parts) =~= flat_of(before));
        } else {
            assert(parts.drop_last() =~= before.drop_last());
            assert(flat_of(parts) =~= flat_of(before).push(s.last()));
            assert(flat_of(parts).drop_last() =~= flat_of(before));
        }
    }
}

/// Cleaning touches white space and hidden characters only: every other character of the
/// model's output is sent, in its order.
pub proof fn law_cleaning_keeps_the_words(s: Seq<char>)
    ensures
        crate::trigger::spaceless(sanitize_of(s)) == crate::trigger::spaceless(visible_of(s)),
{
    let v = visible_of(s);
    let lines = text::split_of(v, '\n');
    lemma_spaceless_trim(layout_of(lines));
    lemma_spaceless_layout(lines);
    lemma_spaceless_split(v);
}

/// Only hidden characters are hidden.
pub proof fn law_visible_characters_stay(s: Seq<char>, c: char)
    ensures
        visible_of(Seq::<char>::empty()).len() == 0,
        c == '\r' || c == '\u{200B}' || c == '\u{FEFF}' || c == '\u{200E}' || c == '\u{200F}' ==> visible_of(
            s.push(c),
        ) == visible_of(s),
        c != '\r' && c != '\u{200B}' && c != '\u{FEFF}' && c != '\u{200E}' && c != '\u{200F}' ==> visible_of(
            s.push(c),
        ) == visible_of(s).push(c),
{
    assert(s.push(c).drop_last() =~= s);
}

/// The line ends of a text are kept as line ends: cleaning a text of one line gives one
/// line, the text without white space around it.
pub proof fn law_one_line_stays_one(s: Seq<char>)
    requires
        nothing_hidden(s),
        forall|i: int| 0 <= i < s.len() ==> #[trigger] s[i] != '\n',
    ensures
        sanitize_of(s) == text::trim_of(s),
{
    lemma_visible(s);
    text::lemma_trim(s);
    let t = text::trim_of(s);
    lemma_one_line(s);
    let lines = text::split_of(s, '\n');
    assert(lines.drop_last() =~= Seq::<Seq<char>>::empty());
    assert(layout_of(lines.drop_last()) =~= Seq::<char>::empty());
    let l = layout_of(lines);
    assert(text::is_space('\n'));
    assert(l =~= t.push('\n'));
    lemma_trim_one_end(t);
}

proof fn lemma_trim_one_end(t: Seq<char>)
    requires
        text::is_trimmed(t),
    ensures
        text::trim_of(t.push('\n')) == t,
{
    let l = t.push('\n');
    assert(text::is_space('\n'));
    assert(l.drop_last() =~= t);
    if t.len() > 0 {
        assert(l[0] == t[0]);
        assert(text::trim_start_of(l) == l);
        assert(text::trim_end_of(l) == text::trim_end_of(t));
    } else {
        assert(l.skip(1) =~= t);
        assert(text::trim_start_of(l) == text::trim_start_of(t));
        assert(text::trim_start_of(t) == t);
        assert(text::trim_end_of(t) == t);
    }
}

proof fn lemma_one_line(s: Seq<char>)
    requires
        forall|i: int| 0 <= i < s.len() ==> #[trigger] s[i] != '\n',
    ensures
        text::split_of(s, '\n') == seq![s],
    decreases s.len(),
{
    if s.len() == 0 {
        assert(s =~= Seq::<char>::empty());
    } else {
        let init = s.drop_last();
        lemma_one_line(init);
        assert(init.push(s.last()) =~= s);
        assert(seq![init].update(0, s) =~= seq![s]);
    }
}

/// The three characters that mean something in a CQ string are written as prescribed, and
/// all others as they are.
pub proof fn law_escapes_as_prescribed(s: Seq<char>, c: char)
    ensures
        cq_escape_of(s.push('&')) == cq_escape_of(s) + "&amp;"@,
        cq_escape_of(s.push('[')) == cq_escape_of(s) + "&#91;"@,
        cq_escape_of(s.push(']')) == cq_escape_of(s) + "&#93;"@,
        c != '&' && c != '[' && c != ']' ==> cq_escape_of(s.push(c)) == cq_escape_of(s).push(c),
        cq_escape_of(Seq::<char>::empty()).len() == 0,
{
    assert(s.push(c).drop_last() =~= s);
    assert(s.push('&').drop_last() =~= s);
    assert(s.push('[').drop_last() =~= s);
    assert(s.push(']').drop_last() =~= s);
    assert(cq_escape_of(s) + seq![c] =~= cq_escape_of(s).push(c));
}

proof fn lemma_fold_short(lines: Seq<Seq<char>>, k: int, max: int)
    requires
        1 <= k <= lines.len(),
        lines[0].len() > 0,
        text::join_of(lines, seq!['\n']).len() <= max,
    ensures
        segment_fold(lines.take(k), max) == (
            Seq::<Seq<char>>::empty(),
            text::join_of(lines.take(k), seq!['\n']),
        ),
        0 < text::join_of(lines.take(k), seq!['\n']).len() <= max,
    decreases k,
{
    lemma_join_grows(lines, k);
    let some = lines.take(k);
    if k == 1 {
        reveal_with_fuel(segment_fold, 2);
        assert(some.drop_last() =~= Seq::<Seq<char>>::empty());
        assert(some[0] == lines[0]);
        assert(some.last() == lines[0]);
    } else {
        lemma_fold_short(lines, k - 1, max);
        assert(some.drop_last() =~= lines.take(k - 1));
        let cur = text::join_of(lines.take(k - 1), seq!['\n']);
        assert(cur.push('\n') + some.last() =~= cur + seq!['\n'] + some.last());
    }
}

proof fn lemma_join_grows(lines: Seq<Seq<char>>, k: int)
    requires
        1 <= k <= lines.len(),
    ensures
        lines[0].len() <= text::join_of(lines.take(k), seq!['\n']).len() <= text::join_of(lines, seq!['\n']).len(),
    decreases lines.len() + k,
{
    if k == lines.len() {
        assert(lines.take(k) =~= lines);
        if k > 1 {
            lemma_join_grows(lines.drop_last(), k - 1);
            assert(lines.drop_last().take(k - 1) =~= lines.drop_last());
        }
    } else {
        lemma_join_grows(lines.drop_last(), k);
        assert(lines.drop_last().take(k) =~= lines.take(k));
    }
}

/// A text that fits is not cut.
pub proof fn law_short_text_is_one_piece(s: Seq<char>, max: int)
    requires
        0 < s.len() <= max,
        s[0] != '\n',
    ensures
        segment_of(s, max) == seq![s],
{
    let lines = text::split_of(s, '\n');
    text::law_split_is_undone_by_join(s, '\n');
    text::lemma_split_nonempty(s, '\n');
    lemma_first_line(s);
    let n = lines.len() as int;
    lemma_fold_short(lines, n, max);
    assert(lines.take(n) =~= lines);
    assert(filled_of(s, max) =~= seq![s]);
}

proof fn lemma_first_line(s: Seq<char>)
    requires
        s.len() > 0,
        s[0] != '\n',
    ensures
        text::split_of(s, '\n')[0].len() > 0,
    decreases s.len(),
{
    let init = s.drop_last();
    text::lemma_split_nonempty(init, '\n');
    if init.len() > 0 {
        lemma_first_line(init);
    }
}

} // verus!
