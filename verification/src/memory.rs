//! Long-term memory.
//!
//! Entries are only ever added at the end, so that what stands before stays the same to
//! the byte and a prefix cache keeps hitting. Beyond the limits the oldest entry goes.
//! The file is the truth: whoever changes a store writes it back.

use vstd::prelude::*;
use vstd::string::*;
use crate::clock;
use crate::lists;
use crate::text;

verus! {

#[derive(Clone, Debug)]
pub struct MemoryEntry {
    pub ts: i64,
    /// `user` for what a user wrote, `model` for what the model wrote by itself.
    pub source: String,
    pub text: String,
}

/// What an entry holds.
pub struct MemoryEntryView {
    pub ts: i64,
    pub source: Seq<char>,
    pub text: Seq<char>,
}

impl View for MemoryEntry {
    type V = MemoryEntryView;

    open spec fn view(&self) -> MemoryEntryView {
        MemoryEntryView { ts: self.ts, source: self.source@, text: self.text@ }
    }
}

pub open spec fn entry_views(v: Seq<MemoryEntry>) -> Seq<MemoryEntryView> {
    v.map_values(|e: MemoryEntry| e@)
}

pub struct MemoryStore {
    pub file: String,
    pub entries: Vec<MemoryEntry>,
}

/// A row of the memory table shown to the user.
pub struct MemoryRow {
    /// Counted from one.
    pub index: usize,
    pub ts: i64,
    pub date: String,
    pub source: String,
    pub text: String,
}

/// Some entry has exactly this text.
pub open spec fn remembers(items: Seq<MemoryEntryView>, t: Seq<char>) -> bool {
    exists|i: int| 0 <= i < items.len() && (#[trigger] items[i]).text == t
}

pub open spec fn at_least_one(n: int) -> int {
    if n < 1 {
        1
    } else {
        n
    }
}

/// The store after a text was added, where it is neither empty nor known.
pub open spec fn with_entry(
    items: Seq<MemoryEntryView>,
    e: MemoryEntryView,
    max_entries: int,
    max_chars: int,
) -> Seq<MemoryEntryView> {
    let cut = MemoryEntryView {
        ts: e.ts,
        source: e.source,
        text: text::take_of(e.text, at_least_one(max_chars)),
    };
    lists::newest(items.push(cut), at_least_one(max_entries))
}

/// The total of some token estimates, no greater than 32 bits hold.
pub open spec fn capped_total(tokens: Seq<u32>) -> int
    decreases tokens.len(),
{
    if tokens.len() == 0 {
        0
    } else {
        let t = capped_total(tokens.drop_last()) + tokens.last();
        if t > u32::MAX {
            u32::MAX as int
        } else {
            t
        }
    }
}

/// How many of the oldest have to go for the rest to fit the budget.
pub open spec fn overdue(tokens: Seq<u32>, budget: int) -> int
    decreases tokens.len(),
{
    if tokens.len() == 0 || capped_total(tokens) <= budget {
        0
    } else {
        1 + overdue(tokens.skip(1), budget)
    }
}

/// The date shown for a moment: month and day, nothing for a moment beyond the calendar.
pub open spec fn date_of(ts: i64) -> Seq<char> {
    match clock::utc_month_day(ts) {
        Some(s) => s,
        None => Seq::<char>::empty(),
    }
}

pub fn fmt_ts(ts: i64) -> (r: String)
    ensures
        r@ == date_of(ts),
{
    match clock::month_day(ts) {
        Some(s) => s,
        None => String::new(),
    }
}

/// How the origin of an entry is shown.
pub open spec fn origin_of(source: Seq<char>) -> Seq<char> {
    if source == "model"@ {
        "自动"@
    } else {
        "用户"@
    }
}

pub fn origin_label(source: &str) -> (r: &'static str)
    ensures
        r@ == origin_of(source@),
{
    if text::same(source, "model") {
        "自动"
    } else {
        "用户"
    }
}

/// The line of an entry in the memory message, with the date given.
pub open spec fn line_of(e: MemoryEntryView, date: Seq<char>) -> Seq<char> {
    "- ("@ + origin_of(e.source) + " "@ + date + ") "@ + e.text + "\n"@
}

pub fn entry_line(e: &MemoryEntry, date: &str) -> (r: String)
    ensures
        r@ == line_of(e@, date@),
{
    let mut s = "- (".to_owned();
    s.append(origin_label(e.source.as_str()));
    s.append(" ");
    s.append(date);
    s.append(") ");
    s.append(e.text.as_str());
    s.append("\n");
    s
}

/// The memory message: a heading and a line for each entry.
pub open spec fn system_text_of(items: Seq<MemoryEntryView>) -> Seq<char>
    decreases items.len(),
{
    if items.len() == 0 {
        "[长期记忆]\n"@
    } else {
        system_text_of(items.drop_last()) + line_of(items.last(), date_of(items.last().ts))
    }
}

proof fn lemma_views_push(v: Seq<MemoryEntry>, e: MemoryEntry)
    ensures
        entry_views(v.push(e)) == entry_views(v).push(e@),
{
    assert(entry_views(v.push(e)) =~= entry_views(v).push(e@));
}

proof fn lemma_views_remove(v: Seq<MemoryEntry>, i: int)
    requires
        0 <= i < v.len(),
    ensures
        entry_views(v.remove(i)) == entry_views(v).remove(i),
{
    assert(entry_views(v.remove(i)) =~= entry_views(v).remove(i));
}

impl MemoryStore {
    /// What the store remembers, oldest first.
    pub open spec fn items(&self) -> Seq<MemoryEntryView> {
        entry_views(self.entries@)
    }

    pub fn new(file: String) -> (r: MemoryStore)
        ensures
            r.file@ == file@,
            r.items() == Seq::<MemoryEntryView>::empty(),
    {
        let r = MemoryStore { file, entries: Vec::new() };
        assert(r.items() =~= Seq::<MemoryEntryView>::empty());
        r
    }

    /// Takes over what was read from the file.
    pub fn refresh(&mut self, entries: Vec<MemoryEntry>)
        ensures
            final(self).items() == entry_views(entries@),
            final(self).file == old(self).file,
    {
        self.entries = entries;
    }

    fn knows(&self, t: &str) -> (r: bool)
        ensures
            r == remembers(self.items(), t@),
    {
        let mut i: usize = 0;
        while i < self.entries.len()
            invariant
                i <= self.entries@.len(),
                forall|k: int| 0 <= k < i ==> (#[trigger] self.items()[k]).text != t@,
            decreases self.entries@.len() - i,
        {
            if text::same(self.entries[i].text.as_str(), t) {
                assert(self.items()[i as int].text == t@);
                return true;
            }
            i += 1;
        }
        false
    }

    /// Adds an entry as of now; says whether it is new. See [`MemoryStore::add_at`].
    pub fn add(&mut self, text: &str, source: &str, max_entries: usize, max_chars: usize) -> (r: bool)
        ensures
            r == (text::trim_of(text@).len() > 0 && !remembers(old(self).items(), text::trim_of(text@))),
            !r ==> final(self).items() == old(self).items(),
            r ==> exists|ts: i64|
                final(self).items() == #[trigger] with_entry(
                    old(self).items(),
                    MemoryEntryView { ts, source: source@, text: text::trim_of(text@) },
                    max_entries as int,
                    max_chars as int,
                ),
            final(self).file == old(self).file,
    {
        let ts: i64 = clock::seconds(clock::wall_clock());
        self.add_at(text, source, max_entries, max_chars, ts)
    }

    /// Adds an entry: an empty or known text is turned down, a long one is cut, and
    /// beyond the number of entries allowed the oldest goes.
    pub fn add_at(
        &mut self,
        text: &str,
        source: &str,
        max_entries: usize,
        max_chars: usize,
        ts: i64,
    ) -> (r: bool)
        ensures
            r == (text::trim_of(text@).len() > 0 && !remembers(old(self).items(), text::trim_of(text@))),
            final(self).items() == if r {
                with_entry(
                    old(self).items(),
                    MemoryEntryView { ts, source: source@, text: text::trim_of(text@) },
                    max_entries as int,
                    max_chars as int,
                )
            } else {
                old(self).items()
            },
            final(self).file == old(self).file,
    {
        let t = text::trim(text);
        if t.is_empty() {
            return false;
        }
        if self.knows(t) {
            return false;
        }
        let chars: usize = if max_chars < 1 { 1 } else { max_chars };
        let limit: usize = if max_entries < 1 { 1 } else { max_entries };
        let entry = MemoryEntry { ts, source: source.to_owned(), text: text::take(t, chars).to_owned() };
        proof {
            lemma_views_push(self.entries@, entry);
        }
        self.entries.push(entry);
        let ghost full = self.items();
        let ghost mut gone: int = 0;
        assert(full.skip(0) == full);
        while self.entries.len() > limit
            invariant
                limit >= 1,
                0 <= gone <= full.len(),
                self.items() == full.skip(gone),
                full.len() - gone >= limit || gone == 0,
                self.file == old(self).file,
            decreases self.entries@.len(),
        {
            proof {
                lemma_views_remove(self.entries@, 0);
                assert(full.skip(gone).remove(0) =~= full.skip(gone + 1));
                assert(self.items().len() == full.len() - gone);
                gone = gone + 1;
            }
            self.entries.remove(0);
        }
        assert(self.items().len() == full.len() - gone);
        true
    }

    /// Removes the entries whose text includes `needle`; says how many.
    pub fn remove_contains(&mut self, needle: &str) -> (r: usize)
        ensures
            final(self).items() == if text::trim_of(needle@).len() == 0 {
                old(self).items()
            } else {
                old(self).items().filter(
                    |e: MemoryEntryView| !text::includes(e.text, text::trim_of(needle@)),
                )
            },
            r == old(self).items().len() - final(self).items().len(),
            final(self).file == old(self).file,
    {
        let needle = text::trim(needle);
        if needle.is_empty() {
            return 0;
        }
        let ghost all = self.items();
        let ghost keep = |e: MemoryEntryView| !text::includes(e.text, needle@);
        let before: usize = self.entries.len();
        let mut i: usize = 0;
        let ghost mut seen: int = 0;
        proof {
            reveal_with_fuel(Seq::filter, 1);
            assert(all.take(0).filter(keep) =~= Seq::<MemoryEntryView>::empty());
            assert(all.take(0).filter(keep) + all.skip(0) =~= all);
        }
        while i < self.entries.len()
            invariant
                0 <= seen <= all.len(),
                before == all.len(),
                i == all.take(seen).filter(keep).len(),
                self.items() == all.take(seen).filter(keep) + all.skip(seen),
                keep == (|e: MemoryEntryView| !text::includes(e.text, needle@)),
                self.file == old(self).file,
            decreases all.len() - seen,
        {
            let ghost kept = all.take(seen).filter(keep);
            proof {
                reveal_with_fuel(Seq::filter, 1);
                assert(self.items().len() == self.entries@.len());
                assert(seen < all.len());
                assert(all.take(seen + 1).drop_last() == all.take(seen));
                assert(all.take(seen + 1).last() == all[seen]);
                assert(self.items()[i as int] == all[seen]);
                assert(self.entries@[i as int]@ == all[seen]);
            }
            if text::contains(self.entries[i].text.as_str(), needle) {
                proof {
                    lemma_views_remove(self.entries@, i as int);
                    assert((kept + all.skip(seen)).remove(i as int) =~= kept + all.skip(seen + 1));
                    seen = seen + 1;
                }
                self.entries.remove(i);
            } else {
                proof {
                    assert(kept + all.skip(seen) =~= kept.push(all[seen]) + all.skip(seen + 1));
                    seen = seen + 1;
                }
                i += 1;
            }
        }
        proof {
            assert(self.items().len() == self.entries@.len());
            assert(all.skip(seen).len() == 0);
            assert(all.take(seen) == all);
            assert(self.items() =~= all.filter(keep));
            lemma_filter_shorter(all, keep);
        }
        before - self.entries.len()
    }

    /// Removes the entry with the given number, counted from one.
    pub fn remove_index(&mut self, idx: usize) -> (r: bool)
        ensures
            r == (1 <= idx <= old(self).items().len()),
            final(self).items() == if r {
                old(self).items().remove(idx - 1)
            } else {
                old(self).items()
            },
            final(self).file == old(self).file,
    {
        assert(self.items().len() == self.entries@.len());
        if idx == 0 || idx > self.entries.len() {
            return false;
        }
        proof {
            lemma_views_remove(self.entries@, idx - 1);
        }
        self.entries.remove(idx - 1);
        true
    }

    /// The memory message; its form is fixed so that a prefix cache keeps hitting.
    pub fn system_text(&self) -> (r: String)
        ensures
            r@ == system_text_of(self.items()),
    {
        let mut s = "[长期记忆]\n".to_owned();
        let mut i: usize = 0;
        while i < self.entries.len()
            invariant
                i <= self.entries@.len(),
                s@ == system_text_of(self.items().take(i as int)),
            decreases self.entries@.len() - i,
        {
            proof {
                assert(self.items().take(i + 1).drop_last() == self.items().take(i as int));
                assert(self.items().take(i + 1).last() == self.entries@[i as int]@);
            }
            let date = fmt_ts(self.entries[i].ts);
            let line = entry_line(&self.entries[i], date.as_str());
            s.append(line.as_str());
            i += 1;
        }
        assert(self.items().take(self.items().len() as int) == self.items());
        s
    }

    /// The total of the entries' token estimates.
    pub fn total_tokens(tokens: &Vec<u32>) -> (r: u32)
        ensures
            r == capped_total(tokens@),
    {
        let mut t: u32 = 0;
        let mut i: usize = 0;
        while i < tokens.len()
            invariant
                i <= tokens@.len(),
                t == capped_total(tokens@.take(i as int)),
            decreases tokens@.len() - i,
        {
            assert(tokens@.take(i + 1).drop_last() == tokens@.take(i as int));
            t = t.saturating_add(tokens[i]);
            i += 1;
        }
        assert(tokens@.take(tokens@.len() as int) == tokens@);
        t
    }

    /// The most tokens that the memory may take; a limit below the least does not count.
    pub fn token_limit(max_tokens: u32) -> (r: u32)
        ensures
            r == if max_tokens < 64 {
                64
            } else {
                max_tokens
            },
            r >= 64 && r >= max_tokens && (r == 64 || r == max_tokens),
    {
        if max_tokens < 64 {
            64
        } else {
            max_tokens
        }
    }

    /// Drops the oldest entries until the estimates of the rest fit the budget.
    pub fn trim_to_tokens(&mut self, tokens: &Vec<u32>, budget: u32)
        requires
            tokens@.len() == old(self).items().len(),
        ensures
            final(self).items() == old(self).items().skip(overdue(tokens@, budget as int)),
            final(self).file == old(self).file,
    {
        let mut rest: Vec<u32> = tokens.clone();
        let ghost all = self.items();
        let ghost mut gone: int = 0;
        assert(rest@ =~= tokens@.skip(0));
        assert(all.skip(0) == all);
        while !self.entries.is_empty() && MemoryStore::total_tokens(&rest) > budget
            invariant
                0 <= gone <= all.len(),
                tokens@.len() == all.len(),
                rest@ == tokens@.skip(gone),
                self.items() == all.skip(gone),
                gone + overdue(rest@, budget as int) == overdue(tokens@, budget as int),
                self.file == old(self).file,
            decreases self.entries@.len(),
        {
            assert(self.items().len() == self.entries@.len());
            proof {
                lemma_views_remove(self.entries@, 0);
                assert(all.skip(gone).remove(0) =~= all.skip(gone + 1));
                assert(rest@.remove(0) =~= rest@.skip(1));
                assert(rest@.skip(1) =~= tokens@.skip(gone + 1));
                gone = gone + 1;
            }
            self.entries.remove(0);
            rest.remove(0);
        }
        assert(self.items().len() == self.entries@.len());
    }

    /// The rows of the memory table.
    pub fn to_values(&self) -> (r: Vec<MemoryRow>)
        ensures
            r@.len() == self.items().len(),
            forall|i: int|
                0 <= i < r@.len() ==> {
                    &&& (#[trigger] r@[i]).index == i + 1
                    &&& r@[i].ts == self.items()[i].ts
                    &&& r@[i].date@ == date_of(self.items()[i].ts)
                    &&& r@[i].source@ == self.items()[i].source
                    &&& r@[i].text@ == self.items()[i].text
                },
    {
        let n: usize = self.entries.len();
        let mut r: Vec<MemoryRow> = Vec::new();
        let mut i: usize = 0;
        while i < n
            invariant
                n == self.entries@.len(),
                i == r@.len(),
                i <= n,
                forall|k: int|
                    0 <= k < i ==> {
                        &&& (#[trigger] r@[k]).index == k + 1
                        &&& r@[k].ts == self.items()[k].ts
                        &&& r@[k].date@ == date_of(self.items()[k].ts)
                        &&& r@[k].source@ == self.items()[k].source
                        &&& r@[k].text@ == self.items()[k].text
                    },
            decreases n - i,
        {
            let e = &self.entries[i];
            r.push(
                MemoryRow {
                    index: i + 1,
                    ts: e.ts,
                    date: fmt_ts(e.ts),
                    source: e.source.clone(),
                    text: e.text.clone(),
                },
            );
            i += 1;
        }
        r
    }

    pub fn file_path(&self) -> (r: &str)
        ensures
            r@ == self.file@,
    {
        self.file.as_str()
    }
}

proof fn lemma_filter_shorter<A>(s: Seq<A>, p: spec_fn(A) -> bool)
    ensures
        s.filter(p).len() <= s.len(),
    decreases s.len(),
{
    reveal_with_fuel(Seq::filter, 1);
    if s.len() > 0 {
        lemma_filter_shorter(s.drop_last(), p);
    }
}

// ---------- marks in the model's reply ----------

/// What a mark in the model's reply asks for.
#[derive(Debug, Clone, PartialEq)]
pub enum MemoryOp {
    Add(String),
    Remove(String),
}

pub enum MemoryOpView {
    Add(Seq<char>),
    Remove(Seq<char>),
}

impl View for MemoryOp {
    type V = MemoryOpView;

    open spec fn view(&self) -> MemoryOpView {
        match self {
            MemoryOp::Add(s) => MemoryOpView::Add(s@),
            MemoryOp::Remove(s) => MemoryOpView::Remove(s@),
        }
    }
}

pub open spec fn op_views(v: Seq<MemoryOp>) -> Seq<MemoryOpView> {
    v.map_values(|o: MemoryOp| o@)
}

/// What one mark asks for; a mark with no content or another verb asks for nothing.
pub open spec fn memory_op_of(tag: Seq<char>) -> Option<MemoryOpView> {
    let inner = text::trim_of(
        text::trim_end_matches_of(text::trim_start_matches_of(tag, "[记忆:"@), "]"@),
    );
    match text::strip_prefix_of(inner, "添加"@) {
        Some(c) => if text::trim_of(c).len() > 0 {
            Some(MemoryOpView::Add(text::trim_of(c)))
        } else {
            None
        },
        None => match text::strip_prefix_of(inner, "删除"@) {
            Some(c) => if text::trim_of(c).len() > 0 {
                Some(MemoryOpView::Remove(text::trim_of(c)))
            } else {
                None
            },
            None => None,
        },
    }
}

/// The reply without its marks, and what they ask for in their order.
pub open spec fn memory_ops_of(s: Seq<char>) -> (Seq<char>, Seq<MemoryOpView>)
    decreases s.len(),
{
    match text::tag_of(s, "[记忆:"@) {
        None => (s, Seq::<MemoryOpView>::empty()),
        Some((a, b)) => {
            proof {
                text::lemma_tag(s, "[记忆:"@);
            }
            let (clean, ops) = memory_ops_of(s.skip(b));
            (
                s.take(a) + clean,
                match memory_op_of(s.subrange(a, b)) {
                    Some(op) => seq![op] + ops,
                    None => ops,
                },
            )
        },
    }
}

fn read_mark(tag: &str) -> (r: Option<MemoryOp>)
    ensures
        match r {
            Some(op) => memory_op_of(tag@) == Some(op@),
            None => memory_op_of(tag@) is None,
        },
{
    let inner = text::trim(text::trim_end_matches(text::trim_start_matches(tag, "[记忆:"), "]"));
    match text::strip_prefix(inner, "添加") {
        Some(c) => {
            let c = text::trim(c);
            if !c.is_empty() {
                Some(MemoryOp::Add(c.to_owned()))
            } else {
                None
            }
        },
        None => match text::strip_prefix(inner, "删除") {
            Some(c) => {
                let c = text::trim(c);
                if !c.is_empty() {
                    Some(MemoryOp::Remove(c.to_owned()))
                } else {
                    None
                }
            },
            None => None,
        },
    }
}

/// Takes the memory marks out of a reply. A mark that is never closed is plain text.
pub fn parse_memory_ops(text: &str) -> (r: (String, Vec<MemoryOp>))
    ensures
        (r.0@, op_views(r.1@)) == memory_ops_of(text@),
{
    let mut clean = String::new();
    let mut ops: Vec<MemoryOp> = Vec::new();
    let mut rest = text;
    proof {
        assert(clean@ + memory_ops_of(rest@).0 =~= memory_ops_of(text@).0);
        assert(op_views(ops@) + memory_ops_of(rest@).1 =~= memory_ops_of(text@).1);
    }
    loop
        invariant
            clean@ + memory_ops_of(rest@).0 == memory_ops_of(text@).0,
            op_views(ops@) + memory_ops_of(rest@).1 == memory_ops_of(text@).1,
        ensures
            clean@ + rest@ == memory_ops_of(text@).0,
            op_views(ops@) == memory_ops_of(text@).1,
        decreases rest@.len(),
    {
        match text::next_tag(rest, "[记忆:") {
            None => {
                assert(op_views(ops@) + Seq::<MemoryOpView>::empty() =~= op_views(ops@));
                break;
            },
            Some(span) => {
                let a: usize = span.0;
                let b: usize = span.1;
                let n: usize = rest.unicode_len();
                let head = rest.substring_char(0, a);
                let tag = rest.substring_char(a, b);
                let next = rest.substring_char(b, n);
                let ghost clean0 = clean@;
                let ghost ops0 = op_views(ops@);
                proof {
                    assert(head@ == rest@.take(a as int));
                    assert(next@ == rest@.skip(b as int));
                    assert(clean0 + (head@ + memory_ops_of(next@).0) =~= clean0 + head@ + memory_ops_of(next@).0);
                }
                clean.append(head);
                match read_mark(tag) {
                    Some(op) => {
                        let ghost v = op@;
                        ops.push(op);
                        proof {
                            assert(op_views(ops@) =~= ops0.push(v));
                            assert(ops0.push(v) + memory_ops_of(next@).1 =~= ops0 + (seq![v] + memory_ops_of(next@).1));
                        }
                    },
                    None => {},
                }
                rest = next;
            },
        }
    }
    clean.append(rest);
    (clean, ops)
}

// ---------- laws ----------

/// What is remembered is never changed, only added to at the end and dropped from the
/// front: an addition keeps a run of the newest entries, each as it was, in its place.
pub proof fn law_memory_appends(
    items: Seq<MemoryEntryView>,
    e: MemoryEntryView,
    max_entries: int,
    max_chars: int,
)
    ensures
        ({
            let after = with_entry(items, e, max_entries, max_chars);
            let gone = items.len() + 1 - after.len();
            &&& 0 <= gone <= items.len()
            &&& after.drop_last() == items.skip(gone)
            &&& after.last().ts == e.ts && after.last().source == e.source
        }),
{
    let after = with_entry(items, e, max_entries, max_chars);
    let gone = items.len() + 1 - after.len();
    assert(after.drop_last() =~= items.skip(gone));
}

/// A prefix cache keeps hitting: the memory message of a longer memory begins with that
/// of the shorter one, to the byte.
pub proof fn law_memory_text_grows(items: Seq<MemoryEntryView>, e: MemoryEntryView)
    ensures
        system_text_of(items.push(e)) == system_text_of(items) + line_of(e, date_of(e.ts)),
{
    assert(items.push(e).drop_last() =~= items);
}

/// The limits hold after every addition: the number of entries, and the length of the
/// new one.
pub proof fn law_memory_limits(
    items: Seq<MemoryEntryView>,
    e: MemoryEntryView,
    max_entries: int,
    max_chars: int,
)
    ensures
        with_entry(items, e, max_entries, max_chars).len() <= at_least_one(max_entries),
        with_entry(items, e, max_entries, max_chars).last().text.len() <= at_least_one(max_chars),
{
}

/// The entries differ in their texts.
pub open spec fn all_differ(items: Seq<MemoryEntryView>) -> bool {
    forall|i: int, j: int| 0 <= i < j < items.len() ==> (#[trigger] items[i]).text != (
    #[trigger] items[j]).text
}

/// Nothing is remembered twice: where the entries differ they still do after a new text
/// that fits was added. (A text that has to be cut may come to equal an older one.)
pub proof fn law_memory_has_no_doubles(
    items: Seq<MemoryEntryView>,
    e: MemoryEntryView,
    max_entries: int,
    max_chars: int,
)
    requires
        all_differ(items),
        !remembers(items, e.text),
        e.text.len() <= at_least_one(max_chars),
    ensures
        all_differ(with_entry(items, e, max_entries, max_chars)),
{
    let full = items.push(MemoryEntryView { ts: e.ts, source: e.source, text: e.text });
    let after = with_entry(items, e, max_entries, max_chars);
    let gone = full.len() - after.len();
    assert(after == full.skip(gone));
    assert forall|i: int, j: int| 0 <= i < j < after.len() implies (#[trigger] after[i]).text != (
    #[trigger] after[j]).text by {
        assert(after[i] == items[i + gone]);
        if j + gone < items.len() {
            assert(after[j] == items[j + gone]);
        }
    }
}

/// What is dropped for the budget is the fewest of the oldest: what stays fits, or
/// nothing stays, and with one more it would not fit.
pub proof fn law_memory_trims_least(tokens: Seq<u32>, budget: int)
    ensures
        0 <= overdue(tokens, budget) <= tokens.len(),
        overdue(tokens, budget) == tokens.len() || capped_total(
            tokens.skip(overdue(tokens, budget)),
        ) <= budget,
        forall|k: int|
            0 <= k < overdue(tokens, budget) ==> capped_total(#[trigger] tokens.skip(k)) > budget,
    decreases tokens.len(),
{
    assert(tokens.skip(0) == tokens);
    if tokens.len() > 0 && capped_total(tokens) > budget {
        let rest = tokens.skip(1);
        law_memory_trims_least(rest, budget);
        let n = overdue(rest, budget);
        assert(rest.skip(n) =~= tokens.skip(n + 1));
        assert forall|k: int| 0 <= k < n + 1 implies capped_total(#[trigger] tokens.skip(k)) > budget by {
            if k > 0 {
                assert(rest.skip(k - 1) =~= tokens.skip(k));
            }
        }
    }
}

/// A reply without a closed memory mark is left as it is, and asks for nothing.
pub proof fn law_unmarked_reply_kept(s: Seq<char>)
    requires
        text::tag_of(s, "[记忆:"@) is None,
    ensures
        memory_ops_of(s) == (s, Seq::<MemoryOpView>::empty()),
{
}

/// Marks only shorten a reply.
pub proof fn law_marks_are_taken_out(s: Seq<char>)
    ensures
        memory_ops_of(s).0.len() <= s.len(),
        text::tag_of(s, "[记忆:"@) is Some ==> memory_ops_of(s).0.len() < s.len(),
    decreases s.len(),
{
    if let Some((a, b)) = text::tag_of(s, "[记忆:"@) {
        text::lemma_tag(s, "[记忆:"@);
        law_marks_are_taken_out(s.skip(b));
    }
}

/// The stretches of a reply between its marks.
pub open spec fn between_marks(s: Seq<char>) -> Seq<Seq<char>>
    decreases s.len(),
{
    match text::tag_of(s, "[记忆:"@) {
        None => seq![s],
        Some((a, b)) => {
            proof {
                text::lemma_tag(s, "[记忆:"@);
            }
            seq![s.take(a)] + between_marks(s.skip(b))
        },
    }
}

/// Some texts one after the other.
pub open spec fn flat_of(parts: Seq<Seq<char>>) -> Seq<char>
    decreases parts.len(),
{
    if parts.len() == 0 {
        Seq::<char>::empty()
    } else {
        parts[0] + flat_of(parts.skip(1))
    }
}

/// Marks do not leak: the reply that is left is made of the stretches between the marks,
/// and in none of these is there a mark.
pub proof fn law_marks_do_not_leak(s: Seq<char>)
    ensures
        memory_ops_of(s).0 == flat_of(between_marks(s)),
        forall|i: int|
            0 <= i < between_marks(s).len() ==> text::tag_of(#[trigger] between_marks(s)[i], "[记忆:"@) is None,
    decreases s.len(),
{
    let open = "[记忆:"@;
    match text::tag_of(s, open) {
        None => {
            assert(seq![s].skip(1) =~= Seq::<Seq<char>>::empty());
            reveal_with_fuel(flat_of, 2);
            assert(s + Seq::<char>::empty() =~= s);
        },
        Some((a, b)) => {
            text::lemma_tag(s, open);
            law_marks_do_not_leak(s.skip(b));
            let head = s.take(a);
            let rest = between_marks(s.skip(b));
            let all = between_marks(s);
            assert(all.skip(1) =~= rest);
            text::lemma_find(head, open);
            if let Some(k) = text::find_of(head, open) {
                assert(head.subrange(k, k + open.len()) =~= s.subrange(k, k + open.len()));
                reveal_strlit("[记忆:");
                text::lemma_find_first(s, open, 0, k);
            }
            assert forall|i: int| 0 <= i < all.len() implies text::tag_of(#[trigger] all[i], open) is None by {
                if i > 0 {
                    assert(all[i] == rest[i - 1]);
                }
            }
        },
    }
}

/// What is added is what was said, cut only where it is too long, and nothing has to go for
/// it while there is room.
pub proof fn law_entry_says_what_was_said(
    items: Seq<MemoryEntryView>,
    e: MemoryEntryView,
    max_entries: int,
    max_chars: int,
)
    ensures
        ({
            let after = with_entry(items, e, max_entries, max_chars);
            &&& after.len() >= 1
            &&& e.text.len() <= max_chars ==> after.last().text == e.text
            &&& e.text.len() > max_chars && max_chars >= 1 ==> after.last().text == e.text.take(max_chars)
            &&& items.len() < max_entries ==> after.len() == items.len() + 1
            &&& items.len() >= max_entries && max_entries >= 1 ==> after.len() == max_entries
        }),
{
    law_memory_appends(items, e, max_entries, max_chars);
}

/// An entry is shown with where it comes from, its day and its words.
pub proof fn law_entry_is_shown(e: MemoryEntryView, date: Seq<char>)
    ensures
        e.source == "model"@ ==> line_of(e, date) == "- (自动 "@ + date + ") "@ + e.text + "\n"@,
        e.source != "model"@ ==> line_of(e, date) == "- (用户 "@ + date + ") "@ + e.text + "\n"@,
        system_text_of(Seq::<MemoryEntryView>::empty()) == "[长期记忆]\n"@,
        clock::in_calendar(e.ts as int) ==> date_of(e.ts) == clock::month_day_of(e.ts as int),
        !clock::in_calendar(e.ts as int) ==> date_of(e.ts).len() == 0,
{
    reveal_strlit("- (自动 ");
    reveal_strlit("- (用户 ");
    reveal_strlit("- (");
    reveal_strlit("自动");
    reveal_strlit("用户");
    reveal_strlit(" ");
    assert("- (自动 "@ =~= "- ("@ + "自动"@ + " "@);
    assert("- (用户 "@ =~= "- ("@ + "用户"@ + " "@);
}

/// Totals are of all entries, as far as 32 bits hold them.
pub proof fn law_estimates_add_up(tokens: Seq<u32>, t: u32)
    ensures
        capped_total(Seq::<u32>::empty()) == 0,
        capped_total(tokens) + t <= u32::MAX ==> capped_total(tokens.push(t)) == capped_total(tokens) + t,
        capped_total(tokens) + t > u32::MAX ==> capped_total(tokens.push(t)) == u32::MAX,
{
    assert(tokens.push(t).drop_last() =~= tokens);
}

/// A mark asks for what it says: to remember the words behind its verb, or to forget what
/// has them in it.
pub proof fn law_mark_asks_what_it_says(c: Seq<char>)
    requires
        forall|i: int| 0 <= i < c.len() ==> #[trigger] c[i] != ']',
        text::trim_of(c).len() > 0,
    ensures
        memory_op_of("[记忆:"@ + "添加"@ + c + seq![']']) == Some(MemoryOpView::Add(text::trim_of(c))),
        memory_op_of("[记忆:"@ + "删除"@ + c + seq![']']) == Some(MemoryOpView::Remove(text::trim_of(c))),
{
    reveal_strlit("添加");
    reveal_strlit("删除");
    let add = "添加"@;
    let del = "删除"@;
    assert(add.len() == 2 && add[0] == '添' && add[1] == '加');
    assert(del.len() == 2 && del[0] == '删' && del[1] == '除');
    reveal_strlit("[记忆:");
    text::lemma_mark_inside("[记忆:"@, add, c);
    text::lemma_mark_inside("[记忆:"@, del, c);
    let t = text::trim_end_of(c);
    text::lemma_trim_end_first(c);
    assert((add + t).take(2) =~= add);
    assert((add + t).skip(2) =~= t);
    assert((del + t).take(2) =~= del);
    assert((del + t).skip(2) =~= t);
    if text::begins(del + t, add) {
        assert((del + t).take(2)[0] == del[0]);
    }
}

/// The marks of a reply are read in their order: the first comes first, then those of what
/// follows it, and what stands before it stays.
pub proof fn law_marks_are_read_in_order(s: Seq<char>, a: int, b: int)
    requires
        text::tag_of(s, "[记忆:"@) == Some((a, b)),
    ensures
        memory_ops_of(s).0 == s.take(a) + memory_ops_of(s.skip(b)).0,
        memory_op_of(s.subrange(a, b)) matches Some(op) ==> memory_ops_of(s).1 == seq![op] + memory_ops_of(
            s.skip(b),
        ).1,
        memory_op_of(s.subrange(a, b)) is None ==> memory_ops_of(s).1 == memory_ops_of(s.skip(b)).1,
{
    text::lemma_tag(s, "[记忆:"@);
}

/// A memory knows the words of its entries and no others, and every entry that it takes up
/// whole.
pub proof fn law_memory_knows_its_entries(items: Seq<MemoryEntryView>, t: Seq<char>, i: int)
    ensures
        0 <= i < items.len() ==> remembers(items, items[i].text),
        (forall|k: int| 0 <= k < items.len() ==> (#[trigger] items[k]).text != t) ==> !remembers(items, t),
        !remembers(Seq::<MemoryEntryView>::empty(), t),
{
    if 0 <= i < items.len() {
        assert(items[i].text == items[i].text);
    }
}

} // verus!
