//! Sessions: the history of a conversation and its summary.
//!
//! The file of a session is the truth; it holds one record on each line, the summary
//! first. What is in memory is a copy of it, made when it is first needed.

use vstd::prelude::*;
use vstd::string::*;
use crate::clock;
use crate::lists;
use crate::memory;
use crate::memory::{MemoryEntryView, MemoryStore};
use crate::napcat::{MsgKind, ParsedMsg};
use crate::number;
use crate::text;

verus! {

#[derive(Debug)]
pub struct HistoryMsg {
    pub role: String,
    pub text: String,
    pub ts: i64,
    /// The estimated number of tokens.
    pub tokens: u32,
    /// Shared with the timeline.
    pub id: String,
    /// The account of the sender; zero for the bot itself.
    pub sender: i64,
}

pub struct HistoryView {
    pub role: Seq<char>,
    pub text: Seq<char>,
    pub ts: i64,
    pub tokens: u32,
    pub id: Seq<char>,
    pub sender: i64,
}

impl View for HistoryMsg {
    type V = HistoryView;

    open spec fn view(&self) -> HistoryView {
        HistoryView {
            role: self.role@,
            text: self.text@,
            ts: self.ts,
            tokens: self.tokens,
            id: self.id@,
            sender: self.sender,
        }
    }
}

impl Clone for HistoryMsg {
    fn clone(&self) -> (r: HistoryMsg)
        ensures
            r@ == self@,
    {
        HistoryMsg {
            role: self.role.clone(),
            text: self.text.clone(),
            ts: self.ts,
            tokens: self.tokens,
            id: self.id.clone(),
            sender: self.sender,
        }
    }
}

pub open spec fn history_views(v: Seq<HistoryMsg>) -> Seq<HistoryView> {
    v.map_values(|h: HistoryMsg| h@)
}

pub struct Session {
    pub key: String,
    pub history: Vec<HistoryMsg>,
    pub summary: Option<String>,
    pub summary_tokens: u32,
    /// When the session was last in use, in nanoseconds.
    pub last_active: i128,
    pub file: String,
    pub loaded: bool,
    pub memory: MemoryStore,
}

pub struct SessionView {
    pub key: Seq<char>,
    pub history: Seq<HistoryView>,
    pub summary: Option<Seq<char>>,
    pub summary_tokens: u32,
    pub last_active: i128,
    pub file: Seq<char>,
    pub loaded: bool,
    pub memory: Seq<MemoryEntryView>,
    pub memory_file: Seq<char>,
}

impl View for Session {
    type V = SessionView;

    open spec fn view(&self) -> SessionView {
        SessionView {
            key: self.key@,
            history: history_views(self.history@),
            summary: text::opt_view(self.summary),
            summary_tokens: self.summary_tokens,
            last_active: self.last_active,
            file: self.file@,
            loaded: self.loaded,
            memory: self.memory.items(),
            memory_file: self.memory.file@,
        }
    }
}

/// A record as it was read, with what depends on more than the record itself.
pub struct LoadedLine {
    pub msg: HistoryMsg,
    /// The estimated number of tokens of the text.
    pub estimate: u32,
    /// The id for a record that has none.
    pub fresh_id: String,
}

pub struct LoadedView {
    pub msg: HistoryView,
    pub estimate: u32,
    pub fresh_id: Seq<char>,
}

impl View for LoadedLine {
    type V = LoadedView;

    open spec fn view(&self) -> LoadedView {
        LoadedView { msg: self.msg@, estimate: self.estimate, fresh_id: self.fresh_id@ }
    }
}

pub open spec fn line_views(v: Seq<LoadedLine>) -> Seq<LoadedView> {
    v.map_values(|l: LoadedLine| l@)
}

/// The role of the record that holds the summary.
pub open spec fn summary_role() -> Seq<char> {
    "__summary__"@
}

/// A record taken in.
pub open spec fn taken_in(s: SessionView, l: LoadedView) -> SessionView {
    if l.msg.role == summary_role() {
        SessionView { summary: Some(l.msg.text), summary_tokens: l.estimate, ..s }
    } else {
        SessionView {
            history: s.history.push(
                if l.msg.id.len() == 0 {
                    HistoryView { id: l.fresh_id, ..l.msg }
                } else {
                    l.msg
                },
            ),
            ..s
        }
    }
}

/// Records taken in, in their order.
pub open spec fn all_taken_in(s: SessionView, lines: Seq<LoadedView>) -> SessionView
    decreases lines.len(),
{
    if lines.len() == 0 {
        s
    } else {
        taken_in(all_taken_in(s, lines.drop_last()), lines.last())
    }
}

/// A session without a past.
pub open spec fn emptied(s: SessionView) -> SessionView {
    SessionView { history: Seq::<HistoryView>::empty(), summary: None, summary_tokens: 0, ..s }
}

/// The record of a summary.
pub open spec fn summary_record(summary: Seq<char>) -> HistoryView {
    HistoryView {
        role: summary_role(),
        text: summary,
        ts: 0,
        tokens: 0,
        id: Seq::<char>::empty(),
        sender: 0,
    }
}

/// The records of a session, as they are written.
pub open spec fn records_of(s: SessionView) -> Seq<HistoryView> {
    match s.summary {
        Some(t) => seq![summary_record(t)] + s.history,
        None => s.history,
    }
}

/// The estimates of some messages added up.
pub open spec fn history_total(history: Seq<HistoryView>) -> int
    decreases history.len(),
{
    if history.len() == 0 {
        0
    } else {
        history_total(history.drop_last()) + history.last().tokens
    }
}

/// The estimate of a session as a whole, as far as 64 bits hold it.
pub open spec fn session_total(s: SessionView) -> int {
    lists::capped(history_total(s.history) + s.summary_tokens, u64::MAX as int)
}

proof fn lemma_history_push(v: Seq<HistoryMsg>, h: HistoryMsg)
    ensures
        history_views(v.push(h)) == history_views(v).push(h@),
{
    assert(history_views(v.push(h)) =~= history_views(v).push(h@));
}

proof fn lemma_history_total(history: Seq<HistoryView>)
    ensures
        0 <= history_total(history) <= history.len() * (u32::MAX as int),
    decreases history.len(),
{
    if history.len() > 0 {
        lemma_history_total(history.drop_last());
        let n = history.len() as int;
        let m = u32::MAX as int;
        assert((n - 1) * m + m == n * m) by (nonlinear_arith);
    }
}

/// The estimates of some messages added up, in more bits than they can fill.
pub fn sum_tokens(history: &Vec<HistoryMsg>) -> (r: u128)
    ensures
        r == history_total(history_views(history@)),
        r <= u64::MAX * u32::MAX,
{
    let ghost all = history_views(history@);
    let mut t: u128 = 0;
    let mut i: usize = 0;
    while i < history.len()
        invariant
            i <= history@.len(),
            all == history_views(history@),
            t == history_total(all.take(i as int)),
        decreases history@.len() - i,
    {
        proof {
            assert(all.take(i + 1).drop_last() == all.take(i as int));
            assert(all.take(i + 1).last() == history@[i as int]@);
            lemma_history_total(all.take(i as int));
            assert(i * (u32::MAX as int) <= (u64::MAX as int) * (u32::MAX as int)) by (nonlinear_arith)
                requires
                    i <= u64::MAX,
            ;
        }
        t = t + history[i].tokens as u128;
        i += 1;
    }
    proof {
        let n: usize = history.len();
        assert(all.take(all.len() as int) == all);
        lemma_history_total(all);
        assert(n * (u32::MAX as int) <= (u64::MAX as int) * (u32::MAX as int)) by (nonlinear_arith)
            requires
                n <= u64::MAX,
        ;
    }
    t
}

/// The file of a session in a directory.
pub open spec fn session_file(dir: Seq<char>, key: Seq<char>) -> Seq<char> {
    dir + "/"@ + key + ".jsonl"@
}

/// The file of the memory of a session in a directory.
pub open spec fn memory_file(dir: Seq<char>, key: Seq<char>) -> Seq<char> {
    dir + "/memories/"@ + key + ".jsonl"@
}

impl Session {
    pub fn new(key: &str, dir: &str, now: i128) -> (r: Session)
        ensures
            r@ == (SessionView {
                key: key@,
                history: Seq::<HistoryView>::empty(),
                summary: None,
                summary_tokens: 0,
                last_active: now,
                file: session_file(dir@, key@),
                loaded: false,
                memory: Seq::<MemoryEntryView>::empty(),
                memory_file: memory_file(dir@, key@),
            }),
    {
        let mut file = dir.to_owned();
        file.append("/");
        file.append(key);
        file.append(".jsonl");
        let mut mem = dir.to_owned();
        mem.append("/memories/");
        mem.append(key);
        mem.append(".jsonl");
        let r = Session {
            key: key.to_owned(),
            history: Vec::new(),
            summary: None,
            summary_tokens: 0,
            last_active: now,
            file,
            loaded: false,
            memory: MemoryStore::new(mem),
        };
        assert(r@.history =~= Seq::<HistoryView>::empty());
        r
    }

    fn take_in(&mut self, l: LoadedLine)
        ensures
            final(self)@ == taken_in(old(self)@, l@),
    {
        if text::same(l.msg.role.as_str(), "__summary__") {
            self.summary_tokens = l.estimate;
            self.summary = Some(l.msg.text);
            return;
        }
        let mut h = l.msg;
        if h.id.as_str().is_empty() {
            h.id = l.fresh_id;
        }
        proof {
            lemma_history_push(self.history@, h);
        }
        self.history.push(h);
    }

    /// Takes in the records of the file, unless that was done before.
    pub fn ensure_loaded(&mut self, lines: Vec<LoadedLine>)
        ensures
            final(self)@ == if old(self)@.loaded {
                old(self)@
            } else {
                all_taken_in(SessionView { loaded: true, ..old(self)@ }, line_views(lines@))
            },
    {
        if self.loaded {
            return;
        }
        self.loaded = true;
        let mut rest = lines;
        let ghost all = line_views(rest@);
        let ghost mut done: int = 0;
        let ghost start = self@;
        assert(all.skip(0) == all);
        assert(all_taken_in(start, all.take(0)) == start);
        while rest.len() > 0
            invariant
                0 <= done <= all.len(),
                line_views(rest@) == all.skip(done),
                self@ == all_taken_in(start, all.take(done)),
            decreases rest@.len(),
        {
            let ghost before = rest@;
            assert(line_views(rest@).len() == rest@.len());
            let l = rest.remove(0);
            proof {
                assert(line_views(before)[0] == l@);
                assert(l@ == all.skip(done)[0]);
                assert(line_views(before.remove(0)) =~= line_views(before).remove(0));
                assert(all.skip(done).remove(0) =~= all.skip(done + 1));
                assert(all.take(done + 1).drop_last() =~= all.take(done));
                assert(all.take(done + 1).last() == l@);
                done = done + 1;
            }
            self.take_in(l);
        }
        assert(line_views(rest@).len() == rest@.len());
        assert(all.take(done) == all);
    }

    /// Forgets what is in memory and takes in the records of the file anew.
    pub fn reload_from_disk(&mut self, lines: Vec<LoadedLine>)
        ensures
            final(self)@ == all_taken_in(
                SessionView { loaded: true, ..emptied(old(self)@) },
                line_views(lines@),
            ),
    {
        self.loaded = false;
        self.history = Vec::new();
        self.summary = None;
        self.summary_tokens = 0;
        assert(self@.history =~= Seq::<HistoryView>::empty());
        self.ensure_loaded(lines);
    }

    /// The records to be written.
    pub fn rewrite(&self) -> (r: Vec<HistoryMsg>)
        ensures
            history_views(r@) == records_of(self@),
    {
        let mut r: Vec<HistoryMsg> = Vec::new();
        if let Some(s) = &self.summary {
            let h = HistoryMsg {
                role: "__summary__".to_owned(),
                text: s.clone(),
                ts: 0,
                tokens: 0,
                id: String::new(),
                sender: 0,
            };
            assert(h@.id =~= Seq::<char>::empty());
            r.push(h);
        }
        let ghost head = history_views(r@);
        let ghost all = history_views(self.history@);
        let mut i: usize = 0;
        assert(head + all.take(0) =~= head);
        while i < self.history.len()
            invariant
                i <= self.history@.len(),
                all == history_views(self.history@),
                history_views(r@) == head + all.take(i as int),
            decreases self.history@.len() - i,
        {
            let h = self.history[i].clone();
            proof {
                lemma_history_push(r@, h);
                assert((head + all.take(i as int)).push(h@) =~= head + all.take(i + 1));
            }
            r.push(h);
            i += 1;
        }
        assert(all.take(all.len() as int) == all);
        assert(history_views(r@) =~= records_of(self@));
        r
    }

    /// Adds a message as of now; gives its estimate. See [`Session::push_id_at`].
    pub fn push_id(&mut self, role: &str, text: &str, tokens: u32, id: &str, sender: i64) -> (r: u32)
        ensures
            r == tokens,
            exists|ts: i64|
                final(self)@ == (SessionView {
                    history: old(self)@.history.push(
                        #[trigger] said(role@, text@, ts, tokens, id@, sender),
                    ),
                    ..old(self)@
                }),
    {
        let ts: i64 = clock::seconds(clock::wall_clock());
        self.push_id_at(role, text, tokens, id, sender, ts)
    }

    /// Adds a message; gives its estimate.
    pub fn push_id_at(&mut self, role: &str, text: &str, tokens: u32, id: &str, sender: i64, ts: i64) -> (r:
        u32)
        ensures
            r == tokens,
            final(self)@ == (SessionView {
                history: old(self)@.history.push(said(role@, text@, ts, tokens, id@, sender)),
                ..old(self)@
            }),
    {
        let h = HistoryMsg {
            role: role.to_owned(),
            text: text.to_owned(),
            ts,
            tokens,
            id: id.to_owned(),
            sender,
        };
        proof {
            lemma_history_push(self.history@, h);
        }
        self.history.push(h);
        tokens
    }

    /// Forgets the conversation; its memory stays.
    pub fn clear(&mut self)
        ensures
            final(self)@ == emptied(old(self)@),
    {
        self.history = Vec::new();
        self.summary = None;
        self.summary_tokens = 0;
        assert(self@.history =~= Seq::<HistoryView>::empty());
    }

    /// The estimate of the session as a whole.
    pub fn total_tokens(&self) -> (r: u64)
        ensures
            r == session_total(self@),
    {
        let t: u128 = sum_tokens(&self.history) + self.summary_tokens as u128;
        if t > u64::MAX as u128 {
            u64::MAX
        } else {
            t as u64
        }
    }

    /// Whether the session was idle for more than some hours; never for zero hours.
    pub fn expired(&self, now: i128, hours: u64) -> (r: bool)
        ensures
            r == (hours > 0 && now - self@.last_active > hours * 3_600_000_000_000),
            hours == 0 ==> !r,
            now <= self@.last_active ==> !r,
            hours > 0 && now - self@.last_active <= hours * 60 * 60 * 1_000_000_000 ==> !r,
            hours > 0 && now - self@.last_active > hours * 60 * 60 * 1_000_000_000 ==> r,
    {
        let limit: i128 = hours as i128 * 3_600_000_000_000;
        if hours == 0 || now <= self.last_active {
            return false;
        }
        if self.last_active < 0 && now > i128::MAX + self.last_active {
            return true;
        }
        now - self.last_active > limit
    }
}

/// A message of the history.
pub open spec fn said(
    role: Seq<char>,
    text: Seq<char>,
    ts: i64,
    tokens: u32,
    id: Seq<char>,
    sender: i64,
) -> HistoryView {
    HistoryView { role, text, ts, tokens, id, sender }
}

/// The key of the session that a message belongs to: `g` and the group, or `u` and the
/// user.
pub open spec fn key_of(kind: MsgKind, group_id: Option<i64>, user_id: i64) -> Seq<char> {
    match kind {
        MsgKind::Group => "g"@ + number::dec(
            match group_id {
                Some(g) => g as int,
                None => 0,
            },
        ),
        MsgKind::Private => "u"@ + number::dec(user_id as int),
    }
}

pub fn session_key(msg: &ParsedMsg) -> (r: String)
    ensures
        r@ == key_of(msg.kind, msg.group_id, msg.user_id),
{
    match msg.kind {
        MsgKind::Group => {
            let g: i64 = match msg.group_id {
                Some(g) => g,
                None => 0,
            };
            let mut s = "g".to_owned();
            s.append(number::i64_text(g).as_str());
            s
        },
        MsgKind::Private => {
            let mut s = "u".to_owned();
            s.append(number::i64_text(msg.user_id).as_str());
            s
        },
    }
}

// ---------- files of sessions ----------

/// What a file of records amounts to: messages, their estimates, and the summary.
pub struct FileSummary {
    pub count: int,
    pub tokens: int,
    pub summary: Option<Seq<char>>,
}

pub open spec fn file_summary(records: Seq<HistoryView>) -> FileSummary
    decreases records.len(),
{
    if records.len() == 0 {
        FileSummary { count: 0, tokens: 0, summary: None }
    } else {
        let s = file_summary(records.drop_last());
        let h = records.last();
        if h.role == summary_role() {
            FileSummary { summary: Some(h.text), ..s }
        } else {
            FileSummary {
                count: s.count + 1,
                tokens: lists::capped(s.tokens + h.tokens, u64::MAX as int),
                ..s
            }
        }
    }
}

/// What the records of a file amount to: how many messages there are, their estimates,
/// whether there is a summary, and the summary.
pub fn read_history_summary(records: &Vec<HistoryMsg>) -> (r: (usize, u64, bool, Option<String>))
    ensures
        ({
            let s = file_summary(history_views(records@));
            r.0 == s.count && r.1 == s.tokens && r.2 == (s.summary is Some) && text::opt_view(r.3)
                == s.summary
        }),
{
    let ghost all = history_views(records@);
    let mut count: usize = 0;
    let mut tokens: u64 = 0;
    let mut summary: Option<String> = None;
    let mut i: usize = 0;
    while i < records.len()
        invariant
            i <= records@.len(),
            all == history_views(records@),
            count <= i,
            count == file_summary(all.take(i as int)).count,
            tokens == file_summary(all.take(i as int)).tokens,
            text::opt_view(summary) == file_summary(all.take(i as int)).summary,
        decreases records@.len() - i,
    {
        let h = &records[i];
        proof {
            assert(all.take(i + 1).drop_last() == all.take(i as int));
            assert(all.take(i + 1).last() == h@);
        }
        if text::same(h.role.as_str(), "__summary__") {
            summary = Some(h.text.clone());
        } else {
            count += 1;
            tokens = if tokens > u64::MAX - h.tokens as u64 {
                u64::MAX
            } else {
                tokens + h.tokens as u64
            };
        }
        i += 1;
    }
    assert(all.take(all.len() as int) == all);
    let has_summary = summary.is_some();
    (count, tokens, has_summary, summary)
}

/// A line of a file: a record, or something that is none and is left alone.
pub enum FileLine {
    Message(HistoryMsg),
    Other(String),
}

pub enum FileLineView {
    Message(HistoryView),
    Other(Seq<char>),
}

impl View for FileLine {
    type V = FileLineView;

    open spec fn view(&self) -> FileLineView {
        match self {
            FileLine::Message(h) => FileLineView::Message(h@),
            FileLine::Other(s) => FileLineView::Other(s@),
        }
    }
}

pub open spec fn file_views(v: Seq<FileLine>) -> Seq<FileLineView> {
    v.map_values(|l: FileLine| l@)
}

/// The line is the message with this id.
pub open spec fn is_entry(l: FileLineView, id: Seq<char>) -> bool {
    match l {
        FileLineView::Message(h) => h.id == id,
        FileLineView::Other(_) => false,
    }
}

pub open spec fn has_entry(lines: Seq<FileLineView>, id: Seq<char>) -> bool {
    exists|i: int| 0 <= i < lines.len() && is_entry(#[trigger] lines[i], id)
}

/// The line with another text, where it is the message with this id.
pub open spec fn reworded(l: FileLineView, id: Seq<char>, word: Seq<char>, tokens: u32) -> FileLineView {
    match l {
        FileLineView::Message(h) if h.id == id => FileLineView::Message(
            HistoryView { text: word, tokens, ..h },
        ),
        _ => l,
    }
}

fn entry_here(l: &FileLine, id: &str) -> (r: bool)
    ensures
        r == is_entry(l@, id@),
{
    match l {
        FileLine::Message(h) => text::same(h.id.as_str(), id),
        FileLine::Other(_) => false,
    }
}

fn knows_entry(lines: &Vec<FileLine>, id: &str) -> (r: bool)
    ensures
        r == has_entry(file_views(lines@), id@),
{
    let mut i: usize = 0;
    while i < lines.len()
        invariant
            i <= lines@.len(),
            forall|k: int| 0 <= k < i ==> !is_entry(#[trigger] file_views(lines@)[k], id@),
        decreases lines@.len() - i,
    {
        if entry_here(&lines[i], id) {
            assert(is_entry(file_views(lines@)[i as int], id@));
            return true;
        }
        i += 1;
    }
    false
}

/// Gives the message with an id another text, `tokens` being its estimate.
pub fn rewrite_history_entry(lines: &mut Vec<FileLine>, id: &str, word: &str, tokens: u32) -> (r: Result<
    (),
    String,
>)
    ensures
        if text::trim_of(word@).len() == 0 {
            (r matches Err(e) && e@ == "内容不能为空"@) && final(lines)@ == old(lines)@
        } else if !has_entry(file_views(old(lines)@), id@) {
            (r matches Err(e) && e@ == "未找到该消息(可能已折叠进摘要,仅可查看)"@) && final(lines)@
                == old(lines)@
        } else {
            r is Ok && file_views(final(lines)@) == file_views(old(lines)@).map_values(
                |l: FileLineView| reworded(l, id@, text::trim_of(word@), tokens),
            )
        },
{
    let word = text::trim(word);
    if word.is_empty() {
        return Err("内容不能为空".to_owned());
    }
    if !knows_entry(lines, id) {
        return Err("未找到该消息(可能已折叠进摘要,仅可查看)".to_owned());
    }
    let ghost before = file_views(lines@);
    let n: usize = lines.len();
    let mut i: usize = 0;
    while i < n
        invariant
            i <= n,
            n == before.len(),
            lines@.len() == n,
            forall|k: int|
                0 <= k < i ==> (#[trigger] lines@[k])@ == reworded(before[k], id@, word@, tokens),
            forall|k: int| i <= k < n ==> (#[trigger] lines@[k])@ == before[k],
        decreases n - i,
    {
        if entry_here(&lines[i], id) {
            let l = lines.remove(i);
            let l2 = match l {
                FileLine::Message(h) => FileLine::Message(
                    HistoryMsg {
                        role: h.role,
                        text: word.to_owned(),
                        ts: h.ts,
                        tokens,
                        id: h.id,
                        sender: h.sender,
                    },
                ),
                other => other,
            };
            lines.insert(i, l2);
        }
        i += 1;
    }
    assert(file_views(lines@) =~= before.map_values(
        |l: FileLineView| reworded(l, id@, word@, tokens),
    ));
    Ok(())
}

/// The lines that are not the message with this id.
pub open spec fn without_entry(lines: Seq<FileLineView>, id: Seq<char>) -> Seq<FileLineView> {
    lines.filter(|l: FileLineView| !is_entry(l, id))
}

/// Removes the message with an id.
pub fn remove_history_entry(lines: &mut Vec<FileLine>, id: &str) -> (r: Result<(), String>)
    ensures
        if has_entry(file_views(old(lines)@), id@) {
            r is Ok && file_views(final(lines)@) == without_entry(file_views(old(lines)@), id@)
        } else {
            (r matches Err(e) && e@ == "未找到该消息(可能已折叠进摘要)"@) && final(lines)@ == old(
                lines,
            )@
        },
{
    if !knows_entry(lines, id) {
        return Err("未找到该消息(可能已折叠进摘要)".to_owned());
    }
    let ghost all = file_views(lines@);
    let ghost keep = |l: FileLineView| !is_entry(l, id@);
    let mut i: usize = 0;
    let ghost mut seen: int = 0;
    proof {
        reveal_with_fuel(Seq::filter, 1);
        assert(all.take(0).filter(keep) =~= Seq::<FileLineView>::empty());
        assert(all.take(0).filter(keep) + all.skip(0) =~= all);
    }
    while i < lines.len()
        invariant
            0 <= seen <= all.len(),
            i == all.take(seen).filter(keep).len(),
            file_views(lines@) == all.take(seen).filter(keep) + all.skip(seen),
            keep == (|l: FileLineView| !is_entry(l, id@)),
        decreases all.len() - seen,
    {
        let ghost kept = all.take(seen).filter(keep);
        let ghost now = lines@;
        proof {
            reveal_with_fuel(Seq::filter, 1);
            assert(file_views(lines@).len() == lines@.len());
            assert(seen < all.len());
            assert(all.take(seen + 1).drop_last() == all.take(seen));
            assert(all.take(seen + 1).last() == all[seen]);
            assert(file_views(lines@)[i as int] == all[seen]);
        }
        if entry_here(&lines[i], id) {
            proof {
                assert((kept + all.skip(seen)).remove(i as int) =~= kept + all.skip(seen + 1));
                assert(file_views(now.remove(i as int)) =~= file_views(now).remove(i as int));
                seen = seen + 1;
            }
            lines.remove(i);
        } else {
            proof {
                assert(kept + all.skip(seen) =~= kept.push(all[seen]) + all.skip(seen + 1));
                seen = seen + 1;
            }
            i += 1;
        }
    }
    proof {
        assert(file_views(lines@).len() == lines@.len());
        assert(all.skip(seen).len() == 0);
        assert(all.take(seen) == all);
        assert(file_views(lines@) =~= all.filter(keep));
    }
    Ok(())
}

/// A row of the list of sessions.
pub struct SessionRow {
    pub key: String,
    pub count: usize,
    pub tokens: u64,
    pub has_summary: bool,
}

pub struct RowView {
    pub key: Seq<char>,
    pub count: usize,
    pub tokens: u64,
    pub has_summary: bool,
}

impl View for SessionRow {
    type V = RowView;

    open spec fn view(&self) -> RowView {
        RowView {
            key: self.key@,
            count: self.count,
            tokens: self.tokens,
            has_summary: self.has_summary,
        }
    }
}

pub open spec fn row_views(v: Seq<SessionRow>) -> Seq<RowView> {
    v.map_values(|r: SessionRow| r@)
}

/// The rows stand in the order of their keys, each key once.
pub open spec fn in_order(rows: Seq<RowView>) -> bool {
    forall|i: int, j: int|
        0 <= i < j < rows.len() ==> text::precedes((#[trigger] rows[i]).key, (#[trigger] rows[j]).key)
}

/// The rows with one more, which takes the place of one with its key.
pub open spec fn is_with_row(before: Seq<RowView>, after: Seq<RowView>, row: RowView) -> bool {
    &&& in_order(after)
    &&& after.contains(row)
    &&& forall|r: RowView| r.key != row.key ==> (after.contains(r) <==> #[trigger] before.contains(r))
}

/// The key of a session, by the name of its file.
pub fn key_of_file(name: &str) -> (r: &str)
    ensures
        r@ == text::trim_end_matches_of(name@, ".jsonl"@),
{
    text::trim_end_matches(name, ".jsonl")
}

/// Puts a row into a list that is in order.
pub fn insert_row(rows: &mut Vec<SessionRow>, row: SessionRow)
    requires
        in_order(row_views(old(rows)@)),
    ensures
        is_with_row(row_views(old(rows)@), row_views(final(rows)@), row@),
{
    let ghost before = row_views(rows@);
    let ghost rv = row@;
    let mut i: usize = 0;
    while i < rows.len() && text::is_before(rows[i].key.as_str(), row.key.as_str())
        invariant
            i <= rows@.len(),
            before == row_views(rows@),
            rv == row@,
            forall|k: int| 0 <= k < i ==> text::precedes((#[trigger] before[k]).key, rv.key),
        decreases rows@.len() - i,
    {
        assert(before[i as int] == rows@[i as int]@);
        i += 1;
    }
    if i < rows.len() && text::same(rows[i].key.as_str(), row.key.as_str()) {
        let ghost now = rows@;
        assert(before[i as int].key == rv.key);
        rows.set(i, row);
        proof {
            let after = row_views(rows@);
            assert(after =~= before.update(i as int, rv));
            assert(after[i as int] == rv);
            assert forall|r: RowView| r.key != rv.key implies (after.contains(r)
                <==> #[trigger] before.contains(r)) by {
                if after.contains(r) {
                    let k = choose|k: int| 0 <= k < after.len() && after[k] == r;
                    assert(before[k] == r);
                }
                if before.contains(r) {
                    let k = choose|k: int| 0 <= k < before.len() && before[k] == r;
                    assert(after[k] == r);
                }
            }
        }
    } else {
        proof {
            if i < before.len() {
                text::lemma_precedes_total(before[i as int].key, rv.key);
                assert forall|k: int| i <= k < before.len() implies text::precedes(
                    rv.key,
                    (#[trigger] before[k]).key,
                ) by {
                    if k > i {
                        text::lemma_precedes_chain(rv.key, before[i as int].key, before[k].key);
                    }
                }
            }
        }
        rows.insert(i, row);
        proof {
            let after = row_views(rows@);
            assert(after =~= before.insert(i as int, rv));
            assert(after[i as int] == rv);
            assert forall|a: int, b: int| 0 <= a < b < after.len() implies text::precedes(
                (#[trigger] after[a]).key,
                (#[trigger] after[b]).key,
            ) by {
                let x = if a < i {
                    a
                } else {
                    a - 1
                };
                let y = if b < i {
                    b
                } else {
                    b - 1
                };
                if a == i {
                    assert(after[b] == before[y]);
                } else if b == i {
                    assert(after[a] == before[x]);
                } else {
                    assert(after[a] == before[x]);
                    assert(after[b] == before[y]);
                }
            }
            assert forall|r: RowView| r.key != rv.key implies (after.contains(r)
                <==> #[trigger] before.contains(r)) by {
                if after.contains(r) {
                    let k = choose|k: int| 0 <= k < after.len() && after[k] == r;
                    if k < i {
                        assert(before[k] == r);
                    } else {
                        assert(before[k - 1] == r);
                    }
                }
                if before.contains(r) {
                    let k = choose|k: int| 0 <= k < before.len() && before[k] == r;
                    if k < i {
                        assert(after[k] == r);
                    } else {
                        assert(after[k + 1] == r);
                    }
                }
            }
        }
    }
}

// ---------- laws ----------

/// The records of a session as they come back from its file.
pub open spec fn read_back(records: Seq<HistoryView>, estimates: Seq<u32>, ids: Seq<Seq<char>>) -> Seq<
    LoadedView,
> {
    Seq::new(
        records.len(),
        |i: int| LoadedView { msg: records[i], estimate: estimates[i], fresh_id: ids[i] },
    )
}

proof fn lemma_taken_history(s: SessionView, lines: Seq<LoadedView>, n: int)
    requires
        0 <= n <= lines.len(),
        forall|i: int|
            lines.len() - n <= i < lines.len() ==> (#[trigger] lines[i]).msg.role != summary_role()
                && lines[i].msg.id.len() > 0,
    ensures
        ({
            let k = lines.len() - n;
            let t = all_taken_in(s, lines.take(k));
            all_taken_in(s, lines) == (SessionView {
                history: t.history + lines.skip(k).map_values(|l: LoadedView| l.msg),
                ..t
            })
        }),
    decreases n,
{
    let k = lines.len() - n;
    let t = all_taken_in(s, lines.take(k));
    if n == 0 {
        assert(lines.take(k) == lines);
        assert(t.history + lines.skip(k).map_values(|l: LoadedView| l.msg) =~= t.history);
    } else {
        let init = lines.drop_last();
        lemma_taken_history(s, init, n - 1);
        assert(init.take(k) =~= lines.take(k));
        assert(lines.skip(k).map_values(|l: LoadedView| l.msg) =~= init.skip(k).map_values(
            |l: LoadedView| l.msg,
        ).push(lines.last().msg));
        assert(lines.last() == lines[lines.len() - 1]);
        assert((t.history + init.skip(k).map_values(|l: LoadedView| l.msg)).push(lines.last().msg)
            =~= t.history + lines.skip(k).map_values(|l: LoadedView| l.msg));
    }
}

/// A session that was written comes back as it was: the same history to the letter, and
/// the same summary, whatever the session in memory held before it was read again. (No
/// message of a history has the role of the summary, and each has an id.)
pub proof fn law_session_survives_restart(
    s: SessionView,
    fresh: SessionView,
    estimates: Seq<u32>,
    ids: Seq<Seq<char>>,
)
    requires
        forall|i: int|
            0 <= i < s.history.len() ==> (#[trigger] s.history[i]).role != summary_role()
                && s.history[i].id.len() > 0,
    ensures
        ({
            let back = all_taken_in(
                emptied(fresh),
                read_back(records_of(s), estimates, ids),
            );
            &&& back.history == s.history
            &&& back.summary == s.summary
            &&& s.summary is Some ==> back.summary_tokens == estimates[0]
        }),
{
    let lines = read_back(records_of(s), estimates, ids);
    let n = s.history.len() as int;
    let k = lines.len() - n;
    assert forall|i: int| k <= i < lines.len() implies (#[trigger] lines[i]).msg.role != summary_role()
        && lines[i].msg.id.len() > 0 by {
        assert(lines[i].msg == s.history[i - k]);
    }
    lemma_taken_history(emptied(fresh), lines, n);
    assert(lines.skip(k).map_values(|l: LoadedView| l.msg) =~= s.history);
    if s.summary is Some {
        assert(lines.take(1).drop_last() =~= Seq::<LoadedView>::empty());
        assert(lines.take(1).last() == lines[0]);
        reveal_with_fuel(all_taken_in, 2);
    }
    let back = all_taken_in(emptied(fresh), lines);
    assert(back.history =~= s.history);
}

/// A message that was removed is not there any more, and the others are.
pub proof fn law_removed_entry_is_gone(lines: Seq<FileLineView>, id: Seq<char>)
    ensures
        !has_entry(without_entry(lines, id), id),
        forall|i: int|
            0 <= i < lines.len() && !is_entry(#[trigger] lines[i], id) ==> without_entry(
                lines,
                id,
            ).contains(lines[i]),
{
    broadcast use vstd::seq_lib::group_filter_ensures;

    assert forall|i: int| 0 <= i < lines.len() && !is_entry(#[trigger] lines[i], id) implies without_entry(
        lines,
        id,
    ).contains(lines[i]) by {
        assert((|l: FileLineView| !is_entry(l, id))(lines[i]));
    }
}

/// Two different conversations have different sessions.
pub proof fn law_keys_differ(a: i64, b: i64)
    ensures
        key_of(MsgKind::Group, Some(a), 0) != key_of(MsgKind::Private, None, b),
        a != b ==> key_of(MsgKind::Group, Some(a), 0) != key_of(MsgKind::Group, Some(b), 0),
        a != b ==> key_of(MsgKind::Private, None, a) != key_of(MsgKind::Private, None, b),
{
    reveal_strlit("g");
    reveal_strlit("u");
    let ga = key_of(MsgKind::Group, Some(a), 0);
    let gb = key_of(MsgKind::Group, Some(b), 0);
    let ua = key_of(MsgKind::Private, None, a);
    let ub = key_of(MsgKind::Private, None, b);
    assert(ga[0] == 'g' && ub[0] == 'u');
    assert(ga.skip(1) =~= number::dec(a as int));
    assert(gb.skip(1) =~= number::dec(b as int));
    assert(ua.skip(1) =~= number::dec(a as int));
    assert(ub.skip(1) =~= number::dec(b as int));
    if a != b {
        if number::dec(a as int) == number::dec(b as int) {
            number::law_dec_injective(a, b);
        }
    }
}

/// A message is kept as it was said: with its role, its words, its moment, its estimate,
/// its id and its sender.
pub proof fn law_said_is_kept(role: Seq<char>, words: Seq<char>, ts: i64, tokens: u32, id: Seq<char>, sender: i64)
    ensures
        ({
            let h = said(role, words, ts, tokens, id, sender);
            h.role == role && h.text == words && h.ts == ts && h.tokens == tokens && h.id == id && h.sender == sender
        }),
{
}

/// A session is that of the group, or of the person: a message of a group belongs to the
/// session of its group whoever sent it, a private one to that of its sender.
pub proof fn law_session_is_of_its_place(group: i64, user: i64, other: i64, any: Option<i64>)
    ensures
        key_of(MsgKind::Group, Some(group), user) == "g"@ + number::dec(group as int),
        key_of(MsgKind::Private, any, user) == "u"@ + number::dec(user as int),
        key_of(MsgKind::Group, Some(group), user) == key_of(MsgKind::Group, Some(group), other),
        key_of(MsgKind::Group, None, user) == key_of(MsgKind::Group, Some(0), user),
{
}

/// A file is named after its session and lies in its directory; the files of the memory
/// lie apart, and different sessions have different files.
pub proof fn law_files_go_by_their_session(dir: Seq<char>, a: Seq<char>, b: Seq<char>)
    ensures
        text::begins(session_file(dir, a), dir + "/"@ + a),
        text::ends(session_file(dir, a), ".jsonl"@),
        text::begins(memory_file(dir, a), dir + "/memories/"@ + a),
        text::ends(memory_file(dir, a), ".jsonl"@),
        a != b ==> session_file(dir, a) != session_file(dir, b) && memory_file(dir, a) != memory_file(dir, b),
{
    reveal_strlit(".jsonl");
    reveal_strlit("/");
    reveal_strlit("/memories/");
    let s = session_file(dir, a);
    let m = memory_file(dir, a);
    let head = dir + "/"@ + a;
    let deep = dir + "/memories/"@ + a;
    assert(s.take(head.len() as int) =~= head);
    assert(s.skip(s.len() - 6) =~= ".jsonl"@);
    assert(m.take(deep.len() as int) =~= deep);
    assert(m.skip(m.len() - 6) =~= ".jsonl"@);
    if s == session_file(dir, b) {
        let t = session_file(dir, b);
        assert(s.subrange((dir.len() + 1) as int, s.len() - 6) =~= a);
        assert(t.subrange((dir.len() + 1) as int, t.len() - 6) =~= b);
    }
    if m == memory_file(dir, b) {
        let t = memory_file(dir, b);
        assert(m.subrange((dir.len() + 10) as int, m.len() - 6) =~= a);
        assert(t.subrange((dir.len() + 10) as int, t.len() - 6) =~= b);
    }
}

/// A total is that of all messages: each adds its estimate; the session's has that of the
/// summary besides.
pub proof fn law_totals_add_up(history: Seq<HistoryView>, h: HistoryView, s: SessionView)
    ensures
        history_total(Seq::<HistoryView>::empty()) == 0,
        history_total(history.push(h)) == history_total(history) + h.tokens,
        history_total(s.history) + s.summary_tokens <= u64::MAX ==> session_total(s) == history_total(s.history)
            + s.summary_tokens,
{
    assert(history.push(h).drop_last() =~= history);
}

/// A record is taken in as what it is: the summary as the summary with its own estimate, a
/// message behind the others, unchanged but for an id where it had none.
pub proof fn law_record_is_taken_in(s: SessionView, l: LoadedView)
    ensures
        ({
            let t = taken_in(s, l);
            &&& l.msg.role == "__summary__"@ ==> t.summary == Some(l.msg.text) && t.summary_tokens == l.estimate
                && t.history == s.history
            &&& l.msg.role != "__summary__"@ ==> t.summary == s.summary && t.summary_tokens == s.summary_tokens
                && t.history.len() == s.history.len() + 1 && t.history.drop_last() == s.history
                && t.history.last().role == l.msg.role && t.history.last().text == l.msg.text && t.history.last().ts
                == l.msg.ts && t.history.last().tokens == l.msg.tokens && t.history.last().sender == l.msg.sender
            &&& l.msg.role != "__summary__"@ && l.msg.id.len() > 0 ==> t.history.last().id == l.msg.id
            &&& l.msg.role != "__summary__"@ && l.msg.id.len() == 0 ==> t.history.last().id == l.fresh_id
            &&& t.key == s.key && t.file == s.file && t.memory == s.memory && t.loaded == s.loaded
        }),
{
    if l.msg.role != summary_role() {
        assert(taken_in(s, l).history.drop_last() =~= s.history);
    }
}

/// Clearing forgets the conversation and nothing else.
pub proof fn law_clearing_keeps_the_rest(s: SessionView)
    ensures
        emptied(s).history.len() == 0,
        emptied(s).summary is None,
        emptied(s).summary_tokens == 0,
        emptied(s).memory == s.memory,
        emptied(s).key == s.key,
        emptied(s).file == s.file,
        emptied(s).memory_file == s.memory_file,
        emptied(s).last_active == s.last_active,
{
}

/// A message given another text keeps everything else, and no other line is touched.
pub proof fn law_rewording_touches_one_message(l: FileLineView, id: Seq<char>, word: Seq<char>, tokens: u32)
    ensures
        !is_entry(l, id) ==> reworded(l, id, word, tokens) == l,
        match (l, reworded(l, id, word, tokens)) {
            (FileLineView::Message(h), FileLineView::Message(x)) => {
                &&& x.role == h.role && x.id == h.id && x.ts == h.ts && x.sender == h.sender
                &&& h.id == id ==> x.text == word && x.tokens == tokens
            },
            (FileLineView::Other(a), FileLineView::Other(b)) => a == b,
            _ => false,
        },
        match l {
            FileLineView::Message(h) => is_entry(l, id) <==> h.id == id,
            FileLineView::Other(_) => !is_entry(l, id),
        },
{
}

/// What a file amounts to is what its records do: each message counts once, with its
/// estimate, and a summary is the summary.
pub proof fn law_file_is_summed_up(records: Seq<HistoryView>, h: HistoryView)
    ensures
        ({
            let s = file_summary(records);
            let t = file_summary(records.push(h));
            &&& h.role == "__summary__"@ ==> t.summary == Some(h.text) && t.count == s.count && t.tokens == s.tokens
            &&& h.role != "__summary__"@ ==> t.summary == s.summary && t.count == s.count + 1 && (s.tokens + h.tokens
                <= u64::MAX ==> t.tokens == s.tokens + h.tokens)
        }),
        file_summary(Seq::<HistoryView>::empty()).count == 0,
        file_summary(Seq::<HistoryView>::empty()).tokens == 0,
        file_summary(Seq::<HistoryView>::empty()).summary is None,
{
    assert(records.push(h).drop_last() =~= records);
}

/// A session is written with its summary first and its messages behind it, all of them in
/// their order.
pub proof fn law_records_hold_the_session(s: SessionView)
    ensures
        s.summary is None ==> records_of(s) == s.history,
        s.summary matches Some(t) ==> records_of(s).len() == s.history.len() + 1 && records_of(s)[0].role
            == "__summary__"@ && records_of(s)[0].text == t && records_of(s).skip(1) == s.history,
{
    if let Some(t) = s.summary {
        assert(records_of(s).skip(1) =~= s.history);
    }
}

/// The record of a summary holds its words and nothing of a message: no moment, no sender
/// and no size.
pub proof fn law_summary_is_no_message(summary: Seq<char>)
    ensures
        summary_record(summary).text == summary,
        summary_record(summary).role == summary_role(),
        summary_record(summary).ts == 0 && summary_record(summary).tokens == 0 && summary_record(summary).sender == 0,
        summary_record(summary).id.len() == 0,
{
}

/// A row is put where it belongs: it is among the rows, these are in the order of their
/// keys, no key twice, and the rows of other sessions are the same as before.
pub proof fn law_row_is_put_in_its_place(before: Seq<RowView>, after: Seq<RowView>, row: RowView, i: int, j: int)
    requires
        is_with_row(before, after, row),
    ensures
        after.contains(row),
        0 <= i < j < after.len() ==> text::precedes(after[i].key, after[j].key),
        0 <= i < before.len() && before[i].key != row.key ==> after.contains(before[i]),
        0 <= i < after.len() && after[i].key != row.key ==> before.contains(after[i]),
{
    if 0 <= i < before.len() && before[i].key != row.key {
        assert(before.contains(before[i]));
    }
    if 0 <= i < after.len() && after[i].key != row.key {
        assert(after.contains(after[i]));
        let r = after[i];
        assert(before.contains(r) <==> after.contains(r));
    }
}

} // verus!
