//! What makes the bot answer.
//!
//! A message is answered where it calls the bot, quotes it, holds a trigger word or is
//! private; where it names the bot; and now and then uncalled. How likely the last is
//! depends on rates that the application keeps; which way a message leans is said here.

use vstd::prelude::*;
use vstd::string::*;
use crate::config::Config;
use crate::napcat::{MsgKind, ParsedMsg};
use crate::text;

verus! {

/// Some entry of a comma separated list stands in the text.
pub open spec fn mentions(s: Seq<char>, list: Seq<char>) -> bool {
    mentions_any(s, text::list_of(list))
}

pub open spec fn mentions_any(s: Seq<char>, entries: Seq<Seq<char>>) -> bool {
    exists|i: int| 0 <= i < entries.len() && text::includes(s, #[trigger] entries[i])
}

/// Whether some entry of a comma separated list stands in the text.
pub fn contains_any(s: &str, list: &str) -> (r: bool)
    ensures
        r == mentions(s@, list@),
{
    let entries = text::list_entries(list);
    let ghost all = text::views(entries@);
    let mut i: usize = 0;
    while i < entries.len()
        invariant
            i <= entries@.len(),
            all == text::views(entries@),
            all == text::list_of(list@),
            forall|k: int| 0 <= k < i ==> !text::includes(s@, #[trigger] all[k]),
        decreases entries@.len() - i,
    {
        if text::contains(s, entries[i].as_str()) {
            assert(text::includes(s@, all[i as int]));
            return true;
        }
        i += 1;
    }
    false
}

/// A message that is always meant for the bot.
pub open spec fn is_passive_hit(cfg: Config, kind: MsgKind, words: Seq<char>, at_me: bool, reply_me: bool) -> bool {
    match kind {
        MsgKind::Private => cfg.chat.enable_private,
        MsgKind::Group => {
            let called = at_me || (cfg.napcat.reply_quoted && reply_me);
            let keyword = mentions(words, cfg.napcat.keyword@);
            cfg.chat.enable_group && if cfg.napcat.group_trigger@ == "at"@ {
                called
            } else if cfg.napcat.group_trigger@ == "keyword"@ {
                keyword
            } else {
                called || keyword
            }
        },
    }
}

/// Whether a message is meant for the bot: private, or by a call, a quotation or a
/// trigger word, as the settings have it.
pub fn passive_hit(cfg: &Config, msg: &ParsedMsg) -> (r: bool)
    ensures
        r == is_passive_hit(*cfg, msg.kind, msg.text@, msg.at_me, msg.reply_me),
{
    match msg.kind {
        MsgKind::Private => cfg.chat.enable_private,
        MsgKind::Group => {
            if !cfg.chat.enable_group {
                return false;
            }
            let keyword = contains_any(msg.text.as_str(), cfg.napcat.keyword.as_str());
            let called = msg.at_me || (cfg.napcat.reply_quoted && msg.reply_me);
            if text::same(cfg.napcat.group_trigger.as_str(), "at") {
                called
            } else if text::same(cfg.napcat.group_trigger.as_str(), "keyword") {
                keyword
            } else {
                called || keyword
            }
        },
    }
}

/// A message that names the bot.
pub open spec fn is_soft_at(cfg: Config, words: Seq<char>) -> bool {
    cfg.chat.interject.soft_at_reply && mentions(words, cfg.chat.interject.names@)
}

/// Whether a message names the bot.
pub fn soft_at_hit(cfg: &Config, words: &str) -> (r: bool)
    ensures
        r == is_soft_at(*cfg, words@),
{
    cfg.chat.interject.soft_at_reply && contains_any(words, cfg.chat.interject.names.as_str())
}

// ---------- empty talk ----------

/// Punctuation marks of Chinese and of full width, the common ranges.
pub open spec fn is_cjk_mark(c: char) -> bool {
    let u = c as u32;
    ||| 0x3000 <= u <= 0x303F
    ||| 0xFF00 <= u <= 0xFFEF
    ||| 0x2018 <= u <= 0x201F
    ||| u == 0x2014
    ||| u == 0x2026
    ||| u == 0x00B7
}

/// The punctuation marks of ASCII.
pub open spec fn is_ascii_mark(c: char) -> bool {
    let u = c as u32;
    ||| 0x21 <= u <= 0x2F
    ||| 0x3A <= u <= 0x40
    ||| 0x5B <= u <= 0x60
    ||| 0x7B <= u <= 0x7E
}

fn is_cjk_punct(c: char) -> (r: bool)
    ensures
        r == is_cjk_mark(c),
{
    let u: u32 = c as u32;
    (0x3000 <= u && u <= 0x303F) || (0xFF00 <= u && u <= 0xFFEF) || (0x2018 <= u && u <= 0x201F)
        || u == 0x2014 || u == 0x2026 || u == 0x00B7
}

fn is_ascii_punct(c: char) -> (r: bool)
    ensures
        r == is_ascii_mark(c),
{
    let u: u32 = c as u32;
    (0x21 <= u && u <= 0x2F) || (0x3A <= u && u <= 0x40) || (0x5B <= u && u <= 0x60) || (0x7B <= u
        && u <= 0x7E)
}

/// The text without white space.
pub open spec fn spaceless(s: Seq<char>) -> Seq<char>
    decreases s.len(),
{
    if s.len() == 0 {
        Seq::<char>::empty()
    } else if text::is_space(s.last()) {
        spaceless(s.drop_last())
    } else {
        spaceless(s.drop_last()).push(s.last())
    }
}

fn without_space(s: &str) -> (r: String)
    ensures
        r@ == spaceless(s@),
{
    let n: usize = s.unicode_len();
    let mut r = String::new();
    let mut i: usize = 0;
    assert(r@ =~= spaceless(s@.take(0)));
    while i < n
        invariant
            i <= n,
            n == s@.len(),
            r@ == spaceless(s@.take(i as int)),
        decreases n - i,
    {
        proof {
            assert(s@.take(i + 1).drop_last() == s@.take(i as int));
            assert(s@.take(i + 1).last() == s@[i as int]);
        }
        let c: char = s.get_char(i);
        if !text::is_whitespace(c) {
            r.push(c);
        }
        i += 1;
    }
    assert(s@.take(n as int) == s@);
    r
}

/// What a message says beyond white space and placeholders.
pub open spec fn gist(s: Seq<char>) -> Seq<char> {
    text::trim_of(
        text::remove_of(
            text::remove_of(text::remove_of(spaceless(text::trim_of(s)), "[表情]"@), "[图片]"@),
            "[戳一戳]"@,
        ),
    )
}

/// Marks and white space only.
pub open spec fn only_marks(s: Seq<char>) -> bool {
    forall|i: int|
        0 <= i < s.len() ==> is_ascii_mark(#[trigger] s[i]) || text::is_space(s[i]) || is_cjk_mark(s[i])
}

/// Empty talk: two characters or less, or nothing but placeholders and marks.
pub open spec fn is_water_of(s: Seq<char>) -> bool {
    text::trim_of(s).len() <= 2 || only_marks(gist(s))
}

/// Whether a message is empty talk.
pub fn is_water(s: &str) -> (r: bool)
    ensures
        r == is_water_of(s@),
{
    let t = text::trim(s);
    if t.unicode_len() <= 2 {
        return true;
    }
    let bare = without_space(t);
    let a = text::remove(bare.as_str(), "[表情]");
    let b = text::remove(a.as_str(), "[图片]");
    let c = text::remove(b.as_str(), "[戳一戳]");
    let left = text::trim(c.as_str());
    let n: usize = left.unicode_len();
    let mut i: usize = 0;
    while i < n
        invariant
            i <= n,
            n == left@.len(),
            left@ == gist(s@),
            text::trim_of(s@).len() > 2,
            forall|k: int|
                0 <= k < i ==> is_ascii_mark(#[trigger] left@[k]) || text::is_space(left@[k])
                    || is_cjk_mark(left@[k]),
        decreases n - i,
    {
        let ch: char = left.get_char(i);
        if !(is_ascii_punct(ch) || text::is_whitespace(ch) || is_cjk_punct(ch)) {
            return false;
        }
        i += 1;
    }
    true
}

/// Whether a message invites an interjection.
pub fn hook_hit(cfg: &Config, words: &str) -> (r: bool)
    ensures
        r == mentions(words@, cfg.chat.interject.hooks@),
{
    contains_any(words, cfg.chat.interject.hooks.as_str())
}

/// Which way a message leans when it comes to joining in.
#[derive(Debug, Clone, Copy, PartialEq, Eq, Structural)]
pub enum Lean {
    /// Joining in is switched off.
    Never,
    /// Empty talk: less likely.
    Water,
    /// An invitation: more likely.
    Hook,
    Plain,
}

pub open spec fn lean_of(cfg: Config, words: Seq<char>) -> Lean {
    if !cfg.chat.interject.enabled {
        Lean::Never
    } else if is_water_of(words) {
        Lean::Water
    } else if mentions(words, cfg.chat.interject.hooks@) {
        Lean::Hook
    } else {
        Lean::Plain
    }
}

/// Which way a message leans.
pub fn lean(cfg: &Config, words: &str) -> (r: Lean)
    ensures
        r == lean_of(*cfg, words@),
{
    if !cfg.chat.interject.enabled {
        Lean::Never
    } else if is_water(words) {
        Lean::Water
    } else if hook_hit(cfg, words) {
        Lean::Hook
    } else {
        Lean::Plain
    }
}

// ---------- prefixes ----------

/// The first of some entries that the text begins with, from position `i` on.
pub open spec fn leading_from(s: Seq<char>, entries: Seq<Seq<char>>, i: int) -> Option<int>
    decreases entries.len() - i,
{
    if i < 0 || i >= entries.len() {
        None
    } else if text::begins(s, entries[i]) {
        Some(i)
    } else {
        leading_from(s, entries, i + 1)
    }
}

/// The text without the first trigger word that it begins with, and without the white
/// space behind it.
pub open spec fn strip_keyword_of(s: Seq<char>, kw: Seq<char>) -> Seq<char> {
    let entries = text::list_of(kw);
    match leading_from(s, entries, 0) {
        Some(i) => text::trim_start_of(s.skip(entries[i].len() as int)),
        None => s,
    }
}

pub fn strip_keyword<'a>(s: &'a str, kw: &str) -> (r: &'a str)
    ensures
        r@ == strip_keyword_of(s@, kw@),
{
    let entries = text::list_entries(kw);
    let ghost all = text::views(entries@);
    let mut i: usize = 0;
    while i < entries.len()
        invariant
            i <= entries@.len(),
            all == text::views(entries@),
            all == text::list_of(kw@),
            leading_from(s@, all, 0) == leading_from(s@, all, i as int),
        decreases entries@.len() - i,
    {
        assert(all[i as int] == entries@[i as int]@);
        if let Some(rest) = text::strip_prefix(s, entries[i].as_str()) {
            return text::trim_start(rest);
        }
        i += 1;
    }
    s
}

/// The text behind the placeholder of a quotation that it begins with.
pub open spec fn strip_quote_of(s: Seq<char>) -> Seq<char> {
    if text::begins(s, "[引用"@) {
        match text::find_char_of(s, ']') {
            Some(i) => text::trim_start_of(s.skip(i + 1)),
            None => s,
        }
    } else {
        s
    }
}

pub fn strip_quote_prefix(s: &str) -> (r: &str)
    ensures
        r@ == strip_quote_of(s@),
{
    if !text::starts_with(s, "[引用") {
        return s;
    }
    match text::find_char(s, ']') {
        Some(i) => {
            let n: usize = s.unicode_len();
            let rest = s.substring_char(i + 1, n);
            assert(rest@ == s@.skip(i + 1));
            text::trim_start(rest)
        },
        None => s,
    }
}

/// The text begins, behind a quotation, with one of the listed prefixes.
pub open spec fn is_ignored(prefixes: Seq<char>, s: Seq<char>) -> bool {
    leading_from(strip_quote_of(text::trim_of(s)), text::list_of(prefixes), 0) is Some
}

/// Whether a message is not to be looked at, for the way it begins.
pub fn ignore_prefix_hit(prefixes: &str, s: &str) -> (r: bool)
    ensures
        r == is_ignored(prefixes@, s@),
{
    let t = strip_quote_prefix(text::trim(s));
    let entries = text::list_entries(prefixes);
    let ghost all = text::views(entries@);
    let mut i: usize = 0;
    while i < entries.len()
        invariant
            i <= entries@.len(),
            all == text::views(entries@),
            all == text::list_of(prefixes@),
            t@ == strip_quote_of(text::trim_of(s@)),
            leading_from(t@, all, 0) == leading_from(t@, all, i as int),
        decreases entries@.len() - i,
    {
        assert(all[i as int] == entries@[i as int]@);
        if text::starts_with(t, entries[i].as_str()) {
            return true;
        }
        i += 1;
    }
    false
}

// ---------- laws ----------

/// An empty list triggers nothing.
pub proof fn law_empty_list_never_hits(s: Seq<char>, list: Seq<char>)
    requires
        text::list_of(list).len() == 0,
    ensures
        !mentions(s, list),
        strip_keyword_of(s, list) == s,
{
}

/// In a group that is switched off nothing is meant for the bot, however it is called.
pub proof fn law_group_switch(cfg: Config, words: Seq<char>, at_me: bool, reply_me: bool)
    requires
        !cfg.chat.enable_group,
    ensures
        !is_passive_hit(cfg, MsgKind::Group, words, at_me, reply_me),
{
}

/// With the trigger set to calls alone, words do not trigger.
pub proof fn law_at_only(cfg: Config, words: Seq<char>, reply_me: bool)
    requires
        cfg.napcat.group_trigger@ == "at"@,
        !cfg.napcat.reply_quoted,
    ensures
        !is_passive_hit(cfg, MsgKind::Group, words, false, reply_me),
{
}

/// A text mentions a list exactly where one of its entries, trimmed and not empty, stands
/// in it.
pub proof fn law_mention_is_of_an_entry(s: Seq<char>, list: Seq<char>, i: int)
    ensures
        0 <= i < text::split_of(list, ',').len() && text::trim_of(text::split_of(list, ',')[i]).len() > 0
            && text::includes(s, text::trim_of(text::split_of(list, ',')[i])) ==> mentions(s, list),
        mentions(s, list) ==> exists|k: int|
            0 <= k < text::split_of(list, ',').len() && text::includes(
                s,
                text::trim_of(#[trigger] text::split_of(list, ',')[k]),
            ) && text::trim_of(text::split_of(list, ',')[k]).len() > 0,
{
    let parts = text::split_of(list, ',');
    lemma_entries(parts);
    if 0 <= i < parts.len() && text::trim_of(parts[i]).len() > 0 && text::includes(s, text::trim_of(parts[i])) {
        assert(text::kept_entries(parts).contains(text::trim_of(parts[i])));
    }
    if mentions(s, list) {
        let j = choose|j: int|
            0 <= j < text::list_of(list).len() && text::includes(s, #[trigger] text::list_of(list)[j]);
        assert(text::kept_entries(parts)[j] == text::list_of(list)[j]);
    }
}

proof fn lemma_entries(parts: Seq<Seq<char>>)
    ensures
        forall|i: int|
            0 <= i < parts.len() && text::trim_of(#[trigger] parts[i]).len() > 0 ==> text::kept_entries(
                parts,
            ).contains(text::trim_of(parts[i])),
        forall|j: int|
            0 <= j < text::kept_entries(parts).len() ==> exists|k: int|
                0 <= k < parts.len() && text::trim_of(#[trigger] parts[k]) == (#[trigger] text::kept_entries(
                    parts,
                )[j]) && text::trim_of(parts[k]).len() > 0,
    decreases parts.len(),
{
    if parts.len() > 0 {
        let init = parts.drop_last();
        lemma_entries(init);
        let before = text::kept_entries(init);
        let all = text::kept_entries(parts);
        assert forall|i: int|
            0 <= i < parts.len() && text::trim_of(#[trigger] parts[i]).len() > 0 implies all.contains(
            text::trim_of(parts[i]),
        ) by {
            if i < init.len() {
                assert(init[i] == parts[i]);
                let k = choose|k: int| 0 <= k < before.len() && before[k] == text::trim_of(parts[i]);
                assert(all[k] == before[k]);
            } else {
                assert(all[all.len() - 1] == text::trim_of(parts[i]));
            }
        }
        assert forall|j: int| 0 <= j < all.len() implies exists|k: int|
            0 <= k < parts.len() && text::trim_of(#[trigger] parts[k]) == (#[trigger] all[j]) && text::trim_of(
                parts[k],
            ).len() > 0 by {
            if j < before.len() {
                assert(all[j] == before[j]);
                let k = choose|k: int|
                    0 <= k < init.len() && text::trim_of(#[trigger] init[k]) == before[j] && text::trim_of(
                        init[k],
                    ).len() > 0;
                assert(parts[k] == init[k]);
            } else {
                assert(parts[parts.len() - 1] == parts.last());
            }
        }
    }
}

/// What is meant for the bot goes by the settings: a private message where these are on; in
/// a group that is on, a call, a quotation where that counts, or a trigger word, as far as
/// the group's trigger lets them.
pub proof fn law_meant_for_the_bot(cfg: Config, words: Seq<char>, at_me: bool, reply_me: bool)
    ensures
        is_passive_hit(cfg, MsgKind::Private, words, at_me, reply_me) <==> cfg.chat.enable_private,
        cfg.chat.enable_group && cfg.napcat.group_trigger@ != "keyword"@ && at_me ==> is_passive_hit(
            cfg,
            MsgKind::Group,
            words,
            at_me,
            reply_me,
        ),
        cfg.chat.enable_group && cfg.napcat.group_trigger@ != "keyword"@ && reply_me && cfg.napcat.reply_quoted
            ==> is_passive_hit(cfg, MsgKind::Group, words, at_me, reply_me),
        cfg.chat.enable_group && cfg.napcat.group_trigger@ != "at"@ && mentions(words, cfg.napcat.keyword@)
            ==> is_passive_hit(cfg, MsgKind::Group, words, at_me, reply_me),
        is_passive_hit(cfg, MsgKind::Group, words, at_me, reply_me) ==> at_me || (reply_me && cfg.napcat.reply_quoted)
            || mentions(words, cfg.napcat.keyword@),
        cfg.napcat.group_trigger@ == "keyword"@ && is_passive_hit(cfg, MsgKind::Group, words, at_me, reply_me)
            ==> mentions(words, cfg.napcat.keyword@),
        is_soft_at(cfg, words) <==> cfg.chat.interject.soft_at_reply && mentions(words, cfg.chat.interject.names@),
{
    reveal_strlit("at");
    reveal_strlit("keyword");
    assert("at"@.len() == 2 && "keyword"@.len() == 7);
}

/// A trigger word in front is taken off with the white space behind it, and nothing else
/// is; what begins with no trigger word stays as it is.
pub proof fn law_trigger_word_is_taken_off(s: Seq<char>, kw: Seq<char>)
    ensures
        ({
            let entries = text::list_of(kw);
            let t = strip_keyword_of(s, kw);
            ||| t == s && forall|i: int|
                0 <= i < entries.len() ==> !text::begins(s, #[trigger] entries[i])
            ||| exists|i: int|
                0 <= i < entries.len() && text::begins(s, #[trigger] entries[i]) && t == text::trim_start_of(
                    s.skip(entries[i].len() as int),
                ) && forall|k: int| 0 <= k < i ==> !text::begins(s, #[trigger] entries[k])
        }),
{
    lemma_leading(s, text::list_of(kw), 0);
}

proof fn lemma_leading(s: Seq<char>, entries: Seq<Seq<char>>, from: int)
    requires
        0 <= from <= entries.len(),
    ensures
        match leading_from(s, entries, from) {
            Some(i) => from <= i < entries.len() && text::begins(s, entries[i]) && forall|k: int|
                from <= k < i ==> !text::begins(s, #[trigger] entries[k]),
            None => forall|k: int| from <= k < entries.len() ==> !text::begins(s, #[trigger] entries[k]),
        },
    decreases entries.len() - from,
{
    if from < entries.len() && !text::begins(s, entries[from]) {
        lemma_leading(s, entries, from + 1);
    }
}

/// A message is hidden exactly where it begins, behind a quotation, with an entry of the
/// list.
pub proof fn law_hidden_by_its_beginning(prefixes: Seq<char>, s: Seq<char>)
    ensures
        is_ignored(prefixes, s) <==> exists|i: int|
            0 <= i < text::list_of(prefixes).len() && text::begins(
                strip_quote_of(text::trim_of(s)),
                #[trigger] text::list_of(prefixes)[i],
            ),
{
    lemma_leading(strip_quote_of(text::trim_of(s)), text::list_of(prefixes), 0);
    if let Some(i) = leading_from(strip_quote_of(text::trim_of(s)), text::list_of(prefixes), 0) {
        assert(text::begins(strip_quote_of(text::trim_of(s)), text::list_of(prefixes)[i]));
    }
}

/// The mark of a quotation in front is taken off, and only that: a text that begins with
/// none stays as it is.
pub proof fn law_quotation_is_taken_off(inside: Seq<char>, rest: Seq<char>, s: Seq<char>)
    requires
        forall|i: int| 0 <= i < inside.len() ==> #[trigger] inside[i] != ']',
    ensures
        strip_quote_of("[引用"@ + inside + seq![']'] + rest) == text::trim_start_of(rest),
        !text::begins(s, "[引用"@) ==> strip_quote_of(s) == s,
{
    reveal_strlit("[引用");
    let q = "[引用"@;
    let whole = q + inside + seq![']'] + rest;
    assert(whole.take(3) =~= q);
    text::lemma_char_from(whole, ']', 0);
    let end = 3 + inside.len() as int;
    assert(whole[end] == ']');
    let i = text::find_char_of(whole, ']')->0;
    assert(i == end) by {
        if i < end {
            if i < 3 {
                assert(whole[i] == q[i]);
            } else {
                assert(whole[i] == inside[i - 3]);
            }
        }
    }
    assert(whole.skip(end + 1) =~= rest);
}

/// Empty talk is a message of two characters at most, or one that has nothing but marks
/// beside its placeholders; any letter or Chinese character among what is left makes it
/// more than that.
pub proof fn law_empty_talk(s: Seq<char>, i: int)
    ensures
        text::trim_of(s).len() <= 2 ==> is_water_of(s),
        text::trim_of(s).len() > 2 && 0 <= i < gist(s).len() && ('a' <= gist(s)[i] <= 'z' || 'A' <= gist(s)[i] <= 'Z'
            || '0' <= gist(s)[i] <= '9' || '\u{4e00}' <= gist(s)[i] <= '\u{9fff}') ==> !is_water_of(s),
        text::trim_of(s).len() > 2 && gist(s).len() == 0 ==> is_water_of(s),
        is_ascii_mark('!') && is_ascii_mark('?') && is_ascii_mark('~') && is_cjk_mark('\u{3002}') && is_cjk_mark(
            '\u{ff01}',
        ) && is_cjk_mark('\u{2026}'),
{
    if 0 <= i < gist(s).len() {
        let c = gist(s)[i];
        if ('a' <= c <= 'z' || 'A' <= c <= 'Z' || '0' <= c <= '9' || '\u{4e00}' <= c <= '\u{9fff}') {
            assert(!is_ascii_mark(c) && !text::is_space(c) && !is_cjk_mark(c));
            assert(!only_marks(gist(s)));
        }
    }
}

/// Joining in leans by what is said: never where it is off, less to empty talk, more to an
/// invitation that is none.
pub proof fn law_lean_goes_by_what_is_said(cfg: Config, words: Seq<char>)
    ensures
        lean_of(cfg, words) is Never <==> !cfg.chat.interject.enabled,
        cfg.chat.interject.enabled ==> (lean_of(cfg, words) is Water <==> is_water_of(words)),
        cfg.chat.interject.enabled && !is_water_of(words) ==> (lean_of(cfg, words) is Hook <==> mentions(
            words,
            cfg.chat.interject.hooks@,
        )),
{
}

/// White space does not count: what is left has none of it, and every other character in
/// its order.
pub proof fn law_white_space_does_not_count(s: Seq<char>, c: char)
    ensures
        spaceless(Seq::<char>::empty()).len() == 0,
        text::is_space(c) ==> spaceless(s.push(c)) == spaceless(s),
        !text::is_space(c) ==> spaceless(s.push(c)) == spaceless(s).push(c),
{
    assert(s.push(c).drop_last() =~= s);
}

/// Punctuation is what has no words in it: the marks of ASCII, of Chinese and of full
/// width, quotation marks, dashes and dots.
pub proof fn law_marks_are_marks(c: char)
    ensures
        '\u{3000}' <= c <= '\u{303f}' || '\u{ff00}' <= c <= '\u{ffef}' || '\u{2018}' <= c <= '\u{201f}' || c == '\u{2014}'
            || c == '\u{2026}' || c == '\u{b7}' <==> is_cjk_mark(c),
        '!' <= c <= '/' || ':' <= c <= '@' || '[' <= c <= '`' || '{' <= c <= '~' <==> is_ascii_mark(c),
        'a' <= c <= 'z' || 'A' <= c <= 'Z' || '0' <= c <= '9' ==> !is_ascii_mark(c) && !is_cjk_mark(c),
{
}

} // verus!
