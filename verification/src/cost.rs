//! What the model calls of a day add up to.
//!
//! Prices are not whole numbers; what the tokens cost is worked out by the application.

use vstd::prelude::*;
use vstd::string::*;
use crate::clock;
use crate::lists;
use crate::llm::Usage;
use crate::text;

verus! {

/// One call of a model.
#[derive(Debug, Clone)]
pub struct UsageRecord {
    pub ts: i64,
    pub model: String,
    /// `dialogue`, `decide`, `summarize` or `interject`.
    pub category: String,
    pub prompt: u64,
    pub cache_hit: u64,
    pub cache_miss: u64,
    pub completion: u64,
    pub reasoning: u64,
}

impl UsageRecord {
    /// The record of a call.
    pub fn of(ts: i64, model: &str, category: &str, usage: &Usage) -> (r: UsageRecord)
        ensures
            r.ts == ts,
            r.model@ == model@,
            r.category@ == category@,
            r.prompt == usage.prompt_tokens,
            r.cache_hit == usage.cache_hit,
            r.cache_miss == usage.cache_miss,
            r.completion == usage.completion_tokens,
            r.reasoning == usage.reasoning_tokens,
    {
        UsageRecord {
            ts,
            model: model.to_owned(),
            category: category.to_owned(),
            prompt: usage.prompt_tokens,
            cache_hit: usage.cache_hit,
            cache_miss: usage.cache_miss,
            completion: usage.completion_tokens,
            reasoning: usage.reasoning_tokens,
        }
    }
}

/// Calls and tokens added up, as far as 64 bits hold them.
#[derive(Debug, Clone, Copy, PartialEq, Eq, Structural)]
pub struct CostSummary {
    pub calls: u64,
    pub prompt: u64,
    pub cache_hit: u64,
    pub cache_miss: u64,
    pub completion: u64,
    pub reasoning: u64,
}

/// The summary of one category.
#[derive(Debug, Clone)]
pub struct CategorySummary {
    pub category: String,
    pub sum: CostSummary,
}

pub open spec fn nothing() -> CostSummary {
    CostSummary {
        calls: 0,
        prompt: 0,
        cache_hit: 0,
        cache_miss: 0,
        completion: 0,
        reasoning: 0,
    }
}

impl Default for CostSummary {
    fn default() -> (r: CostSummary)
        ensures
            r == nothing(),
    {
        CostSummary {
            calls: 0,
            prompt: 0,
            cache_hit: 0,
            cache_miss: 0,
            completion: 0,
            reasoning: 0,
        }
    }
}

pub open spec fn plus(a: u64, b: u64) -> u64 {
    lists::capped(a + b, u64::MAX as int) as u64
}

fn sum_up(a: u64, b: u64) -> (r: u64)
    ensures
        r == plus(a, b),
{
    if a > u64::MAX - b {
        u64::MAX
    } else {
        a + b
    }
}

/// A summary with one call more.
pub open spec fn with_call(s: CostSummary, r: UsageRecord) -> CostSummary {
    CostSummary {
        calls: plus(s.calls, 1),
        prompt: plus(s.prompt, r.prompt),
        cache_hit: plus(s.cache_hit, r.cache_hit),
        cache_miss: plus(s.cache_miss, r.cache_miss),
        completion: plus(s.completion, r.completion),
        reasoning: plus(s.reasoning, r.reasoning),
    }
}

fn add_call(s: CostSummary, r: &UsageRecord) -> (t: CostSummary)
    ensures
        t == with_call(s, *r),
{
    CostSummary {
        calls: sum_up(s.calls, 1),
        prompt: sum_up(s.prompt, r.prompt),
        cache_hit: sum_up(s.cache_hit, r.cache_hit),
        cache_miss: sum_up(s.cache_miss, r.cache_miss),
        completion: sum_up(s.completion, r.completion),
        reasoning: sum_up(s.reasoning, r.reasoning),
    }
}

/// All calls added up.
pub open spec fn folded(records: Seq<UsageRecord>) -> CostSummary
    decreases records.len(),
{
    if records.len() == 0 {
        nothing()
    } else {
        with_call(folded(records.drop_last()), records.last())
    }
}

/// The calls of one category added up.
pub open spec fn folded_in(records: Seq<UsageRecord>, category: Seq<char>) -> CostSummary
    decreases records.len(),
{
    if records.len() == 0 {
        nothing()
    } else {
        let s = folded_in(records.drop_last(), category);
        if records.last().category@ == category {
            with_call(s, records.last())
        } else {
            s
        }
    }
}

/// The categories, in the order in which they are shown.
pub open spec fn categories() -> Seq<Seq<char>> {
    seq!["dialogue"@, "decide"@, "summarize"@, "interject"@]
}

/// The summaries of the first `n` categories, those without calls left out.
pub open spec fn by_category_of(records: Seq<UsageRecord>, n: int) -> Seq<(Seq<char>, CostSummary)>
    decreases n,
{
    if n <= 0 {
        Seq::<(Seq<char>, CostSummary)>::empty()
    } else {
        let c = categories()[n - 1];
        let s = folded_in(records, c);
        if s.calls > 0 {
            by_category_of(records, n - 1).push((c, s))
        } else {
            by_category_of(records, n - 1)
        }
    }
}

pub open spec fn category_views(v: Seq<CategorySummary>) -> Seq<(Seq<char>, CostSummary)> {
    v.map_values(|c: CategorySummary| (c.category@, c.sum))
}

/// `s` is the day of the moment `t`, `YYYY-MM-DD`; a year of other than four figures is
/// longer, and only what stands behind it is fixed.
pub open spec fn is_day_at(s: Seq<char>, t: int) -> bool {
    if 0 <= clock::year_of(t) <= 9999 {
        s == clock::day_of(t)
    } else {
        s.len() > 10 && s.skip(s.len() - 6) == seq!['-'] + clock::month_day_of(t)
    }
}

/// `chrono::Local::now` and its `format("%Y-%m-%d")`: the present day, which is one of the
/// calendar. Which one depends on the moment and on the machine's time zone.
#[verifier::external_body]
fn local_day() -> (r: String)
    ensures
        exists|t: int| #[trigger] is_day_at(r@, t),
{
    chrono::Local::now().format("%Y-%m-%d").to_string()
}

/// The name of the present day.
pub fn today() -> (r: String)
    ensures
        exists|t: int| #[trigger] is_day_at(r@, t),
{
    local_day()
}

/// The calls of one day.
pub struct CostTracker {
    pub day: String,
    pub records: Vec<UsageRecord>,
}

impl CostTracker {
    /// The calls of a day, as they were read from its file.
    pub fn new(day: String, records: Vec<UsageRecord>) -> (r: CostTracker)
        ensures
            r.day == day,
            r.records == records,
    {
        CostTracker { day, records }
    }

    /// Whether a day is another than the one kept, so that its file has to be read.
    pub fn is_new_day(&self, day: &str) -> (r: bool)
        ensures
            r == (day@ != self.day@),
    {
        !text::same(day, self.day.as_str())
    }

    /// Goes over to another day with what is known of it.
    pub fn turn_to(&mut self, day: String, records: Vec<UsageRecord>)
        ensures
            final(self).day == day,
            final(self).records == records,
    {
        self.day = day;
        self.records = records;
    }

    /// Adds a call of the day kept.
    pub fn record(&mut self, r: UsageRecord)
        ensures
            final(self).records@ == old(self).records@.push(r),
            final(self).day == old(self).day,
    {
        self.records.push(r);
    }

    /// All calls of the day.
    pub fn today(&self) -> (r: CostSummary)
        ensures
            r == folded(self.records@),
    {
        let mut s = CostSummary::default();
        let mut i: usize = 0;
        while i < self.records.len()
            invariant
                i <= self.records@.len(),
                s == folded(self.records@.take(i as int)),
            decreases self.records@.len() - i,
        {
            assert(self.records@.take(i + 1).drop_last() == self.records@.take(i as int));
            s = add_call(s, &self.records[i]);
            i += 1;
        }
        assert(self.records@.take(self.records@.len() as int) == self.records@);
        s
    }

    fn in_category(&self, category: &str) -> (r: CostSummary)
        ensures
            r == folded_in(self.records@, category@),
    {
        let mut s = CostSummary::default();
        let mut i: usize = 0;
        while i < self.records.len()
            invariant
                i <= self.records@.len(),
                s == folded_in(self.records@.take(i as int), category@),
            decreases self.records@.len() - i,
        {
            assert(self.records@.take(i + 1).drop_last() == self.records@.take(i as int));
            assert(self.records@.take(i + 1).last() == self.records@[i as int]);
            if text::same(self.records[i].category.as_str(), category) {
                s = add_call(s, &self.records[i]);
            }
            i += 1;
        }
        assert(self.records@.take(self.records@.len() as int) == self.records@);
        s
    }

    /// The calls of the day by category, categories without calls left out.
    pub fn by_category(&self) -> (r: Vec<CategorySummary>)
        ensures
            category_views(r@) == by_category_of(self.records@, 4),
    {
        let names: Vec<&str> = vec!["dialogue", "decide", "summarize", "interject"];
        let mut r: Vec<CategorySummary> = Vec::new();
        let mut i: usize = 0;
        assert(category_views(r@) =~= by_category_of(self.records@, 0));
        while i < names.len()
            invariant
                i <= names@.len(),
                names@.len() == 4,
                forall|k: int| 0 <= k < 4 ==> (#[trigger] names@[k])@ == categories()[k],
                category_views(r@) == by_category_of(self.records@, i as int),
            decreases names@.len() - i,
        {
            let s = self.in_category(names[i]);
            if s.calls > 0 {
                let ghost before = r@;
                let c = CategorySummary { category: names[i].to_owned(), sum: s };
                r.push(c);
                assert(category_views(r@) =~= category_views(before).push((c.category@, c.sum)));
            }
            i += 1;
        }
        r
    }
}

// ---------- laws ----------

/// A category is in the list exactly if a call of it was recorded.
pub proof fn law_category_shown_iff_called(records: Seq<UsageRecord>, category: Seq<char>)
    ensures
        folded_in(records, category).calls > 0 <==> exists|i: int|
            0 <= i < records.len() && (#[trigger] records[i]).category@ == category,
    decreases records.len(),
{
    if records.len() > 0 {
        let init = records.drop_last();
        law_category_shown_iff_called(init, category);
        if folded_in(init, category).calls > 0 {
            let i = choose|i: int| 0 <= i < init.len() && (#[trigger] init[i]).category@ == category;
            assert(records[i].category@ == category);
        }
        assert forall|i: int| 0 <= i < records.len() && (#[trigger] records[i]).category@ == category
            implies folded_in(records, category).calls > 0 by {
            if i < init.len() {
                assert(init[i] == records[i]);
            }
        }
        assert(records.last() == records[records.len() - 1]);
    }
}

/// A call is counted with what it took: each count grows by that of the call, as far as it
/// can be held, and none by that of another.
pub proof fn law_call_is_counted(s: CostSummary, r: UsageRecord)
    ensures
        ({
            let t = with_call(s, r);
            &&& s.calls < u64::MAX ==> t.calls == s.calls + 1
            &&& s.prompt + r.prompt <= u64::MAX ==> t.prompt == s.prompt + r.prompt
            &&& s.cache_hit + r.cache_hit <= u64::MAX ==> t.cache_hit == s.cache_hit + r.cache_hit
            &&& s.cache_miss + r.cache_miss <= u64::MAX ==> t.cache_miss == s.cache_miss + r.cache_miss
            &&& s.completion + r.completion <= u64::MAX ==> t.completion == s.completion + r.completion
            &&& s.reasoning + r.reasoning <= u64::MAX ==> t.reasoning == s.reasoning + r.reasoning
        }),
        nothing().calls == 0 && nothing().prompt == 0 && nothing().cache_hit == 0 && nothing().cache_miss == 0
            && nothing().completion == 0 && nothing().reasoning == 0,
        forall|a: u64, b: u64| a + b > u64::MAX ==> #[trigger] plus(a, b) == u64::MAX,
{
}

/// The calls of a day add up one by one, all of them in the total and each in its own
/// category and no other.
pub proof fn law_calls_add_up(records: Seq<UsageRecord>, r: UsageRecord, category: Seq<char>)
    ensures
        folded(Seq::<UsageRecord>::empty()) == nothing(),
        folded(records.push(r)) == with_call(folded(records), r),
        folded_in(Seq::<UsageRecord>::empty(), category) == nothing(),
        r.category@ == category ==> folded_in(records.push(r), category) == with_call(
            folded_in(records, category),
            r,
        ),
        r.category@ != category ==> folded_in(records.push(r), category) == folded_in(records, category),
{
    assert(records.push(r).drop_last() =~= records);
}

/// The list by category has every category that was called, under its own name and with
/// its own sum, in the order of the categories.
pub proof fn law_categories_are_listed(records: Seq<UsageRecord>, i: int, n: int)
    requires
        0 <= i < n <= 4,
        folded_in(records, categories()[i]).calls > 0,
    ensures
        by_category_of(records, n).contains((categories()[i], folded_in(records, categories()[i]))),
        categories().len() == 4,
    decreases n,
{
    let c = categories()[i];
    let x = (c, folded_in(records, c));
    if i == n - 1 {
        let l = by_category_of(records, n);
        assert(l[l.len() - 1] == x);
    } else {
        law_categories_are_listed(records, i, n - 1);
        let before = by_category_of(records, n - 1);
        let k = choose|k: int| 0 <= k < before.len() && before[k] == x;
        assert(by_category_of(records, n)[k] == x);
    }
}

/// There are four categories, and no two are the same.
pub proof fn law_categories_differ()
    ensures
        categories().len() == 4,
        categories().no_duplicates(),
        categories().contains("dialogue"@) && categories().contains("decide"@) && categories().contains("summarize"@)
            && categories().contains("interject"@),
{
    reveal_strlit("dialogue");
    reveal_strlit("decide");
    reveal_strlit("summarize");
    reveal_strlit("interject");
    let c = categories();
    assert(c[0] == "dialogue"@ && c[1] == "decide"@ && c[2] == "summarize"@ && c[3] == "interject"@);
    assert("dialogue"@.len() == 8 && "decide"@.len() == 6 && "summarize"@.len() == 9 && "interject"@.len() == 9);
    assert("summarize"@[0] == 's' && "interject"@[0] == 'i');
}

} // verus!
