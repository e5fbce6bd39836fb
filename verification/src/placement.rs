//! Where the memory stands in a request, and when that is to change.
//!
//! Standing behind the history, the memory misses the prefix cache in every round;
//! standing before it, only when it changes or the history is folded. Which is cheaper
//! is a matter of prices and is worked out by the application. What is here keeps the
//! proposals steady: only a verdict that holds several times in a row becomes one, and
//! after a decision there is a pause.

use vstd::prelude::*;
use vstd::string::*;
use crate::text;

verus! {

/// After how many conversations the placement is looked at.
pub const EVAL_EVERY: u64 = 5;

/// How many verdicts in a row make a proposal.
pub const STREAK_NEEDED: u32 = 4;

/// Over how many rounds a change has to pay.
pub const HORIZON: u64 = 120;

/// How long there is no proposal after a decision, in seconds.
pub const SWITCH_COOLDOWN_SECS: i64 = 86400;

#[derive(Debug, Clone, Copy, PartialEq, Eq, Structural)]
pub enum Scheme {
    /// History, memory, question.
    One,
    /// Summary, memory, recent history, question.
    Two,
}

impl Scheme {
    pub open spec fn placed(p: Seq<char>) -> Scheme {
        if p == "front"@ {
            Scheme::Two
        } else {
            Scheme::One
        }
    }

    /// The scheme that a setting stands for.
    pub fn from_placement(p: &str) -> (r: Scheme)
        ensures
            r == Scheme::placed(p@),
    {
        if text::same(p, "front") {
            Scheme::Two
        } else {
            Scheme::One
        }
    }

    pub open spec fn placement_of(self) -> Seq<char> {
        match self {
            Scheme::One => "back"@,
            Scheme::Two => "front"@,
        }
    }

    /// The setting of the scheme.
    pub fn as_placement(&self) -> (r: &'static str)
        ensures
            r@ == self.placement_of(),
    {
        match self {
            Scheme::One => "back",
            Scheme::Two => "front",
        }
    }

    pub open spec fn name_of(self) -> Seq<char> {
        match self {
            Scheme::One => "方案一(历史→记忆→提问)"@,
            Scheme::Two => "方案二(摘要→记忆→新历史→提问)"@,
        }
    }

    pub fn name(&self) -> (r: &'static str)
        ensures
            r@ == self.name_of(),
    {
        match self {
            Scheme::One => "方案一(历史→记忆→提问)",
            Scheme::Two => "方案二(摘要→记忆→新历史→提问)",
        }
    }

    pub open spec fn other_of(self) -> Scheme {
        match self {
            Scheme::One => Scheme::Two,
            Scheme::Two => Scheme::One,
        }
    }

    /// The other scheme.
    pub fn other(&self) -> (r: Scheme)
        ensures
            r == self.other_of(),
    {
        match self {
            Scheme::One => Scheme::Two,
            Scheme::Two => Scheme::One,
        }
    }
}

/// A change that waits for approval.
#[derive(Debug, Clone, Copy, PartialEq, Eq, Structural)]
pub struct Proposal {
    pub from: Scheme,
    pub to: Scheme,
}

/// What is observed and proposed.
#[derive(Debug, Clone, Copy, PartialEq, Eq, Structural)]
pub struct PlacementController {
    pub pending: Option<Proposal>,
    /// No proposal before this moment.
    pub cooldown_until: i64,
    /// Conversations since the last look.
    pub rounds_in_window: u64,
    /// Those of them that changed the memory.
    pub changed_in_window: u64,
    /// How many verdicts in a row agree.
    pub streak: u32,
    /// What they agree on.
    pub last_target: Option<Scheme>,
    /// How many changes of the memory were counted so far.
    pub mem_changes: u64,
}

pub open spec fn unobserved() -> PlacementController {
    PlacementController {
        pending: None,
        cooldown_until: 0,
        rounds_in_window: 0,
        changed_in_window: 0,
        streak: 0,
        last_target: None,
        mem_changes: 0,
    }
}

impl Default for PlacementController {
    fn default() -> (r: PlacementController)
        ensures
            r == unobserved(),
    {
        PlacementController {
            pending: None,
            cooldown_until: 0,
            rounds_in_window: 0,
            changed_in_window: 0,
            streak: 0,
            last_target: None,
            mem_changes: 0,
        }
    }
}

/// One more, as far as 64 bits hold it.
pub open spec fn one_more(n: u64) -> u64 {
    if n < u64::MAX {
        (n + 1) as u64
    } else {
        n
    }
}

fn count_up(n: u64) -> (r: u64)
    ensures
        r == one_more(n),
{
    if n < u64::MAX {
        n + 1
    } else {
        n
    }
}

/// A round observed.
pub open spec fn fed(c: PlacementController, mem_changed: bool) -> PlacementController {
    PlacementController {
        rounds_in_window: one_more(c.rounds_in_window),
        changed_in_window: if mem_changed {
            one_more(c.changed_in_window)
        } else {
            c.changed_in_window
        },
        ..c
    }
}

/// Whether a look at the placement means anything at a moment.
pub open spec fn is_open(c: PlacementController, now: i64) -> bool {
    now >= c.cooldown_until && c.pending is None
}

/// The verdicts in a row after one more.
pub open spec fn streak_of(c: PlacementController, target: Option<Scheme>) -> u32 {
    match target {
        None => 0,
        Some(t) => if c.last_target == Some(t) {
            if c.streak < u32::MAX {
                (c.streak + 1) as u32
            } else {
                c.streak
            }
        } else {
            1
        },
    }
}

/// A look at the placement, `worth` saying whether a change would pay: the state after
/// it, and the proposal that it makes.
pub open spec fn evaluated(c: PlacementController, worth: bool, current: Scheme, now: i64) -> (
    PlacementController,
    Option<Proposal>,
) {
    if !is_open(c, now) {
        (c, None)
    } else {
        let target = if worth {
            Some(current.other_of())
        } else {
            None
        };
        let streak = streak_of(c, target);
        let looked = PlacementController {
            rounds_in_window: 0,
            changed_in_window: 0,
            last_target: target,
            streak,
            ..c
        };
        if worth && streak >= STREAK_NEEDED {
            let p = Proposal { from: current, to: current.other_of() };
            (PlacementController { streak: 0, pending: Some(p), ..looked }, Some(p))
        } else {
            (looked, None)
        }
    }
}

/// A moment some seconds later, as far as 64 bits hold it.
pub open spec fn later(now: i64, secs: i64) -> i64 {
    if now + secs > i64::MAX {
        i64::MAX
    } else if now + secs < i64::MIN {
        i64::MIN
    } else {
        (now + secs) as i64
    }
}

pub open spec fn settled(c: PlacementController, now: i64, secs: i64) -> PlacementController {
    PlacementController {
        pending: None,
        cooldown_until: later(now, secs),
        streak: 0,
        rounds_in_window: 0,
        changed_in_window: 0,
        ..c
    }
}

impl PlacementController {
    /// Observes a conversation.
    pub fn feed_round(&mut self, mem_changed: bool)
        ensures
            *final(self) == fed(*old(self), mem_changed),
    {
        self.rounds_in_window = count_up(self.rounds_in_window);
        if mem_changed {
            self.changed_in_window = count_up(self.changed_in_window);
        }
    }

    /// Observes a conversation, by the number of changes of the memory so far.
    pub fn feed_count(&mut self, mem_changes: u64)
        ensures
            *final(self) == fed(
                PlacementController { mem_changes, ..*old(self) },
                mem_changes != old(self).mem_changes,
            ),
    {
        let changed = mem_changes != self.mem_changes;
        self.mem_changes = mem_changes;
        self.feed_round(changed);
    }

    /// Whether enough was observed for a look.
    pub fn due(&self) -> (r: bool)
        ensures
            r == (self.rounds_in_window >= EVAL_EVERY),
    {
        self.rounds_in_window >= EVAL_EVERY
    }

    /// Whether a look at the placement means anything now.
    pub fn open(&self, now: i64) -> (r: bool)
        ensures
            r == is_open(*self, now),
    {
        now >= self.cooldown_until && self.pending.is_none()
    }

    /// Looks at the placement.
    pub fn evaluate(&mut self, worth: bool, current: Scheme, now: i64) -> (r: Option<Proposal>)
        ensures
            (*final(self), r) == evaluated(*old(self), worth, current, now),
    {
        if !self.open(now) {
            return None;
        }
        self.rounds_in_window = 0;
        self.changed_in_window = 0;
        let target: Option<Scheme> = if worth {
            Some(current.other())
        } else {
            None
        };
        let streak: u32 = match target {
            None => 0,
            Some(t) => {
                let again = match self.last_target {
                    Some(l) => l == t,
                    None => false,
                };
                if again {
                    if self.streak < u32::MAX {
                        self.streak + 1
                    } else {
                        self.streak
                    }
                } else {
                    1
                }
            },
        };
        self.last_target = target;
        self.streak = streak;
        if !worth || streak < STREAK_NEEDED {
            return None;
        }
        self.streak = 0;
        let p = Proposal { from: current, to: current.other() };
        self.pending = Some(p);
        Some(p)
    }

    /// Takes note of a decision.
    pub fn settle(&mut self, now: i64)
        ensures
            *final(self) == settled(*old(self), now, SWITCH_COOLDOWN_SECS),
    {
        self.settle_for(now, SWITCH_COOLDOWN_SECS);
    }

    /// Takes note of a decision, with a pause of the given length.
    pub fn settle_for(&mut self, now: i64, secs: i64)
        ensures
            *final(self) == settled(*old(self), now, secs),
    {
        self.pending = None;
        let until: i128 = now as i128 + secs as i128;
        self.cooldown_until = if until > i64::MAX as i128 {
            i64::MAX
        } else if until < i64::MIN as i128 {
            i64::MIN
        } else {
            until as i64
        };
        self.streak = 0;
        self.rounds_in_window = 0;
        self.changed_in_window = 0;
    }

    /// Decides on the proposal that waits: the placement to change to, where it was
    /// approved and is not the present one already.
    pub fn decide(&mut self, approve: bool, current: &str, now: i64, cooldown_secs: i64) -> (r: Option<
        Scheme,
    >)
        ensures
            *final(self) == settled(*old(self), now, cooldown_secs),
            r == match old(self).pending {
                Some(p) => if approve && p.to.placement_of() != current@ {
                    Some(p.to)
                } else {
                    None
                },
                None => None,
            },
    {
        let r: Option<Scheme> = match self.pending {
            Some(p) => if approve && !text::same(p.to.as_placement(), current) {
                Some(p.to)
            } else {
                None
            },
            None => None,
        };
        self.settle_for(now, cooldown_secs);
        r
    }
}

/// The pause after a decision, in seconds.
pub fn cooldown_secs(minutes: u64) -> (r: i64)
    ensures
        ({
            let m = if minutes < 1 {
                1
            } else {
                minutes as int
            };
            r == if m * 60 > i64::MAX {
                i64::MAX as int
            } else {
                m * 60
            }
        }),
        r >= 60,
        1 <= minutes <= 1_000_000_000 ==> r == 60 * minutes,
{
    let m: u64 = if minutes < 1 {
        1
    } else {
        minutes
    };
    if m > 153722867280912930 {
        i64::MAX
    } else {
        (m * 60) as i64
    }
}

// ---------- laws ----------

/// The state after some looks in a row, all with one verdict.
pub open spec fn looked(c: PlacementController, worth: bool, current: Scheme, now: i64, n: nat) -> PlacementController
    decreases n,
{
    if n == 0 {
        c
    } else {
        evaluated(looked(c, worth, current, now, (n - 1) as nat), worth, current, now).0
    }
}

/// A proposal takes a row of verdicts: with fewer than needed nothing is proposed, and
/// with as many as needed something is, which waits for a decision.
pub proof fn law_proposal_takes_a_streak(c: PlacementController, current: Scheme, now: i64, n: nat)
    requires
        is_open(c, now),
        c.streak == 0,
        n < STREAK_NEEDED,
    ensures
        is_open(looked(c, true, current, now, n), now),
        looked(c, true, current, now, n).streak == n,
        n > 0 ==> looked(c, true, current, now, n).last_target == Some(current.other_of()),
        evaluated(looked(c, true, current, now, n), true, current, now).1 is Some <==> n + 1
            == STREAK_NEEDED,
    decreases n,
{
    if n > 0 {
        law_proposal_takes_a_streak(c, current, now, (n - 1) as nat);
    }
}

/// One verdict against a change starts the row over.
pub proof fn law_doubt_breaks_the_streak(c: PlacementController, current: Scheme, now: i64)
    requires
        is_open(c, now),
    ensures
        evaluated(c, false, current, now).1 is None,
        evaluated(c, false, current, now).0.streak == 0,
{
}

/// After a decision nothing is proposed until the pause is over.
pub proof fn law_pause_after_decision(
    c: PlacementController,
    now: i64,
    secs: i64,
    worth: bool,
    current: Scheme,
    t: i64,
)
    requires
        t < later(now, secs),
    ensures
        evaluated(settled(c, now, secs), worth, current, t) == (
            settled(c, now, secs),
            None::<Proposal>,
        ),
{
}

/// While a proposal waits there is no other.
pub proof fn law_one_proposal_at_a_time(c: PlacementController, worth: bool, current: Scheme, now: i64)
    requires
        c.pending is Some,
    ensures
        evaluated(c, worth, current, now) == (c, None::<Proposal>),
{
}

/// A setting of a scheme is read as that scheme.
pub proof fn law_placement_reads_back(s: Scheme)
    ensures
        Scheme::placed(s.placement_of()) == s,
{
    reveal_strlit("front");
    reveal_strlit("back");
    assert("front"@.len() == 5 && "back"@.len() == 4);
}

/// A proposal is a change from the placement at present to the other one, and is kept until
/// it is decided on.
pub proof fn law_proposal_is_for_the_other(c: PlacementController, worth: bool, current: Scheme, now: i64)
    ensures
        match evaluated(c, worth, current, now) {
            (after, Some(p)) => worth && p.from == current && p.to != current && after.pending == Some(p),
            (after, None) => after.pending == c.pending,
        },
        evaluated(c, worth, current, now).0.cooldown_until == c.cooldown_until,
        Scheme::One.other_of() == Scheme::Two && Scheme::Two.other_of() == Scheme::One,
        Scheme::One.placement_of() == "back"@ && Scheme::Two.placement_of() == "front"@,
{
}

/// A round is counted once, and as one that changed the memory exactly where it did; a look
/// starts the count anew.
pub proof fn law_rounds_are_counted(c: PlacementController, mem_changed: bool, worth: bool, current: Scheme, now: i64)
    ensures
        c.rounds_in_window < u64::MAX ==> fed(c, mem_changed).rounds_in_window == c.rounds_in_window + 1,
        mem_changed && c.changed_in_window < u64::MAX ==> fed(c, mem_changed).changed_in_window == c.changed_in_window
            + 1,
        !mem_changed ==> fed(c, mem_changed).changed_in_window == c.changed_in_window,
        fed(c, mem_changed).pending == c.pending && fed(c, mem_changed).streak == c.streak && fed(
            c,
            mem_changed,
        ).cooldown_until == c.cooldown_until,
        now >= c.cooldown_until && c.pending is None ==> evaluated(c, worth, current, now).0.rounds_in_window == 0
            && evaluated(c, worth, current, now).0.changed_in_window == 0,
{
}

/// A decision ends the proposal and begins a pause of the given length.
pub proof fn law_decision_begins_a_pause(c: PlacementController, now: i64, secs: i64)
    ensures
        settled(c, now, secs).pending is None,
        settled(c, now, secs).streak == 0,
        i64::MIN <= now + secs <= i64::MAX ==> settled(c, now, secs).cooldown_until == now + secs,
        settled(c, now, secs).rounds_in_window == 0 && settled(c, now, secs).changed_in_window == 0,
        settled(c, now, secs).mem_changes == c.mem_changes,
        unobserved().pending is None && unobserved().streak == 0 && unobserved().rounds_in_window == 0,
{
}

/// A look is taken every five rounds, and a proposal takes four looks in a row; after a
/// change nothing is proposed for a day.
pub proof fn law_pace_of_the_placement()
    ensures
        EVAL_EVERY == 5,
        STREAK_NEEDED == 4,
        SWITCH_COOLDOWN_SECS == 24 * 60 * 60,
        HORIZON == 120,
{
}

} // verus!
