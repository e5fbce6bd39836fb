//! Joining in uncalled: whether the time for it has come.

use vstd::prelude::*;
use vstd::string::*;
use crate::config::InterjectConfig;
use crate::text;

verus! {

/// Whether to join in.
#[derive(Debug, Clone, Copy, PartialEq, Eq, Structural)]
pub enum Gate {
    /// It is switched off.
    Off,
    /// So many messages have to pass first.
    Cooling(u64),
    /// The time has come by the count of messages alone.
    Hit,
    /// It is left to chance.
    Draw,
}

pub open spec fn at_least_one(n: u64) -> u64 {
    if n < 1 {
        1
    } else {
        n
    }
}

/// How many messages have to pass between two interjections.
pub open spec fn needed(mode: Seq<char>, every: u64, cooldown: u64) -> u64 {
    if mode == "fixed_rate"@ {
        at_least_one(every)
    } else {
        at_least_one(cooldown)
    }
}

/// What the count of messages since the last interjection allows.
pub open spec fn gate_of(ij: InterjectConfig, every: u64, cooldown: u64, since: Option<u64>) -> Gate {
    let need = needed(ij.mode@, every, cooldown);
    if !ij.enabled || ij.mode@ == "off"@ {
        Gate::Off
    } else if since matches Some(n) && n < need {
        Gate::Cooling((need - since->0) as u64)
    } else if ij.mode@ == "fixed_rate"@ {
        Gate::Hit
    } else {
        Gate::Draw
    }
}

/// Whether the time to join in has come: `every` is the pace at a fixed rate,
/// `cooldown` the pause otherwise, both in messages, and `since` the number of messages
/// since the last interjection, where there was one.
pub fn gate(ij: &InterjectConfig, every: u64, cooldown: u64, since: Option<u64>) -> (r: Gate)
    ensures
        r == gate_of(*ij, every, cooldown, since),
{
    if !ij.enabled || text::same(ij.mode.as_str(), "off") {
        return Gate::Off;
    }
    let fixed = text::same(ij.mode.as_str(), "fixed_rate");
    let wish: u64 = if fixed {
        every
    } else {
        cooldown
    };
    let need: u64 = if wish < 1 {
        1
    } else {
        wish
    };
    if let Some(n) = since {
        if n < need {
            return Gate::Cooling(need - n);
        }
    }
    if fixed {
        Gate::Hit
    } else {
        Gate::Draw
    }
}

/// The state of the number generator after a step, and the number drawn: the upper bits
/// of a mixed counter, to be divided by two to the power of 53.
pub open spec fn drawn(seed: u64) -> (u64, u64) {
    let next = ((seed as int + 0x9e3779b97f4a7c15) % 0x1_0000_0000_0000_0000) as u64;
    let mixed = ((seed as int * 0x2545f4914f6cdd1d) % 0x1_0000_0000_0000_0000) as u64;
    (next, mixed >> 11)
}

/// Draws a number below two to the power of 53; gives the next state with it.
pub fn draw(seed: u64) -> (r: (u64, u64))
    ensures
        r == drawn(seed),
        r.1 < 0x20_0000_0000_0000,
{
    let next: u64 = seed.wrapping_add(0x9e3779b97f4a7c15);
    let mixed: u64 = seed.wrapping_mul(0x2545f4914f6cdd1d);
    let top: u64 = mixed >> 11;
    assert(top < 0x20_0000_0000_0000) by (bit_vector)
        requires
            top == mixed >> 11,
    ;
    (next, top)
}

// ---------- laws ----------

/// There is no interjection right after another: unless it is switched off, at least
/// one message has to pass.
pub proof fn law_no_two_in_a_row(ij: InterjectConfig, every: u64, cooldown: u64)
    ensures
        gate_of(ij, every, cooldown, Some(0)) is Off || gate_of(ij, every, cooldown, Some(0)) is Cooling,
{
}

/// A pause that is over stays over: more messages never bring it back.
pub proof fn law_pause_stays_over(ij: InterjectConfig, every: u64, cooldown: u64, n: u64, m: u64)
    requires
        n <= m,
        gate_of(ij, every, cooldown, Some(n)) is Hit || gate_of(ij, every, cooldown, Some(n)) is Draw,
    ensures
        gate_of(ij, every, cooldown, Some(m)) == gate_of(ij, every, cooldown, Some(n)),
{
}

/// The pause keeps count: while fewer messages have passed than needed it names those that
/// are still missing, and when it is over the bot may join in, by the count alone at a fixed
/// rate and by chance otherwise; it never does where that is switched off.
pub proof fn law_gate_keeps_count(ij: InterjectConfig, every: u64, cooldown: u64, since: Option<u64>)
    ensures
        ({
            let g = gate_of(ij, every, cooldown, since);
            let need = if ij.mode@ == "fixed_rate"@ {
                if every == 0 {
                    1
                } else {
                    every as int
                }
            } else {
                if cooldown == 0 {
                    1
                } else {
                    cooldown as int
                }
            };
            &&& g is Off <==> !ij.enabled || ij.mode@ == "off"@
            &&& g matches Gate::Cooling(k) ==> since is Some && since->0 + k == need && k > 0
            &&& !(g is Off) && since is Some && since->0 < need ==> g is Cooling
            &&& g is Hit ==> ij.mode@ == "fixed_rate"@
            &&& g is Draw ==> ij.mode@ != "fixed_rate"@
            &&& since is None ==> !(g is Cooling)
        }),
{
}

/// The number generator never falls into a short round: different states go on as
/// different states.
pub proof fn law_draw_goes_on(a: u64, b: u64)
    ensures
        a != b ==> drawn(a).0 != drawn(b).0,
        drawn(a).0 != a,
{
}

/// A number that is drawn is the upper 53 bits of the mixed state: it stays below two to
/// the power of 53, and takes in its whole range.
pub proof fn law_draw_is_of_53_bits(seed: u64)
    ensures
        drawn(seed).1 < 0x20_0000_0000_0000,
        drawn(seed).1 * 2048 <= (seed * 0x2545f4914f6cdd1d) % 0x1_0000_0000_0000_0000 < (drawn(seed).1 + 1) * 2048,
{
    let mixed: u64 = ((seed as int * 0x2545f4914f6cdd1d) % 0x1_0000_0000_0000_0000) as u64;
    assert(mixed >> 11 == mixed / 2048) by (bit_vector);
}

} // verus!
