//! Monthly happenings: the event pools, how a sect's moral direction and
//! policy weight them, the weighted draw, and what an event does to a save.
use vstd::prelude::*;
use rand::rngs::StdRng;
use crate::chance::roll_below;
use crate::model::{MoralDirection, SectPolicy};
use crate::sect::SectState;
use crate::text::text_eq;

verus! {

/// What an event or a choice changes. Absent fields change nothing.
#[derive(Clone, Debug)]
pub struct EventEffect {
    pub prestige: Option<i32>,
    pub silver: Option<i32>,
    pub morale: Option<i32>,
    pub injury: Option<i32>,
    pub free_recruit: Option<i32>,
    pub special: Option<String>,
    pub loyalty_loss: Option<bool>,
    pub loyalty_change: Option<bool>,
}

impl EventEffect {
    /// An effect that changes nothing.
    pub fn none() -> (e: EventEffect)
        ensures
            e.prestige is None,
            e.silver is None,
            e.morale is None,
            e.injury is None,
            e.free_recruit is None,
            e.special is None,
            e.loyalty_loss is None,
            e.loyalty_change is None,
    {
        EventEffect {
            prestige: None,
            silver: None,
            morale: None,
            injury: None,
            free_recruit: None,
            special: None,
            loyalty_loss: None,
            loyalty_change: None,
        }
    }
}

impl Default for EventEffect {
    fn default() -> (e: EventEffect)
        ensures
            e.prestige is None,
            e.silver is None,
            e.morale is None,
            e.injury is None,
            e.free_recruit is None,
            e.special is None,
            e.loyalty_loss is None,
            e.loyalty_change is None,
    {
        EventEffect::none()
    }
}

/// A happening of the month, shown in the chronicle and applied at once.
#[derive(Clone, Debug)]
pub struct RandomEvent {
    pub id: String,
    pub text: String,
    pub effect: EventEffect,
    pub good: bool,
}

/// One way of answering a pending event.
#[derive(Clone, Debug)]
pub struct EventChoice {
    pub id: String,
    pub label: String,
    pub result_text: String,
    pub effect: EventEffect,
    pub good: bool,
}

/// An event that pauses the month until the head picks one of its choices.
#[derive(Clone, Debug)]
pub struct PendingWorldEvent {
    pub id: String,
    pub category: String,
    pub title: String,
    pub text: String,
    pub choices: Vec<EventChoice>,
}

/// The themes an event touches: chivalry, gain, retribution, fighting,
/// learning, trade, seclusion and life within the sect.
#[derive(Clone, Copy, Debug, PartialEq, Eq, Structural)]
pub struct EventTags {
    pub righteous: bool,
    pub profit: bool,
    pub backlash: bool,
    pub martial: bool,
    pub scholarly: bool,
    pub mercantile: bool,
    pub reclusive: bool,
    pub domestic: bool,
}

/// No theme at all.
pub open spec fn no_tags() -> EventTags {
    EventTags {
        righteous: false,
        profit: false,
        backlash: false,
        martial: false,
        scholarly: false,
        mercantile: false,
        reclusive: false,
        domestic: false,
    }
}

impl EventTags {
    /// No theme at all.
    pub fn none() -> (t: EventTags)
        ensures
            t == no_tags(),
    {
        EventTags {
            righteous: false,
            profit: false,
            backlash: false,
            martial: false,
            scholarly: false,
            mercantile: false,
            reclusive: false,
            domestic: false,
        }
    }
}

/// The themes of the event template `id`; an unknown id has none.
pub open spec fn event_tag_set(id: Seq<char>) -> EventTags {
    if id == "choice_provocation"@ {
        EventTags { martial: true, backlash: true, ..no_tags() }
    } else if id == "choice_rice"@ {
        EventTags { profit: true, mercantile: true, domestic: true, ..no_tags() }
    } else if id == "choice_deviation"@ {
        EventTags { martial: true, reclusive: true, ..no_tags() }
    } else if id == "choice_court"@ {
        EventTags { profit: true, martial: true, ..no_tags() }
    } else if id == "choice_refugees"@ {
        EventTags { righteous: true, domestic: true, ..no_tags() }
    } else if id == "choice_cave"@ {
        EventTags { martial: true, scholarly: true, ..no_tags() }
    } else if id == "choice_herbs"@ {
        EventTags { profit: true, mercantile: true, reclusive: true, ..no_tags() }
    } else if id == "choice_alliance"@ {
        EventTags { righteous: true, martial: true, ..no_tags() }
    } else if id == "choice_apprentice"@ {
        EventTags { martial: true, scholarly: true, domestic: true, ..no_tags() }
    } else if id == "choice_smuggler"@ {
        EventTags { profit: true, backlash: true, mercantile: true, ..no_tags() }
    } else if id == "choice_plague"@ {
        EventTags { righteous: true, martial: true, domestic: true, ..no_tags() }
    } else if id == "jh_01"@ {
        EventTags { righteous: true, ..no_tags() }
    } else if id == "jh_02"@ {
        EventTags { martial: true, backlash: true, ..no_tags() }
    } else if id == "jh_03"@ || id == "jh_04"@ {
        EventTags { righteous: true, ..no_tags() }
    } else if id == "jh_05"@ || id == "jh_10"@ {
        EventTags { righteous: true, profit: true, martial: true, ..no_tags() }
    } else if id == "jh_06"@ {
        EventTags { martial: true, backlash: true, ..no_tags() }
    } else if id == "jh_07"@ {
        EventTags { scholarly: true, reclusive: true, ..no_tags() }
    } else if id == "jh_08"@ {
        EventTags { righteous: true, martial: true, ..no_tags() }
    } else if id == "jh_09"@ || id == "jh_11"@ {
        EventTags { backlash: true, ..no_tags() }
    } else if id == "jh_12"@ {
        EventTags { profit: true, mercantile: true, reclusive: true, ..no_tags() }
    } else if id == "ms_01"@ {
        EventTags { mercantile: true, domestic: true, ..no_tags() }
    } else if id == "ms_02"@ {
        EventTags { martial: true, reclusive: true, domestic: true, ..no_tags() }
    } else if id == "ms_03"@ || id == "ms_05"@ {
        EventTags { domestic: true, ..no_tags() }
    } else if id == "ms_04"@ {
        EventTags { martial: true, scholarly: true, reclusive: true, domestic: true, ..no_tags() }
    } else if id == "ms_06"@ || id == "ms_10"@ {
        EventTags { reclusive: true, domestic: true, ..no_tags() }
    } else if id == "ms_07"@ {
        EventTags { backlash: true, domestic: true, ..no_tags() }
    } else if id == "ms_08"@ || id == "ms_11"@ {
        EventTags { domestic: true, ..no_tags() }
    } else if id == "ms_09"@ {
        EventTags { mercantile: true, domestic: true, ..no_tags() }
    } else if id == "ms_12"@ {
        EventTags { profit: true, domestic: true, ..no_tags() }
    } else if id == "ex_01"@ || id == "ex_09"@ {
        EventTags { reclusive: true, domestic: true, ..no_tags() }
    } else if id == "ex_02"@ {
        EventTags { scholarly: true, domestic: true, ..no_tags() }
    } else if id == "ex_03"@ {
        EventTags { profit: true, mercantile: true, domestic: true, ..no_tags() }
    } else if id == "ex_04"@ {
        EventTags { martial: true, domestic: true, ..no_tags() }
    } else if id == "ex_05"@ || id == "ex_10"@ {
        EventTags { righteous: true, domestic: true, ..no_tags() }
    } else if id == "ex_06"@ {
        EventTags { backlash: true, domestic: true, ..no_tags() }
    } else if id == "ex_07"@ {
        EventTags { righteous: true, martial: true, ..no_tags() }
    } else if id == "ex_08"@ {
        EventTags { domestic: true, ..no_tags() }
    } else if id == "ex_11"@ {
        EventTags { mercantile: true, domestic: true, ..no_tags() }
    } else if id == "ex_12"@ {
        EventTags { righteous: true, reclusive: true, domestic: true, ..no_tags() }
    } else if id == "ex_13"@ {
        EventTags { domestic: true, ..no_tags() }
    } else if id == "ex_14"@ {
        EventTags { backlash: true, domestic: true, ..no_tags() }
    } else if id == "ex_15"@ {
        EventTags { martial: true, domestic: true, ..no_tags() }
    } else if id == "ex_16"@ {
        EventTags { reclusive: true, domestic: true, ..no_tags() }
    } else if id == "ex_17"@ {
        EventTags { righteous: true, martial: true, ..no_tags() }
    } else if id == "ex_18"@ {
        EventTags { profit: true, mercantile: true, ..no_tags() }
    } else if id == "ex_19"@ {
        EventTags { backlash: true, martial: true, ..no_tags() }
    } else if id == "ex_20"@ {
        EventTags { righteous: true, profit: true, domestic: true, ..no_tags() }
    } else if id == "ex_21"@ {
        EventTags { righteous: true, domestic: true, ..no_tags() }
    } else if id == "ex_22"@ {
        EventTags { domestic: true, reclusive: true, ..no_tags() }
    } else if id == "ex_23"@ {
        EventTags { profit: true, mercantile: true, scholarly: true, domestic: true, ..no_tags() }
    } else if id == "ex_24"@ {
        EventTags { righteous: true, martial: true, ..no_tags() }
    } else if id == "season_spring"@ {
        EventTags { domestic: true, mercantile: true, ..no_tags() }
    } else if id == "season_summer"@ {
        EventTags { domestic: true, reclusive: true, ..no_tags() }
    } else if id == "season_autumn"@ {
        EventTags { martial: true, domestic: true, mercantile: true, ..no_tags() }
    } else if id == "season_winter"@ {
        EventTags { reclusive: true, scholarly: true, domestic: true, ..no_tags() }
    } else {
        no_tags()
    }
}

/// The themes of the event template `id`; an unknown id has none.
pub fn event_tags(id: &str) -> (t: EventTags)
    ensures
        t == event_tag_set(id@),
{
    if text_eq(id, "choice_provocation") {
        EventTags { martial: true, backlash: true, ..EventTags::none() }
    } else if text_eq(id, "choice_rice") {
        EventTags { profit: true, mercantile: true, domestic: true, ..EventTags::none() }
    } else if text_eq(id, "choice_deviation") {
        EventTags { martial: true, reclusive: true, ..EventTags::none() }
    } else if text_eq(id, "choice_court") {
        EventTags { profit: true, martial: true, ..EventTags::none() }
    } else if text_eq(id, "choice_refugees") {
        EventTags { righteous: true, domestic: true, ..EventTags::none() }
    } else if text_eq(id, "choice_cave") {
        EventTags { martial: true, scholarly: true, ..EventTags::none() }
    } else if text_eq(id, "choice_herbs") {
        EventTags { profit: true, mercantile: true, reclusive: true, ..EventTags::none() }
    } else if text_eq(id, "choice_alliance") {
        EventTags { righteous: true, martial: true, ..EventTags::none() }
    } else if text_eq(id, "choice_apprentice") {
        EventTags { martial: true, scholarly: true, domestic: true, ..EventTags::none() }
    } else if text_eq(id, "choice_smuggler") {
        EventTags { profit: true, backlash: true, mercantile: true, ..EventTags::none() }
    } else if text_eq(id, "choice_plague") {
        EventTags { righteous: true, martial: true, domestic: true, ..EventTags::none() }
    } else if text_eq(id, "jh_01") {
        EventTags { righteous: true, ..EventTags::none() }
    } else if text_eq(id, "jh_02") {
        EventTags { martial: true, backlash: true, ..EventTags::none() }
    } else if text_eq(id, "jh_03") || text_eq(id, "jh_04") {
        EventTags { righteous: true, ..EventTags::none() }
    } else if text_eq(id, "jh_05") || text_eq(id, "jh_10") {
        EventTags { righteous: true, profit: true, martial: true, ..EventTags::none() }
    } else if text_eq(id, "jh_06") {
        EventTags { martial: true, backlash: true, ..EventTags::none() }
    } else if text_eq(id, "jh_07") {
        EventTags { scholarly: true, reclusive: true, ..EventTags::none() }
    } else if text_eq(id, "jh_08") {
        EventTags { righteous: true, martial: true, ..EventTags::none() }
    } else if text_eq(id, "jh_09") || text_eq(id, "jh_11") {
        EventTags { backlash: true, ..EventTags::none() }
    } else if text_eq(id, "jh_12") {
        EventTags { profit: true, mercantile: true, reclusive: true, ..EventTags::none() }
    } else if text_eq(id, "ms_01") {
        EventTags { mercantile: true, domestic: true, ..EventTags::none() }
    } else if text_eq(id, "ms_02") {
        EventTags { martial: true, reclusive: true, domestic: true, ..EventTags::none() }
    } else if text_eq(id, "ms_03") || text_eq(id, "ms_05") {
        EventTags { domestic: true, ..EventTags::none() }
    } else if text_eq(id, "ms_04") {
        EventTags { martial: true, scholarly: true, reclusive: true, domestic: true, ..EventTags::none() }
    } else if text_eq(id, "ms_06") || text_eq(id, "ms_10") {
        EventTags { reclusive: true, domestic: true, ..EventTags::none() }
    } else if text_eq(id, "ms_07") {
        EventTags { backlash: true, domestic: true, ..EventTags::none() }
    } else if text_eq(id, "ms_08") || text_eq(id, "ms_11") {
        EventTags { domestic: true, ..EventTags::none() }
    } else if text_eq(id, "ms_09") {
        EventTags { mercantile: true, domestic: true, ..EventTags::none() }
    } else if text_eq(id, "ms_12") {
        EventTags { profit: true, domestic: true, ..EventTags::none() }
    } else if text_eq(id, "ex_01") || text_eq(id, "ex_09") {
        EventTags { reclusive: true, domestic: true, ..EventTags::none() }
    } else if text_eq(id, "ex_02") {
        EventTags { scholarly: true, domestic: true, ..EventTags::none() }
    } else if text_eq(id, "ex_03") {
        EventTags { profit: true, mercantile: true, domestic: true, ..EventTags::none() }
    } else if text_eq(id, "ex_04") {
        EventTags { martial: true, domestic: true, ..EventTags::none() }
    } else if text_eq(id, "ex_05") || text_eq(id, "ex_10") {
        EventTags { righteous: true, domestic: true, ..EventTags::none() }
    } else if text_eq(id, "ex_06") {
        EventTags { backlash: true, domestic: true, ..EventTags::none() }
    } else if text_eq(id, "ex_07") {
        EventTags { righteous: true, martial: true, ..EventTags::none() }
    } else if text_eq(id, "ex_08") {
        EventTags { domestic: true, ..EventTags::none() }
    } else if text_eq(id, "ex_11") {
        EventTags { mercantile: true, domestic: true, ..EventTags::none() }
    } else if text_eq(id, "ex_12") {
        EventTags { righteous: true, reclusive: true, domestic: true, ..EventTags::none() }
    } else if text_eq(id, "ex_13") {
        EventTags { domestic: true, ..EventTags::none() }
    } else if text_eq(id, "ex_14") {
        EventTags { backlash: true, domestic: true, ..EventTags::none() }
    } else if text_eq(id, "ex_15") {
        EventTags { martial: true, domestic: true, ..EventTags::none() }
    } else if text_eq(id, "ex_16") {
        EventTags { reclusive: true, domestic: true, ..EventTags::none() }
    } else if text_eq(id, "ex_17") {
        EventTags { righteous: true, martial: true, ..EventTags::none() }
    } else if text_eq(id, "ex_18") {
        EventTags { profit: true, mercantile: true, ..EventTags::none() }
    } else if text_eq(id, "ex_19") {
        EventTags { backlash: true, martial: true, ..EventTags::none() }
    } else if text_eq(id, "ex_20") {
        EventTags { righteous: true, profit: true, domestic: true, ..EventTags::none() }
    } else if text_eq(id, "ex_21") {
        EventTags { righteous: true, domestic: true, ..EventTags::none() }
    } else if text_eq(id, "ex_22") {
        EventTags { domestic: true, reclusive: true, ..EventTags::none() }
    } else if text_eq(id, "ex_23") {
        EventTags { profit: true, mercantile: true, scholarly: true, domestic: true, ..EventTags::none() }
    } else if text_eq(id, "ex_24") {
        EventTags { righteous: true, martial: true, ..EventTags::none() }
    } else if text_eq(id, "season_spring") {
        EventTags { domestic: true, mercantile: true, ..EventTags::none() }
    } else if text_eq(id, "season_summer") {
        EventTags { domestic: true, reclusive: true, ..EventTags::none() }
    } else if text_eq(id, "season_autumn") {
        EventTags { martial: true, domestic: true, mercantile: true, ..EventTags::none() }
    } else if text_eq(id, "season_winter") {
        EventTags { reclusive: true, scholarly: true, domestic: true, ..EventTags::none() }
    } else {
        EventTags::none()
    }
}

/// How a sect's moral direction shifts the weight of an event with themes `t`.
pub open spec fn moral_shift(moral: MoralDirection, t: EventTags) -> int {
    match moral {
        MoralDirection::Righteous => (if t.righteous { 60int } else { 0 }) - (if t.backlash { 30int } else { 0 }),
        MoralDirection::Neutral => if t.domestic { 20int } else { 0 },
        MoralDirection::Villainous => (if t.profit { 45int } else { 0 }) + (if t.backlash { 45int } else { 0 })
            - (if t.righteous { 35int } else { 0 }),
    }
}

/// Whether an event with themes `t` suits `policy`.
pub open spec fn policy_matches(policy: SectPolicy, t: EventTags) -> bool {
    match policy {
        SectPolicy::Balanced => t.domestic,
        SectPolicy::Martial => t.martial,
        SectPolicy::Scholarly => t.scholarly,
        SectPolicy::Chivalrous => t.righteous,
        SectPolicy::Mercantile => t.mercantile || t.profit,
        SectPolicy::Reclusive => t.reclusive,
    }
}

/// The bonus a matching policy gives: 15 for the balanced policy, 30 otherwise.
pub open spec fn policy_shift(policy: SectPolicy, t: EventTags) -> int {
    if policy_matches(policy, t) {
        if policy == SectPolicy::Balanced { 15int } else { 30int }
    } else {
        0
    }
}

/// Weight of an event: 100, shifted by moral direction and policy, never below 10.
pub open spec fn theme_weight(moral: MoralDirection, policy: SectPolicy, t: EventTags) -> int {
    let w = 100 + moral_shift(moral, t) + policy_shift(policy, t);
    if w < 10 { 10 } else { w }
}

/// The weight with which `sect` meets the event template `event_id`.
pub fn event_weight(sect: &SectState, event_id: &str) -> (w: u32)
    ensures
        w == theme_weight(sect.moral_direction, sect.policy, event_tag_set(event_id@)),
        10 <= w <= 220,
{
    let t = event_tags(event_id);
    let mut weight: i32 = 100;
    match sect.moral_direction {
        MoralDirection::Righteous => {
            if t.righteous {
                weight = weight + 60;
            }
            if t.backlash {
                weight = weight - 30;
            }
        },
        MoralDirection::Neutral => {
            if t.domestic {
                weight = weight + 20;
            }
        },
        MoralDirection::Villainous => {
            if t.righteous {
                weight = weight - 35;
            }
            if t.profit {
                weight = weight + 45;
            }
            if t.backlash {
                weight = weight + 45;
            }
        },
    }
    let policy_match = match sect.policy {
        SectPolicy::Balanced => t.domestic,
        SectPolicy::Martial => t.martial,
        SectPolicy::Scholarly => t.scholarly,
        SectPolicy::Chivalrous => t.righteous,
        SectPolicy::Mercantile => t.mercantile || t.profit,
        SectPolicy::Reclusive => t.reclusive,
    };
    if policy_match {
        weight = weight + if sect.policy == SectPolicy::Balanced { 15 } else { 30 };
    }
    if weight < 10 {
        10
    } else {
        weight as u32
    }
}


/// `v` when it is not zero.
pub open spec fn nonzero(v: i32) -> Option<i32> {
    if v != 0 { Some(v) } else { None }
}

/// An effect on the four sect numbers, with an optional special consequence;
/// a zero change is left absent.
pub open spec fn plain_effect(e: EventEffect, prestige: i32, silver: i32, morale: i32, injury: i32) -> bool {
    &&& e.prestige == nonzero(prestige)
    &&& e.silver == nonzero(silver)
    &&& e.morale == nonzero(morale)
    &&& e.injury == nonzero(injury)
    &&& e.free_recruit is None
    &&& e.loyalty_loss is None
    &&& e.loyalty_change is None
}

fn nonzero_of(v: i32) -> (r: Option<i32>)
    ensures
        r == nonzero(v),
{
    if v != 0 { Some(v) } else { None }
}

/// An effect on prestige, silver, morale and injury, with an optional special
/// consequence; a zero change is left absent.
pub fn effect(prestige: i32, silver: i32, morale: i32, injury: i32, special: Option<&str>) -> (e: EventEffect)
    ensures
        plain_effect(e, prestige, silver, morale, injury),
        match special {
            Some(s) => e.special matches Some(t) && t@ == s@,
            None => e.special is None,
        },
{
    EventEffect {
        prestige: nonzero_of(prestige),
        silver: nonzero_of(silver),
        morale: nonzero_of(morale),
        injury: nonzero_of(injury),
        free_recruit: None,
        special: match special {
            Some(s) => Some(s.to_owned()),
            None => None,
        },
        loyalty_loss: None,
        loyalty_change: None,
    }
}

/// A plain happening with no special consequence.
pub fn simple(id: &str, text: &str, prestige: i32, silver: i32, morale: i32, injury: i32, good: bool) -> (e: RandomEvent)
    ensures
        e.id@ == id@,
        e.text@ == text@,
        plain_effect(e.effect, prestige, silver, morale, injury),
        e.effect.special is None,
        e.good == good,
{
    RandomEvent { id: id.to_owned(), text: text.to_owned(), effect: effect(prestige, silver, morale, injury, None), good }
}

/// The two choices of a pending event, in order.
fn choice_pair(first: EventChoice, second: EventChoice) -> (r: Vec<EventChoice>)
    ensures
        r@ == seq![first, second],
{
    let mut r: Vec<EventChoice> = Vec::new();
    r.push(first);
    r.push(second);
    r
}

/// An effect as plain values: the changes to prestige, silver, morale and
/// injury, the recruits, the special consequence, and the loyalty marks.
pub type EffectView = (Option<i32>, Option<i32>, Option<i32>, Option<i32>, Option<i32>, Option<Seq<char>>, Option<bool>, Option<bool>);

/// An effect as plain values.
pub open spec fn effect_view(e: EventEffect) -> EffectView {
    (
        e.prestige,
        e.silver,
        e.morale,
        e.injury,
        e.free_recruit,
        match e.special {
            Some(s) => Some(s@),
            None => None,
        },
        e.loyalty_loss,
        e.loyalty_change,
    )
}

/// A happening as plain values: id, text, effect, and whether it is good news.
pub open spec fn event_view(e: RandomEvent) -> (Seq<char>, Seq<char>, EffectView, bool) {
    (e.id@, e.text@, effect_view(e.effect), e.good)
}

/// A choice as plain values: id, label, result text, effect, and whether it
/// turns out well.
pub open spec fn choice_view(c: EventChoice) -> (Seq<char>, Seq<char>, Seq<char>, EffectView, bool) {
    (c.id@, c.label@, c.result_text@, effect_view(c.effect), c.good)
}

/// A pending event as plain values: id, category, title, text and choices.
pub open spec fn pending_view(p: PendingWorldEvent) -> (Seq<char>, Seq<char>, Seq<char>, Seq<char>, Seq<(Seq<char>, Seq<char>, Seq<char>, EffectView, bool)>) {
    (p.id@, p.category@, p.title@, p.text@, p.choices@.map_values(|c: EventChoice| choice_view(c)))
}

/// Category of each interactive event, in pool order.
pub open spec fn interactive_categories() -> Seq<Seq<char>> {
    seq!["江湖"@, "生计"@, "门内"@, "朝廷"@, "乡里"@, "奇遇"@, "生计"@, "江湖"@]
}

/// The events that pause the month for the head's decision, each with two choices.
pub open spec fn interactive_ids() -> Seq<Seq<char>> {
    seq!["choice_provocation"@, "choice_rice"@, "choice_deviation"@, "choice_court"@, "choice_refugees"@, "choice_cave"@, "choice_herbs"@, "choice_alliance"@]
}

/// The interactive events, in pool order: id, category, title, text and the two choices.
pub open spec fn interactive_table() -> Seq<(Seq<char>, Seq<char>, Seq<char>, Seq<char>, Seq<(Seq<char>, Seq<char>, Seq<char>, EffectView, bool)>)> {
    seq![
        ("choice_provocation"@, "江湖"@, "山门问剑"@, "邻派少侠在山门外连败数名外门弟子，扬言要请掌门赐教。如何处置？"@, seq![("fight"@, "亲自应战"@, "掌门亲自下场，以寥寥数招定胜负。来客抱拳服输，江湖为之侧目。"@, (Some(6i32), None, Some(4i32), Some(8i32), None, None, None, None), true), ("talk"@, "以茶论武"@, "掌门不动刀兵，只在茶席间点破对方招式破绽，来客心悦诚服。"@, (Some(3i32), Some(-20i32), Some(2i32), None, None, Some("improve_relation"@), None, None), true)]),
        ("choice_rice"@, "生计"@, "米珠薪桂"@, "山下歉收，米行一夜三次涨价。司库问，是趁早囤粮，还是紧一紧各房用度？"@, seq![("stock"@, "拨银囤粮"@, "数车新粮运入外门仓库，虽费银钱，众弟子心里安定。"@, (None, Some(-80i32), Some(4i32), None, None, Some("stock_grain"@), None, None), true), ("ration"@, "减省口粮"@, "厨房改作稀粥，银钱省下了，演武场上的抱怨却多了。"@, (None, Some(20i32), Some(-5i32), None, None, Some("lose_loyalty"@), None, None), false)]),
        ("choice_deviation"@, "门内"@, "走火入魔"@, "一名弟子强练内功，真气岔入经脉，眼下昏迷不醒。药师称尚有两法可救。"@, seq![("medicine"@, "重金延医"@, "名医以金针导气，终于将人从鬼门关拉了回来。"@, (None, Some(-70i32), Some(3i32), None, None, Some("heal_disciple"@), None, None), true), ("transfer"@, "掌门渡气"@, "掌门耗费真气替弟子续脉，人救回了，自己却伤了元气。"@, (Some(1i32), None, Some(5i32), Some(14i32), None, Some("heal_disciple"@), None, None), true)]),
        ("choice_court"@, "朝廷"@, "征召文书"@, "朝廷下文，欲借本派高手护送一批军饷。应下此差，难免卷入庙堂是非。"@, seq![("accept"@, "领命护送"@, "军饷平安抵达，朝廷赏赐丰厚，只是江湖同道颇有微词。"@, (Some(7i32), Some(140i32), Some(-1i32), None, None, Some("court_service"@), None, None), true), ("decline"@, "称病推辞"@, "使者冷脸而去。门派保住了清静，也失了几分官面人情。"@, (Some(-3i32), None, Some(2i32), None, None, Some("uphold_morality"@), None, None), false)]),
        ("choice_refugees"@, "乡里"@, "流民叩山"@, "百余流民扶老携幼来到山下，求一处避雨与几日口粮。外门仓储并不宽裕。"@, seq![("shelter"@, "开仓赈济"@, "山门内外架起粥棚，乡民感恩，侠义之名传遍数县。"@, (Some(8i32), Some(-65i32), Some(5i32), None, None, Some("charity"@), None, None), true), ("refuse"@, "给路费劝返"@, "司库给了些散碎银钱，流民沉默着转下山去。"@, (Some(-2i32), Some(-15i32), Some(-2i32), None, None, None, None, None), false)]),
        ("choice_cave"@, "奇遇"@, "后山石室"@, "暴雨冲开后山崖壁，露出一扇刻满剑痕的石门。门缝里隐有寒气透出。"@, seq![("explore"@, "入内探查"@, "石室机关重重，众人带伤而返，却从壁刻中拓下一篇失传心法。"@, (Some(4i32), None, Some(3i32), Some(6i32), None, Some("manual"@), None, None), true), ("seal"@, "封门待后"@, "掌门命人封存石门，待门中高手足备再来探查。"@, (None, Some(-10i32), Some(1i32), None, None, None, None, None), true)]),
        ("choice_herbs"@, "生计"@, "西域药商"@, "西域药商携来一批上好雪莲，索价不菲。药师连称此物可遇不可求。"@, seq![("buy"@, "买下雪莲"@, "雪莲收入药库，药香数日不散。"@, (None, Some(-90i32), Some(2i32), None, None, Some("stock_herbs"@), None, None), true), ("decline"@, "婉言谢绝"@, "药商收起木匣，转投别派去了。"@, (None, None, Some(-1i32), None, None, None, None, None), false)]),
        ("choice_alliance"@, "江湖"@, "会盟请帖"@, "数家正道门派邀本派共赴会盟，商议清剿盘踞官道的绿林悍匪。"@, seq![("join"@, "赴会相助"@, "诸派合力荡平匪寨，本派弟子也在群雄面前露了脸。"@, (Some(7i32), Some(35i32), Some(4i32), Some(5i32), None, Some("improve_relation"@), None, None), true), ("stay"@, "留守山门"@, "本派闭门不出，避开了伤亡，却也错过一场江湖盛会。"@, (Some(-2i32), None, None, None, None, None, None, None), false)]),
    ]
}

/// The events that pause the month for the head's decision, each with two choices.
pub fn interactive_events() -> (r: Vec<PendingWorldEvent>)
    ensures
        r@.map_values(|e: PendingWorldEvent| pending_view(e)) == interactive_table(),
        r@.len() == interactive_ids().len(),
        forall|i: int| 0 <= i < r@.len() ==> (#[trigger] r@[i]).id@ == interactive_ids()[i],
        forall|i: int| 0 <= i < r@.len() ==> (#[trigger] r@[i]).category@ == interactive_categories()[i],
        forall|i: int| 0 <= i < r@.len() ==> (#[trigger] r@[i]).choices@.len() == 2,
{
    let mut r: Vec<PendingWorldEvent> = Vec::new();
    r.push(PendingWorldEvent {
            id: String::from_str("choice_provocation"),
            category: String::from_str("江湖"),
            title: String::from_str("山门问剑"),
            text: String::from_str("邻派少侠在山门外连败数名外门弟子，扬言要请掌门赐教。如何处置？"),
            choices: choice_pair(
EventChoice {
                    id: String::from_str("fight"),
                    label: String::from_str("亲自应战"),
                    result_text: String::from_str("掌门亲自下场，以寥寥数招定胜负。来客抱拳服输，江湖为之侧目。"),
                    effect: effect(6, 0, 4, 8, None),
                    good: true,
                },
EventChoice {
                    id: String::from_str("talk"),
                    label: String::from_str("以茶论武"),
                    result_text: String::from_str("掌门不动刀兵，只在茶席间点破对方招式破绽，来客心悦诚服。"),
                    effect: effect(3, -20, 2, 0, Some("improve_relation")),
                    good: true,
                },
),
        });
    r.push(PendingWorldEvent {
            id: String::from_str("choice_rice"),
            category: String::from_str("生计"),
            title: String::from_str("米珠薪桂"),
            text: String::from_str("山下歉收，米行一夜三次涨价。司库问，是趁早囤粮，还是紧一紧各房用度？"),
            choices: choice_pair(
EventChoice {
                    id: String::from_str("stock"),
                    label: String::from_str("拨银囤粮"),
                    result_text: String::from_str("数车新粮运入外门仓库，虽费银钱，众弟子心里安定。"),
                    effect: effect(0, -80, 4, 0, Some("stock_grain")),
                    good: true,
                },
EventChoice {
                    id: String::from_str("ration"),
                    label: String::from_str("减省口粮"),
                    result_text: String::from_str("厨房改作稀粥，银钱省下了，演武场上的抱怨却多了。"),
                    effect: effect(0, 20, -5, 0, Some("lose_loyalty")),
                    good: false,
                },
),
        });
    r.push(PendingWorldEvent {
            id: String::from_str("choice_deviation"),
            category: String::from_str("门内"),
            title: String::from_str("走火入魔"),
            text: String::from_str("一名弟子强练内功，真气岔入经脉，眼下昏迷不醒。药师称尚有两法可救。"),
            choices: choice_pair(
EventChoice {
                    id: String::from_str("medicine"),
                    label: String::from_str("重金延医"),
                    result_text: String::from_str("名医以金针导气，终于将人从鬼门关拉了回来。"),
                    effect: effect(0, -70, 3, 0, Some("heal_disciple")),
                    good: true,
                },
EventChoice {
                    id: String::from_str("transfer"),
                    label: String::from_str("掌门渡气"),
                    result_text: String::from_str("掌门耗费真气替弟子续脉，人救回了，自己却伤了元气。"),
                    effect: effect(1, 0, 5, 14, Some("heal_disciple")),
                    good: true,
                },
),
        });
    r.push(PendingWorldEvent {
            id: String::from_str("choice_court"),
            category: String::from_str("朝廷"),
            title: String::from_str("征召文书"),
            text: String::from_str("朝廷下文，欲借本派高手护送一批军饷。应下此差，难免卷入庙堂是非。"),
            choices: choice_pair(
EventChoice {
                    id: String::from_str("accept"),
                    label: String::from_str("领命护送"),
                    result_text: String::from_str("军饷平安抵达，朝廷赏赐丰厚，只是江湖同道颇有微词。"),
                    effect: effect(7, 140, -1, 0, Some("court_service")),
                    good: true,
                },
EventChoice {
                    id: String::from_str("decline"),
                    label: String::from_str("称病推辞"),
                    result_text: String::from_str("使者冷脸而去。门派保住了清静，也失了几分官面人情。"),
                    effect: effect(-3, 0, 2, 0, Some("uphold_morality")),
                    good: false,
                },
),
        });
    r.push(PendingWorldEvent {
            id: String::from_str("choice_refugees"),
            category: String::from_str("乡里"),
            title: String::from_str("流民叩山"),
            text: String::from_str("百余流民扶老携幼来到山下，求一处避雨与几日口粮。外门仓储并不宽裕。"),
            choices: choice_pair(
EventChoice {
                    id: String::from_str("shelter"),
                    label: String::from_str("开仓赈济"),
                    result_text: String::from_str("山门内外架起粥棚，乡民感恩，侠义之名传遍数县。"),
                    effect: effect(8, -65, 5, 0, Some("charity")),
                    good: true,
                },
EventChoice {
                    id: String::from_str("refuse"),
                    label: String::from_str("给路费劝返"),
                    result_text: String::from_str("司库给了些散碎银钱，流民沉默着转下山去。"),
                    effect: effect(-2, -15, -2, 0, None),
                    good: false,
                },
),
        });
    r.push(PendingWorldEvent {
            id: String::from_str("choice_cave"),
            category: String::from_str("奇遇"),
            title: String::from_str("后山石室"),
            text: String::from_str("暴雨冲开后山崖壁，露出一扇刻满剑痕的石门。门缝里隐有寒气透出。"),
            choices: choice_pair(
EventChoice {
                    id: String::from_str("explore"),
                    label: String::from_str("入内探查"),
                    result_text: String::from_str("石室机关重重，众人带伤而返，却从壁刻中拓下一篇失传心法。"),
                    effect: effect(4, 0, 3, 6, Some("manual")),
                    good: true,
                },
EventChoice {
                    id: String::from_str("seal"),
                    label: String::from_str("封门待后"),
                    result_text: String::from_str("掌门命人封存石门，待门中高手足备再来探查。"),
                    effect: effect(0, -10, 1, 0, None),
                    good: true,
                },
),
        });
    r.push(PendingWorldEvent {
            id: String::from_str("choice_herbs"),
            category: String::from_str("生计"),
            title: String::from_str("西域药商"),
            text: String::from_str("西域药商携来一批上好雪莲，索价不菲。药师连称此物可遇不可求。"),
            choices: choice_pair(
EventChoice {
                    id: String::from_str("buy"),
                    label: String::from_str("买下雪莲"),
                    result_text: String::from_str("雪莲收入药库，药香数日不散。"),
                    effect: effect(0, -90, 2, 0, Some("stock_herbs")),
                    good: true,
                },
EventChoice {
                    id: String::from_str("decline"),
                    label: String::from_str("婉言谢绝"),
                    result_text: String::from_str("药商收起木匣，转投别派去了。"),
                    effect: effect(0, 0, -1, 0, None),
                    good: false,
                },
),
        });
    r.push(PendingWorldEvent {
            id: String::from_str("choice_alliance"),
            category: String::from_str("江湖"),
            title: String::from_str("会盟请帖"),
            text: String::from_str("数家正道门派邀本派共赴会盟，商议清剿盘踞官道的绿林悍匪。"),
            choices: choice_pair(
EventChoice {
                    id: String::from_str("join"),
                    label: String::from_str("赴会相助"),
                    result_text: String::from_str("诸派合力荡平匪寨，本派弟子也在群雄面前露了脸。"),
                    effect: effect(7, 35, 4, 5, Some("improve_relation")),
                    good: true,
                },
EventChoice {
                    id: String::from_str("stay"),
                    label: String::from_str("留守山门"),
                    result_text: String::from_str("本派闭门不出，避开了伤亡，却也错过一场江湖盛会。"),
                    effect: effect(-2, 0, 0, 0, None),
                    good: false,
                },
),
        });
    proof {
        assert(r@[0].choices@.map_values(|c: EventChoice| choice_view(c)) =~= interactive_table()[0].4);
        assert(r@[1].choices@.map_values(|c: EventChoice| choice_view(c)) =~= interactive_table()[1].4);
        assert(r@[2].choices@.map_values(|c: EventChoice| choice_view(c)) =~= interactive_table()[2].4);
        assert(r@[3].choices@.map_values(|c: EventChoice| choice_view(c)) =~= interactive_table()[3].4);
        assert(r@[4].choices@.map_values(|c: EventChoice| choice_view(c)) =~= interactive_table()[4].4);
        assert(r@[5].choices@.map_values(|c: EventChoice| choice_view(c)) =~= interactive_table()[5].4);
        assert(r@[6].choices@.map_values(|c: EventChoice| choice_view(c)) =~= interactive_table()[6].4);
        assert(r@[7].choices@.map_values(|c: EventChoice| choice_view(c)) =~= interactive_table()[7].4);
        assert(r@.map_values(|e: PendingWorldEvent| pending_view(e)) =~= interactive_table());
    }
    r
}

/// Everyday happenings in and around the sect.
pub open spec fn expanded_ids() -> Seq<Seq<char>> {
    seq!["ex_01"@, "ex_02"@, "ex_03"@, "ex_04"@, "ex_05"@, "ex_06"@, "ex_07"@, "ex_08"@, "ex_09"@, "ex_10"@, "ex_11"@, "ex_12"@]
}

/// The everyday happenings of the wider pool, in order.
pub open spec fn expanded_table() -> Seq<(Seq<char>, Seq<char>, EffectView, bool)> {
    seq![
        ("ex_01"@, "药圃丰收，药师拣出不少上品草药，门中伤病有了着落。"@, (None, Some(20i32), Some(3i32), Some(-3i32), None, None, None, None), true),
        ("ex_02"@, "藏经阁返潮，数卷抄本生了霉斑，掌书弟子连夜晾晒修补。"@, (None, Some(-25i32), Some(-2i32), None, None, None, None, None), false),
        ("ex_03"@, "一队镖师借宿山门，临行留下谢银，又将沿途见闻说与外务弟子。"@, (Some(2i32), Some(45i32), Some(2i32), None, None, None, None, None), true),
        ("ex_04"@, "练武场地砖年久松动，一名弟子踏空扭伤，众人只得暂缓切磋。"@, (None, Some(-20i32), Some(-2i32), Some(3i32), None, None, None, None), false),
        ("ex_05"@, "乡民送来新酿与腊肉，谢本派去年驱走山贼，山门里热闹了一晚。"@, (Some(3i32), Some(15i32), Some(5i32), None, None, None, None, None), true),
        ("ex_06"@, "官差误将本派弟子当作逃犯扣押，外务房奔走数日才将人领回。"@, (Some(-2i32), Some(-35i32), Some(-2i32), None, None, None, None, None), false),
        ("ex_07"@, "两派弟子在渡口相遇，先是斗嘴，后来以武会友，竟结下一段交情。"@, (Some(2i32), None, Some(3i32), Some(1i32), None, None, None, None), true),
        ("ex_08"@, "夜里一声雷劈倒山门古松，幸未伤人，内勤房忙了整整三日。"@, (None, Some(-30i32), Some(-1i32), None, None, None, None, None), false),
        ("ex_09"@, "掌门腰疾又犯，议事时只得倚着软垫，弟子们说话也轻了三分。"@, (None, None, Some(-1i32), Some(4i32), None, None, None, None), false),
        ("ex_10"@, "一名杂役在溪边捡到碎银，原封不动交给司库，掌门当众嘉许。"@, (Some(1i32), Some(18i32), Some(4i32), None, None, None, None, None), true),
        ("ex_11"@, "附近州县开庙会，弟子们轮流下山采买，外门仓库添了不少日用之物。"@, (Some(1i32), Some(-20i32), Some(4i32), None, None, None, None, None), true),
        ("ex_12"@, "江湖小报误传掌门闭关仙逝，山门前竟来了几拨吊客，令人哭笑不得。"@, (Some(-1i32), Some(12i32), Some(2i32), None, None, None, None, None), false),
    ]
}

/// Everyday happenings in and around the sect.
pub fn expanded_events() -> (r: Vec<RandomEvent>)
    ensures
        r@.map_values(|e: RandomEvent| event_view(e)) == expanded_table(),
        r@.len() == expanded_ids().len(),
        forall|i: int| 0 <= i < r@.len() ==> (#[trigger] r@[i]).id@ == expanded_ids()[i],
{
    let mut r: Vec<RandomEvent> = Vec::new();
    r.push(simple(
            "ex_01",
            "药圃丰收，药师拣出不少上品草药，门中伤病有了着落。",
            0,
            20,
            3,
            -3,
            true,
        ));
    r.push(simple(
            "ex_02",
            "藏经阁返潮，数卷抄本生了霉斑，掌书弟子连夜晾晒修补。",
            0,
            -25,
            -2,
            0,
            false,
        ));
    r.push(simple(
            "ex_03",
            "一队镖师借宿山门，临行留下谢银，又将沿途见闻说与外务弟子。",
            2,
            45,
            2,
            0,
            true,
        ));
    r.push(simple(
            "ex_04",
            "练武场地砖年久松动，一名弟子踏空扭伤，众人只得暂缓切磋。",
            0,
            -20,
            -2,
            3,
            false,
        ));
    r.push(simple(
            "ex_05",
            "乡民送来新酿与腊肉，谢本派去年驱走山贼，山门里热闹了一晚。",
            3,
            15,
            5,
            0,
            true,
        ));
    r.push(simple(
            "ex_06",
            "官差误将本派弟子当作逃犯扣押，外务房奔走数日才将人领回。",
            -2,
            -35,
            -2,
            0,
            false,
        ));
    r.push(simple(
            "ex_07",
            "两派弟子在渡口相遇，先是斗嘴，后来以武会友，竟结下一段交情。",
            2,
            0,
            3,
            1,
            true,
        ));
    r.push(simple(
            "ex_08",
            "夜里一声雷劈倒山门古松，幸未伤人，内勤房忙了整整三日。",
            0,
            -30,
            -1,
            0,
            false,
        ));
    r.push(simple(
            "ex_09",
            "掌门腰疾又犯，议事时只得倚着软垫，弟子们说话也轻了三分。",
            0,
            0,
            -1,
            4,
            false,
        ));
    r.push(simple(
            "ex_10",
            "一名杂役在溪边捡到碎银，原封不动交给司库，掌门当众嘉许。",
            1,
            18,
            4,
            0,
            true,
        ));
    r.push(simple(
            "ex_11",
            "附近州县开庙会，弟子们轮流下山采买，外门仓库添了不少日用之物。",
            1,
            -20,
            4,
            0,
            true,
        ));
    r.push(simple(
            "ex_12",
            "江湖小报误传掌门闭关仙逝，山门前竟来了几拨吊客，令人哭笑不得。",
            -1,
            12,
            2,
            0,
            false,
        ));
    proof {
        assert(r@.map_values(|e: RandomEvent| event_view(e)) =~= expanded_table());
    }
    r
}

/// Happenings of the rivers and lakes; their texts name no figures.
pub open spec fn jianghu_ids() -> Seq<Seq<char>> {
    seq!["jh_01"@, "jh_02"@, "jh_03"@, "jh_04"@, "jh_05"@, "jh_06"@, "jh_07"@, "jh_08"@, "jh_09"@, "jh_10"@, "jh_11"@, "jh_12"@]
}

/// The happenings of the rivers and lakes, in order.
pub open spec fn jianghu_table() -> Seq<(Seq<char>, Seq<char>, EffectView, bool)> {
    seq![
        ("jh_01"@, "邻派遣使来谒，言语间颇有试探之意。掌门好言相待，使者惭而退。"@, (Some(3i32), None, Some(2i32), None, None, None, None, None), true),
        ("jh_02"@, "邻派率众来犯，声称本派侵占了他们的采药之地。一场恶斗，各有损伤。"@, (Some(-2i32), Some(-30i32), Some(-3i32), Some(8i32), None, None, None, None), false),
        ("jh_03"@, "朝廷特使到访，说圣上听闻本派侠名，特赐「侠义之门」匾额，并有丰厚赏赐。"@, (Some(8i32), Some(100i32), Some(5i32), None, None, None, None, None), true),
        ("jh_04"@, "江湖豪杰数人慕名来投，愿意拜入本派门下。掌门大喜，设宴款待。"@, (Some(2i32), None, Some(3i32), None, Some(2i32), None, None, None), true),
        ("jh_05"@, "山贼下山劫掠，洗了山脚的村子。掌门率弟子连夜追击，剿灭匪首。"@, (Some(5i32), Some(40i32), Some(2i32), None, None, None, None, None), true),
        ("jh_06"@, "江湖传言本派藏有上古秘笈，各路宵小蠢蠢欲动。掌门连夜布防，一夜不得安寝。"@, (Some(-1i32), None, Some(-2i32), Some(5i32), None, None, None, None), false),
        ("jh_07"@, "一位云游僧人在山门盘桓数日，临行前留下一卷残缺心法。"@, (Some(1i32), None, Some(1i32), None, None, Some("manual"@), None, None), true),
        ("jh_08"@, "魔教余孽在附近作乱，各大派约请本派共商讨魔大计。掌门率精锐前往会盟。"@, (Some(6i32), Some(-20i32), Some(3i32), Some(10i32), None, None, None, None), true),
        ("jh_09"@, "本派弟子在镇上酒楼与人争执，失手伤了人。掌门亲赴赔礼，花费不少。"@, (Some(-3i32), Some(-50i32), Some(-1i32), None, None, None, None, None), false),
        ("jh_10"@, "官府张榜悬赏江洋大盗，掌门遣弟子前往缉拿。苦战数日，终将贼人擒获。"@, (Some(4i32), Some(80i32), Some(4i32), Some(8i32), None, None, None, None), true),
        ("jh_11"@, "邻派掌门暴毙，其门下弟子怀疑是本派所为。江湖上议论纷纷。"@, (Some(-5i32), None, Some(-3i32), None, None, None, None, None), false),
        ("jh_12"@, "西域异人携奇珍异宝路过本地，掌门以礼相待，宾主尽欢。异人临别赠以珍奇药材。"@, (Some(2i32), Some(60i32), Some(1i32), None, None, None, None, None), true),
    ]
}

/// Happenings of the rivers and lakes; their texts name no figures.
pub fn jianghu_events() -> (r: Vec<RandomEvent>)
    ensures
        r@.map_values(|e: RandomEvent| event_view(e)) == jianghu_table(),
        r@.len() == jianghu_ids().len(),
        forall|i: int| 0 <= i < r@.len() ==> (#[trigger] r@[i]).id@ == jianghu_ids()[i],
{
    let mut r: Vec<RandomEvent> = Vec::new();
    r.push(RandomEvent {
            id: String::from_str("jh_01"),
            text: String::from_str("邻派遣使来谒，言语间颇有试探之意。掌门好言相待，使者惭而退。"),
            effect: EventEffect {
                prestige: Some(3),
                morale: Some(2),
                silver: None,
                injury: None,
                free_recruit: None,
                special: None,
                loyalty_loss: None,
                loyalty_change: None,
            },
            good: true,
        });
    r.push(RandomEvent {
            id: String::from_str("jh_02"),
            text: String::from_str("邻派率众来犯，声称本派侵占了他们的采药之地。一场恶斗，各有损伤。"),
            effect: EventEffect {
                prestige: Some(-2),
                morale: Some(-3),
                silver: Some(-30),
                injury: Some(8),
                free_recruit: None,
                special: None,
                loyalty_loss: None,
                loyalty_change: None,
            },
            good: false,
        });
    r.push(RandomEvent {
            id: String::from_str("jh_03"),
            text: String::from_str("朝廷特使到访，说圣上听闻本派侠名，特赐「侠义之门」匾额，并有丰厚赏赐。"),
            effect: EventEffect {
                prestige: Some(8),
                silver: Some(100),
                morale: Some(5),
                injury: None,
                free_recruit: None,
                special: None,
                loyalty_loss: None,
                loyalty_change: None,
            },
            good: true,
        });
    r.push(RandomEvent {
            id: String::from_str("jh_04"),
            text: String::from_str("江湖豪杰数人慕名来投，愿意拜入本派门下。掌门大喜，设宴款待。"),
            effect: EventEffect {
                prestige: Some(2),
                morale: Some(3),
                silver: None,
                injury: None,
                free_recruit: Some(2),
                special: None,
                loyalty_loss: None,
                loyalty_change: None,
            },
            good: true,
        });
    r.push(RandomEvent {
            id: String::from_str("jh_05"),
            text: String::from_str("山贼下山劫掠，洗了山脚的村子。掌门率弟子连夜追击，剿灭匪首。"),
            effect: EventEffect {
                prestige: Some(5),
                silver: Some(40),
                morale: Some(2),
                injury: None,
                free_recruit: None,
                special: None,
                loyalty_loss: None,
                loyalty_change: None,
            },
            good: true,
        });
    r.push(RandomEvent {
            id: String::from_str("jh_06"),
            text: String::from_str("江湖传言本派藏有上古秘笈，各路宵小蠢蠢欲动。掌门连夜布防，一夜不得安寝。"),
            effect: EventEffect {
                prestige: Some(-1),
                morale: Some(-2),
                silver: None,
                injury: Some(5),
                free_recruit: None,
                special: None,
                loyalty_loss: None,
                loyalty_change: None,
            },
            good: false,
        });
    r.push(RandomEvent {
            id: String::from_str("jh_07"),
            text: String::from_str("一位云游僧人在山门盘桓数日，临行前留下一卷残缺心法。"),
            effect: EventEffect {
                prestige: Some(1),
                silver: None,
                morale: Some(1),
                injury: None,
                free_recruit: None,
                special: Some(String::from_str("manual")),
                loyalty_loss: None,
                loyalty_change: None,
            },
            good: true,
        });
    r.push(RandomEvent {
            id: String::from_str("jh_08"),
            text: String::from_str("魔教余孽在附近作乱，各大派约请本派共商讨魔大计。掌门率精锐前往会盟。"),
            effect: EventEffect {
                prestige: Some(6),
                morale: Some(3),
                silver: Some(-20),
                injury: Some(10),
                free_recruit: None,
                special: None,
                loyalty_loss: None,
                loyalty_change: None,
            },
            good: true,
        });
    r.push(RandomEvent {
            id: String::from_str("jh_09"),
            text: String::from_str("本派弟子在镇上酒楼与人争执，失手伤了人。掌门亲赴赔礼，花费不少。"),
            effect: EventEffect {
                prestige: Some(-3),
                silver: Some(-50),
                morale: Some(-1),
                injury: None,
                free_recruit: None,
                special: None,
                loyalty_loss: None,
                loyalty_change: None,
            },
            good: false,
        });
    r.push(RandomEvent {
            id: String::from_str("jh_10"),
            text: String::from_str("官府张榜悬赏江洋大盗，掌门遣弟子前往缉拿。苦战数日，终将贼人擒获。"),
            effect: EventEffect {
                prestige: Some(4),
                silver: Some(80),
                morale: Some(4),
                injury: Some(8),
                free_recruit: None,
                special: None,
                loyalty_loss: None,
                loyalty_change: None,
            },
            good: true,
        });
    r.push(RandomEvent {
            id: String::from_str("jh_11"),
            text: String::from_str("邻派掌门暴毙，其门下弟子怀疑是本派所为。江湖上议论纷纷。"),
            effect: EventEffect {
                prestige: Some(-5),
                morale: Some(-3),
                silver: None,
                injury: None,
                free_recruit: None,
                special: None,
                loyalty_loss: None,
                loyalty_change: None,
            },
            good: false,
        });
    r.push(RandomEvent {
            id: String::from_str("jh_12"),
            text: String::from_str("西域异人携奇珍异宝路过本地，掌门以礼相待，宾主尽欢。异人临别赠以珍奇药材。"),
            effect: EventEffect {
                prestige: Some(2),
                morale: Some(1),
                silver: Some(60),
                injury: None,
                free_recruit: None,
                special: None,
                loyalty_loss: None,
                loyalty_change: None,
            },
            good: true,
        });
    proof {
        assert(r@.map_values(|e: RandomEvent| event_view(e)) =~= jianghu_table());
    }
    r
}

/// Happenings of daily life within the sect.
pub open spec fn mensheng_ids() -> Seq<Seq<char>> {
    seq!["ms_01"@, "ms_02"@, "ms_03"@, "ms_04"@, "ms_05"@, "ms_06"@, "ms_07"@, "ms_08"@, "ms_09"@, "ms_10"@, "ms_11"@, "ms_12"@]
}

/// The happenings of daily life in the sect, in order.
pub open spec fn mensheng_table() -> Seq<(Seq<char>, Seq<char>, EffectView, bool)> {
    seq![
        ("ms_01"@, "近日米价飞涨，厨房采买耗费甚巨。管事来报，本月开销比往常多了三成。"@, (None, Some(-40i32), None, None, None, None, None, None), false),
        ("ms_02"@, "掌门晨起练功，不慎扭了腰。敷了药膏，将养数日方见好转。"@, (None, None, Some(-1i32), Some(5i32), None, None, None, None), false),
        ("ms_03"@, "连日暴雨，练功场的木桩被大水冲毁大半。弟子们只好在室内演练，颇为憋闷。"@, (None, Some(-30i32), Some(-2i32), None, None, None, None, None), false),
        ("ms_04"@, "掌门半夜观星，忽有所悟，对武学之道有了新的理解。当夜挥毫写下一篇心法。"@, (Some(1i32), None, Some(3i32), None, None, Some("epiphany"@), None, None), true),
        ("ms_05"@, "厨房大娘告老还乡，新来的厨子手艺极差，弟子们怨声载道。掌门只好亲自下厨半月。"@, (None, None, Some(-2i32), Some(3i32), None, None, None, None), false),
        ("ms_06"@, "山后竹林里冒出了一眼温泉，弟子们轮流泡汤，个个神清气爽。"@, (None, None, Some(5i32), Some(-5i32), None, None, None, None), true),
        ("ms_07"@, "两个弟子为了一件小事大打出手，掌门罚二人挑水三月，门派上下引以为戒。"@, (None, None, Some(-3i32), None, None, None, Some(true), None), false),
        ("ms_08"@, "掌门生日，弟子们凑银两买了一坛好酒。月下共饮，其乐融融。"@, (None, Some(-10i32), Some(4i32), None, None, None, None, None), true),
        ("ms_09"@, "库房闹了鼠患，不少药材被啃坏了。管库弟子自责不已，掌门好言宽慰。"@, (None, Some(-20i32), Some(1i32), None, None, None, None, None), false),
        ("ms_10"@, "山下镇子里来了个老郎中，掌门请他上山给弟子们调理身体。众人药后精神焕发。"@, (None, Some(-25i32), Some(3i32), Some(-8i32), None, None, None, None), true),
        ("ms_11"@, "一位弟子的家人来山探望，掌门准了半月探亲假。门中上下颇有归家之思。"@, (None, None, Some(-1i32), None, None, None, None, Some(true)), false),
        ("ms_12"@, "掌门整理旧物，从师父遗留的木箱中发现一封书信，内附银票若干。师父在天之灵，仍挂念着本派。"@, (Some(1i32), Some(150i32), Some(6i32), None, None, None, None, None), true),
    ]
}

/// Happenings of daily life within the sect.
pub fn mensheng_events() -> (r: Vec<RandomEvent>)
    ensures
        r@.map_values(|e: RandomEvent| event_view(e)) == mensheng_table(),
        r@.len() == mensheng_ids().len(),
        forall|i: int| 0 <= i < r@.len() ==> (#[trigger] r@[i]).id@ == mensheng_ids()[i],
{
    let mut r: Vec<RandomEvent> = Vec::new();
    r.push(RandomEvent { id: String::from_str("ms_01"), text: String::from_str("近日米价飞涨，厨房采买耗费甚巨。管事来报，本月开销比往常多了三成。"), effect: EventEffect { prestige: None, morale: None, silver: Some(-40), injury: None, free_recruit: None, special: None, loyalty_loss: None, loyalty_change: None }, good: false });
    r.push(RandomEvent { id: String::from_str("ms_02"), text: String::from_str("掌门晨起练功，不慎扭了腰。敷了药膏，将养数日方见好转。"), effect: EventEffect { prestige: None, morale: Some(-1), silver: None, injury: Some(5), free_recruit: None, special: None, loyalty_loss: None, loyalty_change: None }, good: false });
    r.push(RandomEvent { id: String::from_str("ms_03"), text: String::from_str("连日暴雨，练功场的木桩被大水冲毁大半。弟子们只好在室内演练，颇为憋闷。"), effect: EventEffect { prestige: None, morale: Some(-2), silver: Some(-30), injury: None, free_recruit: None, special: None, loyalty_loss: None, loyalty_change: None }, good: false });
    r.push(RandomEvent { id: String::from_str("ms_04"), text: String::from_str("掌门半夜观星，忽有所悟，对武学之道有了新的理解。当夜挥毫写下一篇心法。"), effect: EventEffect { prestige: Some(1), morale: Some(3), silver: None, injury: None, free_recruit: None, special: Some(String::from_str("epiphany")), loyalty_loss: None, loyalty_change: None }, good: true });
    r.push(RandomEvent { id: String::from_str("ms_05"), text: String::from_str("厨房大娘告老还乡，新来的厨子手艺极差，弟子们怨声载道。掌门只好亲自下厨半月。"), effect: EventEffect { prestige: None, morale: Some(-2), silver: None, injury: Some(3), free_recruit: None, special: None, loyalty_loss: None, loyalty_change: None }, good: false });
    r.push(RandomEvent { id: String::from_str("ms_06"), text: String::from_str("山后竹林里冒出了一眼温泉，弟子们轮流泡汤，个个神清气爽。"), effect: EventEffect { prestige: None, morale: Some(5), silver: None, injury: Some(-5), free_recruit: None, special: None, loyalty_loss: None, loyalty_change: None }, good: true });
    r.push(RandomEvent { id: String::from_str("ms_07"), text: String::from_str("两个弟子为了一件小事大打出手，掌门罚二人挑水三月，门派上下引以为戒。"), effect: EventEffect { prestige: None, morale: Some(-3), silver: None, injury: None, free_recruit: None, special: None, loyalty_loss: Some(true), loyalty_change: None }, good: false });
    r.push(RandomEvent { id: String::from_str("ms_08"), text: String::from_str("掌门生日，弟子们凑银两买了一坛好酒。月下共饮，其乐融融。"), effect: EventEffect { prestige: None, morale: Some(4), silver: Some(-10), injury: None, free_recruit: None, special: None, loyalty_loss: None, loyalty_change: None }, good: true });
    r.push(RandomEvent { id: String::from_str("ms_09"), text: String::from_str("库房闹了鼠患，不少药材被啃坏了。管库弟子自责不已，掌门好言宽慰。"), effect: EventEffect { prestige: None, morale: Some(1), silver: Some(-20), injury: None, free_recruit: None, special: None, loyalty_loss: None, loyalty_change: None }, good: false });
    r.push(RandomEvent { id: String::from_str("ms_10"), text: String::from_str("山下镇子里来了个老郎中，掌门请他上山给弟子们调理身体。众人药后精神焕发。"), effect: EventEffect { prestige: None, morale: Some(3), silver: Some(-25), injury: Some(-8), free_recruit: None, special: None, loyalty_loss: None, loyalty_change: None }, good: true });
    r.push(RandomEvent { id: String::from_str("ms_11"), text: String::from_str("一位弟子的家人来山探望，掌门准了半月探亲假。门中上下颇有归家之思。"), effect: EventEffect { prestige: None, morale: Some(-1), silver: None, injury: None, free_recruit: None, special: None, loyalty_loss: None, loyalty_change: Some(true) }, good: false });
    r.push(RandomEvent { id: String::from_str("ms_12"), text: String::from_str("掌门整理旧物，从师父遗留的木箱中发现一封书信，内附银票若干。师父在天之灵，仍挂念着本派。"), effect: EventEffect { prestige: Some(1), morale: Some(6), silver: Some(150), injury: None, free_recruit: None, special: None, loyalty_loss: None, loyalty_change: None }, good: true });
    proof {
        assert(r@.map_values(|e: RandomEvent| event_view(e)) =~= mensheng_table());
    }
    r
}

/// One happening for each season.
pub open spec fn seasonal_ids() -> Seq<Seq<char>> {
    seq!["season_spring"@, "season_summer"@, "season_autumn"@, "season_winter"@]
}

/// The happenings of the four seasons, in order.
pub open spec fn seasonal_table() -> Seq<(Seq<char>, Seq<char>, EffectView, bool)> {
    seq![
        ("season_spring"@, "三月采茶时节，门中杂役背上竹篓进山采青。今年的新茶比往年肥厚，炒制后满院茶香，弟子们分饮之余，还用茶饼换了邻镇几石白米。"@, (None, Some(5i32), Some(3i32), None, None, None, None, None), true),
        ("season_summer"@, "酷暑难当，演武场石板晒得烫脚。掌门命弟子寅时起身，趁晨凉练功，午间在藏经阁避暑研读。一月下来，门中拳脚比往常精进了几分。"@, (Some(1i32), None, Some(2i32), None, None, None, None, None), true),
        ("season_autumn"@, "秋社之日，掌门在山门外摆下石锁、箭靶与擂台，邀四邻壮士前来较技。弟子们与乡民切磋一日，虽未尽全力，却也展了本门的威风，四邻心服，送来不少秋收贺礼。"@, (Some(4i32), Some(10i32), Some(3i32), None, None, None, None, None), true),
        ("season_winter"@, "数九寒冬，山中滴水成冰。掌门下令门中上下晨起先打熬气血一个时辰方可进食。初时众人叫苦不迭，半月后却人人都觉得筋骨比入冬前强韧了不少。"@, (None, Some(-3i32), Some(1i32), None, None, None, None, None), true),
    ]
}

/// One happening for each season.
pub fn seasonal_events() -> (r: Vec<RandomEvent>)
    ensures
        r@.map_values(|e: RandomEvent| event_view(e)) == seasonal_table(),
        r@.len() == seasonal_ids().len(),
        forall|i: int| 0 <= i < r@.len() ==> (#[trigger] r@[i]).id@ == seasonal_ids()[i],
{
    let mut r: Vec<RandomEvent> = Vec::new();
    r.push(RandomEvent {
            id: String::from_str("season_spring"),
            text: String::from_str("三月采茶时节，门中杂役背上竹篓进山采青。今年的新茶比往年肥厚，炒制后满院茶香，弟子们分饮之余，还用茶饼换了邻镇几石白米。"),
            effect: EventEffect {
                morale: Some(3),
                silver: Some(5),
                ..EventEffect::none()
            },
            good: true,
        });
    r.push(RandomEvent {
            id: String::from_str("season_summer"),
            text: String::from_str("酷暑难当，演武场石板晒得烫脚。掌门命弟子寅时起身，趁晨凉练功，午间在藏经阁避暑研读。一月下来，门中拳脚比往常精进了几分。"),
            effect: EventEffect {
                morale: Some(2),
                prestige: Some(1),
                ..EventEffect::none()
            },
            good: true,
        });
    r.push(RandomEvent {
            id: String::from_str("season_autumn"),
            text: String::from_str("秋社之日，掌门在山门外摆下石锁、箭靶与擂台，邀四邻壮士前来较技。弟子们与乡民切磋一日，虽未尽全力，却也展了本门的威风，四邻心服，送来不少秋收贺礼。"),
            effect: EventEffect {
                prestige: Some(4),
                silver: Some(10),
                morale: Some(3),
                ..EventEffect::none()
            },
            good: true,
        });
    r.push(RandomEvent {
            id: String::from_str("season_winter"),
            text: String::from_str("数九寒冬，山中滴水成冰。掌门下令门中上下晨起先打熬气血一个时辰方可进食。初时众人叫苦不迭，半月后却人人都觉得筋骨比入冬前强韧了不少。"),
            effect: EventEffect {
                silver: Some(-3),
                morale: Some(1),
                ..EventEffect::none()
            },
            good: true,
        });
    proof {
        assert(r@.map_values(|e: RandomEvent| event_view(e)) =~= seasonal_table());
    }
    r
}

/// Sum of the first `n` weights.
pub open spec fn weight_prefix(ws: Seq<u32>, n: int) -> int
    decreases n,
{
    if n <= 0 {
        0
    } else {
        weight_prefix(ws, n - 1) + ws[n - 1]
    }
}

/// Sum of all weights.
pub open spec fn weight_total(ws: Seq<u32>) -> int {
    weight_prefix(ws, ws.len() as int)
}

/// A roll of `roll` lands on position `i`: the weights before `i` sum to at
/// most `roll`, and together with the weight of `i` to more than `roll`.
pub open spec fn lands_at(ws: Seq<u32>, roll: int, i: int) -> bool {
    &&& 0 <= i < ws.len()
    &&& weight_prefix(ws, i) <= roll < weight_prefix(ws, i + 1)
}

/// Partial sums never decrease.
pub proof fn lemma_prefix_monotone(ws: Seq<u32>, a: int, b: int)
    requires
        0 <= a <= b <= ws.len(),
    ensures
        weight_prefix(ws, a) <= weight_prefix(ws, b),
    decreases b - a,
{
    if a < b {
        lemma_prefix_monotone(ws, a, b - 1);
    }
}

/// A roll lands on at most one position.
pub proof fn lemma_landing_unique(ws: Seq<u32>, roll: int, i: int, j: int)
    requires
        lands_at(ws, roll, i),
        lands_at(ws, roll, j),
    ensures
        i == j,
{
    if i < j {
        lemma_prefix_monotone(ws, i + 1, j);
    } else if j < i {
        lemma_prefix_monotone(ws, j + 1, i);
    }
}

/// Sum of all weights.
pub fn total_weight(weights: &Vec<u32>) -> (t: u64)
    requires
        weight_total(weights@) <= u64::MAX,
    ensures
        t == weight_total(weights@),
{
    let mut t: u64 = 0;
    let mut k: usize = 0;
    while k < weights.len()
        invariant
            k <= weights@.len(),
            t == weight_prefix(weights@, k as int),
            weight_total(weights@) <= u64::MAX,
        decreases weights@.len() - k,
    {
        proof {
            lemma_prefix_monotone(weights@, k as int + 1, weights@.len() as int);
        }
        t = t + weights[k] as u64;
        k = k + 1;
    }
    t
}

/// The position a roll below the total weight lands on: walk the weights,
/// taking each one off the roll until the roll falls inside one.
pub fn weighted_position(weights: &Vec<u32>, roll: u64) -> (i: usize)
    requires
        roll < weight_total(weights@),
    ensures
        lands_at(weights@, roll as int, i as int),
{
    let mut rest: u64 = roll;
    let mut k: usize = 0;
    while k < weights.len()
        invariant
            k <= weights@.len(),
            weight_prefix(weights@, k as int) <= roll,
            rest == roll - weight_prefix(weights@, k as int),
            roll < weight_total(weights@),
        decreases weights@.len() - k,
    {
        if rest < weights[k] as u64 {
            return k;
        }
        rest = rest - weights[k] as u64;
        k = k + 1;
    }
    0
}

/// Weights of a pool of templates `ids` for `sect`, each theme weight scaled
/// by the pool's own weight `scale`.
pub open spec fn pool_weights(sect: SectState, ids: Seq<Seq<char>>, scale: int) -> Seq<u32> {
    Seq::new(ids.len(), |i: int| (scale * theme_weight(sect.moral_direction, sect.policy, event_tag_set(ids[i]))) as u32)
}

/// Weights of the pool's templates for `sect`, scaled by `scale`.
fn weigh_pool(sect: &SectState, ids: Ghost<Seq<Seq<char>>>, templates: &Vec<RandomEvent>, scale: u32) -> (w: Vec<u32>)
    requires
        templates@.len() == ids@.len(),
        forall|i: int| 0 <= i < ids@.len() ==> (#[trigger] templates@[i]).id@ == ids@[i],
        1 <= scale <= 100,
    ensures
        w@ == pool_weights(*sect, ids@, scale as int),
{
    let mut w: Vec<u32> = Vec::new();
    let mut k: usize = 0;
    while k < templates.len()
        invariant
            k <= templates@.len(),
            templates@.len() == ids@.len(),
            forall|i: int| 0 <= i < ids@.len() ==> (#[trigger] templates@[i]).id@ == ids@[i],
            1 <= scale <= 100,
            w@ == pool_weights(*sect, ids@, scale as int).take(k as int),
        decreases templates@.len() - k,
    {
        let base = event_weight(sect, templates[k].id.as_str());
        assert(scale * base <= 22000) by (nonlinear_arith)
            requires
                1 <= scale <= 100,
                base <= 220,
        ;
        w.push(scale * base);
        k = k + 1;
        proof {
            assert(w@ =~= pool_weights(*sect, ids@, scale as int).take(k as int));
        }
    }
    proof {
        assert(w@ =~= pool_weights(*sect, ids@, scale as int));
    }
    w
}


/// A theme weight lies between 10 and 220.
pub proof fn lemma_theme_weight_bounds(moral: MoralDirection, policy: SectPolicy, t: EventTags)
    ensures
        10 <= theme_weight(moral, policy, t) <= 220,
{
}

/// Each weight of a pool lies between 10 and 220 times its scale.
pub proof fn lemma_pool_weight_bounds(sect: SectState, ids: Seq<Seq<char>>, scale: int, i: int)
    requires
        1 <= scale <= 100,
        0 <= i < ids.len(),
    ensures
        10 * scale <= pool_weights(sect, ids, scale)[i] as int <= 220 * scale,
        pool_weights(sect, ids, scale)[i] as int == scale * theme_weight(sect.moral_direction, sect.policy, event_tag_set(ids[i])),
{
    lemma_theme_weight_bounds(sect.moral_direction, sect.policy, event_tag_set(ids[i]));
    let tw = theme_weight(sect.moral_direction, sect.policy, event_tag_set(ids[i]));
    assert(10 * scale <= scale * tw <= 220 * scale) by (nonlinear_arith)
        requires
            1 <= scale <= 100,
            10 <= tw <= 220,
    ;
}

/// With every weight between 1 and 22000, the first `n` weights sum to
/// between `n` and `22000 * n`.
pub proof fn lemma_prefix_bounds(ws: Seq<u32>, n: int)
    requires
        0 <= n <= ws.len(),
        forall|i: int| 0 <= i < ws.len() ==> 1 <= #[trigger] ws[i] <= 22000,
    ensures
        n <= weight_prefix(ws, n) <= 22000 * n,
    decreases n,
{
    if n > 0 {
        lemma_prefix_bounds(ws, n - 1);
    }
}

/// Weights of the interactive events for `sect`.
pub open spec fn interactive_weights(sect: SectState) -> Seq<u32> {
    pool_weights(sect, interactive_ids(), 1)
}

/// The ordinary happenings in draw order: rivers and lakes, daily life,
/// everyday news, the seasons.
pub open spec fn random_ids() -> Seq<Seq<char>> {
    jianghu_ids() + mensheng_ids() + expanded_ids() + seasonal_ids()
}

/// Every ordinary happening, pool after pool.
pub open spec fn random_table() -> Seq<(Seq<char>, Seq<char>, EffectView, bool)> {
    jianghu_table() + mensheng_table() + expanded_table() + seasonal_table()
}

/// Weights of the ordinary happenings for `sect`: the four pools weigh
/// 35, 30, 20 and 15, each scaled by the happening's theme weight.
pub open spec fn random_weights(sect: SectState) -> Seq<u32> {
    pool_weights(sect, jianghu_ids(), 35) + pool_weights(sect, mensheng_ids(), 30)
        + pool_weights(sect, expanded_ids(), 20) + pool_weights(sect, seasonal_ids(), 15)
}

/// The total weights of both draws are positive and small.
pub proof fn lemma_draw_totals(sect: SectState)
    ensures
        0 < weight_total(interactive_weights(sect)) <= 22000 * 8,
        0 < weight_total(random_weights(sect)) <= 22000 * 40,
{
    let iw = interactive_weights(sect);
    assert forall|i: int| 0 <= i < iw.len() implies 1 <= #[trigger] iw[i] <= 22000 by {
        lemma_pool_weight_bounds(sect, interactive_ids(), 1, i);
    }
    lemma_prefix_bounds(iw, iw.len() as int);
    let rw = random_weights(sect);
    assert forall|i: int| 0 <= i < rw.len() implies 1 <= #[trigger] rw[i] <= 22000 by {
        if i < 12 {
            lemma_pool_weight_bounds(sect, jianghu_ids(), 35, i);
        } else if i < 24 {
            lemma_pool_weight_bounds(sect, mensheng_ids(), 30, i - 12);
        } else if i < 36 {
            lemma_pool_weight_bounds(sect, expanded_ids(), 20, i - 24);
        } else {
            lemma_pool_weight_bounds(sect, seasonal_ids(), 15, i - 36);
        }
    }
    lemma_prefix_bounds(rw, rw.len() as int);
}

/// Weights of the interactive events for `sect`, in pool order.
fn weigh_interactive(sect: &SectState, events: &Vec<PendingWorldEvent>) -> (weights: Vec<u32>)
    requires
        events@.len() == interactive_ids().len(),
        forall|i: int| 0 <= i < events@.len() ==> (#[trigger] events@[i]).id@ == interactive_ids()[i],
    ensures
        weights@ == interactive_weights(*sect),
{
    let mut weights: Vec<u32> = Vec::new();
    let mut k: usize = 0;
    while k < events.len()
        invariant
            k <= events@.len(),
            events@.len() == interactive_ids().len(),
            forall|i: int| 0 <= i < events@.len() ==> (#[trigger] events@[i]).id@ == interactive_ids()[i],
            weights@ == interactive_weights(*sect).take(k as int),
        decreases events@.len() - k,
    {
        let w = event_weight(sect, events[k].id.as_str());
        weights.push(w);
        k = k + 1;
        proof {
            assert(weights@ =~= interactive_weights(*sect).take(k as int));
        }
    }
    proof {
        assert(weights@ =~= interactive_weights(*sect));
    }
    weights
}

/// The interactive event that a roll of `roll` lands on for `sect`.
pub fn interactive_event_at_roll(sect: &SectState, roll: u64) -> (e: PendingWorldEvent)
    requires
        roll < weight_total(interactive_weights(*sect)),
    ensures
        exists|i: int| {
            &&& lands_at(interactive_weights(*sect), roll as int, i)
            &&& e.id@ == interactive_ids()[i]
            &&& e.category@ == interactive_categories()[i]
            &&& e.choices@.len() == 2
            &&& pending_view(e) == interactive_table()[i]
        },
{
    let mut events = interactive_events();
    let weights = weigh_interactive(sect, &events);
    let i = weighted_position(&weights, roll);
    proof {
        assert(events@.map_values(|e: PendingWorldEvent| pending_view(e))[i as int] == pending_view(events@[i as int]));
    }
    events.remove(i)
}

/// An interactive event for `sect`, drawn with the sect's weights.
pub fn trigger_interactive_event(rng: &mut StdRng, sect: &SectState) -> (e: PendingWorldEvent)
    ensures
        exists|roll: int, i: int| {
            &&& 0 <= roll < weight_total(interactive_weights(*sect))
            &&& lands_at(interactive_weights(*sect), roll, i)
            &&& e.id@ == interactive_ids()[i]
            &&& e.category@ == interactive_categories()[i]
            &&& e.choices@.len() == 2
            &&& pending_view(e) == interactive_table()[i]
        },
{
    proof {
        lemma_draw_totals(*sect);
    }
    let events = interactive_events();
    let weights = weigh_interactive(sect, &events);
    let total = total_weight(&weights);
    let roll = roll_below(rng, total);
    interactive_event_at_roll(sect, roll)
}

/// The ordinary happening that a roll of `roll` lands on for `sect`.
pub fn random_event_at_roll(sect: &SectState, roll: u64) -> (e: RandomEvent)
    requires
        roll < weight_total(random_weights(*sect)),
    ensures
        exists|i: int| lands_at(random_weights(*sect), roll as int, i) && e.id@ == random_ids()[i] && event_view(e) == random_table()[i],
{
    let mut pool = jianghu_events();
    let mut weights = weigh_pool(sect, Ghost(jianghu_ids()), &pool, 35);
    let mut more = mensheng_events();
    let mut more_weights = weigh_pool(sect, Ghost(mensheng_ids()), &more, 30);
    pool.append(&mut more);
    weights.append(&mut more_weights);
    let mut more = expanded_events();
    let mut more_weights = weigh_pool(sect, Ghost(expanded_ids()), &more, 20);
    pool.append(&mut more);
    weights.append(&mut more_weights);
    let mut more = seasonal_events();
    let mut more_weights = weigh_pool(sect, Ghost(seasonal_ids()), &more, 15);
    pool.append(&mut more);
    weights.append(&mut more_weights);
    proof {
        assert(weights@ =~= random_weights(*sect));
        assert forall|i: int| 0 <= i < pool@.len() implies (#[trigger] pool@[i]).id@ == random_ids()[i] by {
        }
        assert(pool@.map_values(|e: RandomEvent| event_view(e)) =~= random_table());
    }
    let i = weighted_position(&weights, roll);
    proof {
        assert(pool@.map_values(|e: RandomEvent| event_view(e))[i as int] == event_view(pool@[i as int]));
    }
    pool.remove(i)
}

/// An ordinary happening for `sect`, drawn with the pools' and the sect's weights.
pub fn trigger_random_event(rng: &mut StdRng, sect: &SectState) -> (e: RandomEvent)
    ensures
        exists|roll: int, i: int| {
            &&& 0 <= roll < weight_total(random_weights(*sect))
            &&& lands_at(random_weights(*sect), roll, i)
            &&& e.id@ == random_ids()[i]
            &&& event_view(e) == random_table()[i]
        },
{
    proof {
        lemma_draw_totals(*sect);
    }
    let total = random_total(sect);
    let roll = roll_below(rng, total);
    random_event_at_roll(sect, roll)
}

/// Sum of the weights of the ordinary happenings for `sect`.
fn random_total(sect: &SectState) -> (t: u64)
    ensures
        t == weight_total(random_weights(*sect)),
{
    proof {
        lemma_draw_totals(*sect);
    }
    let mut weights = weigh_pool(sect, Ghost(jianghu_ids()), &jianghu_events(), 35);
    let mut more = weigh_pool(sect, Ghost(mensheng_ids()), &mensheng_events(), 30);
    weights.append(&mut more);
    let mut more = weigh_pool(sect, Ghost(expanded_ids()), &expanded_events(), 20);
    weights.append(&mut more);
    let mut more = weigh_pool(sect, Ghost(seasonal_ids()), &seasonal_events(), 15);
    weights.append(&mut more);
    proof {
        assert(weights@ =~= random_weights(*sect));
    }
    total_weight(&weights)
}

} // verus!
