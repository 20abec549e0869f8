//! Loading an older save: the player's sect is filled in from the older
//! top-level fields, its roster, halls, stores and lineage are normalized.
use vstd::prelude::*;
use crate::disciple::{hydrate_v2_disciple, hydrated, hydration_fits};
use crate::game::GameState;
use crate::lineage::{normalize_master_assignments, opt_text};
use crate::model::Disciple;
use crate::sect::{
    hall_ids, hall_kind, legacy_wound_medicine, list_contains, normalize_buildings,
    normalize_elder_assignments, normalize_inventory, sync_legacy_fields, text_listed, wound_medicine,
};
use crate::country::clamp_int;
use crate::text::text_eq;

verus! {

/// The list with `id` put first when it was missing.
pub open spec fn with_leading(list: Seq<String>, id: Seq<char>, new_list: Seq<String>) -> bool {
    if text_listed(list, id) {
        new_list == list
    } else {
        &&& new_list.len() == list.len() + 1
        &&& new_list[0]@ == id
        &&& new_list.skip(1) == list
    }
}

/// Whether the sect still carries the placeholder name of a fresh save.
pub open spec fn unnamed(name: Seq<char>) -> bool {
    name == "无名派"@ || name.len() == 0
}

fn ensure_leading(list: &mut Vec<String>, id: &str)
    ensures
        with_leading(old(list)@, id@, final(list)@),
{
    if !list_contains(list, id) {
        list.insert(0, id.to_owned());
        proof {
            assert(list@.skip(1) =~= old(list)@);
        }
    }
}

/// The arithmetic of loading fits in `i32`.
pub open spec fn load_fits(state: GameState) -> bool {
    &&& forall|i: int| 0 <= i < state.disciples@.len() ==> hydration_fits(#[trigger] state.disciples@[i])
    &&& i32::MIN <= state.sect.inventory.amount(wound_medicine()) + state.sect.inventory.amount(legacy_wound_medicine()) <= i32::MAX
}

/// Fills the player's sect in from an older save. A sect still unnamed takes
/// `sect_name` and the older prestige, silver and morale. Every roster member
/// is brought up to date and belongs to the player's sect; the seven halls,
/// the stores and the elder posts are normalized; the sect's own knowledge art
/// leads the public library and the learned list; invalid master links are
/// dropped; the older mirror fields follow the sect.
pub fn hydrate_player_sect(state: &mut GameState, sect_name: &str)
    requires
        load_fits(*old(state)),
    ensures
        unnamed(old(state).sect.name@) ==> {
            &&& final(state).sect.name@ == sect_name@
            &&& final(state).sect.attributes.prestige == old(state).prestige
            &&& final(state).sect.attributes.silver == old(state).silver
            &&& final(state).sect.attributes.morale == old(state).morale
        },
        !unnamed(old(state).sect.name@) ==> {
            &&& final(state).sect.name@ == old(state).sect.name@
            &&& final(state).sect.attributes == old(state).sect.attributes
        },
        final(state).sect.id@ == old(state).sect.id@,
        final(state).disciples@.len() == old(state).disciples@.len(),
        forall|i: int| 0 <= i < old(state).disciples@.len() ==> {
            let d = #[trigger] final(state).disciples@[i];
            &&& opt_text(d.sect_id) == Some(old(state).sect.id@)
            &&& (d.master_id is None || d.master_id == old(state).disciples@[i].master_id)
            &&& d == (Disciple { sect_id: d.sect_id, proficiencies: d.proficiencies, master_id: d.master_id, ..hydrated(old(state).disciples@[i]) })
        },
        final(state).npc_disciples@.len() == old(state).npc_disciples@.len(),
        final(state).sect.buildings@.len() == 7,
        forall|i: int| 0 <= i < 7 ==> {
            &&& (#[trigger] final(state).sect.buildings@[i]).id@ == hall_ids()[i]
            &&& final(state).sect.buildings@[i].kind == hall_kind(i)
        },
        !final(state).sect.inventory.has(legacy_wound_medicine()),
        final(state).sect.inventory.has("粮秣"@),
        final(state).sect.inventory.has("精铁"@),
        with_leading(old(state).sect.public_books@, "player_knowledge"@, final(state).sect.public_books@),
        with_leading(old(state).martial_arts_learned@, "player_knowledge"@, final(state).martial_arts_learned@),
        final(state).prestige == clamp_int(final(state).sect.attributes.prestige as int, 0, 1000),
        final(state).silver == (if final(state).sect.attributes.silver < 0 { 0 } else { final(state).sect.attributes.silver as int }),
        final(state).morale == clamp_int(final(state).sect.attributes.morale as int, 0, 100),
{
    proof {
        reveal_strlit("");
        if state.sect.name@.len() == 0 {
            assert(state.sect.name@ =~= ""@);
        }
    }
    if text_eq(state.sect.name.as_str(), "无名派") || text_eq(state.sect.name.as_str(), "") {
        state.sect.name = sect_name.to_owned();
        state.sect.attributes.prestige = state.prestige;
        state.sect.attributes.silver = state.silver;
        state.sect.attributes.morale = state.morale;
    }
    let ghost named = *state;
    let mut i: usize = 0;
    while i < state.disciples.len()
        invariant
            i <= state.disciples@.len(),
            state.disciples@.len() == named.disciples@.len(),
            state.sect == named.sect,
            forall|j: int| 0 <= j < named.disciples@.len() ==> hydration_fits(#[trigger] named.disciples@[j]),
            forall|j: int| i <= j < named.disciples@.len() ==> #[trigger] state.disciples@[j] == named.disciples@[j],
            forall|j: int| 0 <= j < i ==> {
                let d = #[trigger] state.disciples@[j];
                &&& opt_text(d.sect_id) == Some(named.sect.id@)
                &&& d == (Disciple { sect_id: d.sect_id, proficiencies: d.proficiencies, ..hydrated(named.disciples@[j]) })
            },
            *state == (GameState { disciples: state.disciples, ..named }),
        decreases named.disciples@.len() - i,
    {
        hydrate_v2_disciple(&mut state.disciples[i]);
        let id = state.sect.id.clone();
        state.disciples[i].sect_id = Some(id);
        i = i + 1;
    }
    normalize_buildings(&mut state.sect);
    normalize_inventory(&mut state.sect);
    normalize_elder_assignments(&mut state.sect, &state.disciples);
    ensure_leading(&mut state.sect.public_books, "player_knowledge");
    ensure_leading(&mut state.martial_arts_learned, "player_knowledge");
    normalize_master_assignments(&mut state.disciples);
    normalize_master_assignments(&mut state.npc_disciples);
    sync_legacy_fields(state);
}

} // verus!
