//! A month of hall elders' duties: every hall with an elder and a chosen
//! duty has it carried out, in hall order.
use vstd::prelude::*;
use crate::elder_duties::{
    elder_duty_outcome, execute_elder_duty, arbitrated, audited, brewed, comprehended, corresponded, drawn_recipe, drilled_roster, duty_effect, elder_recruited,
    expanded, finished, instructed, maintained, maintained_halls, purchased, scouted, stock_moved, supervised_halls, treated,
    arbitration_fits, audit_fits, brew_fits, comprehension_fits, curated, curation_fits, drill_fits, duty_fits, duty_ready,
    effect_fits, expansion_candidates, expansion_fits, expansion_weights, expandables, first_combat_book, lemma_expandables_from,
    lemma_top_bounds, purchase_fits, quantity_of, research_base, scaled, serving, serving_index, top_level,
};
use crate::economy::medicine_label;
use crate::management::level_of;
use crate::event::{weight_prefix, weight_total};
use crate::game::GameState;
use crate::management::halls_modest;
use crate::model::{BuildingKind, Disciple, DiscipleRank};
use crate::sect::{building_index, competence_fits, find_building, Building, SectState};
use rand::rngs::StdRng;

verus! {

/// The most a single scaled output can be.
pub open spec fn max_output() -> int {
    21474836
}

pub proof fn lemma_scaled_bound(b: int, e: int)
    ensures
        1 <= scaled(b, e) <= max_output(),
{
}

/// Every kind of hall.
pub open spec fn all_kinds_fit(d: Disciple) -> bool {
    &&& competence_fits(d, BuildingKind::Practice)
    &&& competence_fits(d, BuildingKind::Scripture)
    &&& competence_fits(d, BuildingKind::Warehouse)
    &&& competence_fits(d, BuildingKind::HerbHall)
    &&& competence_fits(d, BuildingKind::Intelligence)
    &&& competence_fits(d, BuildingKind::Affairs)
    &&& competence_fits(d, BuildingKind::Logistics)
}

/// Room for `k` more duties: whatever `k` duties add to silver, the stores,
/// merit, research and the roster still fits, the halls' levels lie within a
/// million either way and there are at most a thousand halls, and every inner
/// disciple's aptitudes can be weighed for any hall.
pub open spec fn duty_room(s: GameState, k: int) -> bool {
    let room = k * max_output();
    let books = s.sect.public_books@.len() as int;
    &&& k >= 0
    &&& s.sect.attributes.silver + room <= i32::MAX
    &&& forall|key: Seq<char>| #[trigger] s.sect.inventory.amount(key) + room <= i32::MAX
    &&& forall|i: int| 0 <= i < s.disciples@.len() ==> (#[trigger] s.disciples@[i]).merit + room <= i64::MAX
    &&& forall|key: Seq<char>| #[trigger] research_base(s.sect.martial_research.as_map(), key) + room * (books + 1) <= i64::MAX
    &&& s.disciples@.len() + k < usize::MAX
    &&& halls_modest(s.sect)
    &&& forall|i: int| 0 <= i < s.sect.buildings@.len() ==> 0 <= (#[trigger] s.sect.buildings@[i]).level
    &&& s.sect.buildings@.len() <= 1000
    &&& forall|i: int| 0 <= i < s.disciples@.len() && (#[trigger] s.disciples@[i]).rank == DiscipleRank::Inner ==> all_kinds_fit(s.disciples@[i])
}

/// Research after curation stays within what each curated book can gain.
proof fn lemma_curated_bound(m: Map<Seq<char>, i64>, books: Seq<String>, created: Seq<crate::sect::CreatedArt>, g: int, n: int)
    requires
        0 <= n <= books.len(),
        g >= 0,
        forall|k: Seq<char>| #[trigger] research_base(m, k) + n * g <= i64::MAX,
    ensures
        curation_fits(m, books, created, g, n),
        forall|k: Seq<char>| #[trigger] research_base(curated(m, books, created, g, n), k) <= research_base(m, k) + n * g,
        forall|k: Seq<char>| #[trigger] research_base(curated(m, books, created, g, n), k) >= research_base(m, k),
    decreases n,
{
    if n > 0 {
        assert forall|k: Seq<char>| #[trigger] research_base(m, k) + (n - 1) * g <= i64::MAX by {
            assert(research_base(m, k) + n * g <= i64::MAX);
            assert((n - 1) * g <= n * g) by (nonlinear_arith)
                requires
                    g >= 0,
                    n >= 1,
            ;
        }
        lemma_curated_bound(m, books, created, g, n - 1);
        let prev = curated(m, books, created, g, n - 1);
        let b = books[n - 1]@;
        assert(n * g == (n - 1) * g + g) by (nonlinear_arith);
        assert(research_base(prev, b) <= research_base(m, b) + (n - 1) * g);
        assert forall|k: Seq<char>| #[trigger] research_base(curated(m, books, created, g, n), k) <= research_base(m, k) + n * g by {
            assert(research_base(prev, k) <= research_base(m, k) + (n - 1) * g);
        }
        assert forall|k: Seq<char>| #[trigger] research_base(curated(m, books, created, g, n), k) >= research_base(m, k) by {
            assert(research_base(prev, k) >= research_base(m, k));
        }
    }
}

/// Each draw weight of an expansion is at most 2,000,001 when levels lie in
/// `0..=1_000_000`, so a thousand halls weigh within `i32`.
proof fn lemma_expansion_weights_bound(s: GameState)
    requires
        halls_modest(s.sect),
        forall|i: int| 0 <= i < s.sect.buildings@.len() ==> 0 <= (#[trigger] s.sect.buildings@[i]).level,
        s.sect.buildings@.len() <= 1000,
    ensures
        weight_total(expansion_weights(expansion_candidates(s))) <= i32::MAX,
{
    let bs = s.sect.buildings@;
    let ll = level_of(s.sect, "logistics"@);
    let cs = expansion_candidates(s);
    lemma_expandables_from(bs, ll, bs.len() as int);
    let ws = expansion_weights(cs);
    assert forall|j: int| 0 <= j < cs.len() implies 0 <= (#[trigger] cs[j]).level <= 1_000_000 by {
        let i = choose|i: int| 0 <= i < bs.len() && bs[i] == #[trigger] cs[j];
        assert(0 <= bs[i].level <= 1_000_000);
    }
    if cs.len() > 0 {
        lemma_top_bounds(cs, cs.len() as int);
        let w = choose|j: int| 0 <= j < cs.len() && (#[trigger] cs[j]).level == top_level(cs, cs.len() as int);
        assert(cs[w].level <= 1_000_000);
    }
    lemma_prefix_bound(ws, ws.len() as int);
}

proof fn lemma_prefix_bound(ws: Seq<u32>, n: int)
    requires
        0 <= n <= ws.len(),
        ws.len() <= 1000,
        forall|j: int| 0 <= j < ws.len() ==> #[trigger] ws[j] <= 2_000_001,
    ensures
        weight_prefix(ws, n) <= n * 2_000_001,
    decreases n,
{
    if n > 0 {
        lemma_prefix_bound(ws, n - 1);
    }
}

/// With room for at least one more duty, whichever duty is ready fits.
pub proof fn lemma_ready_duty_fits(s: GameState, k: int, building_id: Seq<char>, duty_id: Seq<char>)
    requires
        duty_room(s, k),
        k >= 1,
    ensures
        duty_fits(s, building_id, duty_id),
{
    match duty_ready(s, building_id, duty_id) {
        Err(_) => {},
        Ok((bi, ei, e)) => {
            let room = k * max_output();
            let books = s.sect.public_books@.len() as int;
            assert(room >= max_output()) by (nonlinear_arith)
                requires
                    k >= 1,
                    room == k * max_output(),
            ;
            assert(room * (books + 1) >= room) by (nonlinear_arith)
                requires
                    room >= 0,
                    books >= 0,
            ;
            let d = s.disciples@[ei];
            assert(d.rank == DiscipleRank::Inner) by {
                assert(serving(d, s.sect.buildings@[bi].elder_id->0@));
            }
            assert(all_kinds_fit(d));
            let g2 = scaled(2, e);
            let g4 = scaled(4, e);
            lemma_scaled_bound(2, e);
            lemma_scaled_bound(3, e);
            lemma_scaled_bound(4, e);
            lemma_scaled_bound(5, e);
            lemma_scaled_bound(18, e);
            lemma_scaled_bound(24, e);
            if duty_id == "curate"@ {
                assert(books * g4 <= room * (books + 1)) by (nonlinear_arith)
                    requires
                        0 <= g4 <= max_output(),
                        room >= max_output(),
                        books >= 0,
                ;
                lemma_curated_bound(s.sect.martial_research.as_map(), s.sect.public_books@, s.sect.created_martial_arts@, g4, books);
            }
            if duty_id == "brew"@ {
                assert forall|m: crate::economy::Medicine| s.sect.inventory.amount(medicine_label(m)) + #[trigger] scaled(quantity_of(m), e) <= i32::MAX by {
                    lemma_scaled_bound(quantity_of(m), e);
                    assert(s.sect.inventory.amount(medicine_label(m)) + room <= i32::MAX);
                }
            }
            if duty_id == "comprehend"@ {
                match first_combat_book(s.sect.public_books@, s.sect.created_martial_arts@, 0) {
                    Some(b) => {
                        assert(research_base(s.sect.martial_research.as_map(), b) + room * (books + 1) <= i64::MAX);
                    },
                    None => {},
                }
            }
            if duty_id == "purchase"@ {
                assert(s.sect.inventory.amount("草药"@) + room <= i32::MAX);
            }
            if duty_id == "expand"@ {
                lemma_expansion_weights_bound(s);
                assert forall|i: int| 0 <= i < s.sect.buildings@.len() implies {
                    &&& s.sect.attributes.silver - crate::management::upgrade_cost((#[trigger] s.sect.buildings@[i]).level as int).0 <= i32::MAX
                    &&& s.sect.inventory.amount("精铁"@) - crate::management::upgrade_cost(s.sect.buildings@[i].level as int).1 <= i32::MAX
                } by {
                    assert(s.sect.inventory.amount("精铁"@) + room <= i32::MAX);
                    assert(0 <= s.sect.buildings@[i].level);
                }
            }
            if duty_id == "drill"@ {
                assert forall|i: int| 0 <= i < s.disciples@.len() implies (#[trigger] s.disciples@[i]).merit + scaled(2, e) <= i64::MAX by {
                    assert(s.disciples@[i].merit + room <= i64::MAX);
                }
            }
        },
    }
}

/// A stock moved by `delta <= bound` keeps `room` of headroom less `bound`.
proof fn lemma_stock_room(before: crate::ledger::Ledger<i32>, after: crate::ledger::Ledger<i32>, item: Seq<char>, delta: int, room: int, bound: int)
    requires
        stock_moved(before, after, item, delta),
        delta <= bound,
        bound >= 0,
        forall|key: Seq<char>| #[trigger] before.amount(key) + room <= i32::MAX,
    ensures
        forall|key: Seq<char>| #[trigger] after.amount(key) + room - bound <= i32::MAX,
{
    assert forall|key: Seq<char>| #[trigger] after.amount(key) + room - bound <= i32::MAX by {
        assert(before.amount(key) + room <= i32::MAX);
        if key != item {
            assert(after.has(key) == before.has(key));
            if before.has(key) {
                assert(after.at(key) == before.at(key));
            }
            assert(after.amount(key) == before.amount(key));
        } else {
            assert(after.amount(key) == before.amount(key) + delta);
        }
    }
}

/// Whatever a ready duty does uses up at most the room of one duty.
pub proof fn lemma_duty_keeps_room(
    s: GameState,
    k: int,
    building_id: Seq<char>,
    duty_id: Seq<char>,
    mid: GameState,
    phrase: Result<Seq<char>, Seq<char>>,
)
    requires
        duty_room(s, k),
        k >= 1,
        duty_ready(s, building_id, duty_id) is Ok,
        duty_effect(
            s,
            duty_ready(s, building_id, duty_id)->Ok_0.2,
            duty_id,
            s.sect.buildings@[duty_ready(s, building_id, duty_id)->Ok_0.0].duty_target,
            mid,
            phrase,
        ),
    ensures
        duty_room(mid, k - 1),
{
    reveal_strlit("instruct");
    reveal_strlit("drill");
    reveal_strlit("curate");
    reveal_strlit("comprehend");
    reveal_strlit("audit");
    reveal_strlit("purchase");
    reveal_strlit("treat");
    reveal_strlit("brew");
    reveal_strlit("correspond");
    reveal_strlit("scout");
    reveal_strlit("recruit");
    reveal_strlit("arbitrate");
    reveal_strlit("maintain");
    reveal_strlit("supervise");
    reveal_strlit("expand");
    let (bi, ei, e) = duty_ready(s, building_id, duty_id)->Ok_0;
    let room = k * max_output();
    let room2 = (k - 1) * max_output();
    let books = s.sect.public_books@.len() as int;
    assert(room2 == room - max_output()) by (nonlinear_arith)
        requires
            room == k * max_output(),
            room2 == (k - 1) * max_output(),
    ;
    assert(room2 >= 0) by (nonlinear_arith)
        requires
            k >= 1,
            room2 == (k - 1) * max_output(),
    ;
    assert(room2 * (books + 1) + max_output() * (books + 1) == room * (books + 1)) by (nonlinear_arith)
        requires
            room2 == room - max_output(),
    ;
    assert(max_output() * (books + 1) >= max_output()) by (nonlinear_arith)
        requires
            books >= 0,
    ;
    lemma_scaled_bound(2, e);
    lemma_scaled_bound(3, e);
    lemma_scaled_bound(4, e);
    lemma_scaled_bound(5, e);
    lemma_scaled_bound(6, e);
    lemma_scaled_bound(8, e);
    lemma_scaled_bound(18, e);
    let target = s.sect.buildings@[bi].duty_target;
    if duty_id == "instruct"@ {
    } else if duty_id == "drill"@ {
        assert forall|i: int| 0 <= i < mid.disciples@.len() implies (#[trigger] mid.disciples@[i]).merit + room2 <= i64::MAX by {
            assert(s.disciples@[i].merit + room <= i64::MAX);
        }
        assert forall|i: int| 0 <= i < mid.disciples@.len() && (#[trigger] mid.disciples@[i]).rank == DiscipleRank::Inner implies all_kinds_fit(mid.disciples@[i]) by {
            assert(s.disciples@[i].rank == DiscipleRank::Inner);
        }
    } else if duty_id == "curate"@ {
        let g4 = scaled(4, e);
        assert(books * g4 <= max_output() * (books + 1)) by (nonlinear_arith)
            requires
                0 <= g4 <= max_output(),
                books >= 0,
        ;
        assert(room * (books + 1) >= 0) by (nonlinear_arith)
            requires
                room >= 0,
                books >= 0,
        ;
        assert(books * g4 <= room * (books + 1)) by (nonlinear_arith)
            requires
                books * g4 <= max_output() * (books + 1),
                room >= max_output(),
                books >= 0,
        ;
        lemma_curated_bound(s.sect.martial_research.as_map(), s.sect.public_books@, s.sect.created_martial_arts@, g4, books);
        assert forall|key: Seq<char>| #[trigger] research_base(mid.sect.martial_research.as_map(), key) + room2 * (books + 1) <= i64::MAX by {
            assert(research_base(s.sect.martial_research.as_map(), key) + room * (books + 1) <= i64::MAX);
        }
    } else if duty_id == "comprehend"@ {
        assert forall|key: Seq<char>| #[trigger] research_base(mid.sect.martial_research.as_map(), key) + room2 * (books + 1) <= i64::MAX by {
            assert(research_base(s.sect.martial_research.as_map(), key) + room * (books + 1) <= i64::MAX);
        }
    } else if duty_id == "audit"@ {
        let roll = choose|roll: int| 0 <= roll <= 12 && mid == #[trigger] audited(s, e, roll).0 && phrase == Ok::<Seq<char>, Seq<char>>(audited(s, e, roll).1);
        lemma_scaled_bound(12 + roll, e);
    } else if duty_id == "purchase"@ {
        if s.sect.attributes.silver >= 15 {
            lemma_stock_room(s.sect.inventory, mid.sect.inventory, "草药"@, scaled(5, e), room, max_output());
        }
    } else if duty_id == "treat"@ {
    } else if duty_id == "brew"@ {
        let recipe = match target {
            Some(t) => recipe_or_default(t@),
            None => {
                let herbs = s.sect.inventory.amount("草药"@);
                let roll = choose|roll: int| 0 <= roll < weight_total(crate::elder_duties::brew_weights(herbs)) && #[trigger] brewed(s, e, drawn_recipe(herbs, roll), mid, phrase);
                drawn_recipe(herbs, roll)
            },
        };
        match target {
            Some(t) => {
                if crate::economy::recipe_of(t@) is Some {
                    lemma_brew_room(s, e, recipe, mid, phrase, room);
                }
            },
            None => {
                lemma_brew_room(s, e, recipe, mid, phrase, room);
            },
        }
    } else if duty_id == "correspond"@ {
    } else if duty_id == "scout"@ {
    } else if duty_id == "recruit"@ {
        let d = choose|d: Disciple| #[trigger] elder_recruited(s, d, mid, phrase);
        if s.sect.attributes.silver >= 25 {
            assert forall|i: int| 0 <= i < mid.disciples@.len() implies (#[trigger] mid.disciples@[i]).merit + room2 <= i64::MAX by {
                if i < s.disciples@.len() {
                    assert(s.disciples@[i].merit + room <= i64::MAX);
                }
            }
            assert forall|i: int| 0 <= i < mid.disciples@.len() && (#[trigger] mid.disciples@[i]).rank == DiscipleRank::Inner implies all_kinds_fit(mid.disciples@[i]) by {
                assert(i < s.disciples@.len());
                assert(s.disciples@[i].rank == DiscipleRank::Inner);
            }
        }
    } else if duty_id == "arbitrate"@ {
    } else if duty_id == "maintain"@ {
        if crate::elder_duties::maintenance_supplied(s) {
            lemma_stock_room(s.sect.inventory, mid.sect.inventory, "精铁"@, -2, room, max_output());
        }
        assert forall|i: int| 0 <= i < mid.sect.buildings@.len() implies {
            &&& -1_000_000 <= (#[trigger] mid.sect.buildings@[i]).level <= 1_000_000
            &&& -1_000_000 <= mid.sect.buildings@[i].condition
            &&& 0 <= mid.sect.buildings@[i].level
        } by {
            assert(-1_000_000 <= s.sect.buildings@[i].level <= 1_000_000);
            assert(0 <= s.sect.buildings@[i].level);
        }
    } else if duty_id == "supervise"@ {
        assert forall|i: int| 0 <= i < mid.sect.buildings@.len() implies {
            &&& -1_000_000 <= (#[trigger] mid.sect.buildings@[i]).level <= 1_000_000
            &&& -1_000_000 <= mid.sect.buildings@[i].condition
            &&& 0 <= mid.sect.buildings@[i].level
        } by {
            assert(-1_000_000 <= s.sect.buildings@[i].level <= 1_000_000);
            assert(0 <= s.sect.buildings@[i].level);
        }
    } else {
        let roll = choose|roll: int| #[trigger] expanded(s, target, roll, mid, phrase);
        lemma_expand_room(s, target, roll, mid, phrase, room);
    }
}

spec fn recipe_or_default(t: Seq<char>) -> crate::economy::PillRecipe {
    match crate::economy::recipe_of(t) {
        Some(r) => r,
        None => crate::elder_duties::catalog_recipe(0),
    }
}

proof fn lemma_brew_room(s: GameState, e: int, recipe: crate::economy::PillRecipe, mid: GameState, phrase: Result<Seq<char>, Seq<char>>, room: int)
    requires
        brewed(s, e, recipe, mid, phrase),
        forall|key: Seq<char>| #[trigger] s.sect.inventory.amount(key) + room <= i32::MAX,
        s.sect.attributes.silver + room <= i32::MAX,
        recipe.herb_cost >= 0,
        recipe.silver_cost >= 0,
    ensures
        forall|key: Seq<char>| #[trigger] mid.sect.inventory.amount(key) + room - max_output() <= i32::MAX,
        mid.sect.attributes.silver + room <= i32::MAX,
{
    let herbs = s.sect.inventory.amount("草药"@);
    if herbs >= recipe.herb_cost && s.sect.attributes.silver >= recipe.silver_cost {
        let q = scaled(recipe.quantity as int, e);
        lemma_scaled_bound(recipe.quantity as int, e);
        let name = medicine_label(recipe.medicine);
        let l = choose|l: crate::ledger::Ledger<i32>| stock_moved(s.sect.inventory, l, "草药"@, -recipe.herb_cost) && #[trigger] stock_moved(l, mid.sect.inventory, name, q);
        lemma_stock_room(s.sect.inventory, l, "草药"@, -recipe.herb_cost, room, 0);
        lemma_stock_room(l, mid.sect.inventory, name, q, room, max_output());
    }
}

proof fn lemma_expand_room(s: GameState, target: Option<String>, roll: int, mid: GameState, phrase: Result<Seq<char>, Seq<char>>, room: int)
    requires
        expanded(s, target, roll, mid, phrase),
        forall|key: Seq<char>| #[trigger] s.sect.inventory.amount(key) + room <= i32::MAX,
        halls_modest(s.sect),
        forall|i: int| 0 <= i < s.sect.buildings@.len() ==> 0 <= (#[trigger] s.sect.buildings@[i]).level,
    ensures
        forall|key: Seq<char>| #[trigger] mid.sect.inventory.amount(key) + room - max_output() <= i32::MAX,
        mid.sect.attributes.silver <= s.sect.attributes.silver,
        halls_modest(mid.sect),
        forall|i: int| 0 <= i < mid.sect.buildings@.len() ==> 0 <= (#[trigger] mid.sect.buildings@[i]).level,
        mid.sect.buildings@.len() == s.sect.buildings@.len(),
        mid.disciples == s.disciples,
        mid.sect.martial_research == s.sect.martial_research,
        mid.sect.public_books == s.sect.public_books,
{
    let cs = expansion_candidates(s);
    if cs.len() > 0 {
        let ti = crate::sect::building_index(s.sect.buildings@, crate::elder_duties::expansion_pick(cs, target, roll));
        if mid != s {
            let b = s.sect.buildings@[ti];
            assert(0 <= b.level <= 1_000_000);
            let iron = crate::management::upgrade_cost(b.level as int).1;
            lemma_stock_room(s.sect.inventory, mid.sect.inventory, "精铁"@, -iron, room, max_output());
            assert forall|i: int| 0 <= i < mid.sect.buildings@.len() implies {
                &&& -1_000_000 <= (#[trigger] mid.sect.buildings@[i]).level <= 1_000_000
                &&& -1_000_000 <= mid.sect.buildings@[i].condition
                &&& 0 <= mid.sect.buildings@[i].level
            } by {
                assert(-1_000_000 <= s.sect.buildings@[i].level <= 1_000_000);
                assert(0 <= s.sect.buildings@[i].level);
            }
        }
    }
}

/// Room for `k` duties leaves room for fewer.
proof fn lemma_room_smaller(s: GameState, k: int, j: int)
    requires
        duty_room(s, k),
        0 <= j <= k,
    ensures
        duty_room(s, j),
{
    let books = s.sect.public_books@.len() as int;
    assert(j * max_output() <= k * max_output()) by (nonlinear_arith)
        requires
            0 <= j <= k,
    ;
    assert(j * max_output() * (books + 1) <= k * max_output() * (books + 1)) by (nonlinear_arith)
        requires
            j * max_output() <= k * max_output(),
            books >= 0,
    ;
    assert forall|key: Seq<char>| #[trigger] research_base(s.sect.martial_research.as_map(), key) + j * max_output() * (books + 1) <= i64::MAX by {
        assert(research_base(s.sect.martial_research.as_map(), key) + k * max_output() * (books + 1) <= i64::MAX);
    }
    assert forall|key: Seq<char>| #[trigger] s.sect.inventory.amount(key) + j * max_output() <= i32::MAX by {
        assert(s.sect.inventory.amount(key) + k * max_output() <= i32::MAX);
    }
    assert forall|i: int| 0 <= i < s.disciples@.len() implies (#[trigger] s.disciples@[i]).merit + j * max_output() <= i64::MAX by {
        assert(s.disciples@[i].merit + k * max_output() <= i64::MAX);
    }
}

/// `after` is `s` with the elder of the first hall with id `id` (if any)
/// marked as having acted.
pub open spec fn flagged(s: GameState, id: Seq<char>, after: GameState) -> bool {
    let i = building_index(s.sect.buildings@, id);
    if i < 0 {
        after == s
    } else {
        &&& after.sect.buildings@ == s.sect.buildings@.update(i, Building { elder_action_used: true, ..s.sect.buildings@[i] })
        &&& after == (GameState { sect: SectState { buildings: after.sect.buildings, ..s.sect }, ..s })
    }
}

/// Halls that only changed in their elders' flags keep the room.
proof fn lemma_flags_keep_room(s: GameState, after: GameState, k: int)
    requires
        duty_room(s, k),
        after == (GameState { sect: SectState { buildings: after.sect.buildings, ..s.sect }, ..s }),
        after.sect.buildings@.len() == s.sect.buildings@.len(),
        forall|i: int| 0 <= i < s.sect.buildings@.len() ==> (#[trigger] after.sect.buildings@[i]).level == s.sect.buildings@[i].level
            && after.sect.buildings@[i].condition == s.sect.buildings@[i].condition,
    ensures
        duty_room(after, k),
{
    assert forall|i: int| 0 <= i < after.sect.buildings@.len() implies {
        &&& -1_000_000 <= (#[trigger] after.sect.buildings@[i]).level <= 1_000_000
        &&& -1_000_000 <= after.sect.buildings@[i].condition
    } by {
        assert(-1_000_000 <= s.sect.buildings@[i].level <= 1_000_000);
        assert(-1_000_000 <= s.sect.buildings@[i].condition);
    }
    assert forall|i: int| 0 <= i < after.sect.buildings@.len() implies 0 <= (#[trigger] after.sect.buildings@[i]).level by {
        assert(0 <= s.sect.buildings@[i].level);
    }
}

/// A duty carried out or refused leaves room for one duty fewer.
proof fn lemma_outcome_keeps_room(s: GameState, k: int, building_id: Seq<char>, duty_id: Seq<char>, after: GameState, r: Result<String, String>)
    requires
        duty_room(s, k),
        k >= 1,
        elder_duty_outcome(s, building_id, duty_id, after, r),
    ensures
        duty_room(after, k - 1),
{
    match duty_ready(s, building_id, duty_id) {
        Err(_) => {
            lemma_room_smaller(s, k, k - 1);
        },
        Ok((bi, ei, e)) => {
            let (mid, phrase) = choose|mid: GameState, phrase: Result<Seq<char>, Seq<char>>|
                #[trigger] duty_effect(s, e, duty_id, s.sect.buildings@[bi].duty_target, mid, phrase) && match phrase {
                    Err(t) => crate::management::refused(r, t) && after == mid,
                    Ok(p) => {
                        &&& r matches Ok(t) && t@ == s.disciples@[ei].name@ + "本月"@ + p + "。"@
                        &&& finished(mid, bi, after)
                    },
                };
            lemma_duty_keeps_room(s, k, building_id, duty_id, mid, phrase);
            if phrase is Ok {
                assert(mid.sect.buildings@.len() == s.sect.buildings@.len());
                lemma_flags_keep_room(mid, after, k - 1);
            }
        },
    }
}

/// The month's duties among the first `n` halls: the hall's id, its name and
/// the duty chosen for it, for each hall with an elder and a chosen duty.
pub open spec fn month_duties(bs: Seq<Building>, n: int) -> Seq<(Seq<char>, Seq<char>, Seq<char>)>
    decreases n,
{
    if n <= 0 {
        Seq::empty()
    } else {
        let rest = month_duties(bs, n - 1);
        let b = bs[n - 1];
        match (b.elder_id, b.selected_duty) {
            (Some(_), Some(d)) => rest.push((b.id@, b.name@, d@)),
            _ => rest,
        }
    }
}

/// One duty of the month: the entry names the hall and holds the duty's
/// result (see `elder_duty_outcome`); a refused duty still marks the hall's
/// elder as having acted.
pub open spec fn duty_step(
    before: GameState,
    duty: (Seq<char>, Seq<char>, Seq<char>),
    after: GameState,
    entry: (String, Result<String, String>),
) -> bool {
    &&& entry.0@ == duty.1
    &&& exists|mid: GameState| #[trigger] elder_duty_outcome(before, duty.0, duty.2, mid, entry.1) && if entry.1 is Ok {
        after == mid
    } else {
        flagged(mid, duty.0, after)
    }
}

/// `after` is `s` with every elder free to act again.
pub open spec fn halls_reset(s: GameState, after: GameState) -> bool {
    &&& after.sect.buildings@ == s.sect.buildings@.map_values(|b: Building| Building { elder_action_used: false, ..b })
    &&& after == (GameState { sect: SectState { buildings: after.sect.buildings, ..s.sect }, ..s })
}

/// A month of duties from `s`: the elders are freed, then the duties of
/// `month_duties` run in order through the states of `trace`, each leaving
/// its entry, and `after` is the last state.
pub open spec fn month_run(s: GameState, trace: Seq<GameState>, entries: Seq<(String, Result<String, String>)>, after: GameState) -> bool {
    let duties = month_duties(s.sect.buildings@, s.sect.buildings@.len() as int);
    &&& trace.len() == duties.len() + 1
    &&& entries.len() == duties.len()
    &&& halls_reset(s, trace[0])
    &&& trace.last() == after
    &&& forall|k: int| 0 <= k < duties.len() ==> #[trigger] duty_step(trace[k], duties[k], trace[k + 1], entries[k])
}

proof fn lemma_duties_bounded(bs: Seq<Building>, n: int)
    requires
        0 <= n <= bs.len(),
    ensures
        month_duties(bs, n).len() <= n,
    decreases n,
{
    if n > 0 {
        lemma_duties_bounded(bs, n - 1);
    }
}

fn list_duties(bs: &Vec<Building>) -> (r: Vec<(String, String, String)>)
    ensures
        r@.len() == month_duties(bs@, bs@.len() as int).len(),
        forall|k: int| 0 <= k < r@.len() ==> {
            &&& (#[trigger] r@[k]).0@ == month_duties(bs@, bs@.len() as int)[k].0
            &&& r@[k].1@ == month_duties(bs@, bs@.len() as int)[k].1
            &&& r@[k].2@ == month_duties(bs@, bs@.len() as int)[k].2
        },
{
    let mut r: Vec<(String, String, String)> = Vec::new();
    let mut i: usize = 0;
    while i < bs.len()
        invariant
            i <= bs@.len(),
            r@.len() == month_duties(bs@, i as int).len(),
            forall|k: int| 0 <= k < r@.len() ==> {
                &&& (#[trigger] r@[k]).0@ == month_duties(bs@, i as int)[k].0
                &&& r@[k].1@ == month_duties(bs@, i as int)[k].1
                &&& r@[k].2@ == month_duties(bs@, i as int)[k].2
            },
        decreases bs@.len() - i,
    {
        let b = &bs[i];
        if b.elder_id.is_some() {
            match &b.selected_duty {
                Some(d) => {
                    r.push((b.id.clone(), b.name.clone(), d.clone()));
                },
                None => {},
            }
        }
        i = i + 1;
    }
    r
}

/// Frees every elder to act again this month.
fn reset_halls(state: &mut GameState)
    ensures
        halls_reset(*old(state), *final(state)),
{
    let ghost bs = state.sect.buildings@;
    let n = state.sect.buildings.len();
    let mut i: usize = 0;
    while i < n
        invariant
            n == bs.len(),
            state.sect.buildings@.len() == n,
            i <= n,
            forall|j: int| 0 <= j < n ==> #[trigger] state.sect.buildings@[j] == (if j < i {
                Building { elder_action_used: false, ..bs[j] }
            } else {
                bs[j]
            }),
            *state == (GameState { sect: SectState { buildings: state.sect.buildings, ..old(state).sect }, ..*old(state) }),
        decreases n - i,
    {
        state.sect.buildings[i].elder_action_used = false;
        i = i + 1;
    }
    assert(state.sect.buildings@ =~= bs.map_values(|b: Building| Building { elder_action_used: false, ..b }));
}

/// Has every hall's elder carry out the hall's chosen duty, in hall order (see
/// `month_run`); each entry of the result names the hall and holds the
/// duty's result.
pub fn execute_monthly_elder_duties(rng: &mut StdRng, state: &mut GameState) -> (r: Vec<(String, Result<String, String>)>)
    requires
        duty_room(*old(state), old(state).sect.buildings@.len() as int),
    ensures
        exists|trace: Seq<GameState>| #[trigger] month_run(*old(state), trace, r@, *final(state)),
{
    let ghost s = *state;
    reset_halls(state);
    let duties = list_duties(&state.sect.buildings);
    let ghost ds = month_duties(s.sect.buildings@, s.sect.buildings@.len() as int);
    proof {
        assert(state.sect.buildings@.len() == s.sect.buildings@.len());
        assert(month_duties(state.sect.buildings@, state.sect.buildings@.len() as int) == ds) by {
            lemma_duties_same(s.sect.buildings@, state.sect.buildings@, s.sect.buildings@.len() as int);
        }
        lemma_duties_bounded(s.sect.buildings@, s.sect.buildings@.len() as int);
        lemma_flags_keep_room(s, *state, s.sect.buildings@.len() as int);
        lemma_room_smaller(*state, s.sect.buildings@.len() as int, ds.len() as int);
    }
    let n = duties.len();
    let ghost mut trace: Seq<GameState> = seq![*state];
    let mut entries: Vec<(String, Result<String, String>)> = Vec::new();
    let mut k: usize = 0;
    while k < n
        invariant
            n == duties@.len(),
            n == ds.len(),
            k <= n,
            forall|j: int| 0 <= j < n ==> {
                &&& (#[trigger] duties@[j]).0@ == ds[j].0
                &&& duties@[j].1@ == ds[j].1
                &&& duties@[j].2@ == ds[j].2
            },
            trace.len() == k + 1,
            entries@.len() == k,
            halls_reset(s, trace[0]),
            trace.last() == *state,
            duty_room(*state, n - k),
            forall|j: int| 0 <= j < k ==> #[trigger] duty_step(trace[j], ds[j], trace[j + 1], entries@[j]),
        decreases n - k,
    {
        let ghost before = *state;
        proof {
            lemma_ready_duty_fits(*state, (n - k) as int, ds[k as int].0, ds[k as int].2);
        }
        let result = execute_elder_duty(rng, state, duties[k].0.as_str(), duties[k].2.as_str());
        let ghost mid = *state;
        proof {
            lemma_outcome_keeps_room(before, (n - k) as int, ds[k as int].0, ds[k as int].2, mid, result);
        }
        if result.is_err() {
            match find_building(&state.sect.buildings, duties[k].0.as_str()) {
                Some(i) => {
                    state.sect.buildings[i].elder_action_used = true;
                    assert(state.sect.buildings@ =~= mid.sect.buildings@.update(i as int, Building { elder_action_used: true, ..mid.sect.buildings@[i as int] }));
                    proof {
                        lemma_flags_keep_room(mid, *state, (n - k - 1) as int);
                    }
                },
                None => {},
            }
        }
        let entry = (duties[k].1.clone(), result);
        proof {
            assert(duty_step(before, ds[k as int], *state, entry));
            trace = trace.push(*state);
        }
        entries.push(entry);
        k = k + 1;
    }
    proof {
        assert(month_run(s, trace, entries@, *state));
    }
    entries
}

proof fn lemma_duties_same(a: Seq<Building>, b: Seq<Building>, n: int)
    requires
        0 <= n <= a.len(),
        a.len() == b.len(),
        forall|i: int| 0 <= i < a.len() ==> (#[trigger] b[i]).id == a[i].id && b[i].name == a[i].name && b[i].elder_id == a[i].elder_id
            && b[i].selected_duty == a[i].selected_duty,
    ensures
        month_duties(a, n) == month_duties(b, n),
    decreases n,
{
    if n > 0 {
        lemma_duties_same(a, b, n - 1);
        assert(b[n - 1].id == a[n - 1].id);
    }
}

} // verus!
