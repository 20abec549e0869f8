//! The martial arts the rules look up by id.
use vstd::prelude::*;
use crate::sect::CreatedArt;
use crate::text::text_eq;

verus! {

/// Whether the built-in art `id` is a combat art (`Some(true)`), a knowledge
/// art (`Some(false)`), or unknown (`None`).
pub open spec fn builtin_art_combat(id: Seq<char>) -> Option<bool> {
    if id == "basic_unarmed"@ || id == "basic_dodge"@ || id == "basic_force"@ || id == "basic_sword"@
        || id == "basic_parry"@ || id == "hunyuan"@ || id == "wudang_foundation"@
        || id == "wudang_outer_unarmed"@ {
        Some(true)
    } else if id == "player_knowledge"@ || id == "wudang_knowledge"@ {
        Some(false)
    } else {
        None
    }
}

/// Position `i` is the first created art with id `id`.
pub open spec fn is_first_created(created: Seq<CreatedArt>, id: Seq<char>, i: int) -> bool {
    &&& 0 <= i < created.len()
    &&& created[i].id@ == id
    &&& forall|j: int| 0 <= j < i ==> (#[trigger] created[j]).id@ != id
}

/// Whether art `id` is a combat art: built-in arts first, then the sect's own.
pub open spec fn art_combat(id: Seq<char>, created: Seq<CreatedArt>) -> Option<bool> {
    match builtin_art_combat(id) {
        Some(c) => Some(c),
        None => if exists|i: int| 0 <= i < created.len() && (#[trigger] created[i]).id@ == id {
            Some(created[choose|i: int| is_first_created(created, id, i)].is_combat)
        } else {
            None
        },
    }
}

fn builtin_combat(id: &str) -> (r: Option<bool>)
    ensures
        r == builtin_art_combat(id@),
{
    if text_eq(id, "basic_unarmed") || text_eq(id, "basic_dodge") || text_eq(id, "basic_force")
        || text_eq(id, "basic_sword") || text_eq(id, "basic_parry") || text_eq(id, "hunyuan")
        || text_eq(id, "wudang_foundation") || text_eq(id, "wudang_outer_unarmed") {
        Some(true)
    } else if text_eq(id, "player_knowledge") || text_eq(id, "wudang_knowledge") {
        Some(false)
    } else {
        None
    }
}

/// Whether art `id` is a combat art, looking at the built-in arts and then
/// at the sect's own creations (the first with that id).
pub fn art_is_combat(id: &str, created: &Vec<CreatedArt>) -> (r: Option<bool>)
    ensures
        r == art_combat(id@, created@),
{
    match builtin_combat(id) {
        Some(c) => Some(c),
        None => {
            let mut i: usize = 0;
            while i < created.len()
                invariant
                    builtin_art_combat(id@) is None,
                    i <= created@.len(),
                    forall|j: int| 0 <= j < i ==> (#[trigger] created@[j]).id@ != id@,
                decreases created@.len() - i,
            {
                if text_eq(created[i].id.as_str(), id) {
                    proof {
                        assert(is_first_created(created@, id@, i as int));
                        let k = choose|k: int| is_first_created(created@, id@, k);
                        if k < i {
                            assert(created@[k].id@ != id@);
                        } else if k > i {
                            assert(created@[i as int].id@ != id@);
                        }
                        assert(exists|x: int| 0 <= x < created@.len() && (#[trigger] created@[x]).id@ == id@);
                    }
                    return Some(created[i].is_combat);
                }
                i = i + 1;
            }
            None
        },
    }
}

} // verus!
