//! Country standing: prosperity and public order of the four realms, the
//! multipliers they lend to trade and travel, and their monthly drift.
use vstd::prelude::*;
use crate::game::GameState;
use crate::model::GameEvent;
use crate::sect::{SectState, building_effectiveness, spec_building_effectiveness};
use crate::text::{text_eq, decimal, decimal_text, join_text};

verus! {

/// Prosperity assumed for a realm that is not on record.
pub const NEUTRAL_PROSPERITY: i32 = 70;

/// Order assumed for a realm that is not on record.
pub const NEUTRAL_ORDER: i32 = 65;

/// A realm and its standing.
#[derive(Clone, Debug)]
pub struct Country {
    pub id: String,
    pub name: String,
    pub prosperity: i32,
    pub order: i32,
    pub population: i32,
}

/// The value `v` held within `lo..=hi`.
pub open spec fn clamp_int(v: int, lo: int, hi: int) -> int {
    if v < lo {
        lo
    } else if v > hi {
        hi
    } else {
        v
    }
}

/// Rust's division by a positive divisor, which truncates toward zero.
pub open spec fn trunc_div(a: int, b: int) -> int {
    if a >= 0 {
        a / b
    } else {
        -((-a) / b)
    }
}

/// Prosperity or order held within `0..=100`.
pub open spec fn spec_clamp_value(v: int) -> int {
    clamp_int(v, 0, 100)
}

/// Trade multiplier in percent: prosperity 70 is neutral; the result stays in `85..=115`.
pub open spec fn spec_market_percent(prosperity: int) -> int {
    clamp_int(100 + trunc_div(spec_clamp_value(prosperity) - 70, 2), 85, 115)
}

/// Travel multiplier in percent: order 65 is neutral; the result stays in `85..=115`.
pub open spec fn spec_safety_percent(order: int) -> int {
    clamp_int(100 + trunc_div(spec_clamp_value(order) - 65, 2), 85, 115)
}

/// Outside-affairs multiplier: the mean of the trade and travel multipliers.
pub open spec fn spec_external_percent(prosperity: int, order: int) -> int {
    (spec_market_percent(prosperity) + spec_safety_percent(order)) / 2
}

/// War support drawn from a realm's standing.
pub open spec fn spec_war_support_values(prosperity: int, order: int) -> int {
    spec_clamp_value(prosperity) / 6 + spec_clamp_value(order) / 3
}

/// A positive gain scaled by a percentage; nothing for a non-positive gain.
pub open spec fn spec_scale_positive(value: int, percent: int) -> int {
    if value <= 0 {
        0
    } else {
        clamp_int(value * (if percent < 0 { 0 } else { percent }) / 100, 0, i32::MAX as int)
    }
}

/// The 64-bit variant: the product saturates at `i64::MAX` before the division.
pub open spec fn spec_scale_positive_i64(value: int, percent: int) -> int {
    if value <= 0 {
        0
    } else {
        clamp_int(value * (if percent < 0 { 0 } else { percent }), 0, i64::MAX as int) / 100
    }
}

/// Country values take part in the settlement only within `0..=100`.
pub fn clamp_value(value: i32) -> (r: i32)
    ensures
        r == spec_clamp_value(value as int),
        0 <= r <= 100,
{
    if value < 0 {
        0
    } else if value > 100 {
        100
    } else {
        value
    }
}

/// Trade multiplier: prosperity 70 gives 100%, the extremes give 85%..=115%.
pub fn market_percent(prosperity: i32) -> (r: i32)
    ensures
        r == spec_market_percent(prosperity as int),
        85 <= r <= 115,
{
    let v = 100 + (clamp_value(prosperity) - 70) / 2;
    if v < 85 {
        85
    } else if v > 115 {
        115
    } else {
        v
    }
}

/// Travel multiplier: order 65 gives 100%, the extremes give 85%..=115%.
pub fn safety_percent(order: i32) -> (r: i32)
    ensures
        r == spec_safety_percent(order as int),
        85 <= r <= 115,
{
    let v = 100 + (clamp_value(order) - 65) / 2;
    if v < 85 {
        85
    } else if v > 115 {
        115
    } else {
        v
    }
}

/// Outside affairs draw on both trade and travel, as their mean.
pub fn external_percent(prosperity: i32, order: i32) -> (r: i32)
    ensures
        r == spec_external_percent(prosperity as int, order as int),
        85 <= r <= 115,
{
    (market_percent(prosperity) + safety_percent(order)) / 2
}

/// War support from the normalized standing.
pub fn war_support_values(prosperity: i32, order: i32) -> (r: i32)
    ensures
        r == spec_war_support_values(prosperity as int, order as int),
        0 <= r <= 49,
{
    clamp_value(prosperity) / 6 + clamp_value(order) / 3
}

/// A positive gain scaled by `percent`; a negative gain never turns into a cost.
pub fn scale_positive(value: i32, percent: i32) -> (r: i32)
    ensures
        r == spec_scale_positive(value as int, percent as int),
        r >= 0,
{
    if value <= 0 {
        return 0;
    }
    let p: i64 = if percent < 0 { 0 } else { percent as i64 };
    let v = value as i64;
    proof {
        assert(0 <= v * p <= (i32::MAX as int) * (i32::MAX as int)) by (nonlinear_arith)
            requires
                0 < v <= i32::MAX,
                0 <= p <= i32::MAX,
        ;
    }
    let scaled = v * p / 100;
    if scaled > i32::MAX as i64 {
        i32::MAX
    } else {
        scaled as i32
    }
}

/// A positive 64-bit gain scaled by `percent`, saturating before the division.
pub fn scale_positive_i64(value: i64, percent: i32) -> (r: i64)
    ensures
        r == spec_scale_positive_i64(value as int, percent as int),
        r >= 0,
{
    if value <= 0 {
        return 0;
    }
    let p: i64 = if percent < 0 { 0 } else { percent as i64 };
    if p == 0 {
        return 0;
    }
    if value > i64::MAX / p {
        proof {
            assert(value * p > i64::MAX) by (nonlinear_arith)
                requires
                    value > i64::MAX / p,
                    p > 0,
            ;
        }
        i64::MAX / 100
    } else {
        proof {
            assert(value * p <= i64::MAX) by (nonlinear_arith)
                requires
                    value <= i64::MAX / p,
                    p > 0,
                    value > 0,
            ;
            assert(value * p > 0) by (nonlinear_arith)
                requires
                    p > 0,
                    value > 0,
            ;
        }
        value * p / 100
    }
}

// ---------------------------------------------------------------------------
// The four realms.

/// Id of the realm at position `i` of the fixed list.
pub open spec fn canonical_id(i: int) -> Seq<char> {
    if i == 0 {
        "song"@
    } else if i == 1 {
        "yuan"@
    } else if i == 2 {
        "dali"@
    } else {
        "xia"@
    }
}

/// Name of the realm at position `i` of the fixed list.
pub open spec fn canonical_name(i: int) -> Seq<char> {
    if i == 0 {
        "大宋"@
    } else if i == 1 {
        "大元"@
    } else if i == 2 {
        "大理"@
    } else {
        "西夏"@
    }
}

/// Starting prosperity of the realm at position `i`.
pub open spec fn canonical_prosperity(i: int) -> int {
    if i == 0 {
        85
    } else if i == 1 {
        78
    } else if i == 2 {
        72
    } else {
        66
    }
}

/// Starting order of the realm at position `i`.
pub open spec fn canonical_order(i: int) -> int {
    if i == 0 {
        62
    } else if i == 1 {
        58
    } else if i == 2 {
        70
    } else {
        60
    }
}

/// Population of the realm at position `i`.
pub open spec fn canonical_population(i: int) -> int {
    if i == 0 {
        11200
    } else if i == 1 {
        9800
    } else if i == 2 {
        4600
    } else {
        3900
    }
}

/// `c` is the fresh record of the realm at position `i`.
pub open spec fn is_canonical_country(c: Country, i: int) -> bool {
    &&& c.id@ == canonical_id(i)
    &&& c.name@ == canonical_name(i)
    &&& c.prosperity == canonical_prosperity(i)
    &&& c.order == canonical_order(i)
    &&& c.population == canonical_population(i)
}

/// Position of `id` in the fixed list of realms, or -1.
pub open spec fn canonical_index(id: Seq<char>) -> int {
    if id == canonical_id(0) {
        0
    } else if id == canonical_id(1) {
        1
    } else if id == canonical_id(2) {
        2
    } else if id == canonical_id(3) {
        3
    } else {
        -1
    }
}

proof fn lemma_canonical_ids_distinct()
    ensures
        forall|a: int, b: int|
            0 <= a < 4 && 0 <= b < 4 && a != b ==> canonical_id(a) != canonical_id(b),
        forall|a: int| 0 <= a < 4 ==> canonical_index(#[trigger] canonical_id(a)) == a,
{
    reveal_strlit("song");
    reveal_strlit("yuan");
    reveal_strlit("dali");
    reveal_strlit("xia");
    assert("song"@[0] != "yuan"@[0]);
    assert("song"@[0] != "dali"@[0]);
    assert("song"@[0] != "xia"@[0]);
    assert("yuan"@[0] != "dali"@[0]);
    assert("yuan"@[0] != "xia"@[0]);
    assert("dali"@[0] != "xia"@[0]);
}

fn canonical_record(i: usize) -> (c: Country)
    requires
        i < 4,
    ensures
        is_canonical_country(c, i as int),
{
    if i == 0 {
        Country { id: String::from_str("song"), name: String::from_str("大宋"), prosperity: 85, order: 62, population: 11200 }
    } else if i == 1 {
        Country { id: String::from_str("yuan"), name: String::from_str("大元"), prosperity: 78, order: 58, population: 9800 }
    } else if i == 2 {
        Country { id: String::from_str("dali"), name: String::from_str("大理"), prosperity: 72, order: 70, population: 4600 }
    } else {
        Country { id: String::from_str("xia"), name: String::from_str("西夏"), prosperity: 66, order: 60, population: 3900 }
    }
}

/// The four realms at the start of a game.
pub fn default_countries() -> (r: Vec<Country>)
    ensures
        r@.len() == 4,
        forall|i: int| 0 <= i < 4 ==> is_canonical_country(#[trigger] r@[i], i),
{
    let mut r: Vec<Country> = Vec::new();
    let mut i: usize = 0;
    while i < 4
        invariant
            i <= 4,
            r@.len() == i,
            forall|j: int| 0 <= j < i ==> is_canonical_country(#[trigger] r@[j], j),
        decreases 4 - i,
    {
        r.push(canonical_record(i));
        i = i + 1;
    }
    r
}

/// Position `i` is the first realm of `cs` with id `id`.
pub open spec fn is_first_country(cs: Seq<Country>, id: Seq<char>, i: int) -> bool {
    &&& 0 <= i < cs.len()
    &&& cs[i].id@ == id
    &&& forall|j: int| 0 <= j < i ==> (#[trigger] cs[j]).id@ != id
}

/// Position of the first realm with id `id`, or -1.
pub open spec fn country_index(cs: Seq<Country>, id: Seq<char>) -> int {
    if exists|i: int| is_first_country(cs, id, i) {
        choose|i: int| is_first_country(cs, id, i)
    } else {
        -1
    }
}

proof fn lemma_country_index(cs: Seq<Country>, id: Seq<char>, i: int)
    requires
        0 <= i <= cs.len(),
        forall|j: int| 0 <= j < i ==> (#[trigger] cs[j]).id@ != id,
        i == cs.len() || cs[i].id@ == id,
    ensures
        country_index(cs, id) == (if i == cs.len() { -1 } else { i }),
{
    if i < cs.len() {
        assert(is_first_country(cs, id, i));
        let k = choose|k: int| is_first_country(cs, id, k);
        if k < i {
            assert(cs[k].id@ != id);
        } else if k > i {
            assert(cs[i].id@ != id);
        }
    } else {
        if exists|k: int| is_first_country(cs, id, k) {
            let k = choose|k: int| is_first_country(cs, id, k);
            assert(cs[k].id@ != id);
        }
    }
}

fn country_position(countries: &Vec<Country>, country_id: &str) -> (r: Option<usize>)
    ensures
        match r {
            Some(i) => country_index(countries@, country_id@) == i && i < countries@.len(),
            None => country_index(countries@, country_id@) == -1,
        },
{
    let mut i: usize = 0;
    while i < countries.len()
        invariant
            i <= countries@.len(),
            forall|j: int| 0 <= j < i ==> (#[trigger] countries@[j]).id@ != country_id@,
        decreases countries@.len() - i,
    {
        if text_eq(countries[i].id.as_str(), country_id) {
            proof {
                lemma_country_index(countries@, country_id@, i as int);
            }
            return Some(i);
        }
        i = i + 1;
    }
    proof {
        lemma_country_index(countries@, country_id@, i as int);
    }
    None
}

/// The first realm with the given id.
pub fn find_country<'a>(countries: &'a Vec<Country>, country_id: &str) -> (r: Option<&'a Country>)
    ensures
        match r {
            Some(c) => country_index(countries@, country_id@) >= 0
                && *c == countries@[country_index(countries@, country_id@)],
            None => country_index(countries@, country_id@) == -1,
        },
{
    match country_position(countries, country_id) {
        Some(i) => Some(&countries[i]),
        None => None,
    }
}

/// Normalized (prosperity, order) of a realm; neutral values when it is not on record.
pub open spec fn spec_country_values(cs: Seq<Country>, id: Seq<char>) -> (int, int) {
    let i = country_index(cs, id);
    if i < 0 {
        (NEUTRAL_PROSPERITY as int, NEUTRAL_ORDER as int)
    } else {
        (spec_clamp_value(cs[i].prosperity as int), spec_clamp_value(cs[i].order as int))
    }
}

/// Normalized (prosperity, order) of a realm in a list.
pub fn country_values_from_slice(countries: &Vec<Country>, country_id: &str) -> (r: (i32, i32))
    ensures
        (r.0 as int, r.1 as int) == spec_country_values(countries@, country_id@),
        0 <= r.0 <= 100,
        0 <= r.1 <= 100,
{
    match find_country(countries, country_id) {
        Some(c) => (clamp_value(c.prosperity), clamp_value(c.order)),
        None => (NEUTRAL_PROSPERITY, NEUTRAL_ORDER),
    }
}

/// Normalized (prosperity, order) of a realm of the game.
pub fn country_values(state: &GameState, country_id: &str) -> (r: (i32, i32))
    ensures
        (r.0 as int, r.1 as int) == spec_country_values(state.countries@, country_id@),
{
    country_values_from_slice(&state.countries, country_id)
}

/// Trade multiplier of a realm of the game.
pub fn market_percent_for(state: &GameState, country_id: &str) -> (r: i32)
    ensures
        r == spec_market_percent(spec_country_values(state.countries@, country_id@).0),
{
    let (prosperity, _) = country_values(state, country_id);
    market_percent(prosperity)
}

/// Travel multiplier of a realm of the game.
pub fn safety_percent_for(state: &GameState, country_id: &str) -> (r: i32)
    ensures
        r == spec_safety_percent(spec_country_values(state.countries@, country_id@).1),
{
    let (_, order) = country_values(state, country_id);
    safety_percent(order)
}

/// Outside-affairs multiplier of a realm of the game.
pub fn external_percent_for(state: &GameState, country_id: &str) -> (r: i32)
    ensures
        r == spec_external_percent(
            spec_country_values(state.countries@, country_id@).0,
            spec_country_values(state.countries@, country_id@).1,
        ),
{
    let (prosperity, order) = country_values(state, country_id);
    external_percent(prosperity, order)
}

/// War support of a realm of the game.
pub fn war_support(state: &GameState, country_id: &str) -> (r: i32)
    ensures
        r == spec_war_support_values(
            spec_country_values(state.countries@, country_id@).0,
            spec_country_values(state.countries@, country_id@).1,
        ),
{
    let (prosperity, order) = country_values(state, country_id);
    war_support_values(prosperity, order)
}

// ---------------------------------------------------------------------------
// Normalization.

/// Positions (in the fixed list) of the realms that `cs` lacks, in list order.
pub open spec fn missing_realms(cs: Seq<Country>) -> Seq<int> {
    (if country_index(cs, canonical_id(0)) < 0 { seq![0int] } else { Seq::empty() })
        + (if country_index(cs, canonical_id(1)) < 0 { seq![1int] } else { Seq::empty() })
        + (if country_index(cs, canonical_id(2)) < 0 { seq![2int] } else { Seq::empty() })
        + (if country_index(cs, canonical_id(3)) < 0 { seq![3int] } else { Seq::empty() })
}

/// Missing realms among the first `k` of the fixed list.
pub open spec fn missing_upto(cs: Seq<Country>, k: int) -> Seq<int>
    decreases k,
{
    if k <= 0 {
        Seq::empty()
    } else {
        missing_upto(cs, k - 1) + (if country_index(cs, canonical_id(k - 1)) < 0 {
            seq![k - 1]
        } else {
            Seq::empty()
        })
    }
}

/// Number of realms after normalization.
pub open spec fn normalized_len(cs: Seq<Country>) -> int {
    (cs.len() + missing_upto(cs, 4).len()) as int
}

/// Fixed-list position of the realm appended at position `i` (for `i >= cs.len()`).
pub open spec fn appended_realm(cs: Seq<Country>, i: int) -> int {
    missing_upto(cs, 4)[i - cs.len()]
}

/// Id of the realm at position `i` after normalization.
pub open spec fn normalized_id(cs: Seq<Country>, i: int) -> Seq<char> {
    if i < cs.len() {
        cs[i].id@
    } else {
        canonical_id(appended_realm(cs, i))
    }
}

/// Name at position `i` after normalization: the first record of a fixed realm
/// takes its fixed name; other records keep theirs.
pub open spec fn normalized_name(cs: Seq<Country>, i: int) -> Seq<char> {
    if i < cs.len() {
        if canonical_index(cs[i].id@) >= 0 && country_index(cs, cs[i].id@) == i {
            canonical_name(canonical_index(cs[i].id@))
        } else {
            cs[i].name@
        }
    } else {
        canonical_name(appended_realm(cs, i))
    }
}

/// Prosperity at position `i` after normalization.
pub open spec fn normalized_prosperity(cs: Seq<Country>, i: int) -> int {
    if i < cs.len() {
        spec_clamp_value(cs[i].prosperity as int)
    } else {
        canonical_prosperity(appended_realm(cs, i))
    }
}

/// Order at position `i` after normalization.
pub open spec fn normalized_order(cs: Seq<Country>, i: int) -> int {
    if i < cs.len() {
        spec_clamp_value(cs[i].order as int)
    } else {
        canonical_order(appended_realm(cs, i))
    }
}

/// Population at position `i` after normalization.
pub open spec fn normalized_population(cs: Seq<Country>, i: int) -> int {
    if i < cs.len() {
        cs[i].population as int
    } else {
        canonical_population(appended_realm(cs, i))
    }
}

/// A realm with the id `id` at position `i` makes the first such realm's
/// position known and no later than `i`.
pub proof fn lemma_index_found(cs: Seq<Country>, id: Seq<char>, i: int)
    requires
        0 <= i < cs.len(),
        cs[i].id@ == id,
    ensures
        0 <= country_index(cs, id) <= i,
        is_first_country(cs, id, country_index(cs, id)),
    decreases i,
{
    if exists|j: int| 0 <= j < i && (#[trigger] cs[j]).id@ == id {
        let j = choose|j: int| 0 <= j < i && (#[trigger] cs[j]).id@ == id;
        lemma_index_found(cs, id, j);
    } else {
        lemma_country_index(cs, id, i);
    }
}

proof fn lemma_missing_contains(cs: Seq<Country>, big: int, k: int)
    requires
        0 <= k < big <= 4,
        country_index(cs, canonical_id(k)) < 0,
    ensures
        missing_upto(cs, big).contains(k),
    decreases big,
{
    if k < big - 1 {
        lemma_missing_contains(cs, big - 1, k);
        let prev = missing_upto(cs, big - 1);
        let j = choose|j: int| 0 <= j < prev.len() && prev[j] == k;
        assert(missing_upto(cs, big)[j] == k);
    } else {
        assert(missing_upto(cs, big)[missing_upto(cs, big - 1).len() as int] == k);
    }
}

proof fn lemma_nothing_missing(cs: Seq<Country>, big: int)
    requires
        0 <= big <= 4,
        forall|k: int| 0 <= k < big ==> country_index(cs, #[trigger] canonical_id(k)) >= 0,
    ensures
        missing_upto(cs, big).len() == 0,
    decreases big,
{
    if big > 0 {
        lemma_nothing_missing(cs, big - 1);
    }
}

/// A normalized realm list is left as it is by normalizing it again: every
/// fixed realm is present, the first record of each already carries its
/// fixed name, and every prosperity and order is already within `0..=100`.
pub proof fn lemma_normalized_is_fixed(a: Seq<Country>, b: Seq<Country>)
    requires
        is_normalized_from(a, b),
    ensures
        normalized_len(b) == b.len(),
        forall|i: int| 0 <= i < b.len() ==> {
            &&& normalized_id(b, i) == (#[trigger] b[i]).id@
            &&& normalized_name(b, i) == b[i].name@
            &&& normalized_prosperity(b, i) == b[i].prosperity
            &&& normalized_order(b, i) == b[i].order
            &&& normalized_population(b, i) == b[i].population
        },
{
    lemma_canonical_ids_distinct();
    lemma_missing_upto_bounds(a, 4);
    let miss = missing_upto(a, 4);
    assert forall|k: int| 0 <= k < 4 implies country_index(b, #[trigger] canonical_id(k)) >= 0 by {
        let id = canonical_id(k);
        let ia = country_index(a, id);
        if ia >= 0 {
            assert(is_first_country(a, id, ia));
            assert(b[ia].id@ == normalized_id(a, ia));
            lemma_index_found(b, id, ia);
        } else {
            lemma_missing_contains(a, 4, k);
            let m = choose|m: int| 0 <= m < miss.len() && miss[m] == k;
            let pos = a.len() + m;
            assert(b[pos].id@ == normalized_id(a, pos));
            assert(appended_realm(a, pos) == k);
            lemma_index_found(b, id, pos);
        }
    }
    lemma_nothing_missing(b, 4);
    assert forall|i: int| 0 <= i < b.len() implies {
        &&& normalized_id(b, i) == (#[trigger] b[i]).id@
        &&& normalized_name(b, i) == b[i].name@
        &&& normalized_prosperity(b, i) == b[i].prosperity
        &&& normalized_order(b, i) == b[i].order
        &&& normalized_population(b, i) == b[i].population
    } by {
        let id = b[i].id@;
        if i >= a.len() {
            let r = appended_realm(a, i);
            assert(0 <= r < 4);
            assert(canonical_index(canonical_id(r)) == r);
        }
        if canonical_index(id) >= 0 && country_index(b, id) == i {
            assert(is_first_country(b, id, i));
            if i < a.len() {
                assert forall|j: int| 0 <= j < i implies (#[trigger] a[j]).id@ != id by {
                    assert(b[j].id@ == normalized_id(a, j));
                }
                lemma_country_index(a, id, i);
            }
        }
    }
}

/// `after` is `before` normalized.
pub open spec fn is_normalized_from(before: Seq<Country>, after: Seq<Country>) -> bool {
    &&& after.len() == normalized_len(before)
    &&& forall|i: int| 0 <= i < after.len() ==> {
        &&& (#[trigger] after[i]).id@ == normalized_id(before, i)
        &&& after[i].name@ == normalized_name(before, i)
        &&& after[i].prosperity == normalized_prosperity(before, i)
        &&& after[i].order == normalized_order(before, i)
        &&& after[i].population == normalized_population(before, i)
    }
}

proof fn lemma_missing_upto_bounds(cs: Seq<Country>, k: int)
    requires
        0 <= k <= 4,
    ensures
        missing_upto(cs, k).len() <= k,
        forall|j: int|
            0 <= j < missing_upto(cs, k).len() ==> 0 <= #[trigger] missing_upto(cs, k)[j] < k,
        forall|a: int, b: int|
            0 <= a < b < missing_upto(cs, k).len() ==> missing_upto(cs, k)[a] < missing_upto(cs, k)[b],
    decreases k,
{
    if k > 0 {
        lemma_missing_upto_bounds(cs, k - 1);
    }
}

/// Adds the missing fixed realms, keeps every record's progress, restores the
/// fixed names and holds all values within `0..=100`.
pub fn normalize_countries(countries: &mut Vec<Country>)
    ensures
        is_normalized_from(old(countries)@, final(countries)@),
{
    let ghost before = countries@;
    proof {
        lemma_canonical_ids_distinct();
        lemma_missing_upto_bounds(before, 4);
    }
    let mut k: usize = 0;
    while k < 4
        invariant
            k <= 4,
            countries@.len() == before.len() + missing_upto(before, k as int).len(),
            forall|a: int| 0 <= a < 4 ==> canonical_index(#[trigger] canonical_id(a)) == a,
            forall|a: int, b: int|
                0 <= a < 4 && 0 <= b < 4 && a != b ==> canonical_id(a) != canonical_id(b),
            forall|i: int| 0 <= i < before.len() ==> {
                &&& (#[trigger] countries@[i]).id@ == before[i].id@
                &&& countries@[i].population == before[i].population
                &&& countries@[i].prosperity == before[i].prosperity || countries@[i].prosperity
                    == spec_clamp_value(before[i].prosperity as int)
                &&& countries@[i].order == before[i].order || countries@[i].order
                    == spec_clamp_value(before[i].order as int)
                &&& countries@[i].name@ == (if canonical_index(before[i].id@) >= 0
                    && canonical_index(before[i].id@) < k && country_index(before, before[i].id@)
                    == i {
                    canonical_name(canonical_index(before[i].id@))
                } else {
                    before[i].name@
                })
            },
            forall|j: int|
                0 <= j < missing_upto(before, k as int).len() ==> is_canonical_country(
                    #[trigger] countries@[before.len() + j],
                    missing_upto(before, k as int)[j],
                ),
        decreases 4 - k,
    {
        proof {
            lemma_missing_upto_bounds(before, k as int);
            lemma_missing_upto_bounds(before, k as int + 1);
        }
        let canonical = canonical_record(k);
        let ghost cid = canonical_id(k as int);
        let ghost cur = countries@;
        let pos = country_position(countries, canonical.id.as_str());
        // The first match in the growing list is the first match in `before`:
        // appended records carry other fixed ids.
        proof {
            let m = missing_upto(before, k as int);
            assert forall|j: int| 0 <= j < m.len() implies (#[trigger] cur[before.len() + j]).id@ != cid by {
                assert(0 <= m[j] < k);
            }
            let bi = country_index(before, cid);
            if bi >= 0 {
                assert(is_first_country(before, cid, bi)) by {
                    assert(exists|i: int| is_first_country(before, cid, i));
                }
                assert(forall|j: int| 0 <= j < bi ==> (#[trigger] cur[j]).id@ == before[j].id@);
                lemma_country_index(cur, cid, bi);
            } else {
                assert forall|j: int| 0 <= j < before.len() implies (#[trigger] before[j]).id@ != cid by {
                    if before[j].id@ == cid {
                        let mut t = j;
                        // a first match exists whenever some match exists
                        lemma_first_exists(before, cid, j);
                    }
                }
                assert forall|j: int| 0 <= j < cur.len() implies (#[trigger] cur[j]).id@ != cid by {
                    if j < before.len() {
                        assert(cur[j].id@ == before[j].id@);
                    } else {
                        assert(cur[before.len() + (j - before.len())].id@ != cid);
                    }
                }
                lemma_country_index(cur, cid, cur.len() as int);
            }
        }
        match pos {
            Some(i) => {
                let p = clamp_value(countries[i].prosperity);
                let o = clamp_value(countries[i].order);
                countries[i].name = canonical.name;
                countries[i].prosperity = p;
                countries[i].order = o;
            },
            None => {
                countries.push(canonical);
            },
        }
        proof {
            let m1 = missing_upto(before, k as int + 1);
            assert(m1 == missing_upto(before, k as int) + (if country_index(before, cid) < 0 {
                seq![k as int]
            } else {
                Seq::empty()
            }));
            assert forall|i: int| 0 <= i < before.len() implies ((#[trigger] countries@[i]).name@ == (
            if canonical_index(before[i].id@) >= 0 && canonical_index(before[i].id@) < k + 1
                && country_index(before, before[i].id@) == i {
                canonical_name(canonical_index(before[i].id@))
            } else {
                before[i].name@
            })) by {
                if before[i].id@ == cid {
                    assert(canonical_index(before[i].id@) == k);
                } else {
                    if canonical_index(before[i].id@) == k {
                        assert(canonical_id(canonical_index(before[i].id@)) == before[i].id@) by {
                            lemma_canonical_index_id(before[i].id@);
                        }
                    }
                }
            }
            assert forall|j: int| 0 <= j < m1.len() implies is_canonical_country(
                #[trigger] countries@[before.len() + j],
                m1[j],
            ) by {
                if j < missing_upto(before, k as int).len() {
                    assert(countries@[before.len() + j] == cur[before.len() + j]);
                }
            }
        }
        k = k + 1;
    }
    let ghost mid = countries@;
    let mut i: usize = 0;
    while i < countries.len()
        invariant
            i <= countries@.len(),
            countries@.len() == mid.len(),
            forall|j: int| 0 <= j < mid.len() ==> {
                &&& (#[trigger] countries@[j]).id@ == mid[j].id@
                &&& countries@[j].name@ == mid[j].name@
                &&& countries@[j].population == mid[j].population
                &&& countries@[j].prosperity == (if j < i {
                    spec_clamp_value(mid[j].prosperity as int)
                } else {
                    mid[j].prosperity as int
                })
                &&& countries@[j].order == (if j < i {
                    spec_clamp_value(mid[j].order as int)
                } else {
                    mid[j].order as int
                })
            },
        decreases countries@.len() - i,
    {
        let p = clamp_value(countries[i].prosperity);
        let o = clamp_value(countries[i].order);
        countries[i].prosperity = p;
        countries[i].order = o;
        i = i + 1;
    }
    proof {
        assert forall|j: int| 0 <= j < countries@.len() implies {
            &&& (#[trigger] countries@[j]).id@ == normalized_id(before, j)
            &&& countries@[j].name@ == normalized_name(before, j)
            &&& countries@[j].prosperity == normalized_prosperity(before, j)
            &&& countries@[j].order == normalized_order(before, j)
            &&& countries@[j].population == normalized_population(before, j)
        } by {
            if j >= before.len() {
                let m = missing_upto(before, 4);
                assert(is_canonical_country(mid[before.len() + (j - before.len())], m[j - before.len()]));
            }
        }
    }
}

proof fn lemma_canonical_index_id(id: Seq<char>)
    requires
        canonical_index(id) >= 0,
    ensures
        canonical_id(canonical_index(id)) == id,
{
}

proof fn lemma_first_exists(cs: Seq<Country>, id: Seq<char>, j: int)
    requires
        0 <= j < cs.len(),
        cs[j].id@ == id,
    ensures
        country_index(cs, id) >= 0,
    decreases j,
{
    if exists|k: int| 0 <= k < j && (#[trigger] cs[k]).id@ == id {
        let k = choose|k: int| 0 <= k < j && (#[trigger] cs[k]).id@ == id;
        lemma_first_exists(cs, id, k);
    } else {
        assert(is_first_country(cs, id, j));
    }
}

// ---------------------------------------------------------------------------
// Adjustment and monthly drift.

/// Adjusts one realm's standing and returns the change actually applied after
/// holding both values within `0..=100`; `(0, 0)` for an unknown realm.
pub fn adjust_country(
    state: &mut GameState,
    country_id: &str,
    prosperity_delta: i32,
    order_delta: i32,
) -> (r: (i32, i32))
    ensures
        ({
            let i = country_index(old(state).countries@, country_id@);
            if i < 0 {
                &&& r == (0i32, 0i32)
                &&& final(state).countries@ == old(state).countries@
            } else {
                let c = old(state).countries@[i];
                let p0 = spec_clamp_value(c.prosperity as int);
                let o0 = spec_clamp_value(c.order as int);
                let p1 = clamp_int(p0 + prosperity_delta, 0, 100);
                let o1 = clamp_int(o0 + order_delta, 0, 100);
                &&& r.0 == p1 - p0
                &&& r.1 == o1 - o0
                &&& final(state).countries@ == old(state).countries@.update(
                    i,
                    Country { prosperity: p1 as i32, order: o1 as i32, ..c },
                )
            }
        }),
        *final(state) == (GameState { countries: final(state).countries, ..*old(state) }),
{
    match country_position(&state.countries, country_id) {
        None => (0, 0),
        Some(i) => {
            let before_prosperity = clamp_value(state.countries[i].prosperity);
            let before_order = clamp_value(state.countries[i].order);
            let p = clamp_i32_range(before_prosperity as i64 + prosperity_delta as i64, 0, 100);
            let o = clamp_i32_range(before_order as i64 + order_delta as i64, 0, 100);
            state.countries[i].prosperity = p;
            state.countries[i].order = o;
            (p - before_prosperity, o - before_order)
        },
    }
}

/// Holds `x` within `lo..=hi`.
pub fn clamp_i32_range(x: i64, lo: i32, hi: i32) -> (r: i32)
    requires
        lo <= hi,
    ensures
        r == clamp_int(x as int, lo as int, hi as int),
{
    if x < lo as i64 {
        lo
    } else if x > hi as i64 {
        hi
    } else {
        x as i32
    }
}

/// The direction (-1, 0 or 1) in which a realm's standing drifts this month.
#[derive(Clone, Copy, Debug, PartialEq, Eq, Structural)]
pub struct CountrySignal {
    pub prosperity: i32,
    pub order: i32,
}

/// `-1`, `0` or `1` with the sign of `v`.
pub open spec fn signum(v: int) -> int {
    if v > 0 {
        1
    } else if v < 0 {
        -1
    } else {
        0
    }
}

/// `high * count` (and `low * count`) saturate at the bounds of `i64`.
pub open spec fn spec_threshold_signal(total: int, count: int, high: int, low: int) -> int {
    if total >= clamp_int(high * count, i64::MIN as int, i64::MAX as int) {
        1
    } else if total <= clamp_int(low * count, i64::MIN as int, i64::MAX as int) {
        -1
    } else {
        0
    }
}

/// Whether the mean of `count` values summing to `total` reaches `high` (1),
/// sinks to `low` (-1), or lies between (0).
fn threshold_signal(total: i64, count: i64, high: i64, low: i64) -> (r: i32)
    ensures
        r == spec_threshold_signal(total as int, count as int, high as int, low as int),
{
    let h = saturating_mul_i64(high, count);
    let l = saturating_mul_i64(low, count);
    if total >= h {
        1
    } else if total <= l {
        -1
    } else {
        0
    }
}

fn saturating_mul_i64(a: i64, b: i64) -> (r: i64)
    ensures
        r == clamp_int(a * b, i64::MIN as int, i64::MAX as int),
{
    proof {
        let x = a as int;
        let y = b as int;
        assert(-0x4000_0000_0000_0000_0000_0000_0000_0000 <= x * y <= 0x4000_0000_0000_0000_0000_0000_0000_0000)
            by (nonlinear_arith)
            requires
                -0x8000_0000_0000_0000 <= x <= 0x7fff_ffff_ffff_ffff,
                -0x8000_0000_0000_0000 <= y <= 0x7fff_ffff_ffff_ffff,
        ;
    }
    let p: i128 = (a as i128) * (b as i128);
    if p > i64::MAX as i128 {
        i64::MAX
    } else if p < i64::MIN as i128 {
        i64::MIN
    } else {
        p as i64
    }
}

/// All sects of the game: the player's first, then the others in order.
pub open spec fn all_sects(state: GameState) -> Seq<SectState> {
    seq![state.sect] + state.npc_sects@
}

/// Number of sects among the first `n` of `sects` that belong to realm `id`.
pub open spec fn sect_count(sects: Seq<SectState>, id: Seq<char>, n: int) -> int
    decreases n,
{
    if n <= 0 {
        0
    } else {
        sect_count(sects, id, n - 1) + (if sects[n - 1].country_id@ == id { 1int } else { 0int })
    }
}

/// Sum of clamped morale over the first `n` sects of realm `id`.
pub open spec fn morale_total(sects: Seq<SectState>, id: Seq<char>, n: int) -> int
    decreases n,
{
    if n <= 0 {
        0
    } else {
        morale_total(sects, id, n - 1) + (if sects[n - 1].country_id@ == id {
            clamp_int(sects[n - 1].attributes.morale as int, 0, 100)
        } else {
            0
        })
    }
}

/// Sum of clamped morality over the first `n` sects of realm `id`.
pub open spec fn morality_total(sects: Seq<SectState>, id: Seq<char>, n: int) -> int
    decreases n,
{
    if n <= 0 {
        0
    } else {
        morality_total(sects, id, n - 1) + (if sects[n - 1].country_id@ == id {
            clamp_int(sects[n - 1].attributes.morality as int, 0, 100)
        } else {
            0
        })
    }
}

/// Sum of warehouse effectiveness over the first `n` sects of realm `id`.
pub open spec fn warehouse_total(sects: Seq<SectState>, id: Seq<char>, n: int) -> int
    decreases n,
{
    if n <= 0 {
        0
    } else {
        warehouse_total(sects, id, n - 1) + (if sects[n - 1].country_id@ == id {
            spec_building_effectiveness(sects[n - 1], "warehouse"@)
        } else {
            0
        })
    }
}

/// The monthly drift of realm `id` from the means of its sects: morale and
/// warehouses move prosperity, morality and morale move order.
pub open spec fn spec_country_signal(sects: Seq<SectState>, id: Seq<char>) -> (int, int) {
    let n = sects.len() as int;
    let count = sect_count(sects, id, n);
    if count == 0 {
        (0, 0)
    } else {
        let morale = morale_total(sects, id, n);
        (
            signum(spec_threshold_signal(morale, count, 65, 40) + spec_threshold_signal(
                warehouse_total(sects, id, n),
                count,
                115,
                75,
            )),
            signum(spec_threshold_signal(morality_total(sects, id, n), count, 60, 40)
                + spec_threshold_signal(morale, count, 70, 35)),
        )
    }
}

pub proof fn lemma_totals_bounded(sects: Seq<SectState>, id: Seq<char>, n: int)
    requires
        0 <= n <= sects.len(),
    ensures
        0 <= sect_count(sects, id, n) <= n,
        0 <= morale_total(sects, id, n) <= 100 * n,
        0 <= morality_total(sects, id, n) <= 100 * n,
        0 <= warehouse_total(sects, id, n) <= (i32::MAX as int) * n,
    decreases n,
{
    if n > 0 {
        lemma_totals_bounded(sects, id, n - 1);
    }
}

fn sect_in_country(sect: &SectState, country_id: &str) -> (r: bool)
    ensures
        r == (sect.country_id@ == country_id@),
{
    text_eq(sect.country_id.as_str(), country_id)
}

fn clamp_percent_i64(v: i32) -> (r: i64)
    ensures
        r == clamp_int(v as int, 0, 100),
{
    if v < 0 {
        0
    } else if v > 100 {
        100
    } else {
        v as i64
    }
}

/// The drift of realm `country_id` from the sects that belong to it.
fn country_signal(state: &GameState, country_id: &str) -> (r: CountrySignal)
    requires
        state.npc_sects@.len() < 0x1000_0000,
    ensures
        (r.prosperity as int, r.order as int) == spec_country_signal(all_sects(*state), country_id@),
{
    let ghost sects = all_sects(*state);
    let total = state.npc_sects.len() + 1;
    let mut count: i64 = 0;
    let mut morale: i64 = 0;
    let mut morality: i64 = 0;
    let mut warehouse: i64 = 0;
    let mut i: usize = 0;
    while i < total
        invariant
            total == sects.len(),
            sects == all_sects(*state),
            total < 0x1000_0001,
            i <= total,
            count == sect_count(sects, country_id@, i as int),
            morale == morale_total(sects, country_id@, i as int),
            morality == morality_total(sects, country_id@, i as int),
            warehouse == warehouse_total(sects, country_id@, i as int),
        decreases total - i,
    {
        proof {
            lemma_totals_bounded(sects, country_id@, i as int);
            assert((i32::MAX as int) * (i as int) <= (i32::MAX as int) * 0x1000_0000) by (nonlinear_arith)
                requires
                    i <= 0x1000_0000,
            ;
        }
        let sect = if i == 0 {
            &state.sect
        } else {
            &state.npc_sects[i - 1]
        };
        assert(*sect == sects[i as int]);
        if sect_in_country(sect, country_id) {
            count = count + 1;
            morale = morale + clamp_percent_i64(sect.attributes.morale);
            morality = morality + clamp_percent_i64(sect.attributes.morality);
            warehouse = warehouse + building_effectiveness(sect, "warehouse") as i64;
        }
        i = i + 1;
    }
    if count == 0 {
        return CountrySignal { prosperity: 0, order: 0 };
    }
    let p = threshold_signal(morale, count, 65, 40) + threshold_signal(warehouse, count, 115, 75);
    let o = threshold_signal(morality, count, 60, 40) + threshold_signal(morale, count, 70, 35);
    CountrySignal {
        prosperity: if p > 0 { 1 } else if p < 0 { -1 } else { 0 },
        order: if o > 0 { 1 } else if o < 0 { -1 } else { 0 },
    }
}

/// `＋n` for a gain and `－n` for a loss, with `n` in decimal digits.
pub open spec fn signed_delta_text(delta: int) -> Seq<char> {
    if delta > 0 {
        "＋"@ + decimal_text(delta as nat)
    } else {
        "－"@ + decimal_text((if delta < 0 { -delta } else { 0 }) as nat)
    }
}

fn signed_delta(delta: i32) -> (r: String)
    requires
        delta > i32::MIN,
    ensures
        r@ == signed_delta_text(delta as int),
{
    if delta > 0 {
        let mut s = String::from_str("＋");
        let digits = decimal(delta as u32);
        s.append(digits.as_str());
        s
    } else {
        let mut s = String::from_str("－");
        let magnitude: u32 = (0 - delta) as u32;
        let digits = decimal(magnitude);
        s.append(digits.as_str());
        s
    }
}

/// The chronicle lines for one realm whose standing moved by the given deltas.
pub open spec fn realm_reports(name: Seq<char>, dp: int, dorder: int) -> Seq<Seq<char>> {
    (if dp != 0 {
        seq![
            name + (if dp > 0 { "商旅渐盛"@ } else { "百业稍疲"@ }) + "（繁荣"@ + signed_delta_text(dp)
                + "）"@,
        ]
    } else {
        Seq::empty()
    }) + (if dorder != 0 {
        seq![
            name + (if dorder > 0 { "道途稍靖"@ } else { "盗风渐炽"@ }) + "（治安"@
                + signed_delta_text(dorder) + "）"@,
        ]
    } else {
        Seq::empty()
    })
}

/// The chronicle lines for the first `n` realms.
pub open spec fn month_reports(names: Seq<Seq<char>>, dps: Seq<int>, dos: Seq<int>, n: int) -> Seq<
    Seq<char>,
>
    decreases n,
{
    if n <= 0 {
        Seq::empty()
    } else {
        month_reports(names, dps, dos, n - 1) + realm_reports(names[n - 1], dps[n - 1], dos[n - 1])
    }
}

/// Drift of the realm at position `i` after normalization.
pub open spec fn drift(state: GameState, i: int) -> (int, int) {
    spec_country_signal(all_sects(state), normalized_id(state.countries@, i))
}

/// Prosperity of the realm at position `i` after this month.
pub open spec fn evolved_prosperity(state: GameState, i: int) -> int {
    clamp_int(normalized_prosperity(state.countries@, i) + drift(state, i).0, 0, 100)
}

/// Order of the realm at position `i` after this month.
pub open spec fn evolved_order(state: GameState, i: int) -> int {
    clamp_int(normalized_order(state.countries@, i) + drift(state, i).1, 0, 100)
}

/// The text of the monthly realm report for `state`, or `None` when no realm moved.
pub open spec fn month_report_text(state: GameState) -> Option<Seq<char>> {
    let cs = state.countries@;
    let n = normalized_len(cs);
    let names = Seq::new(n as nat, |i: int| normalized_name(cs, i));
    let dps = Seq::new(n as nat, |i: int| evolved_prosperity(state, i) - normalized_prosperity(cs, i));
    let dos = Seq::new(n as nat, |i: int| evolved_order(state, i) - normalized_order(cs, i));
    let reports = month_reports(names, dps, dos, n);
    if reports.len() == 0 {
        None
    } else {
        Some("【四境月报】"@ + join_text(reports, "；"@) + "。"@)
    }
}

/// The realms of `before` moved into those of `after` as `evolve_monthly`
/// moves them, `r` being the report it gives; nothing else changed.
pub open spec fn realms_evolved(before: GameState, after: GameState, r: Option<GameEvent>) -> bool {
    &&& after.countries@.len() == normalized_len(before.countries@)
    &&& forall|i: int| 0 <= i < after.countries@.len() ==> {
        &&& (#[trigger] after.countries@[i]).id@ == normalized_id(before.countries@, i)
        &&& after.countries@[i].name@ == normalized_name(before.countries@, i)
        &&& after.countries@[i].population == normalized_population(before.countries@, i)
        &&& after.countries@[i].prosperity == evolved_prosperity(before, i)
        &&& after.countries@[i].order == evolved_order(before, i)
    }
    &&& match (r, month_report_text(before)) {
        (Some(e), Some(text)) => {
            &&& e.text@ == text
            &&& e.mood@ == "neutral"@
            &&& e.category@ == "world"@
            &&& e.year == before.year
            &&& e.month == before.month
        },
        (None, None) => true,
        _ => false,
    }
    &&& after == (GameState { countries: after.countries, ..before })
}

/// Moves each realm's prosperity and order by at most one point from the
/// month-start state of its sects. No randomness is involved. All changes are
/// gathered into at most one world chronicle entry.
pub fn evolve_monthly(state: &mut GameState) -> (r: Option<GameEvent>)
    requires
        old(state).npc_sects@.len() < 0x1000_0000,
    ensures
        final(state).countries@.len() == normalized_len(old(state).countries@),
        forall|i: int| 0 <= i < final(state).countries@.len() ==> {
            &&& (#[trigger] final(state).countries@[i]).id@ == normalized_id(old(state).countries@, i)
            &&& final(state).countries@[i].name@ == normalized_name(old(state).countries@, i)
            &&& final(state).countries@[i].population == normalized_population(
                old(state).countries@,
                i,
            )
            &&& final(state).countries@[i].prosperity == evolved_prosperity(*old(state), i)
            &&& final(state).countries@[i].order == evolved_order(*old(state), i)
        },
        match (r, month_report_text(*old(state))) {
            (Some(e), Some(text)) => {
                &&& e.text@ == text
                &&& e.mood@ == "neutral"@
                &&& e.category@ == "world"@
                &&& e.year == old(state).year
                &&& e.month == old(state).month
            },
            (None, None) => true,
            _ => false,
        },
        *final(state) == (GameState { countries: final(state).countries, ..*old(state) }),
        realms_evolved(*old(state), *final(state), r),
{
    let ghost start = *state;
    normalize_countries(&mut state.countries);
    let ghost cs0 = start.countries@;
    let n = state.countries.len();
    let mut signals: Vec<CountrySignal> = Vec::new();
    let mut i: usize = 0;
    while i < n
        invariant
            n == state.countries@.len(),
            is_normalized_from(cs0, state.countries@),
            cs0 == start.countries@,
            state.sect == start.sect,
            state.npc_sects == start.npc_sects,
            *state == (GameState { countries: state.countries, ..start }),
            state.npc_sects@.len() < 0x1000_0000,
            i <= n,
            signals@.len() == i,
            forall|j: int| 0 <= j < i ==> ((#[trigger] signals@[j]).prosperity as int, signals@[j].order as int)
                == drift(start, j),
        decreases n - i,
    {
        let sig = country_signal(state, state.countries[i].id.as_str());
        proof {
            assert(all_sects(*state) == all_sects(start));
            assert(state.countries@[i as int].id@ == normalized_id(cs0, i as int));
            assert(start.countries@ == cs0);
        }
        signals.push(sig);
        i = i + 1;
    }
    let ghost names = Seq::new(n as nat, |i: int| normalized_name(cs0, i));
    let ghost dps = Seq::new(
        n as nat,
        |i: int| evolved_prosperity(start, i) - normalized_prosperity(cs0, i),
    );
    let ghost dos = Seq::new(n as nat, |i: int| evolved_order(start, i) - normalized_order(cs0, i));
    let mut reports: Vec<String> = Vec::new();
    let mut i: usize = 0;
    while i < n
        invariant
            n == state.countries@.len(),
            n == normalized_len(cs0),
            cs0 == start.countries@,
            signals@.len() == n,
            forall|j: int| 0 <= j < n ==> ((#[trigger] signals@[j]).prosperity as int, signals@[j].order as int)
                == drift(start, j),
            names == Seq::new(n as nat, |i: int| normalized_name(cs0, i)),
            dps == Seq::new(n as nat, |i: int| evolved_prosperity(start, i) - normalized_prosperity(cs0, i)),
            dos == Seq::new(n as nat, |i: int| evolved_order(start, i) - normalized_order(cs0, i)),
            *state == (GameState { countries: state.countries, ..start }),
            i <= n,
            forall|j: int| 0 <= j < n ==> {
                &&& (#[trigger] state.countries@[j]).id@ == normalized_id(cs0, j)
                &&& state.countries@[j].name@ == normalized_name(cs0, j)
                &&& state.countries@[j].population == normalized_population(cs0, j)
                &&& state.countries@[j].prosperity == (if j < i {
                    evolved_prosperity(start, j)
                } else {
                    normalized_prosperity(cs0, j)
                })
                &&& state.countries@[j].order == (if j < i {
                    evolved_order(start, j)
                } else {
                    normalized_order(cs0, j)
                })
            },
            reports@.map_values(|s: String| s@) == month_reports(names, dps, dos, i as int),
        decreases n - i,
    {
        let sig = signals[i];
        let before_p = state.countries[i].prosperity;
        let before_o = state.countries[i].order;
        proof {
            assert(0 <= before_p <= 100);
            assert(-1 <= sig.prosperity <= 1);
            assert(-1 <= sig.order <= 1);
        }
        proof {
            assert(before_p == normalized_prosperity(cs0, i as int));
            assert(before_o == normalized_order(cs0, i as int));
            assert((sig.prosperity as int, sig.order as int) == drift(start, i as int));
            assert(start.countries@ == cs0);
        }
        let p = clamp_i32_range(before_p as i64 + sig.prosperity as i64, 0, 100);
        let o = clamp_i32_range(before_o as i64 + sig.order as i64, 0, 100);
        state.countries[i].prosperity = p;
        state.countries[i].order = o;
        let dp = p - before_p;
        let d_o = o - before_o;
        let ghost old_reports = reports@.map_values(|s: String| s@);
        if dp != 0 {
            let mut line = state.countries[i].name.clone();
            if dp > 0 {
                line.append("商旅渐盛");
            } else {
                line.append("百业稍疲");
            }
            line.append("（繁荣");
            let delta_text = signed_delta(dp);
            line.append(delta_text.as_str());
            line.append("）");
            reports.push(line);
        }
        if d_o != 0 {
            let mut line = state.countries[i].name.clone();
            if d_o > 0 {
                line.append("道途稍靖");
            } else {
                line.append("盗风渐炽");
            }
            line.append("（治安");
            let delta_text = signed_delta(d_o);
            line.append(delta_text.as_str());
            line.append("）");
            reports.push(line);
        }
        proof {
            assert(names[i as int] == normalized_name(cs0, i as int));
            assert(dps[i as int] == dp);
            assert(dos[i as int] == d_o);
            assert(month_reports(names, dps, dos, i as int + 1) == old_reports + realm_reports(
                names[i as int],
                dps[i as int],
                dos[i as int],
            ));
            assert(reports@.map_values(|s: String| s@) =~= month_reports(names, dps, dos, i as int + 1));
        }
        i = i + 1;
    }
    if reports.len() == 0 {
        return None;
    }
    let mut text = String::from_str("【四境月报】");
    let joined = join_strings(&reports, "；");
    text.append(joined.as_str());
    text.append("。");
    Some(GameEvent {
        text,
        mood: String::from_str("neutral"),
        year: state.year,
        month: state.month,
        category: String::from_str("world"),
    })
}

/// Joins the lines with `sep` between neighbours.
pub fn join_strings(lines: &Vec<String>, sep: &str) -> (r: String)
    ensures
        r@ == join_text(lines@.map_values(|s: String| s@), sep@),
{
    let ghost views = lines@.map_values(|s: String| s@);
    let mut r = String::new();
    let mut i: usize = 0;
    while i < lines.len()
        invariant
            views == lines@.map_values(|s: String| s@),
            i <= lines@.len(),
            r@ == join_text(views.take(i as int), sep@),
        decreases lines@.len() - i,
    {
        if i > 0 {
            r.append(sep);
        }
        r.append(lines[i].as_str());
        proof {
            assert(views.take(i as int + 1).drop_last() =~= views.take(i as int));
            assert(views.take(i as int + 1).last() == views[i as int]);
        }
        i = i + 1;
    }
    proof {
        assert(views.take(lines@.len() as int) =~= views);
    }
    r
}

} // verus!
