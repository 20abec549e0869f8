use rand::rngs::StdRng;
use rand::SeedableRng;
use zhangmenriji::creation::{create_martial_art, trim_text, ArtLabels, BasicArtRating};
use zhangmenriji::game::GameState;
use zhangmenriji::model::Disciple;
use zhangmenriji::sect::{ArtCategory, ArtTier};

fn fist_root() -> BasicArtRating {
    BasicArtRating { id: "basic_fist".into(), listed: true, combat_basic: true }
}

fn labels() -> ArtLabels {
    ArtLabels {
        art_type: "拳脚".into(),
        discipline: "拳脚".into(),
        chore_tier: "杂役武学".into(),
        outer_tier: "外门武学".into(),
        inner_tier: "内门武学".into(),
    }
}

#[test]
fn trimming_drops_white_space_at_both_ends() {
    assert_eq!(trim_text("  破山拳\u{3000}"), "破山拳");
    assert_eq!(trim_text(" \t "), "");
    assert_eq!(trim_text("破 山"), "破 山");
}

#[test]
fn a_new_art_is_paid_recorded_and_announced() {
    let mut state = GameState::new();
    let mut rng = StdRng::seed_from_u64(11);
    let r = create_martial_art(&mut rng, &mut state, "  破山拳 ", ArtCategory::Unarmed, &fist_root(), None, &labels());
    assert_eq!(r.unwrap(), "掌门悟通拳脚，亲创杂役武学《破山拳》，本派武学又开新天。");
    assert_eq!(state.sect.attributes.silver, 420);
    assert_eq!(state.sect.attributes.prestige, 108);
    let art = state.sect.created_martial_arts.last().unwrap();
    assert_eq!(art.id, "player_created_0_破山拳");
    assert_eq!(art.name, "破山拳");
    assert_eq!(art.tier, ArtTier::Chore);
    assert_eq!(art.difficulty, 16);
    assert_eq!(art.req_talent, 15);
    assert_eq!(art.basic_skill, "basic_fist");
    assert_eq!(art.desc, "无名派自创的破山拳武学，融汇门中造诣与一己悟性。");
    // strength 2 (3 at 100% and 85% insight) plus inspiration 0..=10
    assert!(art.def >= 2 && art.def <= 12);
    assert_eq!(art.atk, art.def + 2);
    assert_eq!(art.spd, art.def);
    assert_eq!(state.martial_arts_learned.last().unwrap(), "player_created_0_破山拳");
    assert_eq!(state.sect.public_books.last().unwrap(), "player_created_0_破山拳");
    assert_eq!(state.sect.martial_research.get("player_created_0_破山拳"), Some(75));
}

#[test]
fn deep_research_raises_the_grade_and_its_price() {
    let mut state = GameState::new();
    state.sect.martial_research.insert("hunyuan", 300);
    let mut rng = StdRng::seed_from_u64(2);
    let r = create_martial_art(&mut rng, &mut state, "流云步", ArtCategory::Dodge, &fist_root(), None, &labels());
    assert!(r.unwrap().contains("内门武学《流云步》"));
    assert_eq!(state.sect.attributes.silver, 220);
    assert_eq!(state.sect.attributes.prestige, 115);
    let art = state.sect.created_martial_arts.last().unwrap();
    assert_eq!(art.tier, ArtTier::Inner);
    assert_eq!(art.difficulty, 48);
    assert_eq!(art.spd, art.atk + 2);
}

#[test]
fn the_scripture_elder_is_named_in_the_news() {
    let mut state = GameState::new();
    state.disciples.push(Disciple { id: "elder".into(), name: "老周".into(), ..Disciple::default() });
    state.sect.buildings.iter_mut().find(|b| b.id == "scripture").unwrap().elder_id = Some("elder".into());
    let mut rng = StdRng::seed_from_u64(5);
    let r = create_martial_art(&mut rng, &mut state, "归元功", ArtCategory::Force, &fist_root(), None, &labels());
    assert!(r.unwrap().ends_with("，老周参详提点尤多。"));
}

#[test]
fn refusals_change_nothing() {
    let cases: Vec<(&str, ArtCategory, BasicArtRating, Option<&str>, &str)> = vec![
        ("   ", ArtCategory::Unarmed, fist_root(), None, "武学名称须有一至八个汉字。"),
        ("一二三四五六七八九", ArtCategory::Unarmed, fist_root(), None, "武学名称须有一至八个汉字。"),
        ("杂学", ArtCategory::Other, fist_root(), None, "自创武学须为战斗武学（拳脚/轻功/内功/兵器）。"),
        ("无根拳", ArtCategory::Unarmed, BasicArtRating { id: "x".into(), listed: false, combat_basic: false }, None, "所选根基武学谱中无载。"),
        ("医拳", ArtCategory::Unarmed, BasicArtRating { id: "basic_medicine".into(), listed: true, combat_basic: false }, None, "根基须为战斗基础技能。"),
        ("空手剑", ArtCategory::Weapon, fist_root(), None, "兵器武学须择一剑/刀/棍/枪/鞭。"),
    ];
    for (name, category, root, weapon, message) in cases {
        let mut state = GameState::new();
        let mut rng = StdRng::seed_from_u64(1);
        let r = create_martial_art(&mut rng, &mut state, name, category, &root, weapon, &labels());
        assert_eq!(r.unwrap_err(), message);
        assert_eq!(state.sect.attributes.silver, 500);
        assert!(state.sect.created_martial_arts.is_empty());
    }
}

#[test]
fn a_ruined_scripture_hall_or_a_short_treasury_refuses() {
    let mut state = GameState::new();
    state.sect.buildings.iter_mut().find(|b| b.id == "scripture").unwrap().condition = 0;
    let mut rng = StdRng::seed_from_u64(1);
    let r = create_martial_art(&mut rng, &mut state, "破山拳", ArtCategory::Unarmed, &fist_root(), None, &labels());
    assert_eq!(r.unwrap_err(), "藏经阁已经损毁，须先修缮方能理事。");
    let mut state = GameState::new();
    state.sect.attributes.silver = 10;
    let r = create_martial_art(&mut rng, &mut state, "破山拳", ArtCategory::Unarmed, &fist_root(), None, &labels());
    assert_eq!(r.unwrap_err(), "库银不足，尚缺70两。");
    assert!(state.sect.created_martial_arts.is_empty());
    assert_eq!(state.sect.attributes.prestige, 100);
}

#[test]
fn a_weapon_art_with_its_weapon_is_made() {
    let mut state = GameState::new();
    let mut rng = StdRng::seed_from_u64(8);
    let r = create_martial_art(&mut rng, &mut state, "追风剑", ArtCategory::Weapon, &fist_root(), Some("basic_sword"), &labels());
    assert!(r.is_ok());
    let art = state.sect.created_martial_arts.last().unwrap();
    assert_eq!(art.atk, art.def + 1);
    assert_eq!(art.spd, art.def);
}
