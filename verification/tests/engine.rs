use encounter_store::codec::{decode_roster, encode_roster, parse_u64, str_eq, u64_to_dec};
use encounter_store::json::{backfill_cleared, backfill_dps, decode_id_map};
use encounter_store::query::{build_count_query, build_list_query};
use encounter_store::schema::{plan_migration, MigrationStep, SchemaState};
use encounter_store::search::{contains_ci, escape_search, search_tokens};
use encounter_store::store::{
    EncounterInput, EntityKind, EntityRow, FilterSpec, SearchIndex, Store,
};

fn fresh_schema() -> SchemaState {
    SchemaState {
        encounter_table: false,
        entity_table: false,
        preview_table: false,
        enc_misc: false,
        enc_difficulty: false,
        enc_favorite_group: false,
        enc_boss_only_damage: false,
        enc_shielding_group: false,
        enc_listing_columns: false,
        ent_dps: false,
        ent_character_id: false,
        ent_engravings: false,
        ent_gear_hash: false,
    }
}

fn entity(name: &str, class_id: u64, dps: u64) -> EntityRow {
    EntityRow {
        name: name.to_owned(),
        encounter_id: 0,
        npc_id: 0,
        kind: EntityKind::Player,
        class_id,
        class_name: String::new(),
        gear_score: 1490,
        current_hp: 1,
        max_hp: 100,
        is_dead: false,
        skills: "{}".to_owned(),
        damage_stats: "{}".to_owned(),
        skill_stats: "{}".to_owned(),
        dps,
    }
}

fn input(boss: &str, duration: u64, fight_start: u64, cleared: bool, entities: Vec<EntityRow>) -> EncounterInput {
    EncounterInput {
        last_combat_packet: fight_start + duration,
        fight_start,
        local_player: "Alice".to_owned(),
        boss: boss.to_owned(),
        duration,
        difficulty: "Normal".to_owned(),
        cleared,
        favorite: false,
        boss_only_damage: false,
        total_damage_dealt: 80000,
        top_damage_dealt: 50000,
        total_damage_taken: 500,
        top_damage_taken: 300,
        dps: 640,
        buffs: "{}".to_owned(),
        debuffs: "{}".to_owned(),
        misc: "{}".to_owned(),
        applied_shield_buffs: "{}".to_owned(),
        total_shielding: 0,
        total_effective_shielding: 0,
        entities,
    }
}

fn no_filter() -> FilterSpec {
    FilterSpec {
        min_duration: 0,
        bosses: Vec::new(),
        cleared_only: false,
        favorite_only: false,
        boss_only_damage: false,
        difficulty: String::new(),
        sort: "fight_start".to_owned(),
        ascending: false,
    }
}

#[test]
fn migration_fresh_store_plan() {
    let (steps, done) = plan_migration(fresh_schema());
    assert_eq!(
        steps,
        vec![
            MigrationStep::CreateEncounterTable,
            MigrationStep::CreateEntityTable,
            MigrationStep::AddEntityGearHash,
            MigrationStep::BackfillCleared,
            MigrationStep::BackfillEntityDps,
            MigrationStep::CreatePreviewTable,
            MigrationStep::PopulatePreview,
            MigrationStep::DropEncounterListingColumns,
            MigrationStep::RebuildPreviewIndexes,
            MigrationStep::CreateSearchIndex,
            MigrationStep::RebuildSearchIndex,
        ]
    );
    assert!(done.encounter_table && done.entity_table && done.preview_table);
    assert!(done.ent_gear_hash && done.enc_misc && done.enc_shielding_group);
    assert!(!done.enc_listing_columns);
}

#[test]
fn migration_second_run_is_idempotent() {
    let (_, done) = plan_migration(fresh_schema());
    let (steps2, done2) = plan_migration(done);
    assert_eq!(done2, done);
    assert_eq!(
        steps2,
        vec![MigrationStep::BackfillCleared, MigrationStep::BackfillEntityDps]
    );
}

#[test]
fn migration_never_readds_present_columns() {
    let mut s = fresh_schema();
    s.encounter_table = true;
    s.entity_table = true;
    s.enc_misc = true;
    s.ent_dps = true;
    let (steps, _) = plan_migration(s);
    assert!(!steps.contains(&MigrationStep::AddEncounterMisc));
    assert!(!steps.contains(&MigrationStep::AddEntityDps));
    assert!(steps.contains(&MigrationStep::AddEncounterDifficulty));
    assert!(steps.contains(&MigrationStep::AddEntityGearHash));
}

#[test]
fn migration_steps_render_their_statements() {
    assert_eq!(
        MigrationStep::AddEntityGearHash.sql(),
        "ALTER TABLE entity ADD COLUMN gear_hash TEXT"
    );
    assert!(MigrationStep::CreateSearchIndex.sql().contains("trigram"));
    assert!(MigrationStep::BackfillCleared.sql().contains("raidClear"));
    assert!(MigrationStep::PopulatePreview.sql().contains("ORDER BY dps DESC"));
}

#[test]
fn migration_backfills_are_idempotent_on_data() {
    let c1 = backfill_cleared(None, "{\"raidClear\":true}");
    assert!(c1);
    assert!(backfill_cleared(Some(c1), "{\"raidClear\":false}"));
    assert!(!backfill_cleared(None, "{}"));
    assert!(!backfill_cleared(None, "not json at all"));
    let d1 = backfill_dps(None, "{\"dps\":123}");
    assert_eq!(d1, 123);
    assert_eq!(backfill_dps(Some(d1), "{\"dps\":999}"), 123);
    assert_eq!(backfill_dps(None, ""), 0);
}

#[test]
fn roster_codec_round_trip() {
    let entries = vec![(101u64, "Alice".to_owned()), (203u64, "Bob".to_owned())];
    let text = encode_roster(&entries);
    assert_eq!(text, "101:Alice,203:Bob");
    let (classes, names) = decode_roster(&text);
    assert_eq!(classes, vec![101, 203]);
    assert_eq!(names, vec!["Alice".to_owned(), "Bob".to_owned()]);
}

#[test]
fn roster_decode_is_lenient() {
    let (classes, names) = decode_roster("101:Alice,garbage,:NoClass,999999999999:Big");
    assert_eq!(classes, vec![101, 101, 101, 101]);
    assert_eq!(
        names,
        vec![
            "Alice".to_owned(),
            "Unknown".to_owned(),
            "NoClass".to_owned(),
            "Big".to_owned(),
        ]
    );
}

#[test]
fn decimal_codec() {
    assert_eq!(u64_to_dec(0), "0");
    assert_eq!(u64_to_dec(125000), "125000");
    assert_eq!(parse_u64("101"), Some(101));
    assert_eq!(parse_u64(""), None);
    assert_eq!(parse_u64("12a"), None);
    assert_eq!(parse_u64("99999999999999999999999"), None);
}

#[test]
fn string_equality() {
    assert!(str_eq("fight_start", "fight_start"));
    assert!(!str_eq("fight_start", "fight_stars"));
    assert!(!str_eq("a", "ab"));
}

#[test]
fn search_escaping_strips_and_quotes() {
    assert_eq!(escape_search("val tan"), "\"val\" \"tan\"");
    assert_eq!(escape_search("  val\ttan\"x  "), "\"val\" \"tanx\"");
    assert_eq!(escape_search(""), "");
    let toks = search_tokens("Valtan  hard\"");
    assert_eq!(toks, vec!["Valtan".to_owned(), "hard".to_owned()]);
}

#[test]
fn substring_match_ignores_ascii_case() {
    assert!(contains_ci("Valtan", "valt"));
    assert!(contains_ci("101:Alice,203:Bob", "ALICE"));
    assert!(!contains_ci("Valtan", "thae"));
    assert!(contains_ci("anything", ""));
}

#[test]
fn json_decoding_is_lenient() {
    assert_eq!(decode_id_map(""), Vec::new());
    assert_eq!(decode_id_map("{broken"), Vec::new());
    assert_eq!(decode_id_map("[1,2]"), Vec::new());
    let m = decode_id_map("{\"7\":{\"k\":1},\"2\":true}");
    assert_eq!(m.len(), 2);
    assert_eq!(m[0].0, 2);
    assert_eq!(m[1].0, 7);
    assert_eq!(m[1].1, "{\"k\":1}");
}

#[test]
fn index_tracks_inserts_updates_and_deletes() {
    let mut ix = SearchIndex::new();
    ix.add(1, "Valtan", "101:Alice");
    ix.add(2, "Thaemine", "203:Bob");
    assert_eq!(ix.matching_ids(&vec!["valt".to_owned()]), vec![1]);
    assert_eq!(ix.matching_ids(&vec!["bob".to_owned()]), vec![2]);
    // update of an indexed field: delete old text, index new text
    ix.replace(1, "Brelshaza", "101:Alice");
    assert_eq!(ix.matching_ids(&vec!["valt".to_owned()]), Vec::<u64>::new());
    assert_eq!(ix.matching_ids(&vec!["brel".to_owned()]), vec![1]);
    ix.remove_ids(&vec![1]);
    assert_eq!(ix.matching_ids(&vec!["brel".to_owned()]), Vec::<u64>::new());
    ix.optimize();
    assert_eq!(ix.matching_ids(&vec!["bob".to_owned()]), vec![2]);
}

#[test]
fn end_to_end_scenario() {
    let mut store = Store::new();
    let id = store.insert(input(
        "Valtan",
        125000,
        1000,
        true,
        vec![entity("Alice", 101, 50000), entity("Bob", 203, 30000)],
    ));

    let enc = store.get(id);
    assert_eq!(enc.id, id);
    assert_eq!(enc.boss, "Valtan");
    assert_eq!(enc.duration, 125000);
    assert!(enc.cleared);
    assert_eq!(enc.entities.len(), 2);
    assert!(enc.entities.iter().any(|e| e.name == "Alice" && e.dps == 50000));
    assert!(enc.entities.iter().any(|e| e.name == "Bob" && e.class_id == 203));

    let mut f = no_filter();
    f.min_duration = 60;
    let page = store.list(1, 10, "", &f);
    assert_eq!(page.total, 1);
    assert_eq!(page.rows.len(), 1);
    assert_eq!(page.rows[0].classes, vec![101, 203]);
    assert_eq!(page.rows[0].names, vec!["Alice".to_owned(), "Bob".to_owned()]);
    assert_eq!(page.rows[0].my_dps, 50000);

    let by_search = store.list(1, 10, "valt", &no_filter());
    assert_eq!(by_search.total, 1);
    assert_eq!(by_search.rows[0].id, id);

    store.delete(id);
    assert_eq!(store.count(), 0);
    let gone = store.list(1, 10, "valt", &no_filter());
    assert_eq!(gone.total, 0);
    assert!(gone.rows.is_empty());
}

#[test]
fn missing_encounter_reads_as_default() {
    let store = Store::new();
    let enc = store.get(42);
    assert_eq!(enc.id, 0);
    assert!(enc.entities.is_empty());
    assert!(enc.buffs.is_empty());
    assert_eq!(enc.boss, "");
}

#[test]
fn decode_leniency_survives_get() {
    let mut store = Store::new();
    let mut inp = input("Valtan", 90000, 5, true, vec![entity("Alice", 101, 1)]);
    inp.buffs = "corrupted{{{".to_owned();
    inp.debuffs = String::new();
    inp.applied_shield_buffs = "{\"11\":{\"a\":1}}".to_owned();
    let id = store.insert(inp);
    let enc = store.get(id);
    assert!(enc.buffs.is_empty());
    assert!(enc.debuffs.is_empty());
    assert_eq!(enc.applied_shield_buffs.len(), 1);
    assert_eq!(enc.applied_shield_buffs[0].0, 11);
}

#[test]
fn cascade_removes_entities_previews_and_index_entries() {
    let mut store = Store::new();
    let a = store.insert(input("Valtan", 100000, 1, true, vec![entity("Alice", 101, 9)]));
    let b = store.insert(input("Thaemine", 200000, 2, false, vec![entity("Bob", 203, 8)]));
    assert_eq!(store.count(), 2);
    store.delete(a);
    assert_eq!(store.count(), 1);
    assert_eq!(store.get(a).id, 0);
    let left = store.get(b);
    assert_eq!(left.entities.len(), 1);
    assert_eq!(left.entities[0].name, "Bob");
    assert_eq!(store.list(1, 10, "valt", &no_filter()).total, 0);
    assert_eq!(store.list(1, 10, "thae", &no_filter()).total, 1);
}

fn seed(store: &mut Store) -> (u64, u64, u64) {
    let a = store.insert(input("Valtan", 100000, 10, true, vec![entity("Alice", 101, 9)]));
    let mut ib = input("Thaemine", 200000, 20, false, vec![entity("Bob", 203, 8)]);
    ib.difficulty = "Hard".to_owned();
    ib.boss_only_damage = true;
    let b = store.insert(ib);
    let c = store.insert(input("Valtan", 50000, 30, true, vec![entity("Cara", 305, 7)]));
    store.toggle_favorite(b);
    (a, b, c)
}

#[test]
fn filters_narrow_independently_and_in_conjunction() {
    let mut store = Store::new();
    let (_a, b, c) = seed(&mut store);

    let mut f = no_filter();
    f.favorite_only = true;
    let r = store.list(1, 10, "", &f);
    assert_eq!(r.total, 1);
    assert_eq!(r.rows[0].id, b);

    let mut f = no_filter();
    f.cleared_only = true;
    assert_eq!(store.list(1, 10, "", &f).total, 2);

    let mut f = no_filter();
    f.boss_only_damage = true;
    let r = store.list(1, 10, "", &f);
    assert_eq!(r.total, 1);
    assert_eq!(r.rows[0].id, b);

    let mut f = no_filter();
    f.bosses = vec!["Valtan".to_owned()];
    assert_eq!(store.list(1, 10, "", &f).total, 2);

    let mut f = no_filter();
    f.difficulty = "Hard".to_owned();
    let r = store.list(1, 10, "", &f);
    assert_eq!(r.total, 1);
    assert_eq!(r.rows[0].id, b);

    let mut f = no_filter();
    f.min_duration = 90;
    assert_eq!(store.list(1, 10, "", &f).total, 2);

    // conjunction
    let mut f = no_filter();
    f.bosses = vec!["Valtan".to_owned()];
    f.min_duration = 90;
    let r = store.list(1, 10, "", &f);
    assert_eq!(r.total, 1);
    assert_ne!(r.rows[0].id, c);
}

#[test]
fn count_and_list_agree_across_pages() {
    let mut store = Store::new();
    seed(&mut store);
    let f = no_filter();
    let total = store.count_filtered("", &f);
    assert_eq!(total, 3);
    let mut summed = 0;
    let mut page = 1;
    loop {
        let r = store.list(page, 2, "", &f);
        assert_eq!(r.total, total);
        if r.rows.is_empty() {
            break;
        }
        summed += r.rows.len();
        page += 1;
    }
    assert_eq!(summed, total);
}

#[test]
fn pagination_windows_and_sorting() {
    let mut store = Store::new();
    let (a, b, c) = seed(&mut store);
    // default order: fight_start descending
    let p1 = store.list(1, 2, "", &no_filter());
    assert_eq!(p1.rows.len(), 2);
    assert_eq!(p1.rows[0].id, c);
    assert_eq!(p1.rows[1].id, b);
    let p2 = store.list(2, 2, "", &no_filter());
    assert_eq!(p2.rows.len(), 1);
    assert_eq!(p2.rows[0].id, a);
    let p3 = store.list(3, 2, "", &no_filter());
    assert!(p3.rows.is_empty());
    assert_eq!(p3.total, 3);

    let mut f = no_filter();
    f.sort = "duration".to_owned();
    f.ascending = true;
    let asc = store.list(1, 10, "", &f);
    assert_eq!(asc.rows[0].id, c);
    assert_eq!(asc.rows[2].id, b);
}

#[test]
fn unknown_sort_key_falls_back_to_default() {
    let mut store = Store::new();
    seed(&mut store);
    let mut evil = no_filter();
    evil.sort = "players; DROP TABLE encounter".to_owned();
    let r1 = store.list(1, 10, "", &evil);
    let r2 = store.list(1, 10, "", &no_filter());
    let ids1: Vec<u64> = r1.rows.iter().map(|r| r.id).collect();
    let ids2: Vec<u64> = r2.rows.iter().map(|r| r.id).collect();
    assert_eq!(ids1, ids2);

    let q_evil = build_list_query(&evil, "", 1, 10);
    let mut safe = no_filter();
    safe.sort = "fight_start".to_owned();
    let q_safe = build_list_query(&safe, "", 1, 10);
    assert_eq!(q_evil.sql, q_safe.sql);
    assert!(!q_evil.sql.contains("DROP"));
}

#[test]
fn composed_queries_share_predicates_and_bind_all_values() {
    let mut f = no_filter();
    f.min_duration = 60;
    f.bosses = vec!["Valtan".to_owned(), "Thaemine".to_owned()];
    f.cleared_only = true;
    f.difficulty = "Hard".to_owned();
    let q = build_list_query(&f, "valtan raid", 2, 25);
    let c = build_count_query(&f, "valtan raid");
    assert_eq!(
        q.sql,
        "SELECT e.id, e.fight_start, e.current_boss, e.duration, e.difficulty, e.favorite, \
         e.cleared, e.local_player, e.my_dps, e.players FROM encounter_preview e \
         JOIN encounter_search(?) ON encounter_search.rowid = e.id \
         WHERE e.duration > ? AND e.current_boss IN (?,?) AND cleared = 1 AND difficulty = ? \
         ORDER BY e.fight_start DESC LIMIT ? OFFSET ?"
    );
    assert_eq!(
        q.params,
        vec![
            "\"valtan\" \"raid\"".to_owned(),
            "60000".to_owned(),
            "Valtan".to_owned(),
            "Thaemine".to_owned(),
            "Hard".to_owned(),
            "25".to_owned(),
            "25".to_owned(),
        ]
    );
    assert_eq!(
        c.sql,
        "SELECT COUNT(*) FROM encounter_preview e \
         JOIN encounter_search(?) ON encounter_search.rowid = e.id \
         WHERE e.duration > ? AND e.current_boss IN (?,?) AND cleared = 1 AND difficulty = ?"
    );
    assert_eq!(c.params[..], q.params[..5]);
    // a short search is inactive: no join, no bound search parameter
    let q2 = build_count_query(&no_filter(), "ab");
    assert_eq!(q2.sql, "SELECT COUNT(*) FROM encounter_preview e WHERE e.duration > ?");
    assert_eq!(q2.params, vec!["0".to_owned()]);
}

#[test]
fn toggle_favorite_flips_and_flips_back() {
    let mut store = Store::new();
    let id = store.insert(input("Valtan", 100000, 1, true, vec![entity("Alice", 101, 2)]));
    assert!(!store.get(id).favorite);
    store.toggle_favorite(id);
    assert!(store.get(id).favorite);
    store.toggle_favorite(id);
    assert!(!store.get(id).favorite);
    // unknown identifier: no effect
    store.toggle_favorite(999);
    assert_eq!(store.count(), 1);
}

#[test]
fn most_recent_id_follows_fight_start() {
    let mut store = Store::new();
    assert_eq!(store.most_recent_id(), None);
    let _a = store.insert(input("Valtan", 1000, 50, true, vec![]));
    let b = store.insert(input("Thaemine", 1000, 90, true, vec![]));
    let _c = store.insert(input("Brelshaza", 1000, 70, true, vec![]));
    assert_eq!(store.most_recent_id(), Some(b));
}

#[test]
fn bulk_deletes_respect_favorites() {
    let mut store = Store::new();
    let (a, b, c) = seed(&mut store);
    // b is favorite and uncleared; a, c cleared
    store.delete_all_uncleared(true);
    assert_eq!(store.count(), 3);
    store.delete_below_duration(80, true);
    // c (50s) deleted, a (100s) and b (200s) stay
    assert_eq!(store.count(), 2);
    assert_eq!(store.get(c).id, 0);
    store.delete_all(true);
    assert_eq!(store.count(), 1);
    assert_eq!(store.get(b).id, b);
    store.delete_all(false);
    assert_eq!(store.count(), 0);
    let _ = a;
}

#[test]
fn delete_all_uncleared_uses_set_semantics() {
    let mut store = Store::new();
    let a = store.insert(input("Valtan", 1000, 1, false, vec![]));
    let b = store.insert(input("Thaemine", 1000, 2, false, vec![]));
    let c = store.insert(input("Brelshaza", 1000, 3, true, vec![]));
    store.delete_all_uncleared(false);
    assert_eq!(store.count(), 1);
    assert_eq!(store.get(a).id, 0);
    assert_eq!(store.get(b).id, 0);
    assert_eq!(store.get(c).id, c);
}

#[test]
fn db_info_counts_total_and_filtered() {
    let mut store = Store::new();
    seed(&mut store);
    let (total, filtered) = store.db_info_counts(90);
    assert_eq!(total, 3);
    assert_eq!(filtered, 2);
    let (_, all) = store.db_info_counts(0);
    assert_eq!(all, 3);
}

#[test]
fn optimize_changes_nothing_logical() {
    let mut store = Store::new();
    seed(&mut store);
    store.optimize();
    assert_eq!(store.count(), 3);
    assert_eq!(store.list(1, 10, "valt", &no_filter()).total, 2);
}

#[test]
fn delete_many_removes_each_given_id() {
    let mut store = Store::new();
    let (a, b, c) = seed(&mut store);
    store.delete_many(&vec![a, c]);
    assert_eq!(store.count(), 1);
    assert_eq!(store.get(b).id, b);
}

#[test]
fn later_entity_row_overwrites_earlier_on_name_collision() {
    let mut store = Store::new();
    let mut e1 = entity("Alice", 101, 10);
    e1.max_hp = 111;
    let mut e2 = entity("Alice", 102, 20);
    e2.max_hp = 222;
    let id = store.insert(input("Valtan", 1000, 1, true, vec![e1, e2]));
    let enc = store.get(id);
    assert_eq!(enc.entities.len(), 1);
    assert_eq!(enc.entities[0].max_hp, 222);
    assert_eq!(enc.entities[0].class_id, 102);
}
