//! Versioned schema bootstrap and migration planning.
//!
//! The migrator is a planner: given the result of probing the live store for
//! expected tables and columns (a `SchemaState`), it produces the ordered list
//! of migration steps to execute and the schema state those steps establish.
//! Every structural step is guarded by a presence probe, so re-running the
//! planner against an up-to-date store yields only the two data backfills,
//! which are themselves idempotent at the data level.

use vstd::prelude::*;

verus! {

/// Schema revision stamped onto newly created stores and rows.
pub const DB_VERSION: u64 = 5;

/// Presence of the tables and migration-added columns of a store, as found by
/// probing the live schema at open time. Each flag answers one probe.
#[derive(Clone, Copy, PartialEq, Eq, Structural, Debug)]
pub struct SchemaState {
    /// The base `encounter` table exists.
    pub encounter_table: bool,
    /// The `entity` table exists.
    pub entity_table: bool,
    /// The `encounter_preview` table (and with it the search index) exists.
    pub preview_table: bool,
    /// Column `misc` on `encounter`.
    pub enc_misc: bool,
    /// Column `difficulty` on `encounter` (pre-preview layout only).
    pub enc_difficulty: bool,
    /// Columns `favorite`, `version`, `cleared` on `encounter`
    /// (pre-preview layout only; the group is added together).
    pub enc_favorite_group: bool,
    /// Column `boss_only_damage` on `encounter` (pre-preview layout only).
    pub enc_boss_only_damage: bool,
    /// Columns `total_shielding`, `total_effective_shielding`,
    /// `applied_shield_buffs` on `encounter` (added together).
    pub enc_shielding_group: bool,
    /// The listing columns (`fight_start`, `current_boss`, `duration`,
    /// `local_player`) still sit on the base table, i.e. the store has not yet
    /// gone through the preview migration.
    pub enc_listing_columns: bool,
    /// Column `dps` on `entity`.
    pub ent_dps: bool,
    /// Column `character_id` on `entity`.
    pub ent_character_id: bool,
    /// Column `engravings` on `entity`.
    pub ent_engravings: bool,
    /// Column `gear_hash` on `entity`.
    pub ent_gear_hash: bool,
}

/// One named, idempotently guarded migration step. The whole plan is meant to
/// run inside a single transaction together with the probes that produced it.
#[derive(Clone, Copy, PartialEq, Eq, Structural, Debug)]
pub enum MigrationStep {
    /// Create `encounter` with its full current column set and its indexes.
    CreateEncounterTable,
    /// Add column `misc` to `encounter`.
    AddEncounterMisc,
    /// Add column `difficulty` to `encounter`.
    AddEncounterDifficulty,
    /// Add columns `favorite`, `version` and `cleared` to `encounter`.
    AddEncounterFavoriteGroup,
    /// Add column `boss_only_damage` to `encounter`.
    AddEncounterBossOnlyDamage,
    /// Add the three shielding columns to `encounter`.
    AddEncounterShieldingGroup,
    /// Create `entity` with its column set and its indexes.
    CreateEntityTable,
    /// Add column `dps` to `entity`.
    AddEntityDps,
    /// Add column `character_id` to `entity`.
    AddEntityCharacterId,
    /// Add column `engravings` to `entity`.
    AddEntityEngravings,
    /// Add column `gear_hash` to `entity`.
    AddEntityGearHash,
    /// Derive `cleared` from the serialized miscellaneous metadata where it is
    /// still null; a no-op once every row has a value.
    BackfillCleared,
    /// Derive the `dps` column on `entity` from its serialized damage
    /// statistics where it is still null; a no-op once every row has a value.
    BackfillEntityDps,
    /// Create `encounter_preview`.
    CreatePreviewTable,
    /// Populate `encounter_preview` from the base tables, computing the
    /// roster string and the local player's damage per second.
    PopulatePreview,
    /// Drop the listing columns from `encounter`; they now live only in the
    /// preview. This is the one documented destructive cleanup step.
    DropEncounterListingColumns,
    /// Recreate the listing indexes on the preview table.
    RebuildPreviewIndexes,
    /// Create the trigram search index over the preview table.
    CreateSearchIndex,
    /// Populate the search index in one bulk rebuild.
    RebuildSearchIndex,
}

/// A step is structural if it changes the schema itself; the two data
/// backfills are not structural and may be replanned on every start.
pub open spec fn is_structural(step: MigrationStep) -> bool {
    !(step == MigrationStep::BackfillCleared || step == MigrationStep::BackfillEntityDps)
}

/// Schema state established by the legacy (base-table) migration stage.
///
/// The probes for `difficulty`, the favorite group and `boss_only_damage` are
/// gated on the preview table being absent: once the preview migration has
/// run, those fields live in the preview row and must not be re-added to the
/// base table.
pub open spec fn spec_migrate_legacy(s: SchemaState) -> SchemaState {
    let s1 = if !s.encounter_table {
        SchemaState {
            encounter_table: true,
            enc_misc: true,
            enc_difficulty: true,
            enc_favorite_group: true,
            enc_boss_only_damage: true,
            enc_shielding_group: true,
            enc_listing_columns: true,
            ..s
        }
    } else {
        SchemaState {
            enc_misc: true,
            enc_difficulty: s.enc_difficulty || !s.preview_table,
            enc_favorite_group: s.enc_favorite_group || !s.preview_table,
            enc_boss_only_damage: s.enc_boss_only_damage || !s.preview_table,
            enc_shielding_group: true,
            ..s
        }
    };
    let s2 = if !s1.entity_table {
        // A freshly created entity table carries every column but `gear_hash`,
        // which the probe below then adds; the quirk is kept as the store
        // format has it.
        SchemaState { entity_table: true, ent_dps: true, ent_character_id: true, ent_engravings: true, ..s1 }
    } else {
        s1
    };
    SchemaState { ent_dps: true, ent_character_id: true, ent_engravings: true, ent_gear_hash: true, ..s2 }
}

/// Schema state established by the search-index (preview) migration stage.
pub open spec fn spec_migrate_search(s: SchemaState) -> SchemaState {
    if !s.preview_table {
        SchemaState {
            preview_table: true,
            enc_listing_columns: false,
            enc_difficulty: false,
            enc_favorite_group: false,
            enc_boss_only_damage: false,
            ..s
        }
    } else {
        s
    }
}

/// Schema state after one full migrator run.
pub open spec fn spec_migrate(s: SchemaState) -> SchemaState {
    spec_migrate_search(spec_migrate_legacy(s))
}

/// Steps of the legacy stage that touch the `encounter` table.
pub open spec fn spec_encounter_steps(s: SchemaState) -> Seq<MigrationStep> {
    if !s.encounter_table {
        seq![MigrationStep::CreateEncounterTable]
    } else {
        (if !s.enc_misc { seq![MigrationStep::AddEncounterMisc] } else { Seq::empty() })
        + (if !s.enc_difficulty && !s.preview_table { seq![MigrationStep::AddEncounterDifficulty] } else { Seq::empty() })
        + (if !s.enc_favorite_group && !s.preview_table { seq![MigrationStep::AddEncounterFavoriteGroup] } else { Seq::empty() })
        + (if !s.enc_boss_only_damage && !s.preview_table { seq![MigrationStep::AddEncounterBossOnlyDamage] } else { Seq::empty() })
        + (if !s.enc_shielding_group { seq![MigrationStep::AddEncounterShieldingGroup] } else { Seq::empty() })
    }
}

/// Steps of the legacy stage that touch the `entity` table. The column probes
/// run against the state left by the create step, so a brand-new store still
/// receives the `gear_hash` column through its probe.
pub open spec fn spec_entity_steps(s: SchemaState) -> Seq<MigrationStep> {
    let created = !s.entity_table;
    (if created { seq![MigrationStep::CreateEntityTable] } else { Seq::empty() })
    + (if !created && !s.ent_dps { seq![MigrationStep::AddEntityDps] } else { Seq::empty() })
    + (if !created && !s.ent_character_id { seq![MigrationStep::AddEntityCharacterId] } else { Seq::empty() })
    + (if !created && !s.ent_engravings { seq![MigrationStep::AddEntityEngravings] } else { Seq::empty() })
    + (if !s.ent_gear_hash { seq![MigrationStep::AddEntityGearHash] } else { Seq::empty() })
}

/// The two data backfills, replanned on every run; both are guarded by a
/// null check in their statements and are therefore idempotent.
pub open spec fn spec_backfill_steps() -> Seq<MigrationStep> {
    seq![MigrationStep::BackfillCleared, MigrationStep::BackfillEntityDps]
}

/// Steps of the search-index stage, taken against the state the legacy stage
/// leaves behind.
pub open spec fn spec_search_steps(s: SchemaState) -> Seq<MigrationStep> {
    if !s.preview_table {
        seq![
            MigrationStep::CreatePreviewTable,
            MigrationStep::PopulatePreview,
            MigrationStep::DropEncounterListingColumns,
            MigrationStep::RebuildPreviewIndexes,
            MigrationStep::CreateSearchIndex,
            MigrationStep::RebuildSearchIndex,
        ]
    } else {
        Seq::empty()
    }
}

/// The full ordered plan of one migrator run.
pub open spec fn spec_plan(s: SchemaState) -> Seq<MigrationStep> {
    spec_encounter_steps(s) + spec_entity_steps(s) + spec_backfill_steps()
        + spec_search_steps(spec_migrate_legacy(s))
}

fn encounter_steps(s: SchemaState) -> (v: Vec<MigrationStep>)
    ensures
        v@ == spec_encounter_steps(s),
{
    let mut v: Vec<MigrationStep> = Vec::new();
    if !s.encounter_table {
        v.push(MigrationStep::CreateEncounterTable);
    } else {
        if !s.enc_misc {
            v.push(MigrationStep::AddEncounterMisc);
        }
        if !s.enc_difficulty && !s.preview_table {
            v.push(MigrationStep::AddEncounterDifficulty);
        }
        if !s.enc_favorite_group && !s.preview_table {
            v.push(MigrationStep::AddEncounterFavoriteGroup);
        }
        if !s.enc_boss_only_damage && !s.preview_table {
            v.push(MigrationStep::AddEncounterBossOnlyDamage);
        }
        if !s.enc_shielding_group {
            v.push(MigrationStep::AddEncounterShieldingGroup);
        }
    }
    assert(v@ =~= spec_encounter_steps(s));
    v
}

fn entity_steps(s: SchemaState) -> (v: Vec<MigrationStep>)
    ensures
        v@ == spec_entity_steps(s),
{
    let mut v: Vec<MigrationStep> = Vec::new();
    if !s.entity_table {
        v.push(MigrationStep::CreateEntityTable);
    } else {
        if !s.ent_dps {
            v.push(MigrationStep::AddEntityDps);
        }
        if !s.ent_character_id {
            v.push(MigrationStep::AddEntityCharacterId);
        }
        if !s.ent_engravings {
            v.push(MigrationStep::AddEntityEngravings);
        }
    }
    if !s.ent_gear_hash {
        v.push(MigrationStep::AddEntityGearHash);
    }
    assert(v@ =~= spec_entity_steps(s));
    v
}

fn migrate_legacy_state(s: SchemaState) -> (r: SchemaState)
    ensures
        r == spec_migrate_legacy(s),
{
    let r = SchemaState {
        encounter_table: true,
        entity_table: true,
        preview_table: s.preview_table,
        enc_misc: true,
        enc_difficulty: if !s.encounter_table { true } else { s.enc_difficulty || !s.preview_table },
        enc_favorite_group: if !s.encounter_table { true } else { s.enc_favorite_group || !s.preview_table },
        enc_boss_only_damage: if !s.encounter_table { true } else { s.enc_boss_only_damage || !s.preview_table },
        enc_shielding_group: true,
        enc_listing_columns: if !s.encounter_table { true } else { s.enc_listing_columns },
        ent_dps: true,
        ent_character_id: true,
        ent_engravings: true,
        ent_gear_hash: true,
    };
    assert(r == spec_migrate_legacy(s));
    r
}

/// Plan one migrator run: the ordered steps to execute against a store whose
/// probes answered `s`, and the schema state those steps establish.
pub fn plan_migration(s: SchemaState) -> (r: (Vec<MigrationStep>, SchemaState))
    ensures
        r.0@ == spec_plan(s),
        r.1 == spec_migrate(s),
{
    let mut steps: Vec<MigrationStep> = encounter_steps(s);
    let mut ent = entity_steps(s);
    steps.append(&mut ent);

    steps.push(MigrationStep::BackfillCleared);
    steps.push(MigrationStep::BackfillEntityDps);
    assert(steps@ =~= spec_encounter_steps(s) + spec_entity_steps(s) + spec_backfill_steps());

    let after_legacy = migrate_legacy_state(s);

    if !after_legacy.preview_table {
        steps.push(MigrationStep::CreatePreviewTable);
        steps.push(MigrationStep::PopulatePreview);
        steps.push(MigrationStep::DropEncounterListingColumns);
        steps.push(MigrationStep::RebuildPreviewIndexes);
        steps.push(MigrationStep::CreateSearchIndex);
        steps.push(MigrationStep::RebuildSearchIndex);
    }
    assert(steps@ =~= spec_plan(s));

    let done = SchemaState {
        preview_table: true,
        enc_listing_columns: if !after_legacy.preview_table { false } else { after_legacy.enc_listing_columns },
        enc_difficulty: if !after_legacy.preview_table { false } else { after_legacy.enc_difficulty },
        enc_favorite_group: if !after_legacy.preview_table { false } else { after_legacy.enc_favorite_group },
        enc_boss_only_damage: if !after_legacy.preview_table { false } else { after_legacy.enc_boss_only_damage },
        ..after_legacy
    };
    assert(done == spec_migrate(s));

    (steps, done)
}

/// The statement text of each planned step, in the storage engine's syntax.
pub open spec fn spec_step_sql(step: MigrationStep) -> Seq<char> {
    match step {
        MigrationStep::CreateEncounterTable => "CREATE TABLE IF NOT EXISTS encounter (id INTEGER PRIMARY KEY, last_combat_packet INTEGER, fight_start INTEGER, local_player TEXT, current_boss TEXT, duration INTEGER, total_damage_dealt INTEGER, top_damage_dealt INTEGER, total_damage_taken INTEGER, top_damage_taken INTEGER, dps INTEGER, buffs TEXT, debuffs TEXT, total_shielding INTEGER DEFAULT 0, total_effective_shielding INTEGER DEFAULT 0, applied_shield_buffs TEXT, misc TEXT, difficulty TEXT, favorite BOOLEAN NOT NULL DEFAULT 0, cleared BOOLEAN, version INTEGER NOT NULL DEFAULT 5, boss_only_damage BOOLEAN NOT NULL DEFAULT 0); CREATE INDEX IF NOT EXISTS encounter_fight_start_index ON encounter (fight_start desc); CREATE INDEX IF NOT EXISTS encounter_current_boss_index ON encounter (current_boss);"@,
        MigrationStep::AddEncounterMisc => "ALTER TABLE encounter ADD COLUMN misc TEXT"@,
        MigrationStep::AddEncounterDifficulty => "ALTER TABLE encounter ADD COLUMN difficulty TEXT"@,
        MigrationStep::AddEncounterFavoriteGroup => "ALTER TABLE encounter ADD COLUMN favorite BOOLEAN DEFAULT 0; ALTER TABLE encounter ADD COLUMN version INTEGER DEFAULT 5; ALTER TABLE encounter ADD COLUMN cleared BOOLEAN;"@,
        MigrationStep::AddEncounterBossOnlyDamage => "ALTER TABLE encounter ADD COLUMN boss_only_damage BOOLEAN NOT NULL DEFAULT 0"@,
        MigrationStep::AddEncounterShieldingGroup => "ALTER TABLE encounter ADD COLUMN total_shielding INTEGER DEFAULT 0; ALTER TABLE encounter ADD COLUMN total_effective_shielding INTEGER DEFAULT 0; ALTER TABLE encounter ADD COLUMN applied_shield_buffs TEXT;"@,
        MigrationStep::CreateEntityTable => "CREATE TABLE IF NOT EXISTS entity (name TEXT, character_id INTEGER, encounter_id INTEGER NOT NULL, npc_id INTEGER, entity_type TEXT, class_id INTEGER, class TEXT, gear_score REAL, current_hp INTEGER, max_hp INTEGER, is_dead INTEGER, skills TEXT, damage_stats TEXT, dps INTEGER, skill_stats TEXT, last_update INTEGER, engravings TEXT, PRIMARY KEY (name, encounter_id), FOREIGN KEY (encounter_id) REFERENCES encounter (id) ON DELETE CASCADE); CREATE INDEX IF NOT EXISTS entity_encounter_id_index ON entity (encounter_id desc); CREATE INDEX IF NOT EXISTS entity_name_index ON entity (name); CREATE INDEX IF NOT EXISTS entity_class_index ON entity (class);"@,
        MigrationStep::AddEntityDps => "ALTER TABLE entity ADD COLUMN dps INTEGER"@,
        MigrationStep::AddEntityCharacterId => "ALTER TABLE entity ADD COLUMN character_id INTEGER"@,
        MigrationStep::AddEntityEngravings => "ALTER TABLE entity ADD COLUMN engravings TEXT"@,
        MigrationStep::AddEntityGearHash => "ALTER TABLE entity ADD COLUMN gear_hash TEXT"@,
        MigrationStep::BackfillCleared => "UPDATE encounter SET cleared = coalesce(json_extract(misc, '$.raidClear'), 0) WHERE cleared IS NULL"@,
        MigrationStep::BackfillEntityDps => "UPDATE entity SET dps = coalesce(json_extract(damage_stats, '$.dps'), 0) WHERE dps IS NULL"@,
        MigrationStep::CreatePreviewTable => "CREATE TABLE encounter_preview (id INTEGER PRIMARY KEY, fight_start INTEGER, current_boss TEXT, duration INTEGER, players TEXT, difficulty TEXT, local_player TEXT, my_dps INTEGER, favorite BOOLEAN NOT NULL DEFAULT 0, cleared BOOLEAN, boss_only_damage BOOLEAN NOT NULL DEFAULT 0, FOREIGN KEY (id) REFERENCES encounter(id) ON DELETE CASCADE)"@,
        MigrationStep::PopulatePreview => "INSERT INTO encounter_preview SELECT id, fight_start, current_boss, duration, (SELECT GROUP_CONCAT(class_id || ':' || name ORDER BY dps DESC) FROM entity WHERE encounter_id = encounter.id AND entity_type = 'PLAYER') AS players, difficulty, local_player, (SELECT dps FROM entity WHERE encounter_id = encounter.id AND name = encounter.local_player) AS my_dps, favorite, cleared, boss_only_damage FROM encounter"@,
        MigrationStep::DropEncounterListingColumns => "DROP INDEX IF EXISTS encounter_fight_start_index; DROP INDEX IF EXISTS encounter_current_boss_index; DROP INDEX IF EXISTS encounter_favorite_index; DROP INDEX IF EXISTS entity_name_index; DROP INDEX IF EXISTS entity_class_index; ALTER TABLE encounter DROP COLUMN fight_start; ALTER TABLE encounter DROP COLUMN current_boss; ALTER TABLE encounter DROP COLUMN duration; ALTER TABLE encounter DROP COLUMN difficulty; ALTER TABLE encounter DROP COLUMN local_player; ALTER TABLE encounter DROP COLUMN favorite; ALTER TABLE encounter DROP COLUMN cleared; ALTER TABLE encounter DROP COLUMN boss_only_damage;"@,
        MigrationStep::RebuildPreviewIndexes => "CREATE INDEX encounter_preview_favorite_index ON encounter_preview(favorite); CREATE INDEX encounter_preview_fight_start_index ON encounter_preview(fight_start); CREATE INDEX encounter_preview_my_dps_index ON encounter_preview(my_dps); CREATE INDEX encounter_preview_duration_index ON encounter_preview(duration);"@,
        MigrationStep::CreateSearchIndex => "CREATE VIRTUAL TABLE encounter_search USING fts5(current_boss, players, columnsize=0, detail=full, tokenize='trigram remove_diacritics 1', content=encounter_preview, content_rowid=id)"@,
        MigrationStep::RebuildSearchIndex => "INSERT INTO encounter_search(encounter_search) VALUES('rebuild')"@,
    }
}

impl MigrationStep {
    /// Render this step's statement. The default stamped into the created
    /// columns is the current schema revision.
    pub fn sql(&self) -> (r: String)
        ensures
            r@ == spec_step_sql(*self),
    {
        match self {
            MigrationStep::CreateEncounterTable => "CREATE TABLE IF NOT EXISTS encounter (id INTEGER PRIMARY KEY, last_combat_packet INTEGER, fight_start INTEGER, local_player TEXT, current_boss TEXT, duration INTEGER, total_damage_dealt INTEGER, top_damage_dealt INTEGER, total_damage_taken INTEGER, top_damage_taken INTEGER, dps INTEGER, buffs TEXT, debuffs TEXT, total_shielding INTEGER DEFAULT 0, total_effective_shielding INTEGER DEFAULT 0, applied_shield_buffs TEXT, misc TEXT, difficulty TEXT, favorite BOOLEAN NOT NULL DEFAULT 0, cleared BOOLEAN, version INTEGER NOT NULL DEFAULT 5, boss_only_damage BOOLEAN NOT NULL DEFAULT 0); CREATE INDEX IF NOT EXISTS encounter_fight_start_index ON encounter (fight_start desc); CREATE INDEX IF NOT EXISTS encounter_current_boss_index ON encounter (current_boss);".to_owned(),
            MigrationStep::AddEncounterMisc => "ALTER TABLE encounter ADD COLUMN misc TEXT".to_owned(),
            MigrationStep::AddEncounterDifficulty => "ALTER TABLE encounter ADD COLUMN difficulty TEXT".to_owned(),
            MigrationStep::AddEncounterFavoriteGroup => "ALTER TABLE encounter ADD COLUMN favorite BOOLEAN DEFAULT 0; ALTER TABLE encounter ADD COLUMN version INTEGER DEFAULT 5; ALTER TABLE encounter ADD COLUMN cleared BOOLEAN;".to_owned(),
            MigrationStep::AddEncounterBossOnlyDamage => "ALTER TABLE encounter ADD COLUMN boss_only_damage BOOLEAN NOT NULL DEFAULT 0".to_owned(),
            MigrationStep::AddEncounterShieldingGroup => "ALTER TABLE encounter ADD COLUMN total_shielding INTEGER DEFAULT 0; ALTER TABLE encounter ADD COLUMN total_effective_shielding INTEGER DEFAULT 0; ALTER TABLE encounter ADD COLUMN applied_shield_buffs TEXT;".to_owned(),
            MigrationStep::CreateEntityTable => "CREATE TABLE IF NOT EXISTS entity (name TEXT, character_id INTEGER, encounter_id INTEGER NOT NULL, npc_id INTEGER, entity_type TEXT, class_id INTEGER, class TEXT, gear_score REAL, current_hp INTEGER, max_hp INTEGER, is_dead INTEGER, skills TEXT, damage_stats TEXT, dps INTEGER, skill_stats TEXT, last_update INTEGER, engravings TEXT, PRIMARY KEY (name, encounter_id), FOREIGN KEY (encounter_id) REFERENCES encounter (id) ON DELETE CASCADE); CREATE INDEX IF NOT EXISTS entity_encounter_id_index ON entity (encounter_id desc); CREATE INDEX IF NOT EXISTS entity_name_index ON entity (name); CREATE INDEX IF NOT EXISTS entity_class_index ON entity (class);".to_owned(),
            MigrationStep::AddEntityDps => "ALTER TABLE entity ADD COLUMN dps INTEGER".to_owned(),
            MigrationStep::AddEntityCharacterId => "ALTER TABLE entity ADD COLUMN character_id INTEGER".to_owned(),
            MigrationStep::AddEntityEngravings => "ALTER TABLE entity ADD COLUMN engravings TEXT".to_owned(),
            MigrationStep::AddEntityGearHash => "ALTER TABLE entity ADD COLUMN gear_hash TEXT".to_owned(),
            MigrationStep::BackfillCleared => "UPDATE encounter SET cleared = coalesce(json_extract(misc, '$.raidClear'), 0) WHERE cleared IS NULL".to_owned(),
            MigrationStep::BackfillEntityDps => "UPDATE entity SET dps = coalesce(json_extract(damage_stats, '$.dps'), 0) WHERE dps IS NULL".to_owned(),
            MigrationStep::CreatePreviewTable => "CREATE TABLE encounter_preview (id INTEGER PRIMARY KEY, fight_start INTEGER, current_boss TEXT, duration INTEGER, players TEXT, difficulty TEXT, local_player TEXT, my_dps INTEGER, favorite BOOLEAN NOT NULL DEFAULT 0, cleared BOOLEAN, boss_only_damage BOOLEAN NOT NULL DEFAULT 0, FOREIGN KEY (id) REFERENCES encounter(id) ON DELETE CASCADE)".to_owned(),
            MigrationStep::PopulatePreview => "INSERT INTO encounter_preview SELECT id, fight_start, current_boss, duration, (SELECT GROUP_CONCAT(class_id || ':' || name ORDER BY dps DESC) FROM entity WHERE encounter_id = encounter.id AND entity_type = 'PLAYER') AS players, difficulty, local_player, (SELECT dps FROM entity WHERE encounter_id = encounter.id AND name = encounter.local_player) AS my_dps, favorite, cleared, boss_only_damage FROM encounter".to_owned(),
            MigrationStep::DropEncounterListingColumns => "DROP INDEX IF EXISTS encounter_fight_start_index; DROP INDEX IF EXISTS encounter_current_boss_index; DROP INDEX IF EXISTS encounter_favorite_index; DROP INDEX IF EXISTS entity_name_index; DROP INDEX IF EXISTS entity_class_index; ALTER TABLE encounter DROP COLUMN fight_start; ALTER TABLE encounter DROP COLUMN current_boss; ALTER TABLE encounter DROP COLUMN duration; ALTER TABLE encounter DROP COLUMN difficulty; ALTER TABLE encounter DROP COLUMN local_player; ALTER TABLE encounter DROP COLUMN favorite; ALTER TABLE encounter DROP COLUMN cleared; ALTER TABLE encounter DROP COLUMN boss_only_damage;".to_owned(),
            MigrationStep::RebuildPreviewIndexes => "CREATE INDEX encounter_preview_favorite_index ON encounter_preview(favorite); CREATE INDEX encounter_preview_fight_start_index ON encounter_preview(fight_start); CREATE INDEX encounter_preview_my_dps_index ON encounter_preview(my_dps); CREATE INDEX encounter_preview_duration_index ON encounter_preview(duration);".to_owned(),
            MigrationStep::CreateSearchIndex => "CREATE VIRTUAL TABLE encounter_search USING fts5(current_boss, players, columnsize=0, detail=full, tokenize='trigram remove_diacritics 1', content=encounter_preview, content_rowid=id)".to_owned(),
            MigrationStep::RebuildSearchIndex => "INSERT INTO encounter_search(encounter_search) VALUES('rebuild')".to_owned(),
        }
    }
}

/// Migration idempotence: a second migrator run against the schema the first
/// run establishes changes nothing, and its plan is exactly the pair of
/// null-guarded data backfills — no structural step is ever replanned.
pub proof fn lemma_migration_idempotent(s: SchemaState)
    ensures
        spec_migrate(spec_migrate(s)) == spec_migrate(s),
        spec_plan(spec_migrate(s)) =~= spec_backfill_steps(),
        forall|i: int| 0 <= i < spec_plan(spec_migrate(s)).len()
            ==> !is_structural(#[trigger] spec_plan(spec_migrate(s))[i]),
{
}

/// Column-presence probes are monotonic: a table or column that the probes
/// found is still found after a migrator run.
pub proof fn lemma_probes_monotonic(s: SchemaState)
    ensures
        s.encounter_table ==> spec_migrate(s).encounter_table,
        s.entity_table ==> spec_migrate(s).entity_table,
        s.preview_table ==> spec_migrate(s).preview_table,
        s.enc_misc ==> spec_migrate(s).enc_misc,
        s.enc_shielding_group ==> spec_migrate(s).enc_shielding_group,
        s.ent_dps ==> spec_migrate(s).ent_dps,
        s.ent_character_id ==> spec_migrate(s).ent_character_id,
        s.ent_engravings ==> spec_migrate(s).ent_engravings,
        s.ent_gear_hash ==> spec_migrate(s).ent_gear_hash,
{
}

/// The probe whose negative answer alone lets a step into a plan. A plan for
/// state `s` only ever holds steps whose guard holds of `s`: in particular a
/// column or table the probes found is never created, added or dropped again.
pub open spec fn step_guard(s: SchemaState, step: MigrationStep) -> bool {
    match step {
        MigrationStep::CreateEncounterTable => !s.encounter_table,
        MigrationStep::AddEncounterMisc => s.encounter_table && !s.enc_misc,
        MigrationStep::AddEncounterDifficulty => s.encounter_table && !s.enc_difficulty && !s.preview_table,
        MigrationStep::AddEncounterFavoriteGroup => s.encounter_table && !s.enc_favorite_group && !s.preview_table,
        MigrationStep::AddEncounterBossOnlyDamage => s.encounter_table && !s.enc_boss_only_damage && !s.preview_table,
        MigrationStep::AddEncounterShieldingGroup => s.encounter_table && !s.enc_shielding_group,
        MigrationStep::CreateEntityTable => !s.entity_table,
        MigrationStep::AddEntityDps => s.entity_table && !s.ent_dps,
        MigrationStep::AddEntityCharacterId => s.entity_table && !s.ent_character_id,
        MigrationStep::AddEntityEngravings => s.entity_table && !s.ent_engravings,
        MigrationStep::AddEntityGearHash => !s.ent_gear_hash,
        MigrationStep::BackfillCleared => true,
        MigrationStep::BackfillEntityDps => true,
        MigrationStep::CreatePreviewTable => !s.preview_table,
        MigrationStep::PopulatePreview => !s.preview_table,
        MigrationStep::DropEncounterListingColumns => !s.preview_table,
        MigrationStep::RebuildPreviewIndexes => !s.preview_table,
        MigrationStep::CreateSearchIndex => !s.preview_table,
        MigrationStep::RebuildSearchIndex => !s.preview_table,
    }
}

proof fn lemma_encounter_steps_guarded(s: SchemaState)
    ensures
        forall|i: int| 0 <= i < spec_encounter_steps(s).len()
            ==> step_guard(s, #[trigger] spec_encounter_steps(s)[i]),
{
}

proof fn lemma_entity_steps_guarded(s: SchemaState)
    ensures
        forall|i: int| 0 <= i < spec_entity_steps(s).len()
            ==> step_guard(s, #[trigger] spec_entity_steps(s)[i]),
{
}

proof fn lemma_search_steps_guarded(s: SchemaState)
    ensures
        forall|i: int| 0 <= i < spec_search_steps(spec_migrate_legacy(s)).len()
            ==> step_guard(s, #[trigger] spec_search_steps(spec_migrate_legacy(s))[i]),
{
    assert(spec_migrate_legacy(s).preview_table == s.preview_table);
}

/// Every planned step is guarded by its probe: the plan for a store that
/// already has a table or column never contains the step that would create,
/// add or drop it again.
#[verifier::rlimit(60)]
pub proof fn lemma_plan_guarded(s: SchemaState)
    ensures
        forall|i: int| 0 <= i < spec_plan(s).len() ==> step_guard(s, #[trigger] spec_plan(s)[i]),
{
    let p1 = spec_encounter_steps(s);
    let p2 = spec_entity_steps(s);
    let p3 = spec_backfill_steps();
    let p4 = spec_search_steps(spec_migrate_legacy(s));
    lemma_encounter_steps_guarded(s);
    lemma_entity_steps_guarded(s);
    lemma_search_steps_guarded(s);
    assert forall|i: int| 0 <= i < p3.len() implies step_guard(s, #[trigger] p3[i]) by {}
    assert(spec_plan(s) == p1 + p2 + p3 + p4);
    assert forall|i: int| 0 <= i < spec_plan(s).len() implies step_guard(
        s,
        #[trigger] spec_plan(s)[i],
    ) by {
        if i < p1.len() {
            assert(spec_plan(s)[i] == p1[i]);
        } else if i < p1.len() + p2.len() {
            assert(spec_plan(s)[i] == p2[i - p1.len()]);
        } else if i < p1.len() + p2.len() + p3.len() {
            assert(spec_plan(s)[i] == p3[i - p1.len() - p2.len()]);
        } else {
            assert(spec_plan(s)[i] == p4[i - p1.len() - p2.len() - p3.len()]);
        }
    }
}

} // verus!
