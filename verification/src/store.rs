//! The record repository: encounters, entities, previews and the search
//! index, with the invariants that tie them together.
//!
//! The store models the relational schema after migration: every preview row
//! has its encounter row, every entity row references a live encounter, and
//! the search index always reflects exactly the current preview rows. All
//! destructive operations cascade, mirroring the foreign-key behaviour the
//! statements rely on.

use vstd::prelude::*;
use vstd::math::min;
use crate::codec::str_eq;
use crate::search::{is_ws, is_ws_char, text_matches, matches_tokens};

verus! {

/// The query with leading whitespace removed.
pub open spec fn trim_start(s: Seq<char>) -> Seq<char>
    decreases s.len(),
{
    if s.len() > 0 && is_ws(s[0]) {
        trim_start(s.drop_first())
    } else {
        s
    }
}

/// The query with trailing whitespace removed.
pub open spec fn trim_end(s: Seq<char>) -> Seq<char>
    decreases s.len(),
{
    if s.len() > 0 && is_ws(s.last()) {
        trim_end(s.drop_last())
    } else {
        s
    }
}

/// The query with whitespace removed at both ends.
pub open spec fn trimmed(s: Seq<char>) -> Seq<char> {
    trim_end(trim_start(s))
}

/// A free-text search takes part in the listing only when its trimmed length
/// exceeds two characters.
pub open spec fn search_active(s: Seq<char>) -> bool {
    trimmed(s).len() > 2
}

proof fn lemma_trim_start_skip(s: Seq<char>, a: int)
    requires
        0 <= a <= s.len(),
        forall|j: int| 0 <= j < a ==> is_ws(#[trigger] s[j]),
        a < s.len() ==> !is_ws(s[a]),
    ensures
        trim_start(s) == s.skip(a),
    decreases a,
{
    if a == 0 {
        assert(s.skip(0) =~= s);
    } else {
        assert(is_ws(s[0]));
        let d = s.drop_first();
        assert(forall|j: int| 0 <= j < d.len() ==> #[trigger] d[j] == s[j + 1]);
        lemma_trim_start_skip(d, a - 1);
        assert(d.skip(a - 1) =~= s.skip(a));
    }
}

proof fn lemma_trim_end_take(s: Seq<char>, b: int)
    requires
        -1 <= b < s.len(),
        forall|j: int| b < j < s.len() ==> is_ws(#[trigger] s[j]),
        b >= 0 ==> !is_ws(s[b]),
    ensures
        trim_end(s) == s.take(b + 1),
    decreases s.len() - b,
{
    if b == s.len() - 1 {
        assert(s.take(s.len() as int) =~= s);
        if s.len() > 0 {
            assert(!is_ws(s.last()));
        }
    } else {
        assert(is_ws(s.last()));
        let d = s.drop_last();
        assert(forall|j: int| 0 <= j < d.len() ==> #[trigger] d[j] == s[j]);
        lemma_trim_end_take(d, b);
        assert(d.take(b + 1) =~= s.take(b + 1));
    }
}

/// Does this search take part in the listing?
pub fn search_active_exec(s: &str) -> (r: bool)
    ensures
        r == search_active(s@),
{
    let n = s.unicode_len();
    let mut a: usize = 0;
    while a < n && is_ws_char(s.get_char(a))
        invariant
            0 <= a <= n == s@.len(),
            forall|j: int| 0 <= j < a ==> is_ws(#[trigger] s@[j]),
        decreases n - a,
    {
        a = a + 1;
    }
    if a == n {
        proof {
            lemma_trim_start_skip(s@, a as int);
            assert(s@.skip(n as int) =~= Seq::<char>::empty());
        }
        return false;
    }
    let mut b: usize = n - 1;
    while b > a && is_ws_char(s.get_char(b))
        invariant
            a <= b < n == s@.len(),
            !is_ws(s@[a as int]),
            forall|j: int| b < j < n ==> is_ws(#[trigger] s@[j]),
        decreases b,
    {
        b = b - 1;
    }
    proof {
        lemma_trim_start_skip(s@, a as int);
        let u = s@.skip(a as int);
        assert(forall|j: int| 0 <= j < u.len() ==> #[trigger] u[j] == s@[a + j]);
        assert(!is_ws(u[b - a]));
        lemma_trim_end_take(u, b - a);
    }
    b + 1 - a > 2
}

/// The caller-supplied filter of a listing request.
pub struct FilterSpec {
    /// Minimum duration in seconds; rows must last strictly longer.
    pub min_duration: u64,
    /// Boss names to keep; an empty set means no boss filter.
    pub bosses: Vec<String>,
    /// Keep only cleared encounters.
    pub cleared_only: bool,
    /// Keep only favorites.
    pub favorite_only: bool,
    /// Keep only boss-only-damage encounters.
    pub boss_only_damage: bool,
    /// Difficulty to keep; empty means no difficulty filter.
    pub difficulty: String,
    /// Requested sort column, validated against the allow-list.
    pub sort: String,
    /// Sort ascending instead of descending.
    pub ascending: bool,
}

/// Mathematical view of a filter.
#[verifier::ext_equal]
pub struct FilterSpecV {
    pub min_duration: u64,
    pub bosses: Seq<Seq<char>>,
    pub cleared_only: bool,
    pub favorite_only: bool,
    pub boss_only_damage: bool,
    pub difficulty: Seq<char>,
    pub sort: Seq<char>,
    pub ascending: bool,
}

impl View for FilterSpec {
    type V = FilterSpecV;

    open spec fn view(&self) -> FilterSpecV {
        FilterSpecV {
            min_duration: self.min_duration,
            bosses: self.bosses@.map_values(|b: String| b@),
            cleared_only: self.cleared_only,
            favorite_only: self.favorite_only,
            boss_only_damage: self.boss_only_damage,
            difficulty: self.difficulty@,
            sort: self.sort@,
            ascending: self.ascending,
        }
    }
}

/// The non-search conditions of a listing, each purely additive: an inactive
/// condition excludes nothing.
pub open spec fn preview_matches(p: PreviewRowV, f: FilterSpecV) -> bool {
    &&& p.duration > f.min_duration * 1000
    &&& (f.bosses.len() == 0 || f.bosses.contains(p.boss))
    &&& (!f.cleared_only || p.cleared)
    &&& (!f.favorite_only || p.favorite)
    &&& (!f.boss_only_damage || p.boss_only_damage)
    &&& (f.difficulty.len() == 0 || p.difficulty == f.difficulty)
}

/// The whole listing predicate: the filter conditions, and — when the search
/// is active — membership in the search match, which by the index invariant
/// is a token match against the row's current boss name and roster.
pub open spec fn spec_list_pred(p: PreviewRowV, f: FilterSpecV, search: Seq<char>) -> bool {
    preview_matches(p, f) && (search_active(search)
        ==> text_matches(crate::search::spec_tokens(search), p.boss, p.players))
}

/// The rows a listing draws from, in store order.
pub open spec fn spec_filtered(pv: Seq<PreviewRowV>, f: FilterSpecV, search: Seq<char>) -> Seq<PreviewRowV> {
    pv.filter(|p: PreviewRowV| spec_list_pred(p, f, search))
}

/// The sort key the allow-list admits for this name; anything outside the
/// known column set falls back to the fight-start ordering rather than
/// reaching the statement text.
pub open spec fn spec_parse_sort(s: Seq<char>) -> SortField {
    if s == "fight_start"@ {
        SortField::FightStart
    } else if s == "duration"@ {
        SortField::Duration
    } else if s == "my_dps"@ {
        SortField::MyDps
    } else {
        SortField::FightStart
    }
}

/// Validate a sort name against the allow-list.
pub fn parse_sort(s: &str) -> (r: SortField)
    ensures
        r == spec_parse_sort(s@),
{
    if str_eq(s, "fight_start") {
        SortField::FightStart
    } else if str_eq(s, "duration") {
        SortField::Duration
    } else if str_eq(s, "my_dps") {
        SortField::MyDps
    } else {
        SortField::FightStart
    }
}

/// The listing itself: the filtered rows in the requested order.
pub open spec fn spec_listing(pv: Seq<PreviewRowV>, f: FilterSpecV, search: Seq<char>) -> Seq<PreviewRowV> {
    spec_sort(spec_parse_sort(f.sort), f.ascending, spec_filtered(pv, f, search))
}

/// The sortable columns: the one place where caller input reaches the
/// statement text, so it is a closed set.
#[derive(Clone, Copy, PartialEq, Eq, Structural, Debug)]
pub enum SortField {
    FightStart,
    Duration,
    MyDps,
}

/// The key a sort field reads from a row.
pub open spec fn sort_key(f: SortField, p: PreviewRowV) -> u64 {
    match f {
        SortField::FightStart => p.fight_start,
        SortField::Duration => p.duration,
        SortField::MyDps => p.my_dps,
    }
}

/// Strict listing order: by the selected key in the selected direction,
/// ties broken by descending identifier so the order is total over rows
/// with distinct identifiers.
pub open spec fn row_before(f: SortField, asc: bool, a: PreviewRowV, b: PreviewRowV) -> bool {
    if asc {
        sort_key(f, a) < sort_key(f, b) || (sort_key(f, a) == sort_key(f, b) && a.id > b.id)
    } else {
        sort_key(f, a) > sort_key(f, b) || (sort_key(f, a) == sort_key(f, b) && a.id > b.id)
    }
}

/// `x` inserted in front of the first row it comes before.
pub open spec fn insert_sorted(f: SortField, asc: bool, x: PreviewRowV, s: Seq<PreviewRowV>) -> Seq<PreviewRowV>
    decreases s.len(),
{
    if s.len() == 0 {
        seq![x]
    } else if row_before(f, asc, x, s[0]) {
        seq![x] + s
    } else {
        seq![s[0]] + insert_sorted(f, asc, x, s.drop_first())
    }
}

/// The rows in listing order: insertion sort, one definition shared by the
/// implementation and every contract that speaks of order.
pub open spec fn spec_sort(f: SortField, asc: bool, s: Seq<PreviewRowV>) -> Seq<PreviewRowV>
    decreases s.len(),
{
    if s.len() == 0 {
        Seq::empty()
    } else {
        insert_sorted(f, asc, s.last(), spec_sort(f, asc, s.drop_last()))
    }
}

/// Adjacent rows never stand in inverted order.
pub open spec fn sorted_rows(f: SortField, asc: bool, s: Seq<PreviewRowV>) -> bool {
    forall|i: int| 0 <= i < s.len() - 1 ==> !row_before(f, asc, #[trigger] s[i + 1], s[i])
}

proof fn lemma_insert_sorted_len(f: SortField, asc: bool, x: PreviewRowV, s: Seq<PreviewRowV>)
    ensures
        insert_sorted(f, asc, x, s).len() == s.len() + 1,
    decreases s.len(),
{
    if s.len() > 0 && !row_before(f, asc, x, s[0]) {
        lemma_insert_sorted_len(f, asc, x, s.drop_first());
    }
}

proof fn lemma_insert_sorted_sorted(f: SortField, asc: bool, x: PreviewRowV, s: Seq<PreviewRowV>)
    requires
        sorted_rows(f, asc, s),
    ensures
        sorted_rows(f, asc, insert_sorted(f, asc, x, s)),
    decreases s.len(),
{
    let out = insert_sorted(f, asc, x, s);
    if s.len() == 0 {
        assert(sorted_rows(f, asc, out));
    } else if row_before(f, asc, x, s[0]) {
        assert(out == seq![x] + s);
        assert forall|i: int| 0 <= i < out.len() - 1 implies !row_before(
            f,
            asc,
            #[trigger] out[i + 1],
            out[i],
        ) by {
            if i == 0 {
                assert(out[0] == x && out[1] == s[0]);
            } else {
                assert(out[i] == s[i - 1] && out[i + 1] == s[i]);
                assert(!row_before(f, asc, s[i - 1 + 1], s[i - 1]));
            }
        }
    } else {
        let d = s.drop_first();
        assert(forall|j: int| 0 <= j < d.len() ==> #[trigger] d[j] == s[j + 1]);
        assert(sorted_rows(f, asc, d)) by {
            assert forall|i: int| 0 <= i < d.len() - 1 implies !row_before(
                f,
                asc,
                #[trigger] d[i + 1],
                d[i],
            ) by {
                assert(d[i] == s[i + 1] && d[i + 1] == s[i + 2]);
                assert(!row_before(f, asc, s[i + 1 + 1], s[i + 1]));
            }
        }
        lemma_insert_sorted_sorted(f, asc, x, d);
        lemma_insert_sorted_len(f, asc, x, d);
        let rest = insert_sorted(f, asc, x, d);
        assert(out == seq![s[0]] + rest);
        assert forall|i: int| 0 <= i < out.len() - 1 implies !row_before(
            f,
            asc,
            #[trigger] out[i + 1],
            out[i],
        ) by {
            if i == 0 {
                // the head of the inserted tail is either x or the old second row
                if d.len() == 0 || row_before(f, asc, x, d[0]) {
                    assert(rest[0] == x);
                    assert(out[1] == x && out[0] == s[0]);
                    assert(!row_before(f, asc, x, s[0]));
                } else {
                    assert(rest[0] == d[0]);
                    assert(out[1] == d[0] && out[0] == s[0]);
                    assert(!row_before(f, asc, s[0int + 1], s[0int]));
                }
            } else {
                assert(out[i] == rest[i - 1] && out[i + 1] == rest[i]);
                assert(!row_before(f, asc, rest[i - 1 + 1], rest[i - 1]));
            }
        }
    }
}

/// Listing order holds of every sorted sequence, which keeps its length.
pub proof fn lemma_spec_sort_sorted(f: SortField, asc: bool, s: Seq<PreviewRowV>)
    ensures
        sorted_rows(f, asc, spec_sort(f, asc, s)),
        spec_sort(f, asc, s).len() == s.len(),
    decreases s.len(),
{
    if s.len() > 0 {
        lemma_spec_sort_sorted(f, asc, s.drop_last());
        lemma_insert_sorted_sorted(f, asc, s.last(), spec_sort(f, asc, s.drop_last()));
        lemma_insert_sorted_len(f, asc, s.last(), spec_sort(f, asc, s.drop_last()));
    }
}

proof fn lemma_insert_position(
    f: SortField,
    asc: bool,
    x: PreviewRowV,
    s: Seq<PreviewRowV>,
    idx: int,
)
    requires
        0 <= idx <= s.len(),
        forall|j: int| 0 <= j < idx ==> !row_before(f, asc, x, #[trigger] s[j]),
        idx < s.len() ==> row_before(f, asc, x, s[idx]),
    ensures
        insert_sorted(f, asc, x, s) == s.take(idx) + seq![x] + s.skip(idx),
    decreases idx,
{
    if idx == 0 {
        if s.len() == 0 {
            assert(insert_sorted(f, asc, x, s) =~= s.take(0) + seq![x] + s.skip(0));
        } else {
            assert(row_before(f, asc, x, s[0]));
            assert(insert_sorted(f, asc, x, s) =~= s.take(0) + seq![x] + s.skip(0));
        }
    } else {
        assert(!row_before(f, asc, x, s[0]));
        let d = s.drop_first();
        assert(forall|j: int| 0 <= j < d.len() ==> #[trigger] d[j] == s[j + 1]);
        lemma_insert_position(f, asc, x, d, idx - 1);
        assert(insert_sorted(f, asc, x, s)
            == seq![s[0]] + (d.take(idx - 1) + seq![x] + d.skip(idx - 1)));
        assert(seq![s[0]] + (d.take(idx - 1) + seq![x] + d.skip(idx - 1))
            =~= s.take(idx) + seq![x] + s.skip(idx));
    }
}

fn before_exec(f: SortField, asc: bool, a: &PreviewRow, b: &PreviewRow) -> (r: bool)
    ensures
        r == row_before(f, asc, a@, b@),
{
    let ka = match f {
        SortField::FightStart => a.fight_start,
        SortField::Duration => a.duration,
        SortField::MyDps => a.my_dps,
    };
    let kb = match f {
        SortField::FightStart => b.fight_start,
        SortField::Duration => b.duration,
        SortField::MyDps => b.my_dps,
    };
    if asc {
        ka < kb || (ka == kb && a.id > b.id)
    } else {
        ka > kb || (ka == kb && a.id > b.id)
    }
}

fn insert_row(f: SortField, asc: bool, acc: &mut Vec<PreviewRow>, x: PreviewRow)
    ensures
        final(acc)@.map_values(|p: PreviewRow| p@) == insert_sorted(
            f,
            asc,
            x@,
            old(acc)@.map_values(|p: PreviewRow| p@),
        ),
{
    let ghost sv = acc@.map_values(|p: PreviewRow| p@);
    let mut idx: usize = 0;
    while idx < acc.len() && !before_exec(f, asc, &x, &acc[idx])
        invariant
            0 <= idx <= acc.len(),
            *acc == *old(acc),
            sv == acc@.map_values(|p: PreviewRow| p@),
            forall|j: int| 0 <= j < idx ==> !row_before(f, asc, x@, #[trigger] sv[j]),
        decreases acc.len() - idx,
    {
        proof {
            assert(sv[idx as int] == acc@[idx as int]@);
        }
        idx = idx + 1;
    }
    proof {
        if idx < acc.len() {
            assert(sv[idx as int] == acc@[idx as int]@);
        }
        lemma_insert_position(f, asc, x@, sv, idx as int);
    }
    acc.insert(idx, x);
    proof {
        assert(final(acc)@.map_values(|p: PreviewRow| p@)
            =~= sv.take(idx as int) + seq![x@] + sv.skip(idx as int));
    }
}

fn sort_rows(f: SortField, asc: bool, rows: Vec<PreviewRow>) -> (r: Vec<PreviewRow>)
    ensures
        r@.map_values(|p: PreviewRow| p@) == spec_sort(
            f,
            asc,
            rows@.map_values(|p: PreviewRow| p@),
        ),
{
    let ghost rv = rows@.map_values(|p: PreviewRow| p@);
    let mut acc: Vec<PreviewRow> = Vec::new();
    let mut i: usize = 0;
    proof {
        assert(acc@.map_values(|p: PreviewRow| p@) =~= spec_sort(f, asc, rv.take(0)));
    }
    while i < rows.len()
        invariant
            0 <= i <= rows.len(),
            rv == rows@.map_values(|p: PreviewRow| p@),
            acc@.map_values(|p: PreviewRow| p@) == spec_sort(f, asc, rv.take(i as int)),
        decreases rows.len() - i,
    {
        proof {
            assert(rv.take(i + 1).drop_last() =~= rv.take(i as int));
            assert(rv.take(i + 1).last() == rv[i as int]);
            assert(rv[i as int] == rows@[i as int]@);
        }
        insert_row(f, asc, &mut acc, rows[i].clone());
        i = i + 1;
    }
    proof {
        assert(rv.take(rows@.len() as int) =~= rv);
    }
    acc
}

/// The kind of participant an entity row records.
#[derive(Clone, Copy, PartialEq, Eq, Structural, Debug)]
pub enum EntityKind {
    Player,
    Npc,
    Esther,
    LocalPlayer,
    Unknown,
}

/// One participant of an encounter.
pub struct EntityRow {
    pub name: String,
    pub encounter_id: u64,
    pub npc_id: u64,
    pub kind: EntityKind,
    pub class_id: u64,
    pub class_name: String,
    pub gear_score: u64,
    pub current_hp: u64,
    pub max_hp: u64,
    pub is_dead: bool,
    pub skills: String,
    pub damage_stats: String,
    pub skill_stats: String,
    pub dps: u64,
}

/// Mathematical view of an entity row.
#[verifier::ext_equal]
pub struct EntityRowV {
    pub name: Seq<char>,
    pub encounter_id: u64,
    pub npc_id: u64,
    pub kind: EntityKind,
    pub class_id: u64,
    pub class_name: Seq<char>,
    pub gear_score: u64,
    pub current_hp: u64,
    pub max_hp: u64,
    pub is_dead: bool,
    pub skills: Seq<char>,
    pub damage_stats: Seq<char>,
    pub skill_stats: Seq<char>,
    pub dps: u64,
}

impl View for EntityRow {
    type V = EntityRowV;

    open spec fn view(&self) -> EntityRowV {
        EntityRowV {
            name: self.name@,
            encounter_id: self.encounter_id,
            npc_id: self.npc_id,
            kind: self.kind,
            class_id: self.class_id,
            class_name: self.class_name@,
            gear_score: self.gear_score,
            current_hp: self.current_hp,
            max_hp: self.max_hp,
            is_dead: self.is_dead,
            skills: self.skills@,
            damage_stats: self.damage_stats@,
            skill_stats: self.skill_stats@,
            dps: self.dps,
        }
    }
}

impl Clone for EntityRow {
    fn clone(&self) -> (r: Self)
        ensures
            r@ == self@,
    {
        let r = EntityRow {
            name: self.name.clone(),
            encounter_id: self.encounter_id,
            npc_id: self.npc_id,
            kind: self.kind,
            class_id: self.class_id,
            class_name: self.class_name.clone(),
            gear_score: self.gear_score,
            current_hp: self.current_hp,
            max_hp: self.max_hp,
            is_dead: self.is_dead,
            skills: self.skills.clone(),
            damage_stats: self.damage_stats.clone(),
            skill_stats: self.skill_stats.clone(),
            dps: self.dps,
        };
        proof {
            assert(r@ =~= self@);
        }
        r
    }
}

/// One combat session's base row, post-migration layout: the listing fields
/// live in the preview row.
pub struct EncounterRow {
    pub id: u64,
    pub last_combat_packet: u64,
    pub total_damage_dealt: u64,
    pub top_damage_dealt: u64,
    pub total_damage_taken: u64,
    pub top_damage_taken: u64,
    pub dps: u64,
    pub buffs: String,
    pub debuffs: String,
    pub misc: String,
    pub applied_shield_buffs: String,
    pub total_shielding: u64,
    pub total_effective_shielding: u64,
    pub version: u64,
}

/// Mathematical view of an encounter row.
#[verifier::ext_equal]
pub struct EncounterRowV {
    pub id: u64,
    pub last_combat_packet: u64,
    pub total_damage_dealt: u64,
    pub top_damage_dealt: u64,
    pub total_damage_taken: u64,
    pub top_damage_taken: u64,
    pub dps: u64,
    pub buffs: Seq<char>,
    pub debuffs: Seq<char>,
    pub misc: Seq<char>,
    pub applied_shield_buffs: Seq<char>,
    pub total_shielding: u64,
    pub total_effective_shielding: u64,
    pub version: u64,
}

impl View for EncounterRow {
    type V = EncounterRowV;

    open spec fn view(&self) -> EncounterRowV {
        EncounterRowV {
            id: self.id,
            last_combat_packet: self.last_combat_packet,
            total_damage_dealt: self.total_damage_dealt,
            top_damage_dealt: self.top_damage_dealt,
            total_damage_taken: self.total_damage_taken,
            top_damage_taken: self.top_damage_taken,
            dps: self.dps,
            buffs: self.buffs@,
            debuffs: self.debuffs@,
            misc: self.misc@,
            applied_shield_buffs: self.applied_shield_buffs@,
            total_shielding: self.total_shielding,
            total_effective_shielding: self.total_effective_shielding,
            version: self.version,
        }
    }
}

impl Clone for EncounterRow {
    fn clone(&self) -> (r: Self)
        ensures
            r@ == self@,
    {
        let r = EncounterRow {
            id: self.id,
            last_combat_packet: self.last_combat_packet,
            total_damage_dealt: self.total_damage_dealt,
            top_damage_dealt: self.top_damage_dealt,
            total_damage_taken: self.total_damage_taken,
            top_damage_taken: self.top_damage_taken,
            dps: self.dps,
            buffs: self.buffs.clone(),
            debuffs: self.debuffs.clone(),
            misc: self.misc.clone(),
            applied_shield_buffs: self.applied_shield_buffs.clone(),
            total_shielding: self.total_shielding,
            total_effective_shielding: self.total_effective_shielding,
            version: self.version,
        };
        proof {
            assert(r@ =~= self@);
        }
        r
    }
}

/// The denormalized listing row of one encounter.
pub struct PreviewRow {
    pub id: u64,
    pub fight_start: u64,
    pub boss: String,
    pub duration: u64,
    pub players: String,
    pub difficulty: String,
    pub local_player: String,
    pub my_dps: u64,
    pub favorite: bool,
    pub cleared: bool,
    pub boss_only_damage: bool,
}

/// Mathematical view of a preview row.
#[verifier::ext_equal]
pub struct PreviewRowV {
    pub id: u64,
    pub fight_start: u64,
    pub boss: Seq<char>,
    pub duration: u64,
    pub players: Seq<char>,
    pub difficulty: Seq<char>,
    pub local_player: Seq<char>,
    pub my_dps: u64,
    pub favorite: bool,
    pub cleared: bool,
    pub boss_only_damage: bool,
}

impl View for PreviewRow {
    type V = PreviewRowV;

    open spec fn view(&self) -> PreviewRowV {
        PreviewRowV {
            id: self.id,
            fight_start: self.fight_start,
            boss: self.boss@,
            duration: self.duration,
            players: self.players@,
            difficulty: self.difficulty@,
            local_player: self.local_player@,
            my_dps: self.my_dps,
            favorite: self.favorite,
            cleared: self.cleared,
            boss_only_damage: self.boss_only_damage,
        }
    }
}

impl Clone for PreviewRow {
    fn clone(&self) -> (r: Self)
        ensures
            r@ == self@,
    {
        let r = PreviewRow {
            id: self.id,
            fight_start: self.fight_start,
            boss: self.boss.clone(),
            duration: self.duration,
            players: self.players.clone(),
            difficulty: self.difficulty.clone(),
            local_player: self.local_player.clone(),
            my_dps: self.my_dps,
            favorite: self.favorite,
            cleared: self.cleared,
            boss_only_damage: self.boss_only_damage,
        };
        proof {
            assert(r@ =~= self@);
        }
        r
    }
}

/// One search-index entry: the identifier of a preview row and the two text
/// fields that were indexed for it. The index is content-external — a match
/// resolves back to the row by identifier.
pub struct IndexEntry {
    pub id: u64,
    pub boss: String,
    pub players: String,
}

/// Mathematical view of an index entry.
#[verifier::ext_equal]
pub struct IndexEntryV {
    pub id: u64,
    pub boss: Seq<char>,
    pub players: Seq<char>,
}

impl View for IndexEntry {
    type V = IndexEntryV;

    open spec fn view(&self) -> IndexEntryV {
        IndexEntryV { id: self.id, boss: self.boss@, players: self.players@ }
    }
}

impl Clone for IndexEntry {
    fn clone(&self) -> (r: Self)
        ensures
            r@ == self@,
    {
        let r = IndexEntry { id: self.id, boss: self.boss.clone(), players: self.players.clone() };
        proof {
            assert(r@ =~= self@);
        }
        r
    }
}

/// The index entry a preview row must carry.
pub open spec fn entry_of(p: PreviewRowV) -> IndexEntryV {
    IndexEntryV { id: p.id, boss: p.boss, players: p.players }
}

/// One step of a filtering loop: filtering one more element appends it when
/// the predicate holds.
pub proof fn lemma_filter_step<A>(s: Seq<A>, i: int, pred: spec_fn(A) -> bool)
    requires
        0 <= i < s.len(),
    ensures
        s.take(i + 1).filter(pred) == s.take(i).filter(pred) + (if pred(s[i]) {
            seq![s[i]]
        } else {
            Seq::<A>::empty()
        }),
{
    reveal_with_fuel(Seq::filter, 2);
    assert(s.take(i + 1) =~= s.take(i) + seq![s[i]]);
    assert(seq![s[i]].drop_last() =~= Seq::<A>::empty());
    Seq::<A>::filter_distributes_over_add(s.take(i), seq![s[i]], pred);
    assert(seq![s[i]].filter(pred) =~= if pred(s[i]) { seq![s[i]] } else { Seq::<A>::empty() });
}

/// Filtering with predicates that agree on every element gives the same rows.
pub proof fn lemma_filter_equiv<A>(s: Seq<A>, p1: spec_fn(A) -> bool, p2: spec_fn(A) -> bool)
    requires
        forall|i: int| 0 <= i < s.len() ==> p1(#[trigger] s[i]) == p2(s[i]),
    ensures
        s.filter(p1) == s.filter(p2),
    decreases s.len(),
{
    reveal(Seq::filter);
    if s.len() > 0 {
        lemma_filter_equiv(s.drop_last(), p1, p2);
        assert(forall|i: int| 0 <= i < s.len() - 1 ==> #[trigger] s.drop_last()[i] == s[i]);
    }
}

/// Filtering parallel sequences — pointwise images under `f`, with predicates
/// that agree across `f` — gives parallel results.
pub proof fn lemma_filter_parallel<A, B>(
    a: Seq<A>,
    b: Seq<B>,
    f: spec_fn(A) -> B,
    pa: spec_fn(A) -> bool,
    pb: spec_fn(B) -> bool,
)
    requires
        b.len() == a.len(),
        forall|i: int| 0 <= i < a.len() ==> b[i] == f(#[trigger] a[i]),
        forall|i: int| 0 <= i < a.len() ==> pb(#[trigger] b[i]) == pa(a[i]),
    ensures
        b.filter(pb) == a.filter(pa).map_values(f),
    decreases a.len(),
{
    reveal(Seq::filter);
    reveal(Seq::filter);
    if a.len() == 0 {
        assert(b.filter(pb) =~= a.filter(pa).map_values(f));
    } else {
        lemma_filter_parallel(a.drop_last(), b.drop_last(), f, pa, pb);
        assert(forall|i: int| 0 <= i < a.len() - 1 ==> #[trigger] a.drop_last()[i] == a[i]);
        assert(forall|i: int| 0 <= i < b.len() - 1 ==> #[trigger] b.drop_last()[i] == b[i]);
        assert(b.drop_last().len() == a.drop_last().len());
        assert(b.last() == f(a.last()));
        assert(pb(b.last()) == pa(a.last()));
        if pa(a.last()) {
            assert(b.filter(pb) == b.drop_last().filter(pb).push(b.last()));
            assert(a.filter(pa).map_values(f)
                =~= a.drop_last().filter(pa).map_values(f).push(f(a.last())));
        } else {
            assert(a.filter(pa).map_values(f) =~= a.drop_last().filter(pa).map_values(f));
        }
    }
}

/// The trigram-style search index: entries synchronized with the preview
/// rows by explicit calls inside the same logical transaction as the write.
pub struct SearchIndex {
    pub entries: Vec<IndexEntry>,
}

impl View for SearchIndex {
    type V = Seq<IndexEntryV>;

    open spec fn view(&self) -> Seq<IndexEntryV> {
        self.entries@.map_values(|e: IndexEntry| e@)
    }
}

impl SearchIndex {
    /// An empty index.
    pub fn new() -> (r: Self)
        ensures
            r@ == Seq::<IndexEntryV>::empty(),
    {
        let r = SearchIndex { entries: Vec::new() };
        proof {
            assert(r@ =~= Seq::<IndexEntryV>::empty());
        }
        r
    }

    /// Synchronization on preview insert: index the new row's text fields.
    pub fn add(&mut self, id: u64, boss: &str, players: &str)
        ensures
            final(self)@ == old(self)@.push(
                IndexEntryV { id, boss: boss@, players: players@ },
            ),
    {
        let ghost prev = self@;
        self.entries.push(IndexEntry { id, boss: boss.to_owned(), players: players.to_owned() });
        proof {
            assert(self@ =~= prev.push(IndexEntryV { id, boss: boss@, players: players@ }));
        }
    }

    /// Synchronization on preview delete: remove the entries recorded for the
    /// deleted identifiers — by construction those carry the old text values,
    /// not the current ones.
    pub fn remove_ids(&mut self, ids: &Vec<u64>)
        ensures
            final(self)@ == old(self)@.filter(|e: IndexEntryV| !ids@.contains(e.id)),
    {
        let ghost src = self.entries@;
        let ghost pred = |e: IndexEntryV| !ids@.contains(e.id);
        let mut kept: Vec<IndexEntry> = Vec::new();
        let mut i: usize = 0;
        proof {
            reveal_with_fuel(Seq::<_>::filter, 1);
            assert(kept@.map_values(|e: IndexEntry| e@)
                =~= src.map_values(|e: IndexEntry| e@).take(0).filter(pred));
        }
        while i < self.entries.len()
            invariant
                0 <= i <= self.entries.len(),
                src == self.entries@,
                pred == |e: IndexEntryV| !ids@.contains(e.id),
                kept@.map_values(|e: IndexEntry| e@)
                    == src.map_values(|e: IndexEntry| e@).take(i as int).filter(pred),
            decreases self.entries.len() - i,
        {
            let ghost sv = src.map_values(|e: IndexEntry| e@);
            proof {
                lemma_filter_step(sv, i as int, pred);
                assert(sv[i as int] == src[i as int]@);
            }
            if !contains_u64(ids, self.entries[i].id) {
                let ghost prevk = kept@;
                let e = self.entries[i].clone();
                kept.push(e);
                proof {
                    assert(kept@.map_values(|e: IndexEntry| e@)
                        =~= prevk.map_values(|e: IndexEntry| e@).push(src[i as int]@));
                }
            } else {
                proof {
                    assert(kept@.map_values(|e: IndexEntry| e@)
                        =~= sv.take(i + 1).filter(pred));
                }
            }
            i = i + 1;
        }
        proof {
            let sv = src.map_values(|e: IndexEntry| e@);
            assert(sv.take(src.len() as int) =~= sv);
        }
        self.entries = kept;
    }

    /// Synchronization on preview update of an indexed field: drop the entry
    /// recorded under the old values, then index the new ones — never an
    /// in-place text replacement, since the index maps tokens back to rows.
    pub fn replace(&mut self, id: u64, boss: &str, players: &str)
        ensures
            final(self)@ == old(self)@.filter(|e: IndexEntryV| e.id != id).push(
                IndexEntryV { id, boss: boss@, players: players@ },
            ),
    {
        let mut ids: Vec<u64> = Vec::new();
        ids.push(id);
        self.remove_ids(&ids);
        proof {
            assert(ids@.len() == 1 && ids@[0] == id);
            assert forall|k: int| 0 <= k < old(self)@.len() implies (!ids@.contains(
                (#[trigger] old(self)@[k]).id,
            )) == (old(self)@[k].id != id) by {
                if old(self)@[k].id == id {
                    assert(ids@.contains(old(self)@[k].id));
                } else {
                    if ids@.contains(old(self)@[k].id) {
                        let j = choose|j: int|
                            0 <= j < ids@.len() && ids@[j] == old(self)@[k].id;
                        assert(j == 0);
                    }
                }
            }
            lemma_filter_equiv(
                old(self)@,
                |e: IndexEntryV| !ids@.contains(e.id),
                |e: IndexEntryV| e.id != id,
            );
        }
        self.add(id, boss, players);
    }

    /// Discard the index and regenerate it from the current preview rows:
    /// needed at migration time or after detected corruption.
    pub fn rebuild(&mut self, rows: &Vec<PreviewRow>)
        ensures
            final(self)@ == rows@.map_values(|p: PreviewRow| p@).map_values(
                |p: PreviewRowV| entry_of(p),
            ),
    {
        let ghost target = rows@.map_values(|p: PreviewRow| p@).map_values(
            |p: PreviewRowV| entry_of(p),
        );
        let mut entries: Vec<IndexEntry> = Vec::new();
        let mut i: usize = 0;
        while i < rows.len()
            invariant
                0 <= i <= rows.len(),
                target == rows@.map_values(|p: PreviewRow| p@).map_values(
                    |p: PreviewRowV| entry_of(p),
                ),
                entries@.len() == i,
                forall|k: int| 0 <= k < i ==> entries@[k]@ == #[trigger] target[k],
            decreases rows.len() - i,
        {
            entries.push(IndexEntry {
                id: rows[i].id,
                boss: rows[i].boss.clone(),
                players: rows[i].players.clone(),
            });
            i = i + 1;
        }
        self.entries = entries;
        proof {
            assert(self@ =~= target);
        }
    }

    /// Compact the index; its logical contents do not change, so in the model
    /// this is the identity.
    pub fn optimize(&mut self)
        ensures
            final(self)@ == old(self)@,
    {
        let ghost unchanged = self@;
    }

    /// The identifiers of the entries matched by every token, in entry order.
    pub fn matching_ids(&self, tokens: &Vec<String>) -> (r: Vec<u64>)
        ensures
            r@ == self@.filter(
                |e: IndexEntryV| text_matches(
                    tokens@.map_values(|t: String| t@),
                    e.boss,
                    e.players,
                ),
            ).map_values(|e: IndexEntryV| e.id),
{
        let ghost toks = tokens@.map_values(|t: String| t@);
        let ghost pred = |e: IndexEntryV| text_matches(toks, e.boss, e.players);
        let ghost sv = self.entries@.map_values(|e: IndexEntry| e@);
        let mut out: Vec<u64> = Vec::new();
        let mut i: usize = 0;
        proof {
            reveal_with_fuel(Seq::<_>::filter, 1);
            assert(out@ =~= sv.take(0).filter(pred).map_values(|e: IndexEntryV| e.id));
        }
        while i < self.entries.len()
            invariant
                0 <= i <= self.entries.len(),
                toks == tokens@.map_values(|t: String| t@),
                pred == |e: IndexEntryV| text_matches(toks, e.boss, e.players),
                sv == self.entries@.map_values(|e: IndexEntry| e@),
                out@ == sv.take(i as int).filter(pred).map_values(|e: IndexEntryV| e.id),
            decreases self.entries.len() - i,
        {
            proof {
                lemma_filter_step(sv, i as int, pred);
                assert(sv[i as int] == self.entries@[i as int]@);
            }
            if matches_tokens(tokens, self.entries[i].boss.as_str(), self.entries[i].players.as_str()) {
                out.push(self.entries[i].id);
                proof {
                    assert(sv.take(i + 1).filter(pred)
                        =~= sv.take(i as int).filter(pred).push(sv[i as int]));
                    assert(out@ =~= sv.take(i + 1).filter(pred).map_values(
                        |e: IndexEntryV| e.id,
                    ));
                }
            } else {
                proof {
                    assert(out@ =~= sv.take(i + 1).filter(pred).map_values(
                        |e: IndexEntryV| e.id,
                    ));
                }
            }
            i = i + 1;
        }
        proof {
            assert(sv.take(self.entries@.len() as int) =~= sv);
        }
        out
    }
}

/// Everything a filtered sequence holds was already there and satisfies the
/// predicate.
pub proof fn lemma_filter_membership<A>(s: Seq<A>, pred: spec_fn(A) -> bool)
    ensures
        forall|x: A| #[trigger] s.filter(pred).contains(x) ==> s.contains(x) && pred(x),
    decreases s.len(),
{
    reveal(Seq::filter);
    if s.len() > 0 {
        lemma_filter_membership(s.drop_last(), pred);
        assert forall|x: A| #[trigger] s.filter(pred).contains(x) implies s.contains(x) && pred(x) by {
            if s.drop_last().filter(pred).contains(x) {
                assert(s.drop_last().contains(x));
                let j = choose|j: int| 0 <= j < s.drop_last().len() && s.drop_last()[j] == x;
                assert(s[j] == x);
            } else {
                assert(x == s.last());
                assert(s[s.len() - 1] == x);
            }
        }
    }
}

/// Filtering keeps keys pairwise distinct.
pub proof fn lemma_filter_distinct<A>(s: Seq<A>, pred: spec_fn(A) -> bool, key: spec_fn(A) -> u64)
    requires
        forall|i: int, j: int| 0 <= i < j < s.len() ==> key(#[trigger] s[i]) != key(#[trigger] s[j]),
    ensures
        forall|i: int, j: int| 0 <= i < j < s.filter(pred).len()
            ==> key(#[trigger] s.filter(pred)[i]) != key(#[trigger] s.filter(pred)[j]),
    decreases s.len(),
{
    reveal(Seq::filter);
    if s.len() > 0 {
        let d = s.drop_last();
        assert(forall|i: int| 0 <= i < d.len() ==> #[trigger] d[i] == s[i]);
        lemma_filter_distinct(d, pred, key);
        lemma_filter_membership(d, pred);
        let fd = d.filter(pred);
        if pred(s.last()) {
            assert(s.filter(pred) == fd.push(s.last()));
            assert forall|i: int, j: int| 0 <= i < j < s.filter(pred).len() implies key(
                #[trigger] s.filter(pred)[i],
            ) != key(#[trigger] s.filter(pred)[j]) by {
                if j == fd.len() {
                    let x = s.filter(pred)[i];
                    assert(fd.contains(x));
                    let t = choose|t: int| 0 <= t < d.len() && d[t] == x;
                    assert(s[t] == x);
                    assert(key(s[t]) != key(s[s.len() - 1]));
                }
            }
        }
    }
}

/// The identifiers of the rows a predicate dooms.
pub open spec fn doomed_ids(s: Seq<PreviewRowV>, pred: spec_fn(PreviewRowV) -> bool) -> Seq<u64> {
    s.filter(pred).map_values(|p: PreviewRowV| p.id)
}

/// With pairwise distinct identifiers, a row's identifier is doomed exactly
/// when the row itself satisfies the predicate.
pub proof fn lemma_doomed_ids(s: Seq<PreviewRowV>, pred: spec_fn(PreviewRowV) -> bool)
    requires
        forall|i: int, j: int| 0 <= i < j < s.len()
            ==> (#[trigger] s[i]).id != (#[trigger] s[j]).id,
    ensures
        forall|k: int| 0 <= k < s.len()
            ==> doomed_ids(s, pred).contains((#[trigger] s[k]).id) == pred(s[k]),
{
    lemma_filter_membership(s, pred);
    assert forall|k: int| 0 <= k < s.len() implies doomed_ids(s, pred).contains(
        (#[trigger] s[k]).id,
    ) == pred(s[k]) by {
        let ids = doomed_ids(s, pred);
        let fs = s.filter(pred);
        if pred(s[k]) {
            Seq::lemma_filter_contains(s, pred, k);
            let t = choose|t: int| 0 <= t < fs.len() && fs[t] == s[k];
            assert(ids[t] == s[k].id);
            assert(ids.contains(s[k].id));
        }
        if ids.contains(s[k].id) {
            let t = choose|t: int| 0 <= t < ids.len() && ids[t] == s[k].id;
            assert(fs[t].id == s[k].id);
            assert(fs.contains(fs[t]));
            let m = choose|m: int| 0 <= m < s.len() && s[m] == fs[t];
            Seq::lemma_filter_pred(s, pred, t);
            if m != k {
                assert(s[m].id != s[k].id);
            }
            assert(pred(s[k]));
        }
    }
}

/// Linear membership test.
pub fn contains_u64(v: &Vec<u64>, x: u64) -> (r: bool)
    ensures
        r == v@.contains(x),
{
    let mut i: usize = 0;
    while i < v.len()
        invariant
            0 <= i <= v.len(),
            forall|j: int| 0 <= j < i ==> v@[j] != x,
        decreases v.len() - i,
    {
        if v[i] == x {
            return true;
        }
        i = i + 1;
    }
    proof {
        if v@.contains(x) {
            let j = choose|j: int| 0 <= j < v@.len() && v@[j] == x;
            assert(v@[j] != x);
        }
    }
    false
}

fn retain_previews(v: &Vec<PreviewRow>, ids: &Vec<u64>) -> (r: Vec<PreviewRow>)
    ensures
        r@.map_values(|p: PreviewRow| p@) == v@.map_values(|p: PreviewRow| p@).filter(
            |p: PreviewRowV| !ids@.contains(p.id),
        ),
{
    let ghost sv = v@.map_values(|p: PreviewRow| p@);
    let ghost pred = |p: PreviewRowV| !ids@.contains(p.id);
    let mut kept: Vec<PreviewRow> = Vec::new();
    let mut i: usize = 0;
    proof {
        reveal_with_fuel(Seq::<_>::filter, 1);
        assert(kept@.map_values(|p: PreviewRow| p@) =~= sv.take(0).filter(pred));
    }
    while i < v.len()
        invariant
            0 <= i <= v.len(),
            sv == v@.map_values(|p: PreviewRow| p@),
            pred == |p: PreviewRowV| !ids@.contains(p.id),
            kept@.map_values(|p: PreviewRow| p@) == sv.take(i as int).filter(pred),
        decreases v.len() - i,
    {
        proof {
            lemma_filter_step(sv, i as int, pred);
            assert(sv[i as int] == v@[i as int]@);
        }
        if !contains_u64(ids, v[i].id) {
            let ghost prevk = kept@;
            kept.push(v[i].clone());
            proof {
                assert(kept@.map_values(|p: PreviewRow| p@)
                    =~= prevk.map_values(|p: PreviewRow| p@).push(sv[i as int]));
            }
        } else {
            proof {
                assert(kept@.map_values(|p: PreviewRow| p@) =~= sv.take(i + 1).filter(pred));
            }
        }
        i = i + 1;
    }
    proof {
        assert(sv.take(v@.len() as int) =~= sv);
    }
    kept
}

fn retain_encounters(v: &Vec<EncounterRow>, ids: &Vec<u64>) -> (r: Vec<EncounterRow>)
    ensures
        r@.map_values(|e: EncounterRow| e@) == v@.map_values(|e: EncounterRow| e@).filter(
            |e: EncounterRowV| !ids@.contains(e.id),
        ),
{
    let ghost sv = v@.map_values(|e: EncounterRow| e@);
    let ghost pred = |e: EncounterRowV| !ids@.contains(e.id);
    let mut kept: Vec<EncounterRow> = Vec::new();
    let mut i: usize = 0;
    proof {
        reveal_with_fuel(Seq::<_>::filter, 1);
        assert(kept@.map_values(|e: EncounterRow| e@) =~= sv.take(0).filter(pred));
    }
    while i < v.len()
        invariant
            0 <= i <= v.len(),
            sv == v@.map_values(|e: EncounterRow| e@),
            pred == |e: EncounterRowV| !ids@.contains(e.id),
            kept@.map_values(|e: EncounterRow| e@) == sv.take(i as int).filter(pred),
        decreases v.len() - i,
    {
        proof {
            lemma_filter_step(sv, i as int, pred);
            assert(sv[i as int] == v@[i as int]@);
        }
        if !contains_u64(ids, v[i].id) {
            let ghost prevk = kept@;
            kept.push(v[i].clone());
            proof {
                assert(kept@.map_values(|e: EncounterRow| e@)
                    =~= prevk.map_values(|e: EncounterRow| e@).push(sv[i as int]));
            }
        } else {
            proof {
                assert(kept@.map_values(|e: EncounterRow| e@) =~= sv.take(i + 1).filter(pred));
            }
        }
        i = i + 1;
    }
    proof {
        assert(sv.take(v@.len() as int) =~= sv);
    }
    kept
}

fn retain_entities(v: &Vec<EntityRow>, ids: &Vec<u64>) -> (r: Vec<EntityRow>)
    ensures
        r@.map_values(|e: EntityRow| e@) == v@.map_values(|e: EntityRow| e@).filter(
            |e: EntityRowV| !ids@.contains(e.encounter_id),
        ),
{
    let ghost sv = v@.map_values(|e: EntityRow| e@);
    let ghost pred = |e: EntityRowV| !ids@.contains(e.encounter_id);
    let mut kept: Vec<EntityRow> = Vec::new();
    let mut i: usize = 0;
    proof {
        reveal_with_fuel(Seq::<_>::filter, 1);
        assert(kept@.map_values(|e: EntityRow| e@) =~= sv.take(0).filter(pred));
    }
    while i < v.len()
        invariant
            0 <= i <= v.len(),
            sv == v@.map_values(|e: EntityRow| e@),
            pred == |e: EntityRowV| !ids@.contains(e.encounter_id),
            kept@.map_values(|e: EntityRow| e@) == sv.take(i as int).filter(pred),
        decreases v.len() - i,
    {
        proof {
            lemma_filter_step(sv, i as int, pred);
            assert(sv[i as int] == v@[i as int]@);
        }
        if !contains_u64(ids, v[i].encounter_id) {
            let ghost prevk = kept@;
            kept.push(v[i].clone());
            proof {
                assert(kept@.map_values(|e: EntityRow| e@)
                    =~= prevk.map_values(|e: EntityRow| e@).push(sv[i as int]));
            }
        } else {
            proof {
                assert(kept@.map_values(|e: EntityRow| e@) =~= sv.take(i + 1).filter(pred));
            }
        }
        i = i + 1;
    }
    proof {
        assert(sv.take(v@.len() as int) =~= sv);
    }
    kept
}

/// Everything a finished combat session hands the repository: the aggregate
/// row, the listing fields, and the participating entities. The repository
/// assigns the identifier.
pub struct EncounterInput {
    pub last_combat_packet: u64,
    pub fight_start: u64,
    pub local_player: String,
    pub boss: String,
    pub duration: u64,
    pub difficulty: String,
    pub cleared: bool,
    pub favorite: bool,
    pub boss_only_damage: bool,
    pub total_damage_dealt: u64,
    pub top_damage_dealt: u64,
    pub total_damage_taken: u64,
    pub top_damage_taken: u64,
    pub dps: u64,
    pub buffs: String,
    pub debuffs: String,
    pub misc: String,
    pub applied_shield_buffs: String,
    pub total_shielding: u64,
    pub total_effective_shielding: u64,
    pub entities: Vec<EntityRow>,
}

/// The store: the base tables, the preview projection and the search index.
pub struct Store {
    pub encounters: Vec<EncounterRow>,
    pub entities: Vec<EntityRow>,
    pub previews: Vec<PreviewRow>,
    pub index: SearchIndex,
}

impl Store {
    /// The preview rows as mathematical values.
    pub open spec fn previews_v(self) -> Seq<PreviewRowV> {
        self.previews@.map_values(|p: PreviewRow| p@)
    }

    /// The encounter rows as mathematical values.
    pub open spec fn encounters_v(self) -> Seq<EncounterRowV> {
        self.encounters@.map_values(|e: EncounterRow| e@)
    }

    /// The entity rows as mathematical values.
    pub open spec fn entities_v(self) -> Seq<EntityRowV> {
        self.entities@.map_values(|e: EntityRow| e@)
    }

    /// An encounter row with this identifier exists.
    pub open spec fn has_encounter(self, id: u64) -> bool {
        exists|j: int|
            0 <= j < self.encounters_v().len() && (#[trigger] self.encounters_v()[j]).id == id
    }

    /// A preview row with this identifier exists.
    pub open spec fn has_preview(self, id: u64) -> bool {
        exists|j: int|
            0 <= j < self.previews_v().len() && (#[trigger] self.previews_v()[j]).id == id
    }

    /// The store's invariants: identifiers are unique; previews and
    /// encounters are one-to-one; every entity row references a live
    /// encounter; and the search index holds exactly one entry per preview
    /// row, carrying that row's current indexed text.
    pub open spec fn wf(self) -> bool {
        &&& forall|i: int, j: int| 0 <= i < j < self.previews_v().len()
            ==> (#[trigger] self.previews_v()[i]).id != (#[trigger] self.previews_v()[j]).id
        &&& forall|i: int, j: int| 0 <= i < j < self.encounters_v().len()
            ==> (#[trigger] self.encounters_v()[i]).id != (#[trigger] self.encounters_v()[j]).id
        &&& forall|i: int| 0 <= i < self.previews_v().len()
            ==> self.has_encounter((#[trigger] self.previews_v()[i]).id)
        &&& forall|i: int| 0 <= i < self.encounters_v().len()
            ==> self.has_preview((#[trigger] self.encounters_v()[i]).id)
        &&& forall|k: int| 0 <= k < self.entities_v().len()
            ==> self.has_encounter((#[trigger] self.entities_v()[k]).encounter_id)
        &&& self.index@ == self.previews_v().map_values(|p: PreviewRowV| entry_of(p))
    }

    /// An empty store, the state the migrations establish on a brand-new
    /// store file.
    pub fn new() -> (r: Store)
        ensures
            r.wf(),
            r.previews_v() == Seq::<PreviewRowV>::empty(),
            r.encounters_v() == Seq::<EncounterRowV>::empty(),
            r.entities_v() == Seq::<EntityRowV>::empty(),
    {
        let r = Store {
            encounters: Vec::new(),
            entities: Vec::new(),
            previews: Vec::new(),
            index: SearchIndex::new(),
        };
        proof {
            assert(r.previews_v() =~= Seq::<PreviewRowV>::empty());
            assert(r.encounters_v() =~= Seq::<EncounterRowV>::empty());
            assert(r.entities_v() =~= Seq::<EntityRowV>::empty());
            assert(r.index@ =~= r.previews_v().map_values(|p: PreviewRowV| entry_of(p)));
        }
        r
    }

    /// How many encounters the store holds.
    pub fn count(&self) -> (r: usize)
        ensures
            r == self.previews_v().len(),
    {
        self.previews.len()
    }

    /// The identifier of the most recently started encounter, if any.
    pub fn most_recent_id(&self) -> (r: Option<u64>)
        ensures
            (r is None) <==> self.previews_v().len() == 0,
            r matches Some(id) ==> exists|k: int|
                0 <= k < self.previews_v().len() && (#[trigger] self.previews_v()[k]).id == id
                    && forall|j: int| 0 <= j < self.previews_v().len()
                        ==> (#[trigger] self.previews_v()[j]).fight_start
                            <= self.previews_v()[k].fight_start,
    {
        if self.previews.len() == 0 {
            return None;
        }
        let mut best: usize = 0;
        let mut i: usize = 1;
        while i < self.previews.len()
            invariant
                0 <= best < i <= self.previews.len(),
                forall|j: int| 0 <= j < i ==> (#[trigger] self.previews_v()[j]).fight_start
                    <= self.previews_v()[best as int].fight_start,
            decreases self.previews.len() - i,
        {
            proof {
                assert(self.previews_v()[i as int] == self.previews@[i as int]@);
                assert(self.previews_v()[best as int] == self.previews@[best as int]@);
            }
            if self.previews[i].fight_start > self.previews[best].fight_start {
                best = i;
            }
            i = i + 1;
        }
        let id = self.previews[best].id;
        proof {
            let b = best as int;
            assert(self.previews_v()[b] == self.previews@[b]@);
            assert(self.previews_v()[b].id == id);
        }
        Some(id)
    }

    /// Flip the favorite flag of the encounter with this identifier; a
    /// missing identifier changes nothing. A single unconditional update, so
    /// no read-modify-write protection is needed.
    pub fn toggle_favorite(&mut self, id: u64)
        requires
            old(self).wf(),
        ensures
            final(self).wf(),
            final(self).previews_v() == old(self).previews_v().map_values(
                |p: PreviewRowV| if p.id == id {
                    PreviewRowV { favorite: !p.favorite, ..p }
                } else {
                    p
                },
            ),
            final(self).encounters_v() == old(self).encounters_v(),
            final(self).entities_v() == old(self).entities_v(),
            final(self).index@ == old(self).index@,
    {
        let ghost target = old(self).previews_v().map_values(
            |p: PreviewRowV| if p.id == id {
                PreviewRowV { favorite: !p.favorite, ..p }
            } else {
                p
            },
        );
        let mut k: usize = 0;
        while k < self.previews.len()
            invariant
                0 <= k <= self.previews.len(),
                *self == *old(self),
                old(self).wf(),
                target == old(self).previews_v().map_values(
                    |p: PreviewRowV| if p.id == id {
                        PreviewRowV { favorite: !p.favorite, ..p }
                    } else {
                        p
                    },
                ),
                forall|j: int| 0 <= j < k ==> (#[trigger] old(self).previews_v()[j]).id != id,
            decreases self.previews.len() - k,
        {
            proof {
                assert(self.previews_v()[k as int] == self.previews@[k as int]@);
            }
            if self.previews[k].id == id {
                let row = self.previews.remove(k);
                let updated = PreviewRow { favorite: !row.favorite, ..row };
                self.previews.insert(k, updated);
                proof {
                    assert(old(self).wf());
                    let opv = old(self).previews_v();
                    assert(opv[k as int] == old(self).previews@[k as int]@);
                    assert(opv[k as int].id == id);
                    assert forall|j: int| 0 <= j < opv.len() && j != k
                        implies (#[trigger] opv[j]).id != id by {
                        if j < k {
                            assert((#[trigger] opv[j]).id != (#[trigger] opv[k as int]).id);
                        } else {
                            assert((#[trigger] opv[k as int]).id != (#[trigger] opv[j]).id);
                        }
                    }
                    assert(updated@ =~= PreviewRowV {
                        favorite: !old(self).previews_v()[k as int].favorite,
                        ..old(self).previews_v()[k as int]
                    });
                    assert(self.previews_v() =~= target);
                    assert(self.index@ =~= self.previews_v().map_values(
                        |p: PreviewRowV| entry_of(p),
                    ));
                    assert forall|i: int| 0 <= i < self.previews_v().len()
                        implies self.has_encounter(
                        (#[trigger] self.previews_v()[i]).id,
                    ) by {
                        assert(self.previews_v()[i].id == old(self).previews_v()[i].id);
                        assert(old(self).has_encounter(old(self).previews_v()[i].id));
                    }
                    assert forall|i: int| 0 <= i < self.encounters_v().len()
                        implies self.has_preview(
                        (#[trigger] self.encounters_v()[i]).id,
                    ) by {
                        assert(old(self).has_preview(old(self).encounters_v()[i].id));
                        let j = choose|j: int|
                            0 <= j < old(self).previews_v().len()
                                && old(self).previews_v()[j].id == old(self).encounters_v()[i].id;
                        assert(self.previews_v()[j].id == old(self).previews_v()[j].id);
                    }
                    assert forall|t: int| 0 <= t < self.entities_v().len()
                        implies self.has_encounter(
                        (#[trigger] self.entities_v()[t]).encounter_id,
                    ) by {
                        assert(old(self).has_encounter(old(self).entities_v()[t].encounter_id));
                    }
                }
                return;
            }
            k = k + 1;
        }
        proof {
            assert(self.previews_v() =~= target);
        }
    }

    /// Delete the encounters with these identifiers, cascading to their
    /// entity rows, their preview rows and their search-index entries.
    pub fn delete_many(&mut self, ids: &Vec<u64>)
        requires
            old(self).wf(),
        ensures
            final(self).wf(),
            final(self).previews_v() == old(self).previews_v().filter(
                |p: PreviewRowV| !ids@.contains(p.id),
            ),
            final(self).encounters_v() == old(self).encounters_v().filter(
                |e: EncounterRowV| !ids@.contains(e.id),
            ),
            final(self).entities_v() == old(self).entities_v().filter(
                |e: EntityRowV| !ids@.contains(e.encounter_id),
            ),
            final(self).index@ == old(self).index@.filter(
                |e: IndexEntryV| !ids@.contains(e.id),
            ),
    {
        let new_previews = retain_previews(&self.previews, ids);
        let new_encounters = retain_encounters(&self.encounters, ids);
        let new_entities = retain_entities(&self.entities, ids);
        self.previews = new_previews;
        self.encounters = new_encounters;
        self.entities = new_entities;
        self.index.remove_ids(ids);
        proof {
            let opv = old(self).previews_v();
            let oev = old(self).encounters_v();
            let otv = old(self).entities_v();
            let ppred = |p: PreviewRowV| !ids@.contains(p.id);
            let epred = |e: EncounterRowV| !ids@.contains(e.id);
            let tpred = |e: EntityRowV| !ids@.contains(e.encounter_id);
            let xpred = |e: IndexEntryV| !ids@.contains(e.id);
            lemma_filter_membership(opv, ppred);
            lemma_filter_membership(oev, epred);
            lemma_filter_membership(otv, tpred);
            lemma_filter_distinct(opv, ppred, |p: PreviewRowV| p.id);
            lemma_filter_distinct(oev, epred, |e: EncounterRowV| e.id);
            // the index stays the projection of the surviving previews
            assert(old(self).index@.len() == opv.len());
            lemma_filter_parallel(
                opv,
                old(self).index@,
                |p: PreviewRowV| entry_of(p),
                ppred,
                xpred,
            );
            // one-to-one correspondence survives the deletion
            assert forall|i: int| 0 <= i < self.previews_v().len()
                implies self.has_encounter(
                (#[trigger] self.previews_v()[i]).id,
            ) by {
                let p = self.previews_v()[i];
                assert(self.previews_v().contains(p));
                assert(opv.contains(p) && ppred(p));
                let j = choose|j: int| 0 <= j < opv.len() && opv[j] == p;
                assert(old(self).has_encounter(p.id));
                let t = choose|t: int| 0 <= t < oev.len() && oev[t].id == p.id;
                assert(epred(oev[t]));
                Seq::lemma_filter_contains(oev, epred, t);
                let m = choose|m: int|
                    0 <= m < self.encounters_v().len() && self.encounters_v()[m] == oev[t];
                assert(self.encounters_v()[m].id == p.id);
            }
            assert forall|i: int| 0 <= i < self.encounters_v().len()
                implies self.has_preview(
                (#[trigger] self.encounters_v()[i]).id,
            ) by {
                let e = self.encounters_v()[i];
                assert(self.encounters_v().contains(e));
                assert(oev.contains(e) && epred(e));
                assert(old(self).has_preview(e.id));
                let t = choose|t: int| 0 <= t < opv.len() && opv[t].id == e.id;
                assert(ppred(opv[t]));
                Seq::lemma_filter_contains(opv, ppred, t);
            }
            assert forall|k: int| 0 <= k < self.entities_v().len()
                implies self.has_encounter(
                (#[trigger] self.entities_v()[k]).encounter_id,
            ) by {
                let e = self.entities_v()[k];
                assert(self.entities_v().contains(e));
                assert(otv.contains(e) && tpred(e));
                assert(old(self).has_encounter(e.encounter_id));
                let t = choose|t: int| 0 <= t < oev.len() && oev[t].id == e.encounter_id;
                assert(epred(oev[t]));
                Seq::lemma_filter_contains(oev, epred, t);
            }
        }
    }

    /// Delete one encounter, cascading as `delete_many` does.
    pub fn delete(&mut self, id: u64)
        requires
            old(self).wf(),
        ensures
            final(self).wf(),
            final(self).previews_v() == old(self).previews_v().filter(
                |p: PreviewRowV| p.id != id,
            ),
            final(self).encounters_v() == old(self).encounters_v().filter(
                |e: EncounterRowV| e.id != id,
            ),
            final(self).entities_v() == old(self).entities_v().filter(
                |e: EntityRowV| e.encounter_id != id,
            ),
            final(self).index@ == old(self).index@.filter(|e: IndexEntryV| e.id != id),
    {
        let mut ids: Vec<u64> = Vec::new();
        ids.push(id);
        self.delete_many(&ids);
        proof {
            assert(ids@.len() == 1 && ids@[0] == id);
            assert forall|x: u64| ids@.contains(x) == (x == id) by {
                if ids@.contains(x) {
                    let j = choose|j: int| 0 <= j < ids@.len() && ids@[j] == x;
                    assert(j == 0);
                }
                if x == id {
                    assert(ids@[0] == x);
                }
            }
            lemma_filter_equiv(
                old(self).previews_v(),
                |p: PreviewRowV| !ids@.contains(p.id),
                |p: PreviewRowV| p.id != id,
            );
            lemma_filter_equiv(
                old(self).encounters_v(),
                |e: EncounterRowV| !ids@.contains(e.id),
                |e: EncounterRowV| e.id != id,
            );
            lemma_filter_equiv(
                old(self).entities_v(),
                |e: EntityRowV| !ids@.contains(e.encounter_id),
                |e: EntityRowV| e.encounter_id != id,
            );
            lemma_filter_equiv(
                old(self).index@,
                |e: IndexEntryV| !ids@.contains(e.id),
                |e: IndexEntryV| e.id != id,
            );
        }
    }

    /// The identifiers of the previews a predicate selects for deletion,
    /// and the deletion itself: shared tail of the bulk delete operations.
    /// The encounters, entities and index entries of exactly the doomed
    /// identifiers are removed along with their previews.
    fn delete_where(&mut self, doomed: Vec<u64>, Ghost(pred): Ghost<spec_fn(PreviewRowV) -> bool>)
        requires
            old(self).wf(),
            doomed@ == doomed_ids(old(self).previews_v(), pred),
        ensures
            final(self).wf(),
            final(self).previews_v() == old(self).previews_v().filter(
                |p: PreviewRowV| !pred(p),
            ),
            final(self).encounters_v() == old(self).encounters_v().filter(
                |e: EncounterRowV| !doomed_ids(old(self).previews_v(), pred).contains(e.id),
            ),
            final(self).entities_v() == old(self).entities_v().filter(
                |e: EntityRowV| !doomed_ids(old(self).previews_v(), pred).contains(e.encounter_id),
            ),
            final(self).index@ == old(self).index@.filter(
                |e: IndexEntryV| !doomed_ids(old(self).previews_v(), pred).contains(e.id),
            ),
    {
        self.delete_many(&doomed);
        proof {
            lemma_doomed_ids(old(self).previews_v(), pred);
            lemma_filter_equiv(
                old(self).previews_v(),
                |p: PreviewRowV| !doomed@.contains(p.id),
                |p: PreviewRowV| !pred(p),
            );
        }
    }

    fn select_doomed(&self, min_ms: u64, below_duration: bool, keep_favorites: bool, uncleared_only: bool, Ghost(pred): Ghost<spec_fn(PreviewRowV) -> bool>) -> (r: Vec<u64>)
        requires
            forall|p: PreviewRowV| #[trigger] pred(p) == ((!below_duration || p.duration < min_ms)
                && (!uncleared_only || !p.cleared)
                && (!keep_favorites || !p.favorite)),
        ensures
            r@ == doomed_ids(self.previews_v(), pred),
    {
        let ghost pv = self.previews_v();
        let mut out: Vec<u64> = Vec::new();
        let mut i: usize = 0;
        proof {
            reveal_with_fuel(Seq::<_>::filter, 1);
            assert(out@ =~= pv.take(0).filter(pred).map_values(|p: PreviewRowV| p.id));
        }
        while i < self.previews.len()
            invariant
                0 <= i <= self.previews.len(),
                pv == self.previews_v(),
                forall|p: PreviewRowV| #[trigger] pred(p) == ((!below_duration || p.duration
                    < min_ms) && (!uncleared_only || !p.cleared) && (!keep_favorites
                    || !p.favorite)),
                out@ == pv.take(i as int).filter(pred).map_values(|p: PreviewRowV| p.id),
            decreases self.previews.len() - i,
        {
            proof {
                lemma_filter_step(pv, i as int, pred);
                assert(pv[i as int] == self.previews@[i as int]@);
            }
            let p = &self.previews[i];
            let hit = (!below_duration || p.duration < min_ms)
                && (!uncleared_only || !p.cleared)
                && (!keep_favorites || !p.favorite);
            proof {
                assert(pred(pv[i as int]) == hit);
            }
            if hit {
                out.push(p.id);
                proof {
                    assert(out@ =~= pv.take(i + 1).filter(pred).map_values(
                        |p: PreviewRowV| p.id,
                    ));
                }
            } else {
                proof {
                    assert(out@ =~= pv.take(i + 1).filter(pred).map_values(
                        |p: PreviewRowV| p.id,
                    ));
                }
            }
            i = i + 1;
        }
        proof {
            assert(pv.take(self.previews@.len() as int) =~= pv);
        }
        out
    }

    /// Delete every encounter shorter than this many seconds, optionally
    /// preserving favorites; cascades like every delete.
    pub fn delete_below_duration(&mut self, min_seconds: u64, keep_favorites: bool)
        requires
            old(self).wf(),
            min_seconds <= u64::MAX / 1000,
        ensures
            final(self).wf(),
            final(self).previews_v() == old(self).previews_v().filter(
                |p: PreviewRowV| !(p.duration < min_seconds * 1000
                    && (!keep_favorites || !p.favorite)),
            ),
            final(self).encounters_v() == old(self).encounters_v().filter(
                |e: EncounterRowV| !doomed_ids(
                    old(self).previews_v(),
                    |p: PreviewRowV| p.duration < min_seconds * 1000
                        && (!keep_favorites || !p.favorite),
                ).contains(e.id),
            ),
            final(self).entities_v() == old(self).entities_v().filter(
                |e: EntityRowV| !doomed_ids(
                    old(self).previews_v(),
                    |p: PreviewRowV| p.duration < min_seconds * 1000
                        && (!keep_favorites || !p.favorite),
                ).contains(e.encounter_id),
            ),
            final(self).index@ == old(self).index@.filter(
                |e: IndexEntryV| !doomed_ids(
                    old(self).previews_v(),
                    |p: PreviewRowV| p.duration < min_seconds * 1000
                        && (!keep_favorites || !p.favorite),
                ).contains(e.id),
            ),
    {
        let min_ms = min_seconds * 1000;
        let ghost pred = |p: PreviewRowV| p.duration < min_seconds * 1000
            && (!keep_favorites || !p.favorite);
        proof {
            assert forall|p: PreviewRowV| #[trigger] pred(p) == ((!true || p.duration < min_ms)
                && (!false || !p.cleared) && (!keep_favorites || !p.favorite)) by {}
        }
        let doomed = self.select_doomed(min_ms, true, keep_favorites, false, Ghost(pred));
        self.delete_where(doomed, Ghost(pred));
        proof {
            let opv = old(self).previews_v();
            let goal = |p: PreviewRowV| p.duration < min_seconds * 1000
                && (!keep_favorites || !p.favorite);
            lemma_filter_equiv(opv, pred, goal);
            lemma_filter_equiv(opv, |p: PreviewRowV| !pred(p), |p: PreviewRowV| !(p.duration
                < min_seconds * 1000 && (!keep_favorites || !p.favorite)));
            assert(doomed_ids(opv, pred) == doomed_ids(opv, goal));
            lemma_filter_equiv(
                old(self).encounters_v(),
                |e: EncounterRowV| !doomed_ids(opv, pred).contains(e.id),
                |e: EncounterRowV| !doomed_ids(opv, goal).contains(e.id),
            );
            lemma_filter_equiv(
                old(self).entities_v(),
                |e: EntityRowV| !doomed_ids(opv, pred).contains(e.encounter_id),
                |e: EntityRowV| !doomed_ids(opv, goal).contains(e.encounter_id),
            );
            lemma_filter_equiv(
                old(self).index@,
                |e: IndexEntryV| !doomed_ids(opv, pred).contains(e.id),
                |e: IndexEntryV| !doomed_ids(opv, goal).contains(e.id),
            );
        }
    }

    /// Delete every encounter, optionally preserving favorites.
    pub fn delete_all(&mut self, keep_favorites: bool)
        requires
            old(self).wf(),
        ensures
            final(self).wf(),
            final(self).previews_v() == old(self).previews_v().filter(
                |p: PreviewRowV| !(!keep_favorites || !p.favorite),
            ),
            final(self).encounters_v() == old(self).encounters_v().filter(
                |e: EncounterRowV| !doomed_ids(
                    old(self).previews_v(),
                    |p: PreviewRowV| !keep_favorites || !p.favorite,
                ).contains(e.id),
            ),
            final(self).entities_v() == old(self).entities_v().filter(
                |e: EntityRowV| !doomed_ids(
                    old(self).previews_v(),
                    |p: PreviewRowV| !keep_favorites || !p.favorite,
                ).contains(e.encounter_id),
            ),
            final(self).index@ == old(self).index@.filter(
                |e: IndexEntryV| !doomed_ids(
                    old(self).previews_v(),
                    |p: PreviewRowV| !keep_favorites || !p.favorite,
                ).contains(e.id),
            ),
    {
        let ghost pred = |p: PreviewRowV| !keep_favorites || !p.favorite;
        proof {
            assert forall|p: PreviewRowV| #[trigger] pred(p) == ((!false || p.duration < 0)
                && (!false || !p.cleared) && (!keep_favorites || !p.favorite)) by {}
        }
        let doomed = self.select_doomed(0, false, keep_favorites, false, Ghost(pred));
        self.delete_where(doomed, Ghost(pred));
        proof {
            let opv = old(self).previews_v();
            let goal = |p: PreviewRowV| !keep_favorites || !p.favorite;
            lemma_filter_equiv(opv, pred, goal);
            lemma_filter_equiv(opv, |p: PreviewRowV| !pred(p), |p: PreviewRowV| !(!keep_favorites
                || !p.favorite));
            assert(doomed_ids(opv, pred) == doomed_ids(opv, goal));
            lemma_filter_equiv(
                old(self).encounters_v(),
                |e: EncounterRowV| !doomed_ids(opv, pred).contains(e.id),
                |e: EncounterRowV| !doomed_ids(opv, goal).contains(e.id),
            );
            lemma_filter_equiv(
                old(self).entities_v(),
                |e: EntityRowV| !doomed_ids(opv, pred).contains(e.encounter_id),
                |e: EntityRowV| !doomed_ids(opv, goal).contains(e.encounter_id),
            );
            lemma_filter_equiv(
                old(self).index@,
                |e: IndexEntryV| !doomed_ids(opv, pred).contains(e.id),
                |e: IndexEntryV| !doomed_ids(opv, goal).contains(e.id),
            );
        }
    }

    /// Delete every uncleared encounter, optionally preserving favorites.
    /// Both branches delete by identifier-set membership: the doomed rows
    /// are selected as a set first and that whole set is deleted.
    pub fn delete_all_uncleared(&mut self, keep_favorites: bool)
        requires
            old(self).wf(),
        ensures
            final(self).wf(),
            final(self).previews_v() == old(self).previews_v().filter(
                |p: PreviewRowV| !(!p.cleared && (!keep_favorites || !p.favorite)),
            ),
            final(self).encounters_v() == old(self).encounters_v().filter(
                |e: EncounterRowV| !doomed_ids(
                    old(self).previews_v(),
                    |p: PreviewRowV| !p.cleared && (!keep_favorites || !p.favorite),
                ).contains(e.id),
            ),
            final(self).entities_v() == old(self).entities_v().filter(
                |e: EntityRowV| !doomed_ids(
                    old(self).previews_v(),
                    |p: PreviewRowV| !p.cleared && (!keep_favorites || !p.favorite),
                ).contains(e.encounter_id),
            ),
            final(self).index@ == old(self).index@.filter(
                |e: IndexEntryV| !doomed_ids(
                    old(self).previews_v(),
                    |p: PreviewRowV| !p.cleared && (!keep_favorites || !p.favorite),
                ).contains(e.id),
            ),
    {
        let ghost pred = |p: PreviewRowV| !p.cleared && (!keep_favorites || !p.favorite);
        proof {
            assert forall|p: PreviewRowV| #[trigger] pred(p) == ((!false || p.duration < 0)
                && (!true || !p.cleared) && (!keep_favorites || !p.favorite)) by {}
        }
        let doomed = self.select_doomed(0, false, keep_favorites, true, Ghost(pred));
        self.delete_where(doomed, Ghost(pred));
        proof {
            let opv = old(self).previews_v();
            let goal = |p: PreviewRowV| !p.cleared && (!keep_favorites || !p.favorite);
            lemma_filter_equiv(opv, pred, goal);
            lemma_filter_equiv(opv, |p: PreviewRowV| !pred(p), |p: PreviewRowV| !(!p.cleared
                && (!keep_favorites || !p.favorite)));
            assert(doomed_ids(opv, pred) == doomed_ids(opv, goal));
            lemma_filter_equiv(
                old(self).encounters_v(),
                |e: EncounterRowV| !doomed_ids(opv, pred).contains(e.id),
                |e: EncounterRowV| !doomed_ids(opv, goal).contains(e.id),
            );
            lemma_filter_equiv(
                old(self).entities_v(),
                |e: EntityRowV| !doomed_ids(opv, pred).contains(e.encounter_id),
                |e: EntityRowV| !doomed_ids(opv, goal).contains(e.encounter_id),
            );
            lemma_filter_equiv(
                old(self).index@,
                |e: IndexEntryV| !doomed_ids(opv, pred).contains(e.id),
                |e: IndexEntryV| !doomed_ids(opv, goal).contains(e.id),
            );
        }
    }

    /// Total row count and the count of rows at or above a duration
    /// threshold, the introspection pair behind the storage report.
    pub fn db_info_counts(&self, min_seconds: u64) -> (r: (usize, usize))
        requires
            min_seconds <= u64::MAX / 1000,
        ensures
            r.0 == self.previews_v().len(),
            r.1 == self.previews_v().filter(
                |p: PreviewRowV| p.duration >= min_seconds * 1000,
            ).len(),
    {
        let min_ms = min_seconds * 1000;
        let ghost pred = |p: PreviewRowV| p.duration >= min_seconds * 1000;
        let ghost pv = self.previews_v();
        let mut filtered: usize = 0;
        let mut i: usize = 0;
        proof {
            reveal_with_fuel(Seq::<_>::filter, 1);
            assert(pv.take(0).filter(pred) =~= Seq::<PreviewRowV>::empty());
        }
        while i < self.previews.len()
            invariant
                0 <= i <= self.previews.len(),
                pv == self.previews_v(),
                pred == (|p: PreviewRowV| p.duration >= min_seconds * 1000),
                min_ms == min_seconds * 1000,
                filtered == pv.take(i as int).filter(pred).len(),
                filtered <= i,
            decreases self.previews.len() - i,
        {
            proof {
                lemma_filter_step(pv, i as int, pred);
                assert(pv[i as int] == self.previews@[i as int]@);
            }
            if self.previews[i].duration >= min_ms {
                filtered = filtered + 1;
            }
            i = i + 1;
        }
        proof {
            assert(pv.take(self.previews@.len() as int) =~= pv);
        }
        (self.previews.len(), filtered)
    }

    /// The filter conditions and the search both narrow, so the rows the
    /// index resolves are exactly the rows whose current text matches.
    fn filtered_previews(&self, search: &str, filter: &FilterSpec) -> (r: Vec<PreviewRow>)
        requires
            self.wf(),
            filter.min_duration <= u64::MAX / 1000,
        ensures
            r@.map_values(|p: PreviewRow| p@) == spec_filtered(self.previews_v(), filter@, search@),
    {
        let ghost pv = self.previews_v();
        let ghost fv = filter@;
        let ghost pred = |p: PreviewRowV| spec_list_pred(p, fv, search@);
        let active = search_active_exec(search);
        let tokens = crate::search::search_tokens(search);
        let matched = self.index.matching_ids(&tokens);
        proof {
            lemma_search_hits(pv, tokens@.map_values(|t: String| t@));
            assert(self.index@ =~= pv.map_values(|p: PreviewRowV| entry_of(p)));
        }
        let min_ms = filter.min_duration * 1000;
        let mut out: Vec<PreviewRow> = Vec::new();
        let mut i: usize = 0;
        proof {
            reveal_with_fuel(Seq::<_>::filter, 1);
            assert(out@.map_values(|p: PreviewRow| p@) =~= pv.take(0).filter(pred));
        }
        while i < self.previews.len()
            invariant
                0 <= i <= self.previews.len(),
                self.wf(),
                pv == self.previews_v(),
                fv == filter@,
                pred == |p: PreviewRowV| spec_list_pred(p, fv, search@),
                active == search_active(search@),
                tokens@.map_values(|t: String| t@) == crate::search::spec_tokens(search@),
                matched@ == self.index@.filter(
                    |e: IndexEntryV| text_matches(
                        tokens@.map_values(|t: String| t@),
                        e.boss,
                        e.players,
                    ),
                ).map_values(|e: IndexEntryV| e.id),
                min_ms == filter.min_duration * 1000,
                out@.map_values(|p: PreviewRow| p@) == pv.take(i as int).filter(pred),
            decreases self.previews.len() - i,
        {
            proof {
                lemma_filter_step(pv, i as int, pred);
                assert(pv[i as int] == self.previews@[i as int]@);
                lemma_search_hits(pv, tokens@.map_values(|t: String| t@));
            }
            let p = &self.previews[i];
            let boss_ok = filter.bosses.len() == 0 || boss_in(&filter.bosses, &p.boss);
            let diff_ok = filter.difficulty.as_str().unicode_len() == 0
                || str_eq(p.difficulty.as_str(), filter.difficulty.as_str());
            let base = p.duration > min_ms && boss_ok && (!filter.cleared_only || p.cleared)
                && (!filter.favorite_only || p.favorite)
                && (!filter.boss_only_damage || p.boss_only_damage) && diff_ok;
            let hit = base && (!active || contains_u64(&matched, p.id));
            proof {
                assert(base == preview_matches(pv[i as int], fv));
                if active {
                    assert(matched@.contains(pv[i as int].id) == text_matches(
                        crate::search::spec_tokens(search@),
                        pv[i as int].boss,
                        pv[i as int].players,
                    ));
                }
                assert(hit == pred(pv[i as int]));
            }
            if hit {
                let ghost prevk = out@;
                out.push(p.clone());
                proof {
                    assert(out@.map_values(|p: PreviewRow| p@)
                        =~= prevk.map_values(|p: PreviewRow| p@).push(pv[i as int]));
                }
            } else {
                proof {
                    assert(out@.map_values(|p: PreviewRow| p@) =~= pv.take(i + 1).filter(pred));
                }
            }
            i = i + 1;
        }
        proof {
            assert(pv.take(self.previews@.len() as int) =~= pv);
        }
        out
    }

    /// The number of rows the same predicate set admits: computed over the
    /// very same filter as the listing, so the two always agree.
    pub fn count_filtered(&self, search: &str, filter: &FilterSpec) -> (r: usize)
        requires
            self.wf(),
            filter.min_duration <= u64::MAX / 1000,
        ensures
            r == spec_filtered(self.previews_v(), filter@, search@).len(),
    {
        let rows = self.filtered_previews(search, filter);
        rows.len()
    }

    /// One page of the listing: the filtered rows, sorted by the validated
    /// sort key and direction, the requested window cut out, each row carrying
    /// its decoded roster; together with the total count over the same
    /// predicate set. A page past the end is empty, not an error.
    pub fn list(&self, page: u64, page_size: u64, search: &str, filter: &FilterSpec) -> (r: ListResult)
        requires
            self.wf(),
            page >= 1,
            page_size >= 1,
            filter.min_duration <= u64::MAX / 1000,
        ensures
            r.total == spec_filtered(self.previews_v(), filter@, search@).len(),
            r.rows@.map_values(|e: EncounterPreview| e@) == page_window(
                spec_listing(self.previews_v(), filter@, search@),
                page as int,
                page_size as int,
            ).map_values(|p: PreviewRowV| output_of(p)),
    {
        let ghost listing = spec_listing(self.previews_v(), filter@, search@);
        let filtered = self.filtered_previews(search, filter);
        let field = parse_sort(filter.sort.as_str());
        let sorted = sort_rows(field, filter.ascending, filtered);
        let ghost sv = sorted@.map_values(|p: PreviewRow| p@);
        proof {
            assert(sv == listing);
            lemma_spec_sort_sorted(
                spec_parse_sort(filter@.sort),
                filter@.ascending,
                spec_filtered(self.previews_v(), filter@, search@),
            );
        }
        let total = sorted.len();
        let off: usize = if page - 1 > (total as u64) / page_size {
            proof {
                assert((page - 1) * page_size > total) by (nonlinear_arith)
                    requires
                        page - 1 > (total as u64) / page_size,
                        page >= 1,
                        page_size >= 1,
                {}
            }
            total
        } else {
            proof {
                assert((page - 1) as int * page_size as int <= total) by (nonlinear_arith)
                    requires
                        page - 1 <= (total as u64) / page_size,
                        page >= 1,
                        page_size >= 1,
                {}
            }
            let o = (page - 1) * page_size;
            o as usize
        };
        proof {
            assert(off == min((page - 1) as int * page_size as int, listing.len() as int));
        }
        let rem = total - off;
        let take: usize = if page_size < (rem as u64) {
            page_size as usize
        } else {
            rem
        };
        let ghost end = off + take;
        proof {
            assert(end == min(off + page_size as int, listing.len() as int));
        }
        let mut rows: Vec<EncounterPreview> = Vec::new();
        let mut i: usize = 0;
        while i < take
            invariant
                0 <= i <= take,
                off + take <= sorted.len(),
                sv == sorted@.map_values(|p: PreviewRow| p@),
                rows@.len() == i,
                forall|k: int| 0 <= k < i ==> (#[trigger] rows@[k])@ == output_of(sv[off + k]),
            decreases take - i,
        {
            proof {
                assert(sv[off + i] == sorted@[(off + i) as int]@);
            }
            let row = &sorted[off + i];
            let (classes, names) = crate::codec::decode_roster(row.players.as_str());
            let ep = EncounterPreview {
                id: row.id,
                fight_start: row.fight_start,
                boss_name: row.boss.clone(),
                duration: row.duration,
                classes,
                names,
                difficulty: row.difficulty.clone(),
                favorite: row.favorite,
                cleared: row.cleared,
                local_player: row.local_player.clone(),
                my_dps: row.my_dps,
            };
            proof {
                let src = sv[off + i];
                let decoded = crate::codec::spec_decode_roster(src.players);
                assert(ep.classes@ =~= decoded.map_values(|e: (u64, Seq<char>)| e.0));
                assert(ep.names@.map_values(|n: String| n@)
                    =~= decoded.map_values(|e: (u64, Seq<char>)| e.1));
                assert(ep@ =~= output_of(src));
            }
            rows.push(ep);
            i = i + 1;
        }
        proof {
            assert(rows@.map_values(|e: EncounterPreview| e@)
                =~= listing.subrange(off as int, end).map_values(|p: PreviewRowV| output_of(p)));
        }
        ListResult { rows, total }
    }

    /// Write one finished encounter through the codec into the base tables,
    /// its denormalized preview, and the search index, all in one logical
    /// transaction. Returns the newly assigned identifier, strictly above
    /// every existing one.
    pub fn insert(&mut self, input: EncounterInput) -> (id: u64)
        requires
            old(self).wf(),
            forall|j: int| 0 <= j < old(self).encounters_v().len()
                ==> (#[trigger] old(self).encounters_v()[j]).id < u64::MAX,
        ensures
            final(self).wf(),
            forall|j: int| 0 <= j < old(self).encounters_v().len()
                ==> (#[trigger] old(self).encounters_v()[j]).id < id,
            final(self).encounters_v() == old(self).encounters_v().push(
                EncounterRowV {
                    id,
                    last_combat_packet: input.last_combat_packet,
                    total_damage_dealt: input.total_damage_dealt,
                    top_damage_dealt: input.top_damage_dealt,
                    total_damage_taken: input.total_damage_taken,
                    top_damage_taken: input.top_damage_taken,
                    dps: input.dps,
                    buffs: input.buffs@,
                    debuffs: input.debuffs@,
                    misc: input.misc@,
                    applied_shield_buffs: input.applied_shield_buffs@,
                    total_shielding: input.total_shielding,
                    total_effective_shielding: input.total_effective_shielding,
                    version: crate::schema::DB_VERSION,
                },
            ),
            final(self).previews_v() == old(self).previews_v().push(
                PreviewRowV {
                    id,
                    fight_start: input.fight_start,
                    boss: input.boss@,
                    duration: input.duration,
                    players: crate::codec::spec_encode_roster(
                        spec_roster(input.entities@.map_values(|e: EntityRow| e@)),
                    ),
                    difficulty: input.difficulty@,
                    local_player: input.local_player@,
                    my_dps: spec_my_dps(
                        input.entities@.map_values(|e: EntityRow| e@),
                        input.local_player@,
                    ),
                    favorite: input.favorite,
                    cleared: input.cleared,
                    boss_only_damage: input.boss_only_damage,
                },
            ),
            final(self).entities_v() == old(self).entities_v() + input.entities@.map_values(
                |e: EntityRow| EntityRowV { encounter_id: id, ..e@ },
            ),
            final(self).index@ == old(self).index@.push(
                IndexEntryV {
                    id,
                    boss: input.boss@,
                    players: crate::codec::spec_encode_roster(
                        spec_roster(input.entities@.map_values(|e: EntityRow| e@)),
                    ),
                },
            ),
    {
        let ghost oev = old(self).encounters_v();
        let mut max: u64 = 0;
        let mut j: usize = 0;
        while j < self.encounters.len()
            invariant
                0 <= j <= self.encounters.len(),
                *self == *old(self),
                oev == old(self).encounters_v(),
                forall|t: int| 0 <= t < oev.len() ==> (#[trigger] oev[t]).id < u64::MAX,
                forall|t: int| 0 <= t < j ==> (#[trigger] oev[t]).id <= max,
                max == 0 || exists|t: int| 0 <= t < j && (#[trigger] oev[t]).id == max,
            decreases self.encounters.len() - j,
        {
            proof {
                assert(oev[j as int] == self.encounters@[j as int]@);
            }
            if self.encounters[j].id > max {
                max = self.encounters[j].id;
            }
            j = j + 1;
        }
        proof {
            assert(max < u64::MAX);
        }
        let id = max + 1;

        let pairs = roster_pairs(&input.entities);
        let players = crate::codec::encode_roster(&pairs);
        let my_dps = my_dps_of(&input.entities, input.local_player.as_str());

        let ghost new_preview = PreviewRowV {
            id,
            fight_start: input.fight_start,
            boss: input.boss@,
            duration: input.duration,
            players: players@,
            difficulty: input.difficulty@,
            local_player: input.local_player@,
            my_dps,
            favorite: input.favorite,
            cleared: input.cleared,
            boss_only_damage: input.boss_only_damage,
        };

        self.encounters.push(EncounterRow {
            id,
            last_combat_packet: input.last_combat_packet,
            total_damage_dealt: input.total_damage_dealt,
            top_damage_dealt: input.top_damage_dealt,
            total_damage_taken: input.total_damage_taken,
            top_damage_taken: input.top_damage_taken,
            dps: input.dps,
            buffs: input.buffs.clone(),
            debuffs: input.debuffs.clone(),
            misc: input.misc.clone(),
            applied_shield_buffs: input.applied_shield_buffs.clone(),
            total_shielding: input.total_shielding,
            total_effective_shielding: input.total_effective_shielding,
            version: crate::schema::DB_VERSION,
        });

        let mut t: usize = 0;
        let ghost iev = input.entities@.map_values(
            |e: EntityRow| EntityRowV { encounter_id: id, ..e@ },
        );
        while t < input.entities.len()
            invariant
                0 <= t <= input.entities.len(),
                iev == input.entities@.map_values(
                    |e: EntityRow| EntityRowV { encounter_id: id, ..e@ },
                ),
                self.entities@.map_values(|e: EntityRow| e@) == old(self).entities_v()
                    + iev.take(t as int),
                self.encounters_v() == old(self).encounters_v().push(
                    EncounterRowV {
                        id,
                        last_combat_packet: input.last_combat_packet,
                        total_damage_dealt: input.total_damage_dealt,
                        top_damage_dealt: input.top_damage_dealt,
                        total_damage_taken: input.total_damage_taken,
                        top_damage_taken: input.top_damage_taken,
                        dps: input.dps,
                        buffs: input.buffs@,
                        debuffs: input.debuffs@,
                        misc: input.misc@,
                        applied_shield_buffs: input.applied_shield_buffs@,
                        total_shielding: input.total_shielding,
                        total_effective_shielding: input.total_effective_shielding,
                        version: crate::schema::DB_VERSION,
                    },
                ),
                self.previews == old(self).previews,
                self.index == old(self).index,
            decreases input.entities.len() - t,
        {
            let e = &input.entities[t];
            let ghost prevk = self.entities@;
            self.entities.push(EntityRow {
                name: e.name.clone(),
                encounter_id: id,
                npc_id: e.npc_id,
                kind: e.kind,
                class_id: e.class_id,
                class_name: e.class_name.clone(),
                gear_score: e.gear_score,
                current_hp: e.current_hp,
                max_hp: e.max_hp,
                is_dead: e.is_dead,
                skills: e.skills.clone(),
                damage_stats: e.damage_stats.clone(),
                skill_stats: e.skill_stats.clone(),
                dps: e.dps,
            });
            proof {
                assert(iev[t as int] =~= EntityRowV {
                    encounter_id: id,
                    ..input.entities@[t as int]@
                });
                assert(self.entities@.map_values(|e: EntityRow| e@)
                    =~= prevk.map_values(|e: EntityRow| e@).push(iev[t as int]));
                assert(old(self).entities_v() + iev.take(t as int + 1)
                    =~= (old(self).entities_v() + iev.take(t as int)).push(iev[t as int]));
            }
            t = t + 1;
        }

        self.previews.push(PreviewRow {
            id,
            fight_start: input.fight_start,
            boss: input.boss.clone(),
            duration: input.duration,
            players: players.clone(),
            difficulty: input.difficulty.clone(),
            local_player: input.local_player.clone(),
            my_dps,
            favorite: input.favorite,
            cleared: input.cleared,
            boss_only_damage: input.boss_only_damage,
        });
        self.index.add(id, input.boss.as_str(), players.as_str());

        proof {
            assert(iev.take(input.entities@.len() as int) =~= iev);
            assert(self.previews_v() =~= old(self).previews_v().push(new_preview));
            assert(self.encounters_v() =~= old(self).encounters_v().push(
                EncounterRowV {
                    id,
                    last_combat_packet: input.last_combat_packet,
                    total_damage_dealt: input.total_damage_dealt,
                    top_damage_dealt: input.top_damage_dealt,
                    total_damage_taken: input.total_damage_taken,
                    top_damage_taken: input.top_damage_taken,
                    dps: input.dps,
                    buffs: input.buffs@,
                    debuffs: input.debuffs@,
                    misc: input.misc@,
                    applied_shield_buffs: input.applied_shield_buffs@,
                    total_shielding: input.total_shielding,
                    total_effective_shielding: input.total_effective_shielding,
                    version: crate::schema::DB_VERSION,
                },
            ));
            assert(self.index@ =~= old(self).index@.push(
                IndexEntryV { id, boss: input.boss@, players: players@ },
            ));
            let pv = self.previews_v();
            let ev = self.encounters_v();
            let opv = old(self).previews_v();
            assert forall|a: int, b: int| 0 <= a < b < pv.len() implies (#[trigger] pv[a]).id
                != (#[trigger] pv[b]).id by {
                if b == pv.len() - 1 {
                    assert(old(self).has_encounter(opv[a].id));
                    let tt = choose|tt: int| 0 <= tt < oev.len() && oev[tt].id == opv[a].id;
                    assert(oev[tt].id < id);
                }
            }
            assert forall|a: int, b: int| 0 <= a < b < ev.len() implies (#[trigger] ev[a]).id
                != (#[trigger] ev[b]).id by {
                if b == ev.len() - 1 {
                    assert(oev[a].id < id);
                }
            }
            assert forall|i: int| 0 <= i < pv.len() implies self.has_encounter(
                (#[trigger] pv[i]).id,
            ) by {
                if i < pv.len() - 1 {
                    assert(old(self).has_encounter(opv[i].id));
                    let tt = choose|tt: int| 0 <= tt < oev.len() && oev[tt].id == opv[i].id;
                    assert(ev[tt].id == pv[i].id);
                } else {
                    assert(ev[ev.len() - 1].id == id);
                }
            }
            assert forall|i: int| 0 <= i < ev.len() implies self.has_preview(
                (#[trigger] ev[i]).id,
            ) by {
                if i < ev.len() - 1 {
                    assert(old(self).has_preview(oev[i].id));
                    let tt = choose|tt: int| 0 <= tt < opv.len() && opv[tt].id == oev[i].id;
                    assert(pv[tt].id == ev[i].id);
                } else {
                    assert(pv[pv.len() - 1].id == id);
                }
            }
            let tv = self.entities_v();
            assert forall|k: int| 0 <= k < tv.len() implies self.has_encounter(
                (#[trigger] tv[k]).encounter_id,
            ) by {
                if k < old(self).entities_v().len() {
                    assert(tv[k] == old(self).entities_v()[k]);
                    assert(old(self).has_encounter(old(self).entities_v()[k].encounter_id));
                    let tt = choose|tt: int|
                        0 <= tt < oev.len() && oev[tt].id == old(self).entities_v()[k].encounter_id;
                    assert(ev[tt].id == tv[k].encounter_id);
                } else {
                    assert(tv[k] == iev[k - old(self).entities_v().len()]);
                    assert(tv[k].encounter_id == id);
                    assert(ev[ev.len() - 1].id == id);
                }
            }
            assert(self.index@ =~= pv.map_values(|p: PreviewRowV| entry_of(p)));
        }
        id
    }

    /// Compact the search index; the store's logical contents do not change.
    /// The storage-level compaction itself is the shell's work, issued off
    /// the interactive path.
    pub fn optimize(&mut self)
        requires
            old(self).wf(),
        ensures
            final(self).wf(),
            final(self).previews_v() == old(self).previews_v(),
            final(self).encounters_v() == old(self).encounters_v(),
            final(self).entities_v() == old(self).entities_v(),
            final(self).index@ == old(self).index@,
    {
        self.index.optimize();
        proof {
            assert(self.previews_v() =~= old(self).previews_v());
            assert(self.encounters_v() =~= old(self).encounters_v());
            assert(self.entities_v() =~= old(self).entities_v());
            assert forall|i: int| 0 <= i < self.previews_v().len() implies self.has_encounter(
                (#[trigger] self.previews_v()[i]).id,
            ) by {
                assert(old(self).has_encounter(old(self).previews_v()[i].id));
            }
            assert forall|i: int| 0 <= i < self.encounters_v().len() implies self.has_preview(
                (#[trigger] self.encounters_v()[i]).id,
            ) by {
                assert(old(self).has_preview(old(self).encounters_v()[i].id));
            }
            assert forall|k: int| 0 <= k < self.entities_v().len() implies self.has_encounter(
                (#[trigger] self.entities_v()[k]).encounter_id,
            ) by {
                assert(old(self).has_encounter(old(self).entities_v()[k].encounter_id));
            }
        }
    }

    /// The preview row carrying this identifier; meaningful when
    /// `has_preview(id)` holds, in which case it is unique.
    pub open spec fn preview_of(self, id: u64) -> PreviewRowV {
        self.previews_v()[choose|k: int|
            0 <= k < self.previews_v().len() && (#[trigger] self.previews_v()[k]).id == id]
    }

    /// The encounter row carrying this identifier.
    pub open spec fn encounter_of(self, id: u64) -> EncounterRowV {
        self.encounters_v()[choose|k: int|
            0 <= k < self.encounters_v().len() && (#[trigger] self.encounters_v()[k]).id == id]
    }

    fn find_preview_index(&self, id: u64) -> (r: Option<usize>)
        ensures
            match r {
                Some(k) => k < self.previews_v().len() && self.previews_v()[k as int].id == id,
                None => !self.has_preview(id),
            },
    {
        let mut kp: usize = 0;
        while kp < self.previews.len()
            invariant
                0 <= kp <= self.previews@.len(),
                forall|j: int| 0 <= j < kp ==> (#[trigger] self.previews_v()[j]).id != id,
            decreases self.previews@.len() - kp,
        {
            proof {
                assert(self.previews_v()[kp as int] == self.previews@[kp as int]@);
            }
            if self.previews[kp].id == id {
                return Some(kp);
            }
            kp = kp + 1;
        }
        proof {
            if self.has_preview(id) {
                let k = choose|k: int|
                    0 <= k < self.previews_v().len() && (#[trigger] self.previews_v()[k]).id == id;
                assert(self.previews_v()[k].id != id);
            }
        }
        None
    }

    fn find_encounter_index(&self, id: u64) -> (r: Option<usize>)
        ensures
            match r {
                Some(k) => k < self.encounters_v().len() && self.encounters_v()[k as int].id == id,
                None => !self.has_encounter(id),
            },
    {
        let mut ke: usize = 0;
        while ke < self.encounters.len()
            invariant
                0 <= ke <= self.encounters@.len(),
                forall|j: int| 0 <= j < ke ==> (#[trigger] self.encounters_v()[j]).id != id,
            decreases self.encounters@.len() - ke,
        {
            proof {
                assert(self.encounters_v()[ke as int] == self.encounters@[ke as int]@);
            }
            if self.encounters[ke].id == id {
                return Some(ke);
            }
            ke = ke + 1;
        }
        proof {
            if self.has_encounter(id) {
                let k = choose|k: int|
                    0 <= k < self.encounters_v().len() && (#[trigger] self.encounters_v()[k]).id
                        == id;
                assert(self.encounters_v()[k].id != id);
            }
        }
        None
    }

    /// Fetch one encounter with its entities keyed by name — when two rows of
    /// the encounter share a name, the later row wins. A missing identifier
    /// resolves to the default-empty encounter rather than an error, and a
    /// malformed serialized column decodes to its empty default.
    pub fn get(&self, id: u64) -> (r: Encounter)
        requires
            self.wf(),
        ensures
            !self.has_preview(id) ==> is_empty_encounter(r),
            self.has_preview(id) ==> {
                let p = self.preview_of(id);
                let e = self.encounter_of(id);
                &&& r.id == id
                &&& r.fight_start == p.fight_start
                &&& r.boss@ == p.boss
                &&& r.duration == p.duration
                &&& r.difficulty@ == p.difficulty
                &&& r.favorite == p.favorite
                &&& r.cleared == p.cleared
                &&& r.boss_only_damage == p.boss_only_damage
                &&& r.local_player@ == p.local_player
                &&& r.last_combat_packet == e.last_combat_packet
                &&& r.total_damage_dealt == e.total_damage_dealt
                &&& r.top_damage_dealt == e.top_damage_dealt
                &&& r.total_damage_taken == e.total_damage_taken
                &&& r.top_damage_taken == e.top_damage_taken
                &&& r.dps == e.dps
                &&& r.total_shielding == e.total_shielding
                &&& r.total_effective_shielding == e.total_effective_shielding
                &&& r.misc@ == e.misc
                &&& r.buffs@.map_values(|b: (u64, String)| (b.0, b.1@))
                    == crate::json::spec_decode_id_map(e.buffs)
                &&& r.debuffs@.map_values(|b: (u64, String)| (b.0, b.1@))
                    == crate::json::spec_decode_id_map(e.debuffs)
                &&& r.applied_shield_buffs@.map_values(|b: (u64, String)| (b.0, b.1@))
                    == crate::json::spec_decode_id_map(e.applied_shield_buffs)
                &&& forall|a: int, b: int| 0 <= a < b < r.entities@.len()
                    ==> (#[trigger] r.entities@[a])@.name != (#[trigger] r.entities@[b])@.name
                &&& forall|t: int| 0 <= t < r.entities@.len()
                    ==> (#[trigger] r.entities@[t])@.encounter_id == id
                        && self.entities_v().contains(r.entities@[t]@)
                &&& forall|j: int| 0 <= j < self.entities_v().len()
                    && (#[trigger] self.entities_v()[j]).encounter_id == id
                    ==> exists|t: int| 0 <= t < r.entities@.len()
                        && (#[trigger] r.entities@[t])@.name == self.entities_v()[j].name
            },
    {
        let kp = match self.find_preview_index(id) {
            Some(k) => k,
            None => {
                return Encounter {
                    id: 0,
                    last_combat_packet: 0,
                    fight_start: 0,
                    local_player: String::new(),
                    boss: String::new(),
                    duration: 0,
                    difficulty: String::new(),
                    favorite: false,
                    cleared: false,
                    boss_only_damage: false,
                    total_damage_dealt: 0,
                    top_damage_dealt: 0,
                    total_damage_taken: 0,
                    top_damage_taken: 0,
                    dps: 0,
                    total_shielding: 0,
                    total_effective_shielding: 0,
                    misc: String::new(),
                    buffs: Vec::new(),
                    debuffs: Vec::new(),
                    applied_shield_buffs: Vec::new(),
                    entities: Vec::new(),
                };
            },
        };
        proof {
            assert(self.has_preview(id));
            let k = choose|k: int|
                0 <= k < self.previews_v().len() && (#[trigger] self.previews_v()[k]).id == id;
            if k != kp {
                if k < kp {
                    assert(self.previews_v()[k].id != self.previews_v()[kp as int].id);
                } else {
                    assert(self.previews_v()[kp as int].id != self.previews_v()[k].id);
                }
            }
            assert(self.preview_of(id) == self.previews_v()[kp as int]);
        }
        let p = &self.previews[kp];
        proof {
            assert(self.previews_v()[kp as int].id == id);
        }
        let ke = match self.find_encounter_index(id) {
            Some(k) => k,
            None => {
                // unreachable: by the store invariant every preview has its
                // encounter row
                proof {
                    assert(self.has_encounter(self.previews_v()[kp as int].id));
                    assert(false);
                }
                0
            },
        };
        proof {
            let k = choose|k: int|
                0 <= k < self.encounters_v().len() && (#[trigger] self.encounters_v()[k]).id == id;
            if k != ke {
                if k < ke {
                    assert(self.encounters_v()[k].id != self.encounters_v()[ke as int].id);
                } else {
                    assert(self.encounters_v()[ke as int].id != self.encounters_v()[k].id);
                }
            }
            assert(self.encounter_of(id) == self.encounters_v()[ke as int]);
        }
        let e = &self.encounters[ke];

        let buffs = crate::json::decode_id_map(e.buffs.as_str());
        let debuffs = crate::json::decode_id_map(e.debuffs.as_str());
        let shields = crate::json::decode_id_map(e.applied_shield_buffs.as_str());
        let out = collect_entities(&self.entities, id);

        Encounter {
            id,
            last_combat_packet: e.last_combat_packet,
            fight_start: p.fight_start,
            local_player: p.local_player.clone(),
            boss: p.boss.clone(),
            duration: p.duration,
            difficulty: p.difficulty.clone(),
            favorite: p.favorite,
            cleared: p.cleared,
            boss_only_damage: p.boss_only_damage,
            total_damage_dealt: e.total_damage_dealt,
            top_damage_dealt: e.top_damage_dealt,
            total_damage_taken: e.total_damage_taken,
            top_damage_taken: e.top_damage_taken,
            dps: e.dps,
            total_shielding: e.total_shielding,
            total_effective_shielding: e.total_effective_shielding,
            misc: e.misc.clone(),
            buffs,
            debuffs,
            applied_shield_buffs: shields,
            entities: out,
        }
    }

}

/// Gather the entities of one encounter, keyed by name: a later row with the
/// same name replaces the earlier one.
#[verifier::rlimit(60)]
fn collect_entities(entities: &Vec<EntityRow>, id: u64) -> (out: Vec<EntityRow>)
    ensures
        forall|a: int, b: int| 0 <= a < b < out@.len()
            ==> (#[trigger] out@[a])@.name != (#[trigger] out@[b])@.name,
        forall|t: int| 0 <= t < out@.len() ==> (#[trigger] out@[t])@.encounter_id == id
            && entities@.map_values(|e: EntityRow| e@).contains(out@[t]@),
        forall|j: int| 0 <= j < entities@.len() && (#[trigger] entities@[j])@.encounter_id == id
            ==> exists|t: int| 0 <= t < out@.len()
                && (#[trigger] out@[t])@.name == entities@[j]@.name,
{
    let ghost tv = entities@.map_values(|e: EntityRow| e@);
    let mut out: Vec<EntityRow> = Vec::new();
    let mut i: usize = 0;
    while i < entities.len()
        invariant
            0 <= i <= entities.len(),
            tv == entities@.map_values(|e: EntityRow| e@),
            forall|a: int, b: int| 0 <= a < b < out@.len()
                ==> (#[trigger] out@[a])@.name != (#[trigger] out@[b])@.name,
            forall|t: int| 0 <= t < out@.len() ==> (#[trigger] out@[t])@.encounter_id == id
                && tv.contains(out@[t]@),
            forall|j: int| 0 <= j < i && (#[trigger] tv[j]).encounter_id == id
                ==> exists|t: int| 0 <= t < out@.len()
                    && (#[trigger] out@[t])@.name == tv[j].name,
        decreases entities.len() - i,
    {
        proof {
            assert(tv[i as int] == entities@[i as int]@);
        }
        if entities[i].encounter_id == id {
            let fresh = entities[i].clone();
            match find_name(&out, entities[i].name.as_str()) {
                Some(t0) => {
                    let ghost prev = out@;
                    let _removed = out.remove(t0);
                    out.insert(t0, fresh);
                    proof {
                        assert(out@ =~= prev.update(t0 as int, out@[t0 as int]));
                        assert(out@[t0 as int]@ == tv[i as int]);
                        assert(out@[t0 as int]@.name == prev[t0 as int]@.name);
                        assert(tv.contains(tv[i as int]));
                        assert forall|j: int| 0 <= j < i + 1 && (#[trigger] tv[j]).encounter_id
                            == id implies exists|t: int| 0 <= t < out@.len()
                            && (#[trigger] out@[t])@.name == tv[j].name by {
                            if j == i {
                                assert(out@[t0 as int]@.name == tv[j].name);
                            } else {
                                let t = choose|t: int|
                                    0 <= t < prev.len() && (#[trigger] prev[t])@.name
                                        == tv[j].name;
                                assert(out@[t]@.name == prev[t]@.name);
                            }
                        }
                    }
                },
                None => {
                    let ghost prev = out@;
                    proof {
                        assert(tv.contains(tv[i as int]));
                    }
                    out.push(fresh);
                    proof {
                        assert forall|j: int| 0 <= j < i + 1 && (#[trigger] tv[j]).encounter_id
                            == id implies exists|t: int| 0 <= t < out@.len()
                            && (#[trigger] out@[t])@.name == tv[j].name by {
                            if j == i {
                                assert(out@[out@.len() - 1]@.name == tv[j].name);
                            } else {
                                let t = choose|t: int|
                                    0 <= t < prev.len() && (#[trigger] prev[t])@.name
                                        == tv[j].name;
                                assert(out@[t]@.name == tv[j].name);
                            }
                        }
                    }
                },
            }
        }
        i = i + 1;
    }
    proof {
        assert forall|j: int| 0 <= j < entities@.len() && (#[trigger] entities@[j])@.encounter_id
            == id implies exists|t: int| 0 <= t < out@.len() && (#[trigger] out@[t])@.name
            == entities@[j]@.name by {
            assert(tv[j] == entities@[j]@);
        }
    }
    out
}

/// Entity rows in descending damage-per-second order, equals keeping their
/// arrival order.
pub open spec fn insert_by_dps(x: EntityRowV, s: Seq<EntityRowV>) -> Seq<EntityRowV>
    decreases s.len(),
{
    if s.len() == 0 {
        seq![x]
    } else if x.dps > s[0].dps {
        seq![x] + s
    } else {
        seq![s[0]] + insert_by_dps(x, s.drop_first())
    }
}

/// Insertion sort of entity rows by descending damage per second.
pub open spec fn sort_by_dps(s: Seq<EntityRowV>) -> Seq<EntityRowV>
    decreases s.len(),
{
    if s.len() == 0 {
        Seq::empty()
    } else {
        insert_by_dps(s.last(), sort_by_dps(s.drop_last()))
    }
}

/// The roster a preview row records: the player entities ordered by
/// descending damage per second, each as its class identifier and name.
pub open spec fn spec_roster(entities: Seq<EntityRowV>) -> Seq<(u64, Seq<char>)> {
    sort_by_dps(entities.filter(|e: EntityRowV| e.kind == EntityKind::Player)).map_values(
        |e: EntityRowV| (e.class_id, e.name),
    )
}

/// The local player's damage per second: the first entity with the local
/// player's name, or zero when there is none.
pub open spec fn spec_my_dps(entities: Seq<EntityRowV>, local: Seq<char>) -> u64
    decreases entities.len(),
{
    if entities.len() == 0 {
        0
    } else if entities[0].name == local {
        entities[0].dps
    } else {
        spec_my_dps(entities.drop_first(), local)
    }
}

proof fn lemma_insert_by_dps_position(x: EntityRowV, s: Seq<EntityRowV>, idx: int)
    requires
        0 <= idx <= s.len(),
        forall|j: int| 0 <= j < idx ==> !(x.dps > (#[trigger] s[j]).dps),
        idx < s.len() ==> x.dps > s[idx].dps,
    ensures
        insert_by_dps(x, s) == s.take(idx) + seq![x] + s.skip(idx),
    decreases idx,
{
    if idx == 0 {
        if s.len() == 0 {
            assert(insert_by_dps(x, s) =~= s.take(0) + seq![x] + s.skip(0));
        } else {
            assert(insert_by_dps(x, s) =~= s.take(0) + seq![x] + s.skip(0));
        }
    } else {
        let d = s.drop_first();
        assert(forall|j: int| 0 <= j < d.len() ==> #[trigger] d[j] == s[j + 1]);
        lemma_insert_by_dps_position(x, d, idx - 1);
        assert(seq![s[0]] + (d.take(idx - 1) + seq![x] + d.skip(idx - 1))
            =~= s.take(idx) + seq![x] + s.skip(idx));
    }
}

fn insert_ent(acc: &mut Vec<EntityRow>, x: EntityRow)
    ensures
        final(acc)@.map_values(|e: EntityRow| e@) == insert_by_dps(
            x@,
            old(acc)@.map_values(|e: EntityRow| e@),
        ),
{
    let ghost sv = acc@.map_values(|e: EntityRow| e@);
    let mut idx: usize = 0;
    while idx < acc.len() && !(x.dps > acc[idx].dps)
        invariant
            0 <= idx <= acc.len(),
            *acc == *old(acc),
            sv == acc@.map_values(|e: EntityRow| e@),
            forall|j: int| 0 <= j < idx ==> !(x@.dps > (#[trigger] sv[j]).dps),
        decreases acc.len() - idx,
    {
        proof {
            assert(sv[idx as int] == acc@[idx as int]@);
        }
        idx = idx + 1;
    }
    proof {
        if idx < acc.len() {
            assert(sv[idx as int] == acc@[idx as int]@);
        }
        lemma_insert_by_dps_position(x@, sv, idx as int);
    }
    acc.insert(idx, x);
    proof {
        assert(final(acc)@.map_values(|e: EntityRow| e@)
            =~= sv.take(idx as int) + seq![x@] + sv.skip(idx as int));
    }
}

/// Compute the roster pairs of an entity set, ordered by descending damage
/// per second.
pub fn roster_pairs(entities: &Vec<EntityRow>) -> (r: Vec<(u64, String)>)
    ensures
        crate::codec::roster_view(r@) == spec_roster(entities@.map_values(|e: EntityRow| e@)),
{
    let ghost ev = entities@.map_values(|e: EntityRow| e@);
    let ghost ppred = |e: EntityRowV| e.kind == EntityKind::Player;
    let mut players: Vec<EntityRow> = Vec::new();
    let mut i: usize = 0;
    proof {
        reveal_with_fuel(Seq::<_>::filter, 1);
        assert(players@.map_values(|e: EntityRow| e@) =~= ev.take(0).filter(ppred));
    }
    while i < entities.len()
        invariant
            0 <= i <= entities.len(),
            ev == entities@.map_values(|e: EntityRow| e@),
            ppred == |e: EntityRowV| e.kind == EntityKind::Player,
            players@.map_values(|e: EntityRow| e@) == ev.take(i as int).filter(ppred),
        decreases entities.len() - i,
    {
        proof {
            lemma_filter_step(ev, i as int, ppred);
            assert(ev[i as int] == entities@[i as int]@);
        }
        if matches!(entities[i].kind, EntityKind::Player) {
            let ghost prevk = players@;
            players.push(entities[i].clone());
            proof {
                assert(players@.map_values(|e: EntityRow| e@)
                    =~= prevk.map_values(|e: EntityRow| e@).push(ev[i as int]));
            }
        } else {
            proof {
                assert(players@.map_values(|e: EntityRow| e@) =~= ev.take(i + 1).filter(ppred));
            }
        }
        i = i + 1;
    }
    proof {
        assert(ev.take(entities@.len() as int) =~= ev);
    }
    let ghost fv = ev.filter(ppred);
    let mut sorted: Vec<EntityRow> = Vec::new();
    let mut k: usize = 0;
    proof {
        assert(sorted@.map_values(|e: EntityRow| e@) =~= sort_by_dps(fv.take(0)));
    }
    while k < players.len()
        invariant
            0 <= k <= players.len(),
            players@.map_values(|e: EntityRow| e@) == fv,
            sorted@.map_values(|e: EntityRow| e@) == sort_by_dps(fv.take(k as int)),
        decreases players.len() - k,
    {
        proof {
            assert(fv.take(k + 1).drop_last() =~= fv.take(k as int));
            assert(fv.take(k + 1).last() == fv[k as int]);
            assert(fv[k as int] == players@[k as int]@);
        }
        insert_ent(&mut sorted, players[k].clone());
        k = k + 1;
    }
    proof {
        assert(fv.take(players@.len() as int) =~= fv);
    }
    let mut out: Vec<(u64, String)> = Vec::new();
    let mut t: usize = 0;
    let ghost sv = sorted@.map_values(|e: EntityRow| e@);
    while t < sorted.len()
        invariant
            0 <= t <= sorted.len(),
            sv == sorted@.map_values(|e: EntityRow| e@),
            out@.len() == t,
            forall|j: int| 0 <= j < t ==> (#[trigger] out@[j]).0 == sv[j].class_id
                && out@[j].1@ == sv[j].name,
        decreases sorted.len() - t,
    {
        proof {
            assert(sv[t as int] == sorted@[t as int]@);
        }
        out.push((sorted[t].class_id, sorted[t].name.clone()));
        t = t + 1;
    }
    proof {
        assert(crate::codec::roster_view(out@)
            =~= sv.map_values(|e: EntityRowV| (e.class_id, e.name)));
        assert(sv == sort_by_dps(fv));
    }
    out
}

/// The local player's damage per second among these entities.
pub fn my_dps_of(entities: &Vec<EntityRow>, local: &str) -> (r: u64)
    ensures
        r == spec_my_dps(entities@.map_values(|e: EntityRow| e@), local@),
{
    let ghost ev = entities@.map_values(|e: EntityRow| e@);
    let mut i: usize = 0;
    proof {
        assert(ev.skip(0) =~= ev);
    }
    while i < entities.len()
        invariant
            0 <= i <= entities.len(),
            ev == entities@.map_values(|e: EntityRow| e@),
            spec_my_dps(ev, local@) == spec_my_dps(ev.skip(i as int), local@),
        decreases entities.len() - i,
    {
        proof {
            assert(ev[i as int] == entities@[i as int]@);
            assert(ev.skip(i as int)[0] == ev[i as int]);
            assert(ev.skip(i as int).drop_first() =~= ev.skip(i + 1));
        }
        if str_eq(entities[i].name.as_str(), local) {
            return entities[i].dps;
        }
        i = i + 1;
    }
    proof {
        assert(ev.skip(entities@.len() as int) =~= Seq::<EntityRowV>::empty());
    }
    0
}

/// One full encounter as handed to the display layer: the joined base and
/// preview fields, the serialized maps decoded leniently, and the entities
/// keyed by name.
pub struct Encounter {
    pub id: u64,
    pub last_combat_packet: u64,
    pub fight_start: u64,
    pub local_player: String,
    pub boss: String,
    pub duration: u64,
    pub difficulty: String,
    pub favorite: bool,
    pub cleared: bool,
    pub boss_only_damage: bool,
    pub total_damage_dealt: u64,
    pub top_damage_dealt: u64,
    pub total_damage_taken: u64,
    pub top_damage_taken: u64,
    pub dps: u64,
    pub total_shielding: u64,
    pub total_effective_shielding: u64,
    pub misc: String,
    pub buffs: Vec<(u64, String)>,
    pub debuffs: Vec<(u64, String)>,
    pub applied_shield_buffs: Vec<(u64, String)>,
    pub entities: Vec<EntityRow>,
}

/// The default-empty encounter a missing identifier resolves to: absence is
/// an expected condition, not an error.
pub open spec fn is_empty_encounter(r: Encounter) -> bool {
    &&& r.id == 0
    &&& r.fight_start == 0
    &&& r.duration == 0
    &&& r.boss@ == Seq::<char>::empty()
    &&& r.cleared == false
    &&& r.favorite == false
    &&& r.buffs@.len() == 0
    &&& r.debuffs@.len() == 0
    &&& r.applied_shield_buffs@.len() == 0
    &&& r.entities@.len() == 0
}

fn find_name(out: &Vec<EntityRow>, name: &str) -> (r: Option<usize>)
    ensures
        match r {
            Some(t) => t < out@.len() && out@[t as int]@.name == name@,
            None => forall|t: int| 0 <= t < out@.len() ==> (#[trigger] out@[t])@.name != name@,
        },
{
    let mut t: usize = 0;
    while t < out.len()
        invariant
            0 <= t <= out.len(),
            forall|j: int| 0 <= j < t ==> (#[trigger] out@[j])@.name != name@,
        decreases out.len() - t,
    {
        if str_eq(out[t].name.as_str(), name) {
            return Some(t);
        }
        t = t + 1;
    }
    None
}

/// With pairwise distinct identifiers, an identifier resolves through the
/// index projection exactly when the row's own text matches every token.
proof fn lemma_search_hits(pv: Seq<PreviewRowV>, toks: Seq<Seq<char>>)
    requires
        forall|i: int, j: int| 0 <= i < j < pv.len()
            ==> (#[trigger] pv[i]).id != (#[trigger] pv[j]).id,
    ensures
        forall|k: int| 0 <= k < pv.len()
            ==> pv.map_values(|p: PreviewRowV| entry_of(p)).filter(
                |e: IndexEntryV| text_matches(toks, e.boss, e.players),
            ).map_values(|e: IndexEntryV| e.id).contains((#[trigger] pv[k]).id) == text_matches(
                toks,
                pv[k].boss,
                pv[k].players,
            ),
{
    let ev = pv.map_values(|p: PreviewRowV| entry_of(p));
    let xpred = |e: IndexEntryV| text_matches(toks, e.boss, e.players);
    let fe = ev.filter(xpred);
    let m = fe.map_values(|e: IndexEntryV| e.id);
    lemma_filter_membership(ev, xpred);
    assert forall|k: int| 0 <= k < pv.len() implies m.contains((#[trigger] pv[k]).id)
        == text_matches(toks, pv[k].boss, pv[k].players) by {
        assert(ev[k] == entry_of(pv[k]));
        if text_matches(toks, pv[k].boss, pv[k].players) {
            assert(xpred(ev[k]));
            Seq::lemma_filter_contains(ev, xpred, k);
            let t = choose|t: int| 0 <= t < fe.len() && fe[t] == ev[k];
            assert(m[t] == ev[k].id);
            assert(m.contains(pv[k].id));
        }
        if m.contains(pv[k].id) {
            let t = choose|t: int| 0 <= t < m.len() && m[t] == pv[k].id;
            assert(fe[t].id == pv[k].id);
            assert(fe.contains(fe[t]));
            assert(ev.contains(fe[t]) && xpred(fe[t]));
            let j = choose|j: int| 0 <= j < ev.len() && ev[j] == fe[t];
            assert(ev[j] == entry_of(pv[j]));
            if j != k {
                assert(pv[j].id != pv[k].id);
            }
            assert(entry_of(pv[k]) == fe[t]);
            assert(text_matches(toks, pv[k].boss, pv[k].players));
        }
    }
}

/// Membership test over the boss-name set.
fn boss_in(bosses: &Vec<String>, boss: &String) -> (r: bool)
    ensures
        r == bosses@.map_values(|b: String| b@).contains(boss@),
{
    let ghost bv = bosses@.map_values(|b: String| b@);
    let mut i: usize = 0;
    while i < bosses.len()
        invariant
            0 <= i <= bosses.len(),
            bv == bosses@.map_values(|b: String| b@),
            forall|j: int| 0 <= j < i ==> #[trigger] bv[j] != boss@,
        decreases bosses.len() - i,
    {
        proof {
            assert(bv[i as int] == bosses@[i as int]@);
        }
        if str_eq(bosses[i].as_str(), boss.as_str()) {
            assert(bv[i as int] == boss@);
            return true;
        }
        i = i + 1;
    }
    proof {
        if bv.contains(boss@) {
            let j = choose|j: int| 0 <= j < bv.len() && bv[j] == boss@;
            assert(bv[j] != boss@);
        }
    }
    false
}

/// One listing row handed to the display layer: the preview with its roster
/// decoded into parallel class and name sequences.
pub struct EncounterPreview {
    pub id: u64,
    pub fight_start: u64,
    pub boss_name: String,
    pub duration: u64,
    pub classes: Vec<u64>,
    pub names: Vec<String>,
    pub difficulty: String,
    pub favorite: bool,
    pub cleared: bool,
    pub local_player: String,
    pub my_dps: u64,
}

/// Mathematical view of a listing row.
#[verifier::ext_equal]
pub struct EncounterPreviewV {
    pub id: u64,
    pub fight_start: u64,
    pub boss_name: Seq<char>,
    pub duration: u64,
    pub classes: Seq<u64>,
    pub names: Seq<Seq<char>>,
    pub difficulty: Seq<char>,
    pub favorite: bool,
    pub cleared: bool,
    pub local_player: Seq<char>,
    pub my_dps: u64,
}

impl View for EncounterPreview {
    type V = EncounterPreviewV;

    open spec fn view(&self) -> EncounterPreviewV {
        EncounterPreviewV {
            id: self.id,
            fight_start: self.fight_start,
            boss_name: self.boss_name@,
            duration: self.duration,
            classes: self.classes@,
            names: self.names@.map_values(|n: String| n@),
            difficulty: self.difficulty@,
            favorite: self.favorite,
            cleared: self.cleared,
            local_player: self.local_player@,
            my_dps: self.my_dps,
        }
    }
}

/// What a preview row looks like on its way out: the roster text decoded
/// into the two parallel sequences.
pub open spec fn output_of(p: PreviewRowV) -> EncounterPreviewV {
    EncounterPreviewV {
        id: p.id,
        fight_start: p.fight_start,
        boss_name: p.boss,
        duration: p.duration,
        classes: crate::codec::spec_decode_roster(p.players).map_values(
            |e: (u64, Seq<char>)| e.0,
        ),
        names: crate::codec::spec_decode_roster(p.players).map_values(|e: (u64, Seq<char>)| e.1),
        difficulty: p.difficulty,
        favorite: p.favorite,
        cleared: p.cleared,
        local_player: p.local_player,
        my_dps: p.my_dps,
    }
}

/// The window a page shows: rows from `(page-1)*page_size`, at most
/// `page_size` of them, clipped to the listing's end.
pub open spec fn page_window(listing: Seq<PreviewRowV>, page: int, page_size: int) -> Seq<PreviewRowV> {
    let off = min((page - 1) * page_size, listing.len() as int);
    let end = min(off + page_size, listing.len() as int);
    listing.subrange(off, end)
}

/// A listing with its total.
pub struct ListResult {
    pub rows: Vec<EncounterPreview>,
    pub total: usize,
}

/// How many rows all pages through `page` hold together.
pub open spec fn rows_through_page(total: int, page_size: int, page: int) -> int
    decreases page,
{
    if page <= 0 {
        0
    } else {
        rows_through_page(total, page_size, page - 1) + page_window_len(total, page_size, page)
    }
}

/// The length of one page's window over a listing of `total` rows.
pub open spec fn page_window_len(total: int, page_size: int, page: int) -> int {
    min(page * page_size, total) - min((page - 1) * page_size, total)
}

proof fn lemma_rows_through_page(total: int, page_size: int, page: int)
    requires
        total >= 0,
        page_size >= 1,
        page >= 0,
    ensures
        rows_through_page(total, page_size, page) == min(page * page_size, total),
    decreases page,
{
    if page == 0 {
    } else {
        lemma_rows_through_page(total, page_size, page - 1);
    }
}

/// Count and listing agree: the total reported beside any page equals the
/// count over the same predicate set, and summing the rows of every page up
/// to one that reaches past the end gives exactly that total.
pub proof fn lemma_pages_cover_total(total: int, page_size: int, pages: int)
    requires
        total >= 0,
        page_size >= 1,
        pages >= 0,
        pages * page_size >= total,
    ensures
        rows_through_page(total, page_size, pages) == total,
{
    lemma_rows_through_page(total, page_size, pages);
}

} // verus!
