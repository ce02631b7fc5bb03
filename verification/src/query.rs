//! The dynamic query composer.
//!
//! A filter specification is turned into one parameterized listing statement
//! and one matching count statement. Every caller-supplied value is bound as
//! a parameter, never written into the statement text; the statement text is
//! a function of the filter's *shape* alone — which conditions are active,
//! how many boss names there are, and the validated sort key and direction —
//! so no input string can alter the query.

use vstd::prelude::*;
use crate::codec::{dec_digits, push_char, u64_to_dec};
use crate::search::{escape_search, spec_escape_search};
use crate::store::{search_active, search_active_exec, spec_parse_sort, parse_sort, FilterSpec, FilterSpecV, SortField};

verus! {

/// Everything of a request that may lawfully reach the statement text.
#[verifier::ext_equal]
pub struct QueryShape {
    pub has_search: bool,
    pub boss_count: int,
    pub cleared_only: bool,
    pub favorite_only: bool,
    pub boss_only_damage: bool,
    pub has_difficulty: bool,
    pub sort: SortField,
    pub ascending: bool,
}

/// The shape of a request.
pub open spec fn spec_shape(f: FilterSpecV, search: Seq<char>) -> QueryShape {
    QueryShape {
        has_search: search_active(search),
        boss_count: f.bosses.len() as int,
        cleared_only: f.cleared_only,
        favorite_only: f.favorite_only,
        boss_only_damage: f.boss_only_damage,
        has_difficulty: f.difficulty.len() > 0,
        sort: spec_parse_sort(f.sort),
        ascending: f.ascending,
    }
}

/// One placeholder per boss name, comma separated.
pub open spec fn placeholders(n: int) -> Seq<char>
    decreases n,
{
    if n <= 0 {
        Seq::empty()
    } else if n == 1 {
        seq!['?']
    } else {
        placeholders(n - 1) + seq![','] + seq!['?']
    }
}

/// The search join: an inner join, so an active search restricts the listing
/// to rows with a token match.
pub open spec fn spec_join_sql(has_search: bool) -> Seq<char> {
    if has_search {
        "JOIN encounter_search(?) ON encounter_search.rowid = e.id "@
    } else {
        Seq::<char>::empty()
    }
}

/// The predicate text of a shape, each condition purely additive.
pub open spec fn spec_where_sql(sh: QueryShape) -> Seq<char> {
    "WHERE e.duration > ?"@
    + (if sh.boss_count > 0 {
        " AND e.current_boss IN ("@ + placeholders(sh.boss_count) + ")"@
    } else {
        Seq::<char>::empty()
    })
    + (if sh.cleared_only { " AND cleared = 1"@ } else { Seq::<char>::empty() })
    + (if sh.favorite_only { " AND favorite = 1"@ } else { Seq::<char>::empty() })
    + (if sh.boss_only_damage { " AND boss_only_damage = 1"@ } else { Seq::<char>::empty() })
    + (if sh.has_difficulty { " AND difficulty = ?"@ } else { Seq::<char>::empty() })
}

/// The column a validated sort key selects; only these three texts can ever
/// be interpolated.
pub open spec fn spec_sort_sql(sf: SortField) -> Seq<char> {
    match sf {
        SortField::FightStart => "e.fight_start"@,
        SortField::Duration => "e.duration"@,
        SortField::MyDps => "e.my_dps"@,
    }
}

/// The direction keyword, one of exactly two literals chosen by the flag.
pub open spec fn spec_dir_sql(ascending: bool) -> Seq<char> {
    if ascending {
        "ASC"@
    } else {
        "DESC"@
    }
}

/// The listing statement of a shape.
pub open spec fn spec_list_sql(sh: QueryShape) -> Seq<char> {
    "SELECT e.id, e.fight_start, e.current_boss, e.duration, e.difficulty, e.favorite, e.cleared, e.local_player, e.my_dps, e.players FROM encounter_preview e "@
    + spec_join_sql(sh.has_search) + spec_where_sql(sh) + " ORDER BY "@ + spec_sort_sql(sh.sort)
    + " "@ + spec_dir_sql(sh.ascending) + " LIMIT ? OFFSET ?"@
}

/// The count statement of a shape: the same join and the same predicate set,
/// without the selected columns, order or window.
pub open spec fn spec_count_sql(sh: QueryShape) -> Seq<char> {
    "SELECT COUNT(*) FROM encounter_preview e "@ + spec_join_sql(sh.has_search)
    + spec_where_sql(sh)
}

/// The bound parameters shared by the listing and the count: the escaped
/// search when active, the duration threshold in milliseconds, one parameter
/// per boss name, and the difficulty when present.
pub open spec fn spec_params(f: FilterSpecV, search: Seq<char>) -> Seq<Seq<char>> {
    (if search_active(search) {
        seq![spec_escape_search(search)]
    } else {
        Seq::<Seq<char>>::empty()
    })
    + seq![dec_digits((f.min_duration * 1000) as nat)]
    + f.bosses
    + (if f.difficulty.len() > 0 { seq![f.difficulty] } else { Seq::<Seq<char>>::empty() })
}

/// A composed statement with its bound parameters.
pub struct QueryPlan {
    pub sql: String,
    pub params: Vec<String>,
}

#[verifier::rlimit(100)]
fn build_common(f: &FilterSpec, search: &str) -> (r: (String, String, Vec<String>))
    requires
        f.min_duration <= u64::MAX / 1000,
    ensures
        r.0@ == spec_join_sql(search_active(search@)),
        r.1@ == spec_where_sql(spec_shape(f@, search@)),
        r.2@.map_values(|p: String| p@) == spec_params(f@, search@),
{
    let active = search_active_exec(search);
    let mut join = String::new();
    let mut params: Vec<String> = Vec::new();
    if active {
        join.append("JOIN encounter_search(?) ON encounter_search.rowid = e.id ");
        params.push(escape_search(search));
    }
    proof {
        assert(join@ =~= spec_join_sql(search_active(search@)));
    }
    let ghost seg1 = (if search_active(search@) {
        seq![spec_escape_search(search@)]
    } else {
        Seq::<Seq<char>>::empty()
    }) + seq![dec_digits((f@.min_duration * 1000) as nat)];
    let mut w = String::new();
    w.append("WHERE e.duration > ?");
    params.push(u64_to_dec(f.min_duration * 1000));
    proof {
        assert(params@.map_values(|p: String| p@) =~~= seg1);
    }
    if f.bosses.len() > 0 {
        w.append(" AND e.current_boss IN (");
        let n = f.bosses.len();
        let mut i: usize = 0;
        let ghost wbase = w@;
        while i < n
            invariant
                0 <= i <= n,
                w@ == wbase + placeholders(i as int),
            decreases n - i,
        {
            if i > 0 {
                push_char(&mut w, ',');
            }
            push_char(&mut w, '?');
            proof {
                assert(w@ =~= wbase + placeholders(i + 1));
            }
            i = i + 1;
        }
        w.append(")");
        let ghost pbase = params@;
        let mut b: usize = 0;
        while b < f.bosses.len()
            invariant
                0 <= b <= f.bosses@.len(),
                pbase.map_values(|p: String| p@) == seg1,
                params@.len() == pbase.len() + b,
                forall|j: int| 0 <= j < pbase.len() ==> #[trigger] params@[j] == pbase[j],
                forall|j: int| 0 <= j < b
                    ==> (#[trigger] params@[pbase.len() + j])@ == f.bosses@[j]@,
            decreases f.bosses@.len() - b,
        {
            params.push(f.bosses[b].clone());
            b = b + 1;
        }
        proof {
            let m = params@.map_values(|p: String| p@);
            assert(m.len() == seg1.len() + f@.bosses.len());
            assert forall|k: int| 0 <= k < m.len() implies #[trigger] m[k]
                == (seg1 + f@.bosses)[k] by {
                if k < pbase.len() {
                    assert(params@[k] == pbase[k]);
                    assert(pbase.map_values(|p: String| p@)[k] == pbase[k]@);
                } else {
                    assert((params@[pbase.len() + (k - pbase.len())])@
                        == f.bosses@[k - pbase.len()]@);
                    assert(f@.bosses[k - pbase.len()] == f.bosses@[k - pbase.len()]@);
                }
            }
            assert(params@.map_values(|p: String| p@) =~~= seg1 + f@.bosses);
        }
    } else {
        proof {
            assert(params@.map_values(|p: String| p@) =~~= seg1 + f@.bosses);
        }
    }
    if f.cleared_only {
        w.append(" AND cleared = 1");
    }
    if f.favorite_only {
        w.append(" AND favorite = 1");
    }
    if f.boss_only_damage {
        w.append(" AND boss_only_damage = 1");
    }
    let ghost pmid = params@;
    if f.difficulty.as_str().unicode_len() > 0 {
        w.append(" AND difficulty = ?");
        params.push(f.difficulty.clone());
    }
    proof {
        assert(w@ =~= spec_where_sql(spec_shape(f@, search@)));
        assert(pmid.map_values(|p: String| p@) == seg1 + f@.bosses);
        if f@.difficulty.len() > 0 {
            assert(params@ == pmid.push(f.difficulty));
            assert(params@.map_values(|p: String| p@)
                =~~= (seg1 + f@.bosses) + seq![f@.difficulty]);
        }
        assert(params@.map_values(|p: String| p@) =~~= spec_params(f@, search@));
    }
    (join, w, params)
}

/// Compose the listing statement: predicates in fixed order, the validated
/// sort key and direction, and the page window bound as the last two
/// parameters.
pub fn build_list_query(f: &FilterSpec, search: &str, page: u64, page_size: u64) -> (q: QueryPlan)
    requires
        f.min_duration <= u64::MAX / 1000,
        page >= 1,
        page_size >= 1,
        page - 1 <= u64::MAX / page_size,
    ensures
        q.sql@ == spec_list_sql(spec_shape(f@, search@)),
        q.params@.map_values(|p: String| p@) == spec_params(f@, search@) + seq![
            dec_digits(page_size as nat),
            dec_digits(((page - 1) * page_size) as nat),
        ],
{
    let (join, w, mut params) = build_common(f, search);
    let mut sql = String::new();
    sql.append(
        "SELECT e.id, e.fight_start, e.current_boss, e.duration, e.difficulty, e.favorite, e.cleared, e.local_player, e.my_dps, e.players FROM encounter_preview e ",
    );
    sql.append(join.as_str());
    sql.append(w.as_str());
    sql.append(" ORDER BY ");
    let field = parse_sort(f.sort.as_str());
    match field {
        SortField::FightStart => sql.append("e.fight_start"),
        SortField::Duration => sql.append("e.duration"),
        SortField::MyDps => sql.append("e.my_dps"),
    }
    sql.append(" ");
    if f.ascending {
        sql.append("ASC");
    } else {
        sql.append("DESC");
    }
    sql.append(" LIMIT ? OFFSET ?");
    params.push(u64_to_dec(page_size));
    proof {
        assert((page - 1) as int * page_size as int <= u64::MAX) by (nonlinear_arith)
            requires
                page - 1 <= u64::MAX / page_size,
                page >= 1,
                page_size >= 1,
        {}
    }
    params.push(u64_to_dec((page - 1) * page_size));
    proof {
        assert(sql@ =~= spec_list_sql(spec_shape(f@, search@)));
        assert(params@.map_values(|p: String| p@) =~~= spec_params(f@, search@) + seq![
            dec_digits(page_size as nat),
            dec_digits(((page - 1) * page_size) as nat),
        ]);
    }
    QueryPlan { sql, params }
}

/// Compose the count statement over the very same predicate set and
/// parameters, so the reported total always matches the listed set.
pub fn build_count_query(f: &FilterSpec, search: &str) -> (q: QueryPlan)
    requires
        f.min_duration <= u64::MAX / 1000,
    ensures
        q.sql@ == spec_count_sql(spec_shape(f@, search@)),
        q.params@.map_values(|p: String| p@) == spec_params(f@, search@),
{
    let (join, w, params) = build_common(f, search);
    let mut sql = String::new();
    sql.append("SELECT COUNT(*) FROM encounter_preview e ");
    sql.append(join.as_str());
    sql.append(w.as_str());
    proof {
        assert(sql@ =~= spec_count_sql(spec_shape(f@, search@)));
    }
    QueryPlan { sql, params }
}

/// The statement text depends on the request's shape alone: two requests of
/// one shape compose identical statements, whatever their bound values hold
/// — no caller-supplied string can alter or inject into the query.
pub proof fn lemma_sql_shape_determined(
    f1: FilterSpecV,
    s1: Seq<char>,
    f2: FilterSpecV,
    s2: Seq<char>,
)
    requires
        spec_shape(f1, s1) == spec_shape(f2, s2),
    ensures
        spec_list_sql(spec_shape(f1, s1)) == spec_list_sql(spec_shape(f2, s2)),
        spec_count_sql(spec_shape(f1, s1)) == spec_count_sql(spec_shape(f2, s2)),
{
}

/// A sort key outside the allow-list composes exactly the statement of the
/// safe default ordering.
pub proof fn lemma_sort_allow_list(f: FilterSpecV, search: Seq<char>)
    requires
        f.sort != "fight_start"@,
        f.sort != "duration"@,
        f.sort != "my_dps"@,
    ensures
        spec_shape(f, search).sort == SortField::FightStart,
        spec_list_sql(spec_shape(f, search)) == spec_list_sql(
            spec_shape(FilterSpecV { sort: "fight_start"@, ..f }, search),
        ),
{
}

} // verus!
