//! The store: durable CRUD and queries for presets, tags and models.
//!
//! Every operation is specified against the mathematical contents of the
//! three tables ([`Database::presets`], [`Database::tags`],
//! [`Database::models`]): maps from row id to row contents.  Embedded
//! configuration objects are decoded with default substitution as
//! [`crate::codec`] defines it.

use vstd::prelude::*;
use vstd::string::*;
use crate::config::{
    PresetConfig, PresetConfigV, ModelConfig, Tag, ModelInfo, ModelInfoV, ModelUsageInfo,
};
use crate::codec::{
    decode_model_v, decode_sampling_v, decode_prompt_v, decode_image_v, decode_str_list_v,
    enc_model, enc_sampling, enc_prompt, enc_image, enc_str_array, str_views,
    decode_model_config, decode_sampling_config, decode_prompt_config, decode_image_config,
    decode_string_list, encode_model_config, encode_sampling_config, encode_prompt_config,
    encode_image_config, encode_string_list,
};
use crate::db::{
    PresetRow, PresetRowV, TagRow, TagRowV, ModelRow, ModelRowV, preset_table, tag_table,
    model_table, open_db, create_tables, insert_preset_row, select_preset_rows,
    select_preset_row, update_preset_row, delete_preset_row, toggle_favorite_row,
    increment_use_count_row, insert_tag_row, select_tag_rows, delete_tag_row, insert_model_row,
    select_model_rows, select_model_row, update_model_row, delete_model_row, new_uuid,
    now_rfc3339,
};
use crate::text::{contains_sub, lex_leq, str_contains_sub, str_eq};

verus! {

/// The store: one connection to the embedded database.
///
/// Single-writer by construction: mutating operations take `&mut self`,
/// and a hosting layer that shares the store across callers is expected to
/// wrap it in a lock, one acquisition per operation.
pub struct Database {
    conn: rusqlite::Connection,
}

/// The preset a row decodes to: primitive columns verbatim, embedded
/// objects decoded with default substitution.
pub open spec fn decode_preset_v(id: Seq<char>, row: PresetRowV) -> PresetConfigV {
    PresetConfigV {
        id: id,
        name: row.name,
        description: row.description,
        tags: decode_str_list_v(row.tags_text),
        is_favorite: row.is_favorite,
        use_count: row.use_count,
        created_at: row.created_at,
        updated_at: row.updated_at,
        model: decode_model_v(row.model_text),
        sampling: decode_sampling_v(row.sampling_text),
        prompt: decode_prompt_v(row.prompt_text),
        image: decode_image_v(row.image_text),
        resources: row.resources,
    }
}

/// The row a freshly created preset is stored as: caller data, encoded
/// embedded objects, a zeroed use count, both stamps at `now`.
pub open spec fn created_row_v(d: PresetConfigV, now: Seq<char>) -> PresetRowV {
    PresetRowV {
        name: d.name,
        description: d.description,
        tags_text: enc_str_array(d.tags),
        is_favorite: d.is_favorite,
        use_count: 0,
        created_at: now,
        updated_at: now,
        model_text: enc_model(d.model),
        sampling_text: enc_sampling(d.sampling),
        prompt_text: enc_prompt(d.prompt),
        image_text: enc_image(d.image),
        resources: d.resources,
    }
}

/// The row an updated preset is stored as: caller data (use count
/// included, written as given), `updated_at` refreshed, `created_at`
/// preserved from the stored row.
pub open spec fn updated_row_v(d: PresetConfigV, now: Seq<char>, created: Seq<char>)
    -> PresetRowV {
    PresetRowV {
        name: d.name,
        description: d.description,
        tags_text: enc_str_array(d.tags),
        is_favorite: d.is_favorite,
        use_count: d.use_count,
        created_at: created,
        updated_at: now,
        model_text: enc_model(d.model),
        sampling_text: enc_sampling(d.sampling),
        prompt_text: enc_prompt(d.prompt),
        image_text: enc_image(d.image),
        resources: d.resources,
    }
}

/// The favorite-toggle transition on the table: flips the addressed row's
/// flag and refreshes its stamp; absent ids leave the table unchanged.
pub open spec fn apply_toggle(
    t: Map<Seq<char>, PresetRowV>,
    id: Seq<char>,
    ts: Seq<char>,
) -> Map<Seq<char>, PresetRowV> {
    if t.contains_key(id) {
        t.insert(id, PresetRowV { is_favorite: !t[id].is_favorite, updated_at: ts, ..t[id] })
    } else {
        t
    }
}

/// The use-count transition on the table: adds one to the addressed row's
/// counter and refreshes its stamp; absent ids leave the table unchanged.
pub open spec fn apply_increment(
    t: Map<Seq<char>, PresetRowV>,
    id: Seq<char>,
    ts: Seq<char>,
) -> Map<Seq<char>, PresetRowV> {
    if t.contains_key(id) {
        t.insert(id, PresetRowV { use_count: t[id].use_count + 1, updated_at: ts, ..t[id] })
    } else {
        t
    }
}

/// A sequence of use-count increments, one per timestamp.
pub open spec fn apply_increments(
    t: Map<Seq<char>, PresetRowV>,
    id: Seq<char>,
    stamps: Seq<Seq<char>>,
) -> Map<Seq<char>, PresetRowV>
    decreases stamps.len(),
{
    if stamps.len() == 0 {
        t
    } else {
        apply_increments(apply_increment(t, id, stamps[0]), id, stamps.skip(1))
    }
}

/// Toggling a preset's favorite flag twice returns it to its original
/// value, whatever timestamps the two calls stamped.
pub proof fn lemma_toggle_twice_restores(
    t: Map<Seq<char>, PresetRowV>,
    id: Seq<char>,
    ts1: Seq<char>,
    ts2: Seq<char>,
)
    requires
        t.contains_key(id),
    ensures
        apply_toggle(apply_toggle(t, id, ts1), id, ts2).contains_key(id),
        apply_toggle(apply_toggle(t, id, ts1), id, ts2)[id].is_favorite == t[id].is_favorite,
        apply_toggle(apply_toggle(t, id, ts1), id, ts2)[id].use_count == t[id].use_count,
        apply_toggle(apply_toggle(t, id, ts1), id, ts2)[id].updated_at == ts2,
{
}

/// Incrementing a preset's use count `n` times raises it by exactly `n`,
/// whatever timestamps were stamped along the way; no other row changes.
pub proof fn lemma_increment_adds(
    t: Map<Seq<char>, PresetRowV>,
    id: Seq<char>,
    stamps: Seq<Seq<char>>,
)
    requires
        t.contains_key(id),
    ensures
        apply_increments(t, id, stamps) == (if stamps.len() == 0 {
            t
        } else {
            t.insert(
                id,
                PresetRowV {
                    use_count: t[id].use_count + stamps.len(),
                    updated_at: stamps.last(),
                    ..t[id]
                },
            )
        }),
    decreases stamps.len(),
{
    if stamps.len() > 0 {
        let t1 = apply_increment(t, id, stamps[0]);
        lemma_increment_adds(t1, id, stamps.skip(1));
        assert(apply_increments(t, id, stamps) == apply_increments(t1, id, stamps.skip(1)));
        if stamps.len() == 1 {
            assert(stamps.skip(1).len() == 0);
            assert(stamps.last() == stamps[0]);
        } else {
            assert(stamps.skip(1).last() == stamps.last());
            assert(t1[id].use_count == t[id].use_count + 1);
            assert(t1.insert(
                id,
                PresetRowV {
                    use_count: t1[id].use_count + stamps.skip(1).len(),
                    updated_at: stamps.skip(1).last(),
                    ..t1[id]
                },
            ) =~= t.insert(
                id,
                PresetRowV {
                    use_count: t[id].use_count + stamps.len(),
                    updated_at: stamps.last(),
                    ..t[id]
                },
            ));
        }
    }
}

/// An increment addressed to one preset leaves every other row unchanged.
pub proof fn lemma_increment_frames_others(
    t: Map<Seq<char>, PresetRowV>,
    id: Seq<char>,
    other: Seq<char>,
    ts: Seq<char>,
)
    requires
        other != id,
        t.contains_key(other),
    ensures
        apply_increment(t, id, ts)[other] == t[other],
{
}

impl Database {
    /// The contents of the `presets` table.
    pub closed spec fn presets(&self) -> Map<Seq<char>, PresetRowV> {
        preset_table(self.conn)
    }

    /// The contents of the `tags` table.
    pub closed spec fn tags(&self) -> Map<Seq<char>, TagRowV> {
        tag_table(self.conn)
    }

    /// The contents of the `models` table.
    pub closed spec fn models(&self) -> Map<Seq<char>, ModelRowV> {
        model_table(self.conn)
    }

    /// Opens (creating if absent) the database file at `path` and
    /// idempotently creates the three tables and their indexes.  The
    /// special path `:memory:` opens a fresh in-memory database, in which
    /// every table starts empty.  Nothing is assumed about rows already in
    /// an existing file.
    pub fn new(path: &str) -> (r: Result<Database, String>)
        ensures
            r matches Ok(d) ==> (path@ == ":memory:"@ ==> d.presets() == Map::<
                Seq<char>,
                PresetRowV,
            >::empty() && d.tags() == Map::<Seq<char>, TagRowV>::empty() && d.models() == Map::<
                Seq<char>,
                ModelRowV,
            >::empty()),
    {
        let mut conn = open_db(path)?;
        create_tables(&mut conn)?;
        Ok(Database { conn })
    }

    /// Creates a preset: generates a fresh id, stamps both timestamps to
    /// the same current instant, forces the use count to zero, encodes
    /// the embedded objects, and returns the materialized entity.
    pub fn create_preset(&mut self, preset: PresetConfig) -> (r: Result<PresetConfig, String>)
        ensures
            final(self).tags() == old(self).tags(),
            final(self).models() == old(self).models(),
            r is Err ==> final(self).presets() == old(self).presets(),
            r matches Ok(p) ==> {
                &&& p@.id.len() == 36
                &&& !old(self).presets().contains_key(p@.id)
                &&& final(self).presets() == old(self).presets().insert(
                    p@.id,
                    created_row_v(preset@, p@.created_at),
                )
                &&& p@ == (PresetConfigV {
                    id: p@.id,
                    use_count: 0,
                    created_at: p@.created_at,
                    updated_at: p@.created_at,
                    ..preset@
                })
            },
    {
        let id = new_uuid();
        let now = now_rfc3339();
        let tags_text = encode_string_list(&preset.tags);
        let model_text = encode_model_config(&preset.model);
        let sampling_text = encode_sampling_config(&preset.sampling);
        let prompt_text = encode_prompt_config(&preset.prompt);
        let image_text = encode_image_config(&preset.image);
        let resources_copy = match &preset.resources {
            Some(s) => Some(s.clone()),
            None => None,
        };
        let row = PresetRow {
            id: id.clone(),
            name: preset.name.clone(),
            description: preset.description.clone(),
            tags_text,
            is_favorite: preset.is_favorite,
            use_count: 0,
            created_at: now.clone(),
            updated_at: now.clone(),
            model_text,
            sampling_text,
            prompt_text,
            image_text,
            resources: resources_copy,
        };
        proof {
            assert(str_views(preset.tags@) =~= preset@.tags);
            assert(row.contents() == created_row_v(preset@, now@));
        }
        match insert_preset_row(&mut self.conn, &row) {
            Ok(()) => {
                let p = PresetConfig {
                    id,
                    use_count: 0,
                    created_at: now.clone(),
                    updated_at: now,
                    ..preset
                };
                proof {
                    assert(p@.tags =~= preset@.tags);
                    assert(p@ == (PresetConfigV {
                        id: p@.id,
                        use_count: 0,
                        created_at: p@.created_at,
                        updated_at: p@.created_at,
                        ..preset@
                    }));
                }
                Ok(p)
            },
            Err(e) => Err(e),
        }
    }

    /// Reads one preset by id; an absent id is an explicit `None`, not an
    /// error.
    pub fn get_preset_by_id(&self, id: &str) -> (r: Result<Option<PresetConfig>, String>)
        ensures
            r matches Ok(Some(p)) ==> self.presets().contains_key(id@) && p@ == decode_preset_v(
                id@,
                self.presets()[id@],
            ),
            r matches Ok(None) ==> !self.presets().contains_key(id@),
    {
        match select_preset_row(&self.conn, id) {
            Ok(Some(row)) => Ok(Some(decode_preset_row(&row))),
            Ok(None) => Ok(None),
            Err(e) => Err(e),
        }
    }

    /// Overwrites the preset addressed by `preset.id` with the given data:
    /// every field is written as given (use count included), `updated_at`
    /// is refreshed, `created_at` is preserved.  Updating a nonexistent id
    /// silently affects no row.
    pub fn update_preset(&mut self, preset: PresetConfig) -> (r: Result<PresetConfig, String>)
        ensures
            final(self).tags() == old(self).tags(),
            final(self).models() == old(self).models(),
            r is Err ==> final(self).presets() == old(self).presets(),
            r matches Ok(p) ==> {
                &&& old(self).presets().contains_key(preset@.id) ==> final(self).presets()
                    == old(self).presets().insert(
                    preset@.id,
                    updated_row_v(
                        preset@,
                        p@.updated_at,
                        old(self).presets()[preset@.id].created_at,
                    ),
                )
                &&& !old(self).presets().contains_key(preset@.id) ==> final(self).presets()
                    == old(self).presets()
                &&& p@ == (PresetConfigV { updated_at: p@.updated_at, ..preset@ })
            },
    {
        let now = now_rfc3339();
        let tags_text = encode_string_list(&preset.tags);
        let model_text = encode_model_config(&preset.model);
        let sampling_text = encode_sampling_config(&preset.sampling);
        let prompt_text = encode_prompt_config(&preset.prompt);
        let image_text = encode_image_config(&preset.image);
        let resources_copy = match &preset.resources {
            Some(s) => Some(s.clone()),
            None => None,
        };
        let row = PresetRow {
            id: preset.id.clone(),
            name: preset.name.clone(),
            description: preset.description.clone(),
            tags_text,
            is_favorite: preset.is_favorite,
            use_count: preset.use_count,
            created_at: preset.created_at.clone(),
            updated_at: now.clone(),
            model_text,
            sampling_text,
            prompt_text,
            image_text,
            resources: resources_copy,
        };
        proof {
            assert(str_views(preset.tags@) =~= preset@.tags);
        }
        match update_preset_row(&mut self.conn, &row) {
            Ok(()) => {
                proof {
                    if old(self).presets().contains_key(preset@.id) {
                        assert(PresetRowV {
                            created_at: old(self).presets()[preset@.id].created_at,
                            ..row.contents()
                        } == updated_row_v(
                            preset@,
                            now@,
                            old(self).presets()[preset@.id].created_at,
                        ));
                    }
                }
                let p = PresetConfig { updated_at: now, ..preset };
                proof {
                    assert(p@.tags =~= preset@.tags);
                    assert(p@ == (PresetConfigV { updated_at: p@.updated_at, ..preset@ }));
                }
                Ok(p)
            },
            Err(e) => Err(e),
        }
    }

    /// Deletes a preset by id; deleting a nonexistent id is not an error.
    pub fn delete_preset(&mut self, id: &str) -> (r: Result<(), String>)
        ensures
            final(self).tags() == old(self).tags(),
            final(self).models() == old(self).models(),
            r is Ok ==> final(self).presets() == old(self).presets().remove(id@),
            r is Err ==> final(self).presets() == old(self).presets(),
    {
        delete_preset_row(&mut self.conn, id)
    }

    /// Flips the addressed preset's favorite flag in one atomic
    /// in-database update and refreshes its `updated_at`; a nonexistent
    /// id silently affects no row.
    pub fn toggle_favorite(&mut self, id: &str) -> (r: Result<(), String>)
        ensures
            final(self).tags() == old(self).tags(),
            final(self).models() == old(self).models(),
            r is Err ==> final(self).presets() == old(self).presets(),
            r is Ok ==> exists|ts: Seq<char>| final(self).presets() == apply_toggle(
                old(self).presets(),
                id@,
                ts,
            ),
    {
        let now = now_rfc3339();
        let r = toggle_favorite_row(&mut self.conn, id, now.as_str());
        proof {
            if r is Ok {
                assert(preset_table(self.conn) == apply_toggle(old(self).presets(), id@, now@));
            }
        }
        r
    }

    /// Adds one to the addressed preset's use count in one atomic
    /// in-database update and refreshes its `updated_at`; a nonexistent
    /// id silently affects no row.
    pub fn increment_use_count(&mut self, id: &str) -> (r: Result<(), String>)
        ensures
            final(self).tags() == old(self).tags(),
            final(self).models() == old(self).models(),
            r is Err ==> final(self).presets() == old(self).presets(),
            r is Ok && (old(self).presets().contains_key(id@) ==> old(self).presets()[id@]
                .use_count < 9223372036854775807) ==> exists|ts: Seq<char>|
                final(self).presets() == apply_increment(old(self).presets(), id@, ts),
    {
        let now = now_rfc3339();
        let r = increment_use_count_row(&mut self.conn, id, now.as_str());
        proof {
            if r is Ok && (old(self).presets().contains_key(id@) ==> old(self).presets()[id@]
                .use_count < 9223372036854775807) {
                assert(preset_table(self.conn) == apply_increment(old(self).presets(), id@, now@));
            }
        }
        r
    }
}

// ---------------------------------------------------------------------------
// Queries over the preset table
// ---------------------------------------------------------------------------

/// The query matches the preset as a case-sensitive substring of its name,
/// its description, or the raw serialized tag list (so a substring of any
/// tag name also matches).
pub open spec fn matches_search(row: PresetRowV, q: Seq<char>) -> bool {
    contains_sub(row.name, q) || contains_sub(row.description, q) || contains_sub(
        row.tags_text,
        q,
    )
}

/// The model configuration references `mid` as its base model, its refiner
/// model, or through any LoRA, by exact identifier equality; slots with no
/// identifier never match.
pub open spec fn references_model(m: crate::config::ModelConfigV, mid: Seq<char>) -> bool {
    m.base_model_id == Some(mid) || m.refiner_model_id == Some(mid) || exists|i: int|
        0 <= i < m.loras.len() && (#[trigger] m.loras[i]).model_id == Some(mid)
}

/// The stored row's decoded model configuration references `mid`.
pub open spec fn row_references_model(row: PresetRowV, mid: Seq<char>) -> bool {
    references_model(decode_model_v(row.model_text), mid)
}

/// `v` is exactly the decoding of the rows of `t` that satisfy `cond`,
/// each id once, ordered weakly descending by `updated_at`.
pub open spec fn preset_listing(
    t: Map<Seq<char>, PresetRowV>,
    v: Seq<PresetConfig>,
    cond: spec_fn(PresetRowV) -> bool,
) -> bool {
    &&& forall|i: int|
        0 <= i < v.len() ==> t.contains_key(#[trigger] v[i]@.id) && v[i]@ == decode_preset_v(
            v[i]@.id,
            t[v[i]@.id],
        ) && cond(t[v[i]@.id])
    &&& forall|i: int, j: int| 0 <= i < j < v.len() ==> v[i]@.id != v[j]@.id
    &&& forall|k: Seq<char>|
        t.contains_key(k) && cond(#[trigger] t[k]) ==> exists|i: int|
            0 <= i < v.len() && (#[trigger] v[i]@.id) == k
    &&& forall|i: int| 0 <= i < v.len() - 1 ==> lex_leq(v[i + 1]@.updated_at, (#[trigger] v[i]@).updated_at)
}

/// Does the decoded model configuration reference `mid`?
fn model_references(m: &ModelConfig, mid: &str) -> (b: bool)
    ensures
        b == references_model(m@, mid@),
{
    let n = m.loras.len();
    let mut found = false;
    let mut i: usize = 0;
    while i < n
        invariant
            n == m.loras@.len(),
            i <= n,
            found == exists|t: int|
                0 <= t < i && (#[trigger] m@.loras[t]).model_id == Some(mid@),
        decreases n - i,
    {
        match &m.loras[i].model_id {
            Some(s) => {
                if str_eq(s.as_str(), mid) {
                    proof {
                        assert(m@.loras[i as int].model_id == Some(mid@));
                    }
                    found = true;
                }
            },
            None => {
                proof {
                    assert(m@.loras[i as int].model_id is None);
                }
            },
        }
        i = i + 1;
    }
    let base = match &m.base_model_id {
        Some(s) => str_eq(s.as_str(), mid),
        None => false,
    };
    let refiner = match &m.refiner_model_id {
        Some(s) => str_eq(s.as_str(), mid),
        None => false,
    };
    proof {
        assert(base == (m@.base_model_id == Some(mid@)));
        assert(refiner == (m@.refiner_model_id == Some(mid@)));
    }
    base || refiner || found
}

/// Which presets a listing keeps.
pub(crate) enum PresetFilter<'a> {
    /// Every preset.
    All,
    /// Presets matching a substring search.
    Text(&'a str),
    /// Presets whose model configuration references a model id.
    ModelRef(&'a str),
}

/// What a filter means on a stored row.
pub(crate) open(crate) spec fn filter_matches<'a>(f: PresetFilter<'a>, row: PresetRowV) -> bool {
    match f {
        PresetFilter::All => true,
        PresetFilter::Text(q) => matches_search(row, q@),
        PresetFilter::ModelRef(mid) => row_references_model(row, mid@),
    }
}

impl Database {
    /// Fetches, decodes and filters the preset rows, newest first.
    fn select_presets_where<'a>(&self, f: &PresetFilter<'a>) -> (r: Result<
        Vec<PresetConfig>,
        String,
    >)
        ensures
            r matches Ok(v) ==> preset_listing(
                self.presets(),
                v@,
                (|row: PresetRowV| filter_matches(*f, row)),
            ),
    {
        let ghost tt = self.presets();
        let rows = match select_preset_rows(&self.conn) {
            Ok(rows) => rows,
            Err(e) => {
                return Err(e);
            },
        };
        let n = rows.len();
        let mut res: Vec<PresetConfig> = Vec::new();
        let mut i: usize = 0;
        while i < n
            invariant
                tt == self.presets(),
                n == rows@.len(),
                i <= n,
                forall|t: int|
                    0 <= t < n ==> tt.contains_key(#[trigger] rows@[t].id@) && tt[rows@[t].id@]
                        == rows@[t].contents(),
                forall|t: int, u: int| 0 <= t < u < n ==> rows@[t].id@ != rows@[u].id@,
                forall|k: Seq<char>|
                    tt.contains_key(k) ==> exists|t: int|
                        0 <= t < n && (#[trigger] rows@[t].id@) == k,
                forall|t: int, u: int|
                    0 <= t < u < n ==> lex_leq(rows@[u].updated_at@, rows@[t].updated_at@),
                forall|idx: int|
                    0 <= idx < res@.len() ==> exists|t: int|
                        0 <= t < i && (#[trigger] res@[idx]@.id) == rows@[t].id@ && res@[idx]@
                            .updated_at == rows@[t].updated_at@,
                forall|idx: int, jdx: int|
                    0 <= idx < jdx < res@.len() ==> res@[idx]@.id != res@[jdx]@.id,
                forall|idx: int|
                    0 <= idx < res@.len() - 1 ==> lex_leq(
                        res@[idx + 1]@.updated_at,
                        (#[trigger] res@[idx]@).updated_at,
                    ),
                forall|idx: int|
                    0 <= idx < res@.len() ==> tt.contains_key(#[trigger] res@[idx]@.id)
                        && res@[idx]@ == decode_preset_v(res@[idx]@.id, tt[res@[idx]@.id])
                        && filter_matches(*f, tt[res@[idx]@.id]),
                forall|t: int|
                    0 <= t < i && filter_matches(*f, tt[#[trigger] rows@[t].id@]) ==> exists|
                        idx: int,
                    | 0 <= idx < res@.len() && (#[trigger] res@[idx]@.id) == rows@[t].id@,
            decreases n - i,
        {
            let ghost key = rows@[i as int].id@;
            let p = decode_preset_row(&rows[i]);
            let keep = match f {
                PresetFilter::All => true,
                PresetFilter::Text(q) => {
                    let hit = str_contains_sub(rows[i].name.as_str(), q) || str_contains_sub(
                        rows[i].description.as_str(),
                        q,
                    ) || str_contains_sub(rows[i].tags_text.as_str(), q);
                    proof {
                        assert(hit == matches_search(tt[key], q@));
                    }
                    hit
                },
                PresetFilter::ModelRef(mid) => {
                    let hit = model_references(&p.model, mid);
                    proof {
                        assert(p@.model == decode_model_v(tt[key].model_text));
                        assert(hit == row_references_model(tt[key], mid@));
                    }
                    hit
                },
            };
            proof {
                assert(keep == filter_matches(*f, tt[key]));
            }
            if keep {
                let ghost old_res = res@;
                res.push(p);
                proof {
                    let newlen = res@.len();
                    assert(res@[newlen - 1] == p);
                    assert(forall|idx: int| 0 <= idx < newlen - 1 ==> res@[idx] == old_res[idx]);
                    assert(p@.id == key && p@.updated_at == rows@[i as int].updated_at@);
                    assert forall|idx: int| 0 <= idx < newlen implies exists|t: int|
                        0 <= t < i + 1 && (#[trigger] res@[idx]@.id) == rows@[t].id@ && res@[idx]@
                            .updated_at == rows@[t].updated_at@ by {
                        if idx < newlen - 1 {
                            let t = choose|t: int|
                                0 <= t < i && (#[trigger] old_res[idx]@.id) == rows@[t].id@
                                    && old_res[idx]@.updated_at == rows@[t].updated_at@;
                            assert(0 <= t < i + 1 && res@[idx]@.id == rows@[t].id@ && res@[idx]@
                                .updated_at == rows@[t].updated_at@);
                        } else {
                            assert(0 <= i < i + 1 && res@[idx]@.id == rows@[i as int].id@
                                && res@[idx]@.updated_at == rows@[i as int].updated_at@);
                        }
                    }
                    assert forall|idx: int, jdx: int|
                        0 <= idx < jdx < newlen implies res@[idx]@.id != res@[jdx]@.id by {
                        if jdx == newlen - 1 {
                            let t = choose|t: int|
                                0 <= t < i && (#[trigger] old_res[idx]@.id) == rows@[t].id@
                                    && old_res[idx]@.updated_at == rows@[t].updated_at@;
                            assert(rows@[t].id@ != rows@[i as int].id@);
                        }
                    }
                    assert forall|idx: int|
                        0 <= idx < newlen - 1 implies lex_leq(
                        res@[idx + 1]@.updated_at,
                        (#[trigger] res@[idx]@).updated_at,
                    ) by {
                        if idx == newlen - 2 {
                            let t = choose|t: int|
                                0 <= t < i && (#[trigger] old_res[idx]@.id) == rows@[t].id@
                                    && old_res[idx]@.updated_at == rows@[t].updated_at@;
                            assert(lex_leq(rows@[i as int].updated_at@, rows@[t].updated_at@));
                        }
                    }
                    assert forall|t: int|
                        0 <= t < i + 1 && filter_matches(
                            *f,
                            tt[#[trigger] rows@[t].id@],
                        ) implies exists|idx: int|
                        0 <= idx < res@.len() && (#[trigger] res@[idx]@.id) == rows@[t].id@ by {
                        if t < i {
                            let idx = choose|idx: int|
                                0 <= idx < old_res.len() && (#[trigger] old_res[idx]@.id)
                                    == rows@[t].id@;
                            assert(res@[idx]@.id == rows@[t].id@);
                        } else {
                            assert(res@[newlen - 1]@.id == rows@[t].id@);
                        }
                    }
                }
            } else {
                proof {
                    assert(!filter_matches(*f, tt[rows@[i as int].id@]));
                }
            }
            i = i + 1;
        }
        proof {
            assert forall|k: Seq<char>|
                tt.contains_key(k) && filter_matches(*f, #[trigger] tt[k]) implies exists|
                idx: int,
            | 0 <= idx < res@.len() && (#[trigger] res@[idx]@.id) == k by {
                let t = choose|t: int| 0 <= t < n && (#[trigger] rows@[t].id@) == k;
                assert(filter_matches(*f, tt[rows@[t].id@]));
            }
        }
        Ok(res)
    }

    /// Lists every preset, most recently touched first.
    pub fn get_all_presets(&self) -> (r: Result<Vec<PresetConfig>, String>)
        ensures
            r matches Ok(v) ==> preset_listing(self.presets(), v@, (|row: PresetRowV| true)),
    {
        self.select_presets_where(&PresetFilter::All)
    }

    /// Lists the presets matching `query` as a case-sensitive substring of
    /// name, description, or the serialized tag list, most recently
    /// touched first.
    pub fn search_presets(&self, query: &str) -> (r: Result<Vec<PresetConfig>, String>)
        ensures
            r matches Ok(v) ==> preset_listing(
                self.presets(),
                v@,
                (|row: PresetRowV| matches_search(row, query@)),
            ),
    {
        self.select_presets_where(&PresetFilter::Text(query))
    }

    /// Lists the presets whose model configuration references `model_id`
    /// exactly (base model, refiner model, or any LoRA), most recently
    /// touched first.
    pub fn get_presets_by_model_id(&self, model_id: &str) -> (r: Result<Vec<PresetConfig>, String>)
        ensures
            r matches Ok(v) ==> preset_listing(
                self.presets(),
                v@,
                (|row: PresetRowV| row_references_model(row, model_id@)),
            ),
    {
        self.select_presets_where(&PresetFilter::ModelRef(model_id))
    }

    /// Reports whether any preset references `model_id`, how many do, and
    /// their names.  This informs the hosting layer's delete flow; the
    /// store itself never blocks a model delete.
    pub fn check_model_usage(&self, model_id: &str) -> (r: Result<ModelUsageInfo, String>)
        ensures
            r matches Ok(u) ==> {
                &&& u.is_used == (u.usage_count > 0)
                &&& u.preset_names@.len() == u.usage_count as int
                &&& (u.is_used <==> exists|k: Seq<char>|
                    self.presets().contains_key(k) && row_references_model(
                        #[trigger] self.presets()[k],
                        model_id@,
                    ))
                &&& forall|i: int|
                    0 <= i < u.preset_names@.len() ==> exists|k: Seq<char>|
                        self.presets().contains_key(k) && row_references_model(
                            self.presets()[k],
                            model_id@,
                        ) && (#[trigger] u.preset_names@[i]@) == self.presets()[k].name
                &&& exists|ps: Seq<PresetConfig>|
                    preset_listing(
                        self.presets(),
                        ps,
                        (|row: PresetRowV| row_references_model(row, model_id@)),
                    ) && #[trigger] ps.len() == u.usage_count as int && (forall|i: int|
                        0 <= i < ps.len() ==> (#[trigger] u.preset_names@[i]@) == ps[i]@.name)
            },
    {
        let presets = self.get_presets_by_model_id(model_id)?;
        if presets.len() > 2147483647 {
            return Err(String::from_str("too many referencing presets"));
        }
        let usage_count: i32 = presets.len() as i32;
        let mut preset_names: Vec<String> = Vec::new();
        let mut i: usize = 0;
        while i < presets.len()
            invariant
                i <= presets@.len(),
                preset_names@.len() == i,
                preset_listing(
                    self.presets(),
                    presets@,
                    (|row: PresetRowV| row_references_model(row, model_id@)),
                ),
                forall|t: int|
                    0 <= t < i ==> (#[trigger] preset_names@[t]@) == presets@[t]@.name,
            decreases presets@.len() - i,
        {
            preset_names.push(presets[i].name.clone());
            i = i + 1;
        }
        proof {
            assert forall|t: int|
                0 <= t < preset_names@.len() implies exists|k: Seq<char>|
                self.presets().contains_key(k) && row_references_model(
                    self.presets()[k],
                    model_id@,
                ) && (#[trigger] preset_names@[t]@) == self.presets()[k].name by {
                let key = presets@[t]@.id;
                assert(self.presets().contains_key(key) && row_references_model(
                    self.presets()[key],
                    model_id@,
                ));
                assert(presets@[t]@.name == self.presets()[key].name);
            }
            if presets@.len() > 0 {
                assert(self.presets().contains_key(presets@[0]@.id) && row_references_model(
                    self.presets()[presets@[0]@.id],
                    model_id@,
                ));
            }
        }
        Ok(ModelUsageInfo { is_used: usage_count > 0, usage_count, preset_names })
    }
}

/// Decodes one stored row into the preset it represents.
fn decode_preset_row(row: &PresetRow) -> (p: PresetConfig)
    ensures
        p@ == decode_preset_v(row.id@, row.contents()),
{
    let p = PresetConfig {
        id: row.id.clone(),
        name: row.name.clone(),
        description: row.description.clone(),
        tags: decode_string_list(row.tags_text.as_str()),
        is_favorite: row.is_favorite,
        use_count: row.use_count,
        created_at: row.created_at.clone(),
        updated_at: row.updated_at.clone(),
        model: decode_model_config(row.model_text.as_str()),
        sampling: decode_sampling_config(row.sampling_text.as_str()),
        prompt: decode_prompt_config(row.prompt_text.as_str()),
        image: decode_image_config(row.image_text.as_str()),
        resources: match &row.resources {
            Some(s) => Some(s.clone()),
            None => None,
        },
    };
    proof {
        assert(p@.tags =~= str_views(p.tags@));
        assert(p@ == decode_preset_v(row.id@, row.contents()));
    }
    p
}

// ---------------------------------------------------------------------------
// Tags
// ---------------------------------------------------------------------------

/// The preset ids whose decoded tag list contains `name` as an element:
/// exact membership, never textual containment in the joined list.
pub open spec fn preset_keys_with_tag(
    t: Map<Seq<char>, PresetRowV>,
    name: Seq<char>,
) -> Set<Seq<char>> {
    t.dom().filter(|k: Seq<char>| decode_str_list_v(t[k].tags_text).contains(name))
}

/// How many presets carry the tag `name` in their decoded tag list.
pub open spec fn tag_use_count(t: Map<Seq<char>, PresetRowV>, name: Seq<char>) -> nat {
    preset_keys_with_tag(t, name).len()
}

/// Is `name` an element of the string list?
fn string_list_contains(v: &Vec<String>, name: &str) -> (b: bool)
    ensures
        b == str_views(v@).contains(name@),
{
    let n = v.len();
    let mut i: usize = 0;
    while i < n
        invariant
            n == v@.len(),
            i <= n,
            forall|t: int| 0 <= t < i ==> (#[trigger] v@[t]@) != name@,
        decreases n - i,
    {
        if str_eq(v[i].as_str(), name) {
            proof {
                assert(str_views(v@)[i as int] == v@[i as int]@);
            }
            return true;
        }
        i = i + 1;
    }
    proof {
        assert forall|t: int| 0 <= t < str_views(v@).len() implies str_views(v@)[t]
            != name@ by {
            assert(str_views(v@)[t] == v@[t]@);
        }
    }
    false
}

impl Database {
    /// Lists every tag ordered by name, each with its derived usage
    /// count: the number of presets whose decoded tag list contains the
    /// tag's name as an element.
    pub fn get_all_tags(&self) -> (r: Result<Vec<Tag>, String>)
        ensures
            r matches Ok(v) ==> forall|i: int|
                0 <= i < v@.len() ==> self.tags().contains_key(#[trigger] v@[i]@.id) && v@[i]@.name
                    == self.tags()[v@[i]@.id].name && v@[i]@.color == self.tags()[v@[i]@.id].color
                    && v@[i]@.count == tag_use_count(self.presets(), v@[i]@.name),
            r matches Ok(v) ==> forall|i: int, j: int|
                0 <= i < j < v@.len() ==> v@[i]@.id != v@[j]@.id,
            r matches Ok(v) ==> v@.len() == self.tags().len(),
            r matches Ok(v) ==> forall|i: int|
                0 <= i < v@.len() - 1 ==> lex_leq((#[trigger] v@[i]@).name, v@[i + 1]@.name),
    {
        let ghost tt = self.presets();
        let ghost tg = self.tags();
        let trs = match select_tag_rows(&self.conn) {
            Ok(rows) => rows,
            Err(e) => {
                return Err(e);
            },
        };
        let prs = match select_preset_rows(&self.conn) {
            Ok(rows) => rows,
            Err(e) => {
                return Err(e);
            },
        };
        let np = prs.len();
        let mut tag_lists: Vec<Vec<String>> = Vec::new();
        let mut j: usize = 0;
        while j < np
            invariant
                np == prs@.len(),
                j <= np,
                tag_lists@.len() == j,
                forall|t: int|
                    0 <= t < j ==> str_views(#[trigger] tag_lists@[t]@) == decode_str_list_v(
                        prs@[t].tags_text@,
                    ),
            decreases np - j,
        {
            tag_lists.push(decode_string_list(prs[j].tags_text.as_str()));
            j = j + 1;
        }
        let nt = trs.len();
        let mut res: Vec<Tag> = Vec::new();
        let mut i: usize = 0;
        while i < nt
            invariant
                tt == self.presets(),
                tg == self.tags(),
                nt == trs@.len(),
                np == prs@.len(),
                tag_lists@.len() == np,
                i <= nt,
                forall|t: int|
                    0 <= t < np ==> tt.contains_key(#[trigger] prs@[t].id@) && tt[prs@[t].id@]
                        == prs@[t].contents(),
                forall|t: int, u: int| 0 <= t < u < np ==> prs@[t].id@ != prs@[u].id@,
                forall|k: Seq<char>|
                    tt.contains_key(k) ==> exists|t: int|
                        0 <= t < np && (#[trigger] prs@[t].id@) == k,
                forall|t: int|
                    0 <= t < np ==> str_views(#[trigger] tag_lists@[t]@) == decode_str_list_v(
                        prs@[t].tags_text@,
                    ),
                forall|t: int|
                    0 <= t < nt ==> tg.contains_key(#[trigger] trs@[t].id@) && tg[trs@[t].id@]
                        == trs@[t].contents(),
                forall|t: int, u: int| 0 <= t < u < nt ==> trs@[t].id@ != trs@[u].id@,
                nt == tg.len(),
                forall|t: int, u: int| 0 <= t < u < nt ==> lex_leq(trs@[t].name@, trs@[u].name@),
                res@.len() == i,
                forall|idx: int|
                    0 <= idx < i ==> (#[trigger] res@[idx]@).id == trs@[idx].id@ && res@[idx]@.name
                        == trs@[idx].name@ && res@[idx]@.color == trs@[idx].color@ && res@[idx]@
                        .count == tag_use_count(tt, trs@[idx].name@),
            decreases nt - i,
        {
            let ghost name = trs@[i as int].name@;
            let mut count: usize = 0;
            let ghost mut seen: Set<Seq<char>> = Set::empty();
            let mut j2: usize = 0;
            while j2 < np
                invariant
                    tt == self.presets(),
                    np == prs@.len(),
                    tag_lists@.len() == np,
                    j2 <= np,
                    name == trs@[i as int].name@,
                    i < nt == trs@.len(),
                    forall|t: int|
                        0 <= t < np ==> tt.contains_key(#[trigger] prs@[t].id@) && tt[prs@[t].id@]
                            == prs@[t].contents(),
                    forall|t: int, u: int| 0 <= t < u < np ==> prs@[t].id@ != prs@[u].id@,
                    forall|k: Seq<char>|
                        tt.contains_key(k) ==> exists|t: int|
                            0 <= t < np && (#[trigger] prs@[t].id@) == k,
                    forall|t: int|
                        0 <= t < np ==> str_views(#[trigger] tag_lists@[t]@) == decode_str_list_v(
                            prs@[t].tags_text@,
                        ),
                    seen.finite(),
                    count as int == seen.len(),
                    count <= j2,
                    forall|k: Seq<char>|
                        seen.contains(k) <==> exists|t: int|
                            0 <= t < j2 && (#[trigger] prs@[t].id@) == k && decode_str_list_v(
                                tt[k].tags_text,
                            ).contains(name),
                decreases np - j2,
            {
                let ghost key = prs@[j2 as int].id@;
                let hit = string_list_contains(&tag_lists[j2], trs[i].name.as_str());
                proof {
                    assert(tt[key].tags_text == prs@[j2 as int].tags_text@);
                    assert(hit == decode_str_list_v(tt[key].tags_text).contains(name));
                }
                if hit {
                    proof {
                        if seen.contains(key) {
                            let t = choose|t: int|
                                0 <= t < j2 && (#[trigger] prs@[t].id@) == key
                                    && decode_str_list_v(tt[key].tags_text).contains(name);
                            assert(prs@[t].id@ == prs@[j2 as int].id@);
                            assert(false);
                        }
                        assert(seen.insert(key).len() == seen.len() + 1);
                    }
                    count = count + 1;
                    proof {
                        seen = seen.insert(key);
                        assert forall|k: Seq<char>|
                            seen.contains(k) <==> exists|t: int|
                                0 <= t < j2 + 1 && (#[trigger] prs@[t].id@) == k
                                    && decode_str_list_v(tt[k].tags_text).contains(name) by {
                            if seen.contains(k) {
                                if k == key {
                                    assert(prs@[j2 as int].id@ == k);
                                }
                            }
                        }
                    }
                } else {
                    proof {
                        assert forall|k: Seq<char>|
                            seen.contains(k) <==> exists|t: int|
                                0 <= t < j2 + 1 && (#[trigger] prs@[t].id@) == k
                                    && decode_str_list_v(tt[k].tags_text).contains(name) by {
                            if !seen.contains(k) {
                                if exists|t: int|
                                    0 <= t < j2 + 1 && (#[trigger] prs@[t].id@) == k
                                        && decode_str_list_v(tt[k].tags_text).contains(name) {
                                    let t = choose|t: int|
                                        0 <= t < j2 + 1 && (#[trigger] prs@[t].id@) == k
                                            && decode_str_list_v(tt[k].tags_text).contains(name);
                                    assert(t == j2);
                                    assert(false);
                                }
                            }
                        }
                    }
                }
                j2 = j2 + 1;
            }
            proof {
                assert(seen =~= preset_keys_with_tag(tt, name)) by {
                    assert forall|k: Seq<char>|
                        seen.contains(k) == preset_keys_with_tag(tt, name).contains(k) by {
                        if seen.contains(k) {
                            let t = choose|t: int|
                                0 <= t < np && (#[trigger] prs@[t].id@) == k && decode_str_list_v(
                                    tt[k].tags_text,
                                ).contains(name);
                            assert(tt.contains_key(k));
                        }
                        if preset_keys_with_tag(tt, name).contains(k) {
                            assert(tt.contains_key(k));
                            let t = choose|t: int| 0 <= t < np && (#[trigger] prs@[t].id@) == k;
                            assert(seen.contains(k));
                        }
                    }
                }
                assert(count as int == tag_use_count(tt, name));
            }
            if count > 2147483647 {
                return Err(String::from_str("tag usage count exceeds the count range"));
            }
            res.push(
                Tag {
                    id: trs[i].id.clone(),
                    name: trs[i].name.clone(),
                    color: trs[i].color.clone(),
                    count: count as i32,
                },
            );
            i = i + 1;
        }
        proof {
            assert forall|a: int|
                0 <= a < res@.len() implies tg.contains_key(#[trigger] res@[a]@.id) && res@[a]@
                    .name == tg[res@[a]@.id].name && res@[a]@.color == tg[res@[a]@.id].color
                    && res@[a]@.count == tag_use_count(tt, res@[a]@.name) by {
                assert(res@[a]@.id == trs@[a].id@);
                assert(tg.contains_key(trs@[a].id@) && tg[trs@[a].id@] == trs@[a].contents());
                assert(res@[a]@.name == trs@[a].name@);
                assert(res@[a]@.count == tag_use_count(tt, trs@[a].name@));
            }
            assert forall|a: int, b: int|
                0 <= a < b < res@.len() implies res@[a]@.id != res@[b]@.id by {
                assert(res@[a]@.id == trs@[a].id@ && res@[b]@.id == trs@[b].id@);
            }
            assert(res@.len() == nt);
            assert forall|a: int|
                0 <= a < res@.len() - 1 implies lex_leq(
                (#[trigger] res@[a]@).name,
                res@[a + 1]@.name,
            ) by {
                assert(res@[a]@.name == trs@[a].name@ && res@[a + 1]@.name == trs@[a + 1].name@);
                assert(lex_leq(trs@[a].name@, trs@[a + 1].name@));
            }
        }
        Ok(res)
    }

    /// Creates a tag with a fresh id and a zero count.  A duplicate name
    /// fails the uniqueness constraint and is surfaced as an error.
    pub fn create_tag(&mut self, name: String, color: String) -> (r: Result<Tag, String>)
        ensures
            final(self).presets() == old(self).presets(),
            final(self).models() == old(self).models(),
            r is Err ==> final(self).tags() == old(self).tags(),
            r matches Ok(t) ==> {
                &&& t@.id.len() == 36
                &&& !old(self).tags().contains_key(t@.id)
                &&& forall|k: Seq<char>|
                    old(self).tags().contains_key(k) ==> (#[trigger] old(self).tags()[k]).name
                        != name@
                &&& final(self).tags() == old(self).tags().insert(
                    t@.id,
                    TagRowV { name: name@, color: color@ },
                )
                &&& t@.name == name@ && t@.color == color@ && t@.count == 0
            },
    {
        let id = new_uuid();
        let row = TagRow { id: id.clone(), name: name.clone(), color: color.clone() };
        match insert_tag_row(&mut self.conn, &row) {
            Ok(()) => Ok(Tag { id, name, color, count: 0 }),
            Err(e) => Err(e),
        }
    }

    /// Deletes a tag by id; deleting a nonexistent id is not an error.
    /// Presets' embedded tag lists are deliberately left untouched.
    pub fn delete_tag(&mut self, id: &str) -> (r: Result<(), String>)
        ensures
            final(self).presets() == old(self).presets(),
            final(self).models() == old(self).models(),
            r is Ok ==> final(self).tags() == old(self).tags().remove(id@),
            r is Err ==> final(self).tags() == old(self).tags(),
    {
        delete_tag_row(&mut self.conn, id)
    }
}

// ---------------------------------------------------------------------------
// Models
// ---------------------------------------------------------------------------

/// The catalog entry a model row decodes to: primitive columns verbatim,
/// scope and tag lists decoded with the empty list as default.
pub open spec fn decode_model_info_v(id: Seq<char>, row: ModelRowV) -> ModelInfoV {
    ModelInfoV {
        id: id,
        name: row.name,
        file_name: row.file_name,
        model_type: row.model_type,
        description: row.description,
        scope: decode_str_list_v(row.scope_text),
        path: row.path,
        tags: decode_str_list_v(row.tags_text),
        created_at: row.created_at,
        updated_at: row.updated_at,
    }
}

/// The row a freshly created model is stored as.
pub open spec fn created_model_row_v(d: ModelInfoV, now: Seq<char>) -> ModelRowV {
    ModelRowV {
        name: d.name,
        file_name: d.file_name,
        model_type: d.model_type,
        description: d.description,
        scope_text: enc_str_array(d.scope),
        path: d.path,
        tags_text: enc_str_array(d.tags),
        created_at: now,
        updated_at: now,
    }
}

/// The row an updated model is stored as: caller data, `updated_at`
/// refreshed, `created_at` preserved from the stored row.
pub open spec fn updated_model_row_v(d: ModelInfoV, now: Seq<char>, created: Seq<char>)
    -> ModelRowV {
    ModelRowV {
        name: d.name,
        file_name: d.file_name,
        model_type: d.model_type,
        description: d.description,
        scope_text: enc_str_array(d.scope),
        path: d.path,
        tags_text: enc_str_array(d.tags),
        created_at: created,
        updated_at: now,
    }
}

/// The query matches the model as a case-sensitive substring of its name,
/// description, or the raw serialized scope or tag lists.
pub open spec fn matches_model_search(row: ModelRowV, q: Seq<char>) -> bool {
    contains_sub(row.name, q) || contains_sub(row.description, q) || contains_sub(
        row.scope_text,
        q,
    ) || contains_sub(row.tags_text, q)
}

/// `v` is exactly the decoding of the model rows of `t` that satisfy
/// `cond`, each id once, ordered weakly descending by `updated_at`.
pub open spec fn model_listing(
    t: Map<Seq<char>, ModelRowV>,
    v: Seq<ModelInfo>,
    cond: spec_fn(ModelRowV) -> bool,
) -> bool {
    &&& forall|i: int|
        0 <= i < v.len() ==> t.contains_key(#[trigger] v[i]@.id) && v[i]@ == decode_model_info_v(
            v[i]@.id,
            t[v[i]@.id],
        ) && cond(t[v[i]@.id])
    &&& forall|i: int, j: int| 0 <= i < j < v.len() ==> v[i]@.id != v[j]@.id
    &&& forall|k: Seq<char>|
        t.contains_key(k) && cond(#[trigger] t[k]) ==> exists|i: int|
            0 <= i < v.len() && (#[trigger] v[i]@.id) == k
    &&& forall|i: int| 0 <= i < v.len() - 1 ==> lex_leq(v[i + 1]@.updated_at, (#[trigger] v[i]@).updated_at)
}

/// Which models a listing keeps.
pub(crate) enum ModelFilter<'a> {
    /// Every model.
    All,
    /// Models of one exact type.
    OfType(&'a str),
    /// Models matching a substring search.
    Text(&'a str),
}

/// What a model filter means on a stored row.
pub(crate) open(crate) spec fn model_filter_matches<'a>(f: ModelFilter<'a>, row: ModelRowV) -> bool {
    match f {
        ModelFilter::All => true,
        ModelFilter::OfType(t) => row.model_type == t@,
        ModelFilter::Text(q) => matches_model_search(row, q@),
    }
}

/// Decodes one stored row into the catalog entry it represents.
fn decode_model_row(row: &ModelRow) -> (m: ModelInfo)
    ensures
        m@ == decode_model_info_v(row.id@, row.contents()),
{
    let m = ModelInfo {
        id: row.id.clone(),
        name: row.name.clone(),
        file_name: row.file_name.clone(),
        model_type: row.model_type.clone(),
        description: row.description.clone(),
        scope: decode_string_list(row.scope_text.as_str()),
        path: row.path.clone(),
        tags: decode_string_list(row.tags_text.as_str()),
        created_at: row.created_at.clone(),
        updated_at: row.updated_at.clone(),
    };
    proof {
        assert(m@.scope =~= str_views(m.scope@));
        assert(m@.tags =~= str_views(m.tags@));
        assert(m@ == decode_model_info_v(row.id@, row.contents()));
    }
    m
}

impl Database {
    /// Fetches, decodes and filters the model rows, newest first.
    fn select_models_where<'a>(&self, f: &ModelFilter<'a>) -> (r: Result<Vec<ModelInfo>, String>)
        ensures
            r matches Ok(v) ==> model_listing(
                self.models(),
                v@,
                (|row: ModelRowV| model_filter_matches(*f, row)),
            ),
    {
        let ghost tt = self.models();
        let rows = match select_model_rows(&self.conn) {
            Ok(rows) => rows,
            Err(e) => {
                return Err(e);
            },
        };
        let n = rows.len();
        let mut res: Vec<ModelInfo> = Vec::new();
        let mut i: usize = 0;
        while i < n
            invariant
                tt == self.models(),
                n == rows@.len(),
                i <= n,
                forall|t: int|
                    0 <= t < n ==> tt.contains_key(#[trigger] rows@[t].id@) && tt[rows@[t].id@]
                        == rows@[t].contents(),
                forall|t: int, u: int| 0 <= t < u < n ==> rows@[t].id@ != rows@[u].id@,
                forall|k: Seq<char>|
                    tt.contains_key(k) ==> exists|t: int|
                        0 <= t < n && (#[trigger] rows@[t].id@) == k,
                forall|t: int, u: int|
                    0 <= t < u < n ==> lex_leq(rows@[u].updated_at@, rows@[t].updated_at@),
                forall|idx: int|
                    0 <= idx < res@.len() ==> exists|t: int|
                        0 <= t < i && (#[trigger] res@[idx]@.id) == rows@[t].id@ && res@[idx]@
                            .updated_at == rows@[t].updated_at@,
                forall|idx: int, jdx: int|
                    0 <= idx < jdx < res@.len() ==> res@[idx]@.id != res@[jdx]@.id,
                forall|idx: int|
                    0 <= idx < res@.len() - 1 ==> lex_leq(
                        res@[idx + 1]@.updated_at,
                        (#[trigger] res@[idx]@).updated_at,
                    ),
                forall|idx: int|
                    0 <= idx < res@.len() ==> tt.contains_key(#[trigger] res@[idx]@.id)
                        && res@[idx]@ == decode_model_info_v(res@[idx]@.id, tt[res@[idx]@.id])
                        && model_filter_matches(*f, tt[res@[idx]@.id]),
                forall|t: int|
                    0 <= t < i && model_filter_matches(*f, tt[#[trigger] rows@[t].id@]) ==> exists|
                        idx: int,
                    | 0 <= idx < res@.len() && (#[trigger] res@[idx]@.id) == rows@[t].id@,
            decreases n - i,
        {
            let ghost key = rows@[i as int].id@;
            let m = decode_model_row(&rows[i]);
            let keep = match f {
                ModelFilter::All => true,
                ModelFilter::OfType(t) => {
                    let hit = str_eq(rows[i].model_type.as_str(), t);
                    proof {
                        assert(hit == (tt[key].model_type == t@));
                    }
                    hit
                },
                ModelFilter::Text(q) => {
                    let hit = str_contains_sub(rows[i].name.as_str(), q) || str_contains_sub(
                        rows[i].description.as_str(),
                        q,
                    ) || str_contains_sub(rows[i].scope_text.as_str(), q) || str_contains_sub(
                        rows[i].tags_text.as_str(),
                        q,
                    );
                    proof {
                        assert(hit == matches_model_search(tt[key], q@));
                    }
                    hit
                },
            };
            proof {
                assert(keep == model_filter_matches(*f, tt[key]));
            }
            if keep {
                let ghost old_res = res@;
                res.push(m);
                proof {
                    let newlen = res@.len();
                    assert(res@[newlen - 1] == m);
                    assert(forall|idx: int| 0 <= idx < newlen - 1 ==> res@[idx] == old_res[idx]);
                    assert(m@.id == key && m@.updated_at == rows@[i as int].updated_at@);
                    assert forall|idx: int| 0 <= idx < newlen implies exists|t: int|
                        0 <= t < i + 1 && (#[trigger] res@[idx]@.id) == rows@[t].id@ && res@[idx]@
                            .updated_at == rows@[t].updated_at@ by {
                        if idx < newlen - 1 {
                            let t = choose|t: int|
                                0 <= t < i && (#[trigger] old_res[idx]@.id) == rows@[t].id@
                                    && old_res[idx]@.updated_at == rows@[t].updated_at@;
                            assert(0 <= t < i + 1 && res@[idx]@.id == rows@[t].id@ && res@[idx]@
                                .updated_at == rows@[t].updated_at@);
                        } else {
                            assert(0 <= i < i + 1 && res@[idx]@.id == rows@[i as int].id@
                                && res@[idx]@.updated_at == rows@[i as int].updated_at@);
                        }
                    }
                    assert forall|idx: int, jdx: int|
                        0 <= idx < jdx < newlen implies res@[idx]@.id != res@[jdx]@.id by {
                        if jdx == newlen - 1 {
                            let t = choose|t: int|
                                0 <= t < i && (#[trigger] old_res[idx]@.id) == rows@[t].id@
                                    && old_res[idx]@.updated_at == rows@[t].updated_at@;
                            assert(rows@[t].id@ != rows@[i as int].id@);
                        }
                    }
                    assert forall|idx: int|
                        0 <= idx < newlen - 1 implies lex_leq(
                        res@[idx + 1]@.updated_at,
                        (#[trigger] res@[idx]@).updated_at,
                    ) by {
                        if idx == newlen - 2 {
                            let t = choose|t: int|
                                0 <= t < i && (#[trigger] old_res[idx]@.id) == rows@[t].id@
                                    && old_res[idx]@.updated_at == rows@[t].updated_at@;
                            assert(lex_leq(rows@[i as int].updated_at@, rows@[t].updated_at@));
                        }
                    }
                    assert forall|t: int|
                        0 <= t < i + 1 && model_filter_matches(
                            *f,
                            tt[#[trigger] rows@[t].id@],
                        ) implies exists|idx: int|
                        0 <= idx < res@.len() && (#[trigger] res@[idx]@.id) == rows@[t].id@ by {
                        if t < i {
                            let idx = choose|idx: int|
                                0 <= idx < old_res.len() && (#[trigger] old_res[idx]@.id)
                                    == rows@[t].id@;
                            assert(res@[idx]@.id == rows@[t].id@);
                        } else {
                            assert(res@[newlen - 1]@.id == rows@[t].id@);
                        }
                    }
                }
            } else {
                proof {
                    assert(!model_filter_matches(*f, tt[rows@[i as int].id@]));
                }
            }
            i = i + 1;
        }
        proof {
            assert forall|k: Seq<char>|
                tt.contains_key(k) && model_filter_matches(*f, #[trigger] tt[k]) implies exists|
                idx: int,
            | 0 <= idx < res@.len() && (#[trigger] res@[idx]@.id) == k by {
                let t = choose|t: int| 0 <= t < n && (#[trigger] rows@[t].id@) == k;
                assert(model_filter_matches(*f, tt[rows@[t].id@]));
            }
        }
        Ok(res)
    }

    /// Lists every model, most recently touched first.
    pub fn get_all_models(&self) -> (r: Result<Vec<ModelInfo>, String>)
        ensures
            r matches Ok(v) ==> model_listing(self.models(), v@, (|row: ModelRowV| true)),
    {
        self.select_models_where(&ModelFilter::All)
    }

    /// Lists the models whose type equals `model_type` exactly, most
    /// recently touched first.
    pub fn get_models_by_type(&self, model_type: &str) -> (r: Result<Vec<ModelInfo>, String>)
        ensures
            r matches Ok(v) ==> model_listing(
                self.models(),
                v@,
                (|row: ModelRowV| row.model_type == model_type@),
            ),
    {
        self.select_models_where(&ModelFilter::OfType(model_type))
    }

    /// Lists the models matching `query` as a case-sensitive substring of
    /// name, description, or the serialized scope or tag lists, most
    /// recently touched first.
    pub fn search_models(&self, query: &str) -> (r: Result<Vec<ModelInfo>, String>)
        ensures
            r matches Ok(v) ==> model_listing(
                self.models(),
                v@,
                (|row: ModelRowV| matches_model_search(row, query@)),
            ),
    {
        self.select_models_where(&ModelFilter::Text(query))
    }

    /// Reads one model by id; an absent id is an explicit `None`, not an
    /// error.
    pub fn get_model_by_id(&self, id: &str) -> (r: Result<Option<ModelInfo>, String>)
        ensures
            r matches Ok(Some(m)) ==> self.models().contains_key(id@) && m@
                == decode_model_info_v(id@, self.models()[id@]),
            r matches Ok(None) ==> !self.models().contains_key(id@),
    {
        match select_model_row(&self.conn, id) {
            Ok(Some(row)) => Ok(Some(decode_model_row(&row))),
            Ok(None) => Ok(None),
            Err(e) => Err(e),
        }
    }

    /// Creates a model catalog entry: generates a fresh id, stamps both
    /// timestamps to the same current instant, encodes the scope and tag
    /// lists, and returns the materialized entity.
    pub fn create_model(&mut self, model: ModelInfo) -> (r: Result<ModelInfo, String>)
        ensures
            final(self).presets() == old(self).presets(),
            final(self).tags() == old(self).tags(),
            r is Err ==> final(self).models() == old(self).models(),
            r matches Ok(m) ==> {
                &&& m@.id.len() == 36
                &&& !old(self).models().contains_key(m@.id)
                &&& final(self).models() == old(self).models().insert(
                    m@.id,
                    created_model_row_v(model@, m@.created_at),
                )
                &&& m@ == (ModelInfoV {
                    id: m@.id,
                    created_at: m@.created_at,
                    updated_at: m@.created_at,
                    ..model@
                })
            },
    {
        let id = new_uuid();
        let now = now_rfc3339();
        let scope_text = encode_string_list(&model.scope);
        let tags_text = encode_string_list(&model.tags);
        let row = ModelRow {
            id: id.clone(),
            name: model.name.clone(),
            file_name: model.file_name.clone(),
            model_type: model.model_type.clone(),
            description: model.description.clone(),
            scope_text,
            path: model.path.clone(),
            tags_text,
            created_at: now.clone(),
            updated_at: now.clone(),
        };
        proof {
            assert(str_views(model.scope@) =~= model@.scope);
            assert(str_views(model.tags@) =~= model@.tags);
            assert(row.contents() == created_model_row_v(model@, now@));
        }
        match insert_model_row(&mut self.conn, &row) {
            Ok(()) => {
                let m = ModelInfo { id, created_at: now.clone(), updated_at: now, ..model };
                proof {
                    assert(m@.scope =~= model@.scope);
                    assert(m@.tags =~= model@.tags);
                    assert(m@ == (ModelInfoV {
                        id: m@.id,
                        created_at: m@.created_at,
                        updated_at: m@.created_at,
                        ..model@
                    }));
                }
                Ok(m)
            },
            Err(e) => Err(e),
        }
    }

    /// Overwrites the model addressed by `model.id` with the given data,
    /// refreshing `updated_at` and preserving `created_at`.  Updating a
    /// nonexistent id silently affects no row.
    pub fn update_model(&mut self, model: ModelInfo) -> (r: Result<ModelInfo, String>)
        ensures
            final(self).presets() == old(self).presets(),
            final(self).tags() == old(self).tags(),
            r is Err ==> final(self).models() == old(self).models(),
            r matches Ok(m) ==> {
                &&& old(self).models().contains_key(model@.id) ==> final(self).models()
                    == old(self).models().insert(
                    model@.id,
                    updated_model_row_v(
                        model@,
                        m@.updated_at,
                        old(self).models()[model@.id].created_at,
                    ),
                )
                &&& !old(self).models().contains_key(model@.id) ==> final(self).models()
                    == old(self).models()
                &&& m@ == (ModelInfoV { updated_at: m@.updated_at, ..model@ })
            },
    {
        let now = now_rfc3339();
        let scope_text = encode_string_list(&model.scope);
        let tags_text = encode_string_list(&model.tags);
        let row = ModelRow {
            id: model.id.clone(),
            name: model.name.clone(),
            file_name: model.file_name.clone(),
            model_type: model.model_type.clone(),
            description: model.description.clone(),
            scope_text,
            path: model.path.clone(),
            tags_text,
            created_at: model.created_at.clone(),
            updated_at: now.clone(),
        };
        proof {
            assert(str_views(model.scope@) =~= model@.scope);
            assert(str_views(model.tags@) =~= model@.tags);
        }
        match update_model_row(&mut self.conn, &row) {
            Ok(()) => {
                proof {
                    if old(self).models().contains_key(model@.id) {
                        assert(ModelRowV {
                            created_at: old(self).models()[model@.id].created_at,
                            ..row.contents()
                        } == updated_model_row_v(
                            model@,
                            now@,
                            old(self).models()[model@.id].created_at,
                        ));
                    }
                }
                let m = ModelInfo { updated_at: now, ..model };
                proof {
                    assert(m@.scope =~= model@.scope);
                    assert(m@.tags =~= model@.tags);
                    assert(m@ == (ModelInfoV { updated_at: m@.updated_at, ..model@ }));
                }
                Ok(m)
            },
            Err(e) => Err(e),
        }
    }

    /// Deletes a model by id; deleting a nonexistent id is not an error.
    /// Presets referencing the model are deliberately left untouched: the
    /// reference is soft, and the usage check only informs the caller.
    pub fn delete_model(&mut self, id: &str) -> (r: Result<(), String>)
        ensures
            final(self).presets() == old(self).presets(),
            final(self).tags() == old(self).tags(),
            r is Ok ==> final(self).models() == old(self).models().remove(id@),
            r is Err ==> final(self).models() == old(self).models(),
    {
        delete_model_row(&mut self.conn, id)
    }
}

} // verus!
