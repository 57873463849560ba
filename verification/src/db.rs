//! Trusted boundary to the embedded SQLite database, through rusqlite.
//!
//! The three tables are modeled as maps from row id to row contents
//! ([`preset_table`], [`tag_table`], [`model_table`]).  Each wrapper's
//! contract states, over those maps, what its SQL statement does according
//! to SQLite's documented semantics: inserts respect primary-key and
//! uniqueness constraints, updates and deletes touch exactly the addressed
//! row, a failed operation leaves the database unchanged, and `SELECT`
//! returns exactly the rows of the table in the stated order.  Everything
//! above this module is verified against these contracts.

use vstd::prelude::*;
use crate::text::lex_leq;

verus! {

#[verifier::external_type_specification]
#[verifier::external_body]
pub struct ExConnection(rusqlite::Connection);

/// One stored preset row, as it sits in the `presets` table: primitive
/// columns plus the JSON text of the embedded objects.
pub struct PresetRow {
    pub id: String,
    pub name: String,
    pub description: String,
    pub tags_text: String,
    pub is_favorite: bool,
    pub use_count: i64,
    pub created_at: String,
    pub updated_at: String,
    pub model_text: String,
    pub sampling_text: String,
    pub prompt_text: String,
    pub image_text: String,
    pub resources: Option<String>,
}

/// Mathematical image of a preset row, without its id (the id is the key).
pub struct PresetRowV {
    pub name: Seq<char>,
    pub description: Seq<char>,
    pub tags_text: Seq<char>,
    pub is_favorite: bool,
    pub use_count: int,
    pub created_at: Seq<char>,
    pub updated_at: Seq<char>,
    pub model_text: Seq<char>,
    pub sampling_text: Seq<char>,
    pub prompt_text: Seq<char>,
    pub image_text: Seq<char>,
    pub resources: Option<Seq<char>>,
}

impl PresetRow {
    /// Assembles a row from its columns, in table order.
    pub(crate) fn build(
        id: String,
        name: String,
        description: String,
        tags_text: String,
        is_favorite: bool,
        use_count: i64,
        created_at: String,
        updated_at: String,
        model_text: String,
        sampling_text: String,
        prompt_text: String,
        image_text: String,
        resources: Option<String>,
    ) -> (r: PresetRow)
        ensures
            r == (PresetRow {
                id,
                name,
                description,
                tags_text,
                is_favorite,
                use_count,
                created_at,
                updated_at,
                model_text,
                sampling_text,
                prompt_text,
                image_text,
                resources,
            }),
    {
        PresetRow {
            id,
            name,
            description,
            tags_text,
            is_favorite,
            use_count,
            created_at,
            updated_at,
            model_text,
            sampling_text,
            prompt_text,
            image_text,
            resources,
        }
    }

    /// The row's contents as a mathematical value.
    pub open spec fn contents(&self) -> PresetRowV {
        PresetRowV {
            name: self.name@,
            description: self.description@,
            tags_text: self.tags_text@,
            is_favorite: self.is_favorite,
            use_count: self.use_count as int,
            created_at: self.created_at@,
            updated_at: self.updated_at@,
            model_text: self.model_text@,
            sampling_text: self.sampling_text@,
            prompt_text: self.prompt_text@,
            image_text: self.image_text@,
            resources: match self.resources {
                Some(s) => Some(s@),
                None => None,
            },
        }
    }
}

/// One stored tag row, without the derived count.
pub struct TagRow {
    pub id: String,
    pub name: String,
    pub color: String,
}

/// Mathematical image of a tag row, without its id.
pub struct TagRowV {
    pub name: Seq<char>,
    pub color: Seq<char>,
}

impl TagRow {
    /// The row's contents as a mathematical value.
    pub open spec fn contents(&self) -> TagRowV {
        TagRowV { name: self.name@, color: self.color@ }
    }
}

/// One stored model row.
pub struct ModelRow {
    pub id: String,
    pub name: String,
    pub file_name: String,
    pub model_type: String,
    pub description: String,
    pub scope_text: String,
    pub path: String,
    pub tags_text: String,
    pub created_at: String,
    pub updated_at: String,
}

/// Mathematical image of a model row, without its id.
pub struct ModelRowV {
    pub name: Seq<char>,
    pub file_name: Seq<char>,
    pub model_type: Seq<char>,
    pub description: Seq<char>,
    pub scope_text: Seq<char>,
    pub path: Seq<char>,
    pub tags_text: Seq<char>,
    pub created_at: Seq<char>,
    pub updated_at: Seq<char>,
}

impl ModelRow {
    /// Assembles a row from its columns, in table order.
    pub(crate) fn build(
        id: String,
        name: String,
        file_name: String,
        model_type: String,
        description: String,
        scope_text: String,
        path: String,
        tags_text: String,
        created_at: String,
        updated_at: String,
    ) -> (r: ModelRow)
        ensures
            r == (ModelRow {
                id,
                name,
                file_name,
                model_type,
                description,
                scope_text,
                path,
                tags_text,
                created_at,
                updated_at,
            }),
    {
        ModelRow {
            id,
            name,
            file_name,
            model_type,
            description,
            scope_text,
            path,
            tags_text,
            created_at,
            updated_at,
        }
    }

    /// The row's contents as a mathematical value.
    pub open spec fn contents(&self) -> ModelRowV {
        ModelRowV {
            name: self.name@,
            file_name: self.file_name@,
            model_type: self.model_type@,
            description: self.description@,
            scope_text: self.scope_text@,
            path: self.path@,
            tags_text: self.tags_text@,
            created_at: self.created_at@,
            updated_at: self.updated_at@,
        }
    }
}

/// The contents of the `presets` table reachable through a connection.
pub uninterp spec fn preset_table(c: rusqlite::Connection) -> Map<Seq<char>, PresetRowV>;

/// The contents of the `tags` table reachable through a connection.
pub uninterp spec fn tag_table(c: rusqlite::Connection) -> Map<Seq<char>, TagRowV>;

/// The contents of the `models` table reachable through a connection.
pub uninterp spec fn model_table(c: rusqlite::Connection) -> Map<Seq<char>, ModelRowV>;

/// Relies on `rusqlite::Connection::open`: opens (creating if absent) the
/// database file at `path`.  Nothing is assumed about the tables found in
/// an existing file; SQLite documents that the special path `:memory:`
/// opens a new, empty in-memory database, so there every table is empty.
#[verifier::external_body]
pub(crate) fn open_db(path: &str) -> (r: Result<rusqlite::Connection, String>)
    ensures
        r matches Ok(c) ==> (path@ == ":memory:"@ ==> preset_table(c) == Map::<
            Seq<char>,
            PresetRowV,
        >::empty() && tag_table(c) == Map::<Seq<char>, TagRowV>::empty() && model_table(c)
            == Map::<Seq<char>, ModelRowV>::empty()),
{
    rusqlite::Connection::open(path).map_err(|e| e.to_string())
}

/// Relies on `rusqlite::Connection::execute_batch` with `CREATE TABLE IF
/// NOT EXISTS` / `CREATE INDEX IF NOT EXISTS`: idempotent, and never
/// changes existing rows.
#[verifier::external_body]
pub(crate) fn create_tables(c: &mut rusqlite::Connection) -> (r: Result<(), String>)
    ensures
        preset_table(*final(c)) == preset_table(*old(c)),
        tag_table(*final(c)) == tag_table(*old(c)),
        model_table(*final(c)) == model_table(*old(c)),
{
    c.execute_batch(
        "CREATE TABLE IF NOT EXISTS presets (\
            id TEXT PRIMARY KEY, name TEXT NOT NULL, description TEXT, tags TEXT,\
            is_favorite INTEGER DEFAULT 0, use_count INTEGER DEFAULT 0,\
            created_at TEXT, updated_at TEXT, model_config TEXT, sampling_config TEXT,\
            prompt_config TEXT, image_config TEXT, resources TEXT);\
        CREATE TABLE IF NOT EXISTS tags (\
            id TEXT PRIMARY KEY, name TEXT UNIQUE NOT NULL, color TEXT DEFAULT '#6366f1');\
        CREATE TABLE IF NOT EXISTS models (\
            id TEXT PRIMARY KEY, name TEXT NOT NULL, file_name TEXT, model_type TEXT NOT NULL,\
            description TEXT, scope TEXT, path TEXT, tags TEXT, created_at TEXT, updated_at TEXT);\
        CREATE INDEX IF NOT EXISTS idx_presets_name ON presets(name);\
        CREATE INDEX IF NOT EXISTS idx_presets_created_at ON presets(created_at);\
        CREATE INDEX IF NOT EXISTS idx_presets_is_favorite ON presets(is_favorite);\
        CREATE INDEX IF NOT EXISTS idx_models_name ON models(name);\
        CREATE INDEX IF NOT EXISTS idx_models_type ON models(model_type);",
    ).map_err(|e| e.to_string())
}

/// Relies on `rusqlite::Connection::execute` with `INSERT`: on success the
/// new row is present; the id was free before (`id` is the primary key, a
/// duplicate fails the statement); on failure nothing changed.
#[verifier::external_body]
pub(crate) fn insert_preset_row(c: &mut rusqlite::Connection, row: &PresetRow) -> (r: Result<
    (),
    String,
>)
    ensures
        r is Ok ==> !preset_table(*old(c)).contains_key(row.id@) && preset_table(*final(c))
            == preset_table(*old(c)).insert(row.id@, row.contents()),
        r is Err ==> preset_table(*final(c)) == preset_table(*old(c)),
        tag_table(*final(c)) == tag_table(*old(c)),
        model_table(*final(c)) == model_table(*old(c)),
{
    c.execute(
        "INSERT INTO presets VALUES (?1, ?2, ?3, ?4, ?5, ?6, ?7, ?8, ?9, ?10, ?11, ?12, ?13)",
        (&row.id, &row.name, &row.description, &row.tags_text, row.is_favorite, row.use_count,
        &row.created_at, &row.updated_at, &row.model_text, &row.sampling_text, &row.prompt_text,
        &row.image_text, &row.resources),
    ).map(|_| ()).map_err(|e| e.to_string())
}

/// Relies on `SELECT ... ORDER BY updated_at DESC`: returns exactly the
/// rows of the table, each id once, ordered weakly descending by
/// `updated_at` under SQLite's byte order on UTF-8 text, which agrees with
/// code-point order.
#[verifier::external_body]
pub(crate) fn select_preset_rows(c: &rusqlite::Connection) -> (r: Result<Vec<PresetRow>, String>)
    ensures
        r matches Ok(v) ==> {
            &&& preset_table(*c).dom().finite()
            &&& v@.len() == preset_table(*c).len()
            &&& forall|i: int|
                0 <= i < v@.len() ==> preset_table(*c).contains_key(#[trigger] v@[i].id@)
                    && preset_table(*c)[v@[i].id@] == v@[i].contents()
            &&& forall|i: int, j: int| 0 <= i < j < v@.len() ==> v@[i].id@ != v@[j].id@
            &&& forall|k: Seq<char>|
                preset_table(*c).contains_key(k) ==> exists|i: int|
                    0 <= i < v@.len() && (#[trigger] v@[i].id@) == k
            &&& forall|i: int, j: int|
                0 <= i < j < v@.len() ==> lex_leq(v@[j].updated_at@, v@[i].updated_at@)
        },
{
    let mut stmt = c.prepare("SELECT * FROM presets ORDER BY updated_at DESC").map_err(
        |e| e.to_string(),
    )?;
    let rows = stmt.query_map([], |r| Ok(PresetRow::build(r.get(0)?, r.get(1)?, r.get(2)?,
        r.get(3)?, r.get(4)?, r.get(5)?, r.get(6)?, r.get(7)?, r.get(8)?, r.get(9)?,
        r.get(10)?, r.get(11)?, r.get(12)?))).map_err(|e| e.to_string())?;
    rows.collect::<Result<Vec<_>, _>>().map_err(|e| e.to_string())
}

/// Relies on `SELECT ... WHERE id = ?`: returns the addressed row exactly
/// when it exists.
#[verifier::external_body]
pub(crate) fn select_preset_row(c: &rusqlite::Connection, id: &str) -> (r: Result<
    Option<PresetRow>,
    String,
>)
    ensures
        r matches Ok(Some(row)) ==> preset_table(*c).contains_key(id@) && row.id@ == id@
            && preset_table(*c)[id@] == row.contents(),
        r matches Ok(None) ==> !preset_table(*c).contains_key(id@),
{
    let res = c.query_row("SELECT * FROM presets WHERE id = ?1", (id,), |r| Ok(
        PresetRow::build(r.get(0)?, r.get(1)?, r.get(2)?, r.get(3)?, r.get(4)?, r.get(5)?,
        r.get(6)?, r.get(7)?, r.get(8)?, r.get(9)?, r.get(10)?, r.get(11)?, r.get(12)?)));
    match res {
        Ok(row) => Ok(Some(row)),
        Err(rusqlite::Error::QueryReturnedNoRows) => Ok(None),
        Err(e) => Err(e.to_string()),
    }
}

/// Relies on `UPDATE presets SET ... WHERE id = ?`: rewrites every column
/// of the addressed row except `id` and `created_at`; updating an absent
/// id affects no row and is not an error.
#[verifier::external_body]
pub(crate) fn update_preset_row(c: &mut rusqlite::Connection, row: &PresetRow) -> (r: Result<
    (),
    String,
>)
    ensures
        r is Ok && preset_table(*old(c)).contains_key(row.id@) ==> preset_table(*final(c))
            == preset_table(*old(c)).insert(
            row.id@,
            PresetRowV {
                created_at: preset_table(*old(c))[row.id@].created_at,
                ..row.contents()
            },
        ),
        r is Ok && !preset_table(*old(c)).contains_key(row.id@) ==> preset_table(*final(c))
            == preset_table(*old(c)),
        r is Err ==> preset_table(*final(c)) == preset_table(*old(c)),
        tag_table(*final(c)) == tag_table(*old(c)),
        model_table(*final(c)) == model_table(*old(c)),
{
    c.execute(
        "UPDATE presets SET name = ?1, description = ?2, tags = ?3, is_favorite = ?4,\
         use_count = ?5, updated_at = ?6, model_config = ?7, sampling_config = ?8,\
         prompt_config = ?9, image_config = ?10, resources = ?11 WHERE id = ?12",
        (&row.name, &row.description, &row.tags_text, row.is_favorite, row.use_count,
        &row.updated_at, &row.model_text, &row.sampling_text, &row.prompt_text, &row.image_text,
        &row.resources, &row.id),
    ).map(|_| ()).map_err(|e| e.to_string())
}

/// Relies on `DELETE FROM presets WHERE id = ?`: removes the addressed row
/// if present; deleting an absent id is not an error.
#[verifier::external_body]
pub(crate) fn delete_preset_row(c: &mut rusqlite::Connection, id: &str) -> (r: Result<(), String>)
    ensures
        r is Ok ==> preset_table(*final(c)) == preset_table(*old(c)).remove(id@),
        r is Err ==> preset_table(*final(c)) == preset_table(*old(c)),
        tag_table(*final(c)) == tag_table(*old(c)),
        model_table(*final(c)) == model_table(*old(c)),
{
    c.execute("DELETE FROM presets WHERE id = ?1", (id,)).map(|_| ()).map_err(|e| e.to_string())
}

/// Relies on `UPDATE presets SET is_favorite = NOT is_favorite, updated_at
/// = ? WHERE id = ?`: one atomic in-database flip of the addressed row's
/// flag; no other row or column is touched.
#[verifier::external_body]
pub(crate) fn toggle_favorite_row(c: &mut rusqlite::Connection, id: &str, now: &str) -> (r: Result<
    (),
    String,
>)
    ensures
        r is Ok && preset_table(*old(c)).contains_key(id@) ==> preset_table(*final(c))
            == preset_table(*old(c)).insert(
            id@,
            PresetRowV {
                is_favorite: !preset_table(*old(c))[id@].is_favorite,
                updated_at: now@,
                ..preset_table(*old(c))[id@]
            },
        ),
        r is Ok && !preset_table(*old(c)).contains_key(id@) ==> preset_table(*final(c))
            == preset_table(*old(c)),
        r is Err ==> preset_table(*final(c)) == preset_table(*old(c)),
        tag_table(*final(c)) == tag_table(*old(c)),
        model_table(*final(c)) == model_table(*old(c)),
{
    c.execute(
        "UPDATE presets SET is_favorite = NOT is_favorite, updated_at = ?1 WHERE id = ?2",
        (now, id),
    ).map(|_| ()).map_err(|e| e.to_string())
}

/// Relies on `UPDATE presets SET use_count = use_count + 1, updated_at = ?
/// WHERE id = ?`: one atomic in-database increment of the addressed row's
/// counter; no other row or column is touched.  The increment is stated
/// only below `i64::MAX`, where SQLite's integer addition is exact.
#[verifier::external_body]
pub(crate) fn increment_use_count_row(c: &mut rusqlite::Connection, id: &str, now: &str) -> (r:
    Result<(), String>)
    ensures
        r is Ok && preset_table(*old(c)).contains_key(id@) && preset_table(*old(c))[id@].use_count
            < 9223372036854775807 ==> preset_table(*final(c)) == preset_table(*old(c)).insert(
            id@,
            PresetRowV {
                use_count: preset_table(*old(c))[id@].use_count + 1,
                updated_at: now@,
                ..preset_table(*old(c))[id@]
            },
        ),
        r is Ok && !preset_table(*old(c)).contains_key(id@) ==> preset_table(*final(c))
            == preset_table(*old(c)),
        r is Err ==> preset_table(*final(c)) == preset_table(*old(c)),
        tag_table(*final(c)) == tag_table(*old(c)),
        model_table(*final(c)) == model_table(*old(c)),
{
    c.execute(
        "UPDATE presets SET use_count = use_count + 1, updated_at = ?1 WHERE id = ?2",
        (now, id),
    ).map(|_| ()).map_err(|e| e.to_string())
}

/// Relies on `INSERT INTO tags`: `id` is the primary key and `name` is
/// UNIQUE, so success means both were free; a duplicate of either fails
/// the statement and changes nothing.
#[verifier::external_body]
pub(crate) fn insert_tag_row(c: &mut rusqlite::Connection, row: &TagRow) -> (r: Result<(), String>)
    ensures
        r is Ok ==> !tag_table(*old(c)).contains_key(row.id@) && (forall|k: Seq<char>|
            tag_table(*old(c)).contains_key(k) ==> (#[trigger] tag_table(*old(c))[k]).name
                != row.name@) && tag_table(*final(c)) == tag_table(*old(c)).insert(
            row.id@,
            row.contents(),
        ),
        r is Err ==> tag_table(*final(c)) == tag_table(*old(c)),
        preset_table(*final(c)) == preset_table(*old(c)),
        model_table(*final(c)) == model_table(*old(c)),
{
    c.execute(
        "INSERT INTO tags (id, name, color) VALUES (?1, ?2, ?3)",
        (&row.id, &row.name, &row.color),
    ).map(|_| ()).map_err(|e| e.to_string())
}

/// Relies on `SELECT ... FROM tags ORDER BY name`: returns exactly the
/// rows of the table, each id once, ordered weakly ascending by name.
#[verifier::external_body]
pub(crate) fn select_tag_rows(c: &rusqlite::Connection) -> (r: Result<Vec<TagRow>, String>)
    ensures
        r matches Ok(v) ==> {
            &&& tag_table(*c).dom().finite()
            &&& v@.len() == tag_table(*c).len()
            &&& forall|i: int|
                0 <= i < v@.len() ==> tag_table(*c).contains_key(#[trigger] v@[i].id@) && tag_table(
                    *c,
                )[v@[i].id@] == v@[i].contents()
            &&& forall|i: int, j: int| 0 <= i < j < v@.len() ==> v@[i].id@ != v@[j].id@
            &&& forall|k: Seq<char>|
                tag_table(*c).contains_key(k) ==> exists|i: int|
                    0 <= i < v@.len() && (#[trigger] v@[i].id@) == k
            &&& forall|i: int, j: int|
                0 <= i < j < v@.len() ==> lex_leq(v@[i].name@, v@[j].name@)
        },
{
    let mut stmt = c.prepare("SELECT id, name, color FROM tags ORDER BY name").map_err(
        |e| e.to_string(),
    )?;
    let rows = stmt.query_map([], |r| {
        Ok(TagRow { id: r.get(0)?, name: r.get(1)?, color: r.get(2)? })
    }).map_err(|e| e.to_string())?;
    rows.collect::<Result<Vec<_>, _>>().map_err(|e| e.to_string())
}

/// Relies on `DELETE FROM tags WHERE id = ?`.
#[verifier::external_body]
pub(crate) fn delete_tag_row(c: &mut rusqlite::Connection, id: &str) -> (r: Result<(), String>)
    ensures
        r is Ok ==> tag_table(*final(c)) == tag_table(*old(c)).remove(id@),
        r is Err ==> tag_table(*final(c)) == tag_table(*old(c)),
        preset_table(*final(c)) == preset_table(*old(c)),
        model_table(*final(c)) == model_table(*old(c)),
{
    c.execute("DELETE FROM tags WHERE id = ?1", (id,)).map(|_| ()).map_err(|e| e.to_string())
}

/// Relies on `INSERT INTO models`: `id` is the primary key, so success
/// means the id was free.
#[verifier::external_body]
pub(crate) fn insert_model_row(c: &mut rusqlite::Connection, row: &ModelRow) -> (r: Result<
    (),
    String,
>)
    ensures
        r is Ok ==> !model_table(*old(c)).contains_key(row.id@) && model_table(*final(c))
            == model_table(*old(c)).insert(row.id@, row.contents()),
        r is Err ==> model_table(*final(c)) == model_table(*old(c)),
        preset_table(*final(c)) == preset_table(*old(c)),
        tag_table(*final(c)) == tag_table(*old(c)),
{
    c.execute(
        "INSERT INTO models VALUES (?1, ?2, ?3, ?4, ?5, ?6, ?7, ?8, ?9, ?10)",
        (&row.id, &row.name, &row.file_name, &row.model_type, &row.description, &row.scope_text,
        &row.path, &row.tags_text, &row.created_at, &row.updated_at),
    ).map(|_| ()).map_err(|e| e.to_string())
}

/// Relies on `SELECT ... FROM models ORDER BY updated_at DESC`: returns
/// exactly the rows of the table, each id once, ordered weakly descending
/// by `updated_at`.
#[verifier::external_body]
pub(crate) fn select_model_rows(c: &rusqlite::Connection) -> (r: Result<Vec<ModelRow>, String>)
    ensures
        r matches Ok(v) ==> {
            &&& model_table(*c).dom().finite()
            &&& v@.len() == model_table(*c).len()
            &&& forall|i: int|
                0 <= i < v@.len() ==> model_table(*c).contains_key(#[trigger] v@[i].id@)
                    && model_table(*c)[v@[i].id@] == v@[i].contents()
            &&& forall|i: int, j: int| 0 <= i < j < v@.len() ==> v@[i].id@ != v@[j].id@
            &&& forall|k: Seq<char>|
                model_table(*c).contains_key(k) ==> exists|i: int|
                    0 <= i < v@.len() && (#[trigger] v@[i].id@) == k
            &&& forall|i: int, j: int|
                0 <= i < j < v@.len() ==> lex_leq(v@[j].updated_at@, v@[i].updated_at@)
        },
{
    let mut stmt = c.prepare("SELECT * FROM models ORDER BY updated_at DESC").map_err(
        |e| e.to_string(),
    )?;
    let rows = stmt.query_map([], |r| Ok(ModelRow::build(r.get(0)?, r.get(1)?, r.get(2)?,
        r.get(3)?, r.get(4)?, r.get(5)?, r.get(6)?, r.get(7)?, r.get(8)?,
        r.get(9)?))).map_err(|e| e.to_string())?;
    rows.collect::<Result<Vec<_>, _>>().map_err(|e| e.to_string())
}

/// Relies on `SELECT ... FROM models WHERE id = ?`.
#[verifier::external_body]
pub(crate) fn select_model_row(c: &rusqlite::Connection, id: &str) -> (r: Result<
    Option<ModelRow>,
    String,
>)
    ensures
        r matches Ok(Some(row)) ==> model_table(*c).contains_key(id@) && row.id@ == id@
            && model_table(*c)[id@] == row.contents(),
        r matches Ok(None) ==> !model_table(*c).contains_key(id@),
{
    let res = c.query_row("SELECT * FROM models WHERE id = ?1", (id,), |r| Ok(ModelRow::build(
        r.get(0)?, r.get(1)?, r.get(2)?, r.get(3)?, r.get(4)?, r.get(5)?, r.get(6)?,
        r.get(7)?, r.get(8)?, r.get(9)?)));
    match res {
        Ok(row) => Ok(Some(row)),
        Err(rusqlite::Error::QueryReturnedNoRows) => Ok(None),
        Err(e) => Err(e.to_string()),
    }
}

/// Relies on `UPDATE models SET ... WHERE id = ?`: rewrites every column
/// of the addressed row except `id` and `created_at`; an absent id affects
/// no row.
#[verifier::external_body]
pub(crate) fn update_model_row(c: &mut rusqlite::Connection, row: &ModelRow) -> (r: Result<
    (),
    String,
>)
    ensures
        r is Ok && model_table(*old(c)).contains_key(row.id@) ==> model_table(*final(c))
            == model_table(*old(c)).insert(
            row.id@,
            ModelRowV { created_at: model_table(*old(c))[row.id@].created_at, ..row.contents() },
        ),
        r is Ok && !model_table(*old(c)).contains_key(row.id@) ==> model_table(*final(c))
            == model_table(*old(c)),
        r is Err ==> model_table(*final(c)) == model_table(*old(c)),
        preset_table(*final(c)) == preset_table(*old(c)),
        tag_table(*final(c)) == tag_table(*old(c)),
{
    c.execute(
        "UPDATE models SET name = ?1, file_name = ?2, model_type = ?3, description = ?4,\
         scope = ?5, path = ?6, tags = ?7, updated_at = ?8 WHERE id = ?9",
        (&row.name, &row.file_name, &row.model_type, &row.description, &row.scope_text, &row.path,
        &row.tags_text, &row.updated_at, &row.id),
    ).map(|_| ()).map_err(|e| e.to_string())
}

/// Relies on `DELETE FROM models WHERE id = ?`.
#[verifier::external_body]
pub(crate) fn delete_model_row(c: &mut rusqlite::Connection, id: &str) -> (r: Result<(), String>)
    ensures
        r is Ok ==> model_table(*final(c)) == model_table(*old(c)).remove(id@),
        r is Err ==> model_table(*final(c)) == model_table(*old(c)),
        preset_table(*final(c)) == preset_table(*old(c)),
        tag_table(*final(c)) == tag_table(*old(c)),
{
    c.execute("DELETE FROM models WHERE id = ?1", (id,)).map(|_| ()).map_err(|e| e.to_string())
}

/// Relies on `uuid::Uuid::new_v4` and its hyphenated `to_string`: 36
/// characters.  Nothing else is assumed of a random identifier.
#[verifier::external_body]
pub(crate) fn new_uuid() -> (r: String)
    ensures
        r@.len() == 36,
{
    uuid::Uuid::new_v4().to_string()
}

/// Relies on `chrono::Utc::now().to_rfc3339()`: a nonempty RFC 3339 text.
/// Nothing else is assumed of the clock.
#[verifier::external_body]
pub(crate) fn now_rfc3339() -> (r: String)
    ensures
        r@.len() > 0,
{
    chrono::Utc::now().to_rfc3339()
}

} // verus!
