//! SQL migrations for `#[model]` structs: each model becomes a
//! `CREATE TABLE` / `DROP TABLE` pair, and the migration of a crate is the
//! concatenation of the pairs in registration order.
use vstd::prelude::*;

use crate::text::{ascii_lower, eq_str, join, join_seq, to_ascii_lowercase, views};

verus! {

/// The type of a field.
pub enum RustType {
    /// A path type, by the identifiers of its segments (`chrono`,
    /// `NaiveDateTime`).
    Path(Vec<String>),
    /// Any other type (reference, tuple, array, …).
    Other,
}

/// A named field.
pub struct FieldDef {
    pub name: String,
    pub ty: RustType,
}

/// The fields of a struct.
pub enum Fields {
    Named(Vec<FieldDef>),
    Unnamed,
    Unit,
}

/// A struct declaration.
pub struct StructDef {
    pub ident: String,
    pub fields: Fields,
}

/// What `generate_migrations!` writes, and whether it has to.
pub struct MigrationPlan {
    /// The concatenated `up` migrations.
    pub up: String,
    /// The concatenated `down` migrations.
    pub down: String,
    /// The `up` migration differs from the one on disk, so the files are
    /// rewritten and the database is rebuilt.
    pub changed: bool,
}

/// The SQL column type of a Rust type path, when it has one.
pub open spec fn diesel_type(path: Seq<char>) -> Option<Seq<char>> {
    if path == "i32"@ {
        Some("INTEGER"@)
    } else if path == "i64"@ {
        Some("BIGINT"@)
    } else if path == "String"@ {
        Some("TEXT"@)
    } else if path == "bool"@ {
        Some("BOOLEAN"@)
    } else if path == "f32"@ {
        Some("REAL"@)
    } else if path == "f64"@ {
        Some("DOUBLE PRECISION"@)
    } else if path == "chrono::NaiveDateTime"@ {
        Some("TIMESTAMP"@)
    } else if path == "uuid::Uuid"@ {
        Some("UUID"@)
    } else {
        None
    }
}

/// The path of a type: its segments joined by `::`.
pub open spec fn type_path(ty: RustType) -> Seq<char>
    recommends
        ty is Path,
{
    join_seq(views(ty->Path_0@), "::"@)
}

/// The type has an SQL column type.
pub open spec fn is_supported_type(ty: RustType) -> bool {
    ty is Path && diesel_type(type_path(ty)) is Some
}

/// The SQL column type of a supported type.
pub open spec fn spec_diesel_type(ty: RustType) -> Seq<char> {
    diesel_type(type_path(ty))->Some_0
}


/// The SQL column type of a field type.
pub fn rust_to_diesel_type(rust_ty: &RustType) -> (res: String)
    requires
        is_supported_type(*rust_ty),
    ensures
        res@ == spec_diesel_type(*rust_ty),
{
    match rust_ty {
        RustType::Path(segments) => {
            let path = join(segments, "::");
            if eq_str(&path, "i32") {
                String::from_str("INTEGER")
            } else if eq_str(&path, "i64") {
                String::from_str("BIGINT")
            } else if eq_str(&path, "String") {
                String::from_str("TEXT")
            } else if eq_str(&path, "bool") {
                String::from_str("BOOLEAN")
            } else if eq_str(&path, "f32") {
                String::from_str("REAL")
            } else if eq_str(&path, "f64") {
                String::from_str("DOUBLE PRECISION")
            } else if eq_str(&path, "chrono::NaiveDateTime") {
                String::from_str("TIMESTAMP")
            } else if eq_str(&path, "uuid::Uuid") {
                String::from_str("UUID")
            } else {
                vstd::pervasive::unreached()
            }
        },
        RustType::Other => vstd::pervasive::unreached(),
    }
}

/// Whether a field type has an SQL column type.
pub fn supported_type(ty: &RustType) -> (res: bool)
    ensures
        res == is_supported_type(*ty),
{
    match ty {
        RustType::Path(segments) => {
            let path = join(segments, "::");
            eq_str(&path, "i32") || eq_str(&path, "i64") || eq_str(&path, "String") || eq_str(
                &path,
                "bool",
            ) || eq_str(&path, "f32") || eq_str(&path, "f64") || eq_str(
                &path,
                "chrono::NaiveDateTime",
            ) || eq_str(&path, "uuid::Uuid")
        },
        RustType::Other => false,
    }
}

/// The struct has named fields, each of a type with an SQL column type.
pub open spec fn is_sql_struct(obj: StructDef) -> bool {
    &&& obj.fields is Named
    &&& forall|i: int|
        0 <= i < obj.fields->Named_0@.len() ==> is_supported_type(
            (#[trigger] obj.fields->Named_0@[i]).ty,
        )
}

/// Whether `struct_to_sql` takes a struct: its fields are named, and each
/// has a type with an SQL column type.
pub fn sql_struct(obj: &StructDef) -> (res: bool)
    ensures
        res == is_sql_struct(*obj),
{
    match &obj.fields {
        Fields::Named(fields) => {
            let mut i: usize = 0;
            while i < fields.len()
                invariant
                    obj.fields == Fields::Named(*fields),
                    i <= fields@.len(),
                    forall|j: int| 0 <= j < i ==> is_supported_type((#[trigger] fields@[j]).ty),
                decreases fields@.len() - i,
            {
                if !supported_type(&fields[i].ty) {
                    return false;
                }
                i = i + 1;
            }
            true
        },
        _ => false,
    }
}

/// `<name> <SQL type> NOT NULL`.
pub open spec fn column(f: FieldDef) -> Seq<char> {
    f.name@ + " "@ + spec_diesel_type(f.ty) + " NOT NULL"@
}

/// The columns of a list of fields.
pub open spec fn columns(fields: Seq<FieldDef>) -> Seq<Seq<char>> {
    fields.map_values(|f: FieldDef| column(f))
}

/// The table of a struct: its name in ASCII lower case, followed by `s`.
pub open spec fn table_name(ident: Seq<char>) -> Seq<char> {
    ascii_lower(ident) + "s"@
}

/// The `CREATE TABLE` statement of a struct: a serial `id` primary key, then
/// one `NOT NULL` column per field, separated by `,` and a line break.
pub open spec fn spec_up(obj: StructDef) -> Seq<char> {
    "CREATE TABLE "@ + table_name(obj.ident@)
        + " (\n                id SERIAL PRIMARY KEY,\n                "@ + join_seq(
        columns(obj.fields->Named_0@),
        ",\n"@,
    ) + "\n            );"@
}

/// The `DROP TABLE` statement of a struct.
pub open spec fn spec_down(obj: StructDef) -> Seq<char> {
    "DROP TABLE "@ + table_name(obj.ident@) + ";"@
}

/// The `(up, down)` migration of a struct with named fields of supported
/// types.
pub fn struct_to_sql(obj: &StructDef) -> (res: (String, String))
    requires
        is_sql_struct(*obj),
    ensures
        res.0@ == spec_up(*obj),
        res.1@ == spec_down(*obj),
{
    let fields = match &obj.fields {
        Fields::Named(fields) => fields,
        _ => vstd::pervasive::unreached(),
    };
    let mut cols: Vec<String> = Vec::new();
    let mut i: usize = 0;
    while i < fields.len()
        invariant
            obj.fields == Fields::Named(*fields),
            is_sql_struct(*obj),
            i <= fields@.len(),
            views(cols@) == columns(fields@.take(i as int)),
        decreases fields@.len() - i,
    {
        let f = &fields[i];
        assert(is_supported_type(fields@[i as int].ty));
        let mut c = f.name.clone();
        c.append(" ");
        let t = rust_to_diesel_type(&f.ty);
        c.append(t.as_str());
        c.append(" NOT NULL");
        let ghost prev = cols@;
        cols.push(c);
        proof {
            assert(fields@.take(i + 1) =~= fields@.take(i as int).push(fields@[i as int]));
            assert(views(cols@) =~= views(prev).push(column(fields@[i as int])));
            assert(columns(fields@.take(i + 1)) =~= columns(fields@.take(i as int)).push(
                column(fields@[i as int]),
            ));
        }
        i = i + 1;
    }
    assert(fields@.take(fields@.len() as int) =~= fields@);
    let sql_fields = join(&cols, ",\n");
    let lower = to_ascii_lowercase(obj.ident.as_str());
    let mut up = String::from_str("CREATE TABLE ");
    up.append(lower.as_str());
    up.append("s (\n                id SERIAL PRIMARY KEY,\n                ");
    up.append(sql_fields.as_str());
    up.append("\n            );");
    let mut down = String::from_str("DROP TABLE ");
    down.append(lower.as_str());
    down.append("s;");
    proof {
        reveal_strlit("s (\n                id SERIAL PRIMARY KEY,\n                ");
        reveal_strlit(" (\n                id SERIAL PRIMARY KEY,\n                ");
        reveal_strlit("s");
        reveal_strlit("s;");
        reveal_strlit(";");
        assert("s (\n                id SERIAL PRIMARY KEY,\n                "@ =~= "s"@
            + " (\n                id SERIAL PRIMARY KEY,\n                "@);
        assert("s;"@ =~= "s"@ + ";"@);
        assert(up@ =~= spec_up(*obj));
        assert(down@ =~= spec_down(*obj));
    }
    (up, down)
}

/// Records the migration of a `#[model]` struct.
pub fn register_migration(migrations: &mut Vec<(String, String)>, obj: &StructDef)
    requires
        is_sql_struct(*obj),
    ensures
        final(migrations)@.len() == old(migrations)@.len() + 1,
        final(migrations)@.take(old(migrations)@.len() as int) == old(migrations)@,
        final(migrations)@.last().0@ == spec_up(*obj),
        final(migrations)@.last().1@ == spec_down(*obj),
{
    let sql = struct_to_sql(obj);
    migrations.push(sql);
    assert(migrations@.take(old(migrations)@.len() as int) =~= old(migrations)@);
}

/// The `up` texts of the registered migrations, concatenated in order.
pub open spec fn concat_ups(m: Seq<(String, String)>) -> Seq<char>
    decreases m.len(),
{
    if m.len() == 0 {
        Seq::empty()
    } else {
        concat_ups(m.drop_last()) + m.last().0@
    }
}

/// The `down` texts of the registered migrations, concatenated in order.
pub open spec fn concat_downs(m: Seq<(String, String)>) -> Seq<char>
    decreases m.len(),
{
    if m.len() == 0 {
        Seq::empty()
    } else {
        concat_downs(m.drop_last()) + m.last().1@
    }
}

/// Computes what `generate_migrations!` writes: the registered `up` texts
/// concatenated, the `down` texts concatenated, and whether the `up` text
/// differs from `old_up`, the one on disk (empty when there is none).
pub fn migration_plan(migrations: &Vec<(String, String)>, old_up: &str) -> (plan: MigrationPlan)
    ensures
        plan.up@ == concat_ups(migrations@),
        plan.down@ == concat_downs(migrations@),
        plan.changed == (old_up@ != plan.up@),
{
    let mut up = String::new();
    let mut down = String::new();
    let mut i: usize = 0;
    while i < migrations.len()
        invariant
            i <= migrations@.len(),
            up@ == concat_ups(migrations@.take(i as int)),
            down@ == concat_downs(migrations@.take(i as int)),
        decreases migrations@.len() - i,
    {
        up.append(migrations[i].0.as_str());
        down.append(migrations[i].1.as_str());
        assert(migrations@.take(i + 1).drop_last() =~= migrations@.take(i as int));
        i = i + 1;
    }
    assert(migrations@.take(migrations@.len() as int) =~= migrations@);
    let old = String::from_str(old_up);
    let changed = !(old == up);
    MigrationPlan { up, down, changed }
}

/// Registering one more model appends its statements to the migration.
pub proof fn lemma_register_extends_migration(
    before: Seq<(String, String)>,
    after: Seq<(String, String)>,
    obj: StructDef,
)
    requires
        after.len() == before.len() + 1,
        after.take(before.len() as int) == before,
        after.last().0@ == spec_up(obj),
        after.last().1@ == spec_down(obj),
    ensures
        concat_ups(after) == concat_ups(before) + spec_up(obj),
        concat_downs(after) == concat_downs(before) + spec_down(obj),
{
    assert(after.drop_last() =~= before);
}

} // verus!
