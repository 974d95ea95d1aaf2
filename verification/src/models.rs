//! Names derived from a `#[model]` or `#[db]` struct, the registry of models,
//! and the model table that `generate_proto!` builds from it.
use vstd::prelude::*;

use crate::migrations::{is_sql_struct, register_migration, spec_down, spec_up, StructDef};
use crate::text::{ascii_lower, remove_char, to_ascii_lowercase, without_char};

verus! {

/// The names that `#[model]` derives from a struct.
pub struct ModelNames {
    /// The struct name in ASCII lower case: the module and parameter name.
    pub lower_name: String,
    /// `New<Name>`: the insertable struct.
    pub new_name: String,
    /// The table: the attribute's argument without quotes, or the lower-case
    /// name followed by `s`.
    pub table_name: String,
    /// `from_<lower name>`: the conversion into the insertable struct.
    pub from_name: String,
}

/// The names that `#[db]` derives from a struct.
pub struct ProtoNames {
    /// `<Name>Proto`.
    pub proto_name: String,
    /// `<Name>Id`.
    pub id_name: String,
}

/// One model of the generated `Model` enum.
pub struct ModelEntry {
    pub name: String,
    /// `<Name>Proto`.
    pub proto_name: String,
    /// The model's number: its position in the registry.
    pub model_id: u64,
}

/// The table of a model: the attribute's argument with its quotes removed,
/// or, without an argument, the lower-case name followed by `s`.
pub open spec fn spec_table_name(attr: Seq<char>, name: Seq<char>) -> Seq<char> {
    if attr.len() == 0 {
        ascii_lower(name) + "s"@
    } else {
        without_char(attr, '"')
    }
}

/// `#[model(<attr>)]` on a struct: records the struct's migration and
/// derives the names of the generated items.
pub fn impl_model_macro(
    table_name: &str,
    item_struct: &StructDef,
    migrations: &mut Vec<(String, String)>,
) -> (names: ModelNames)
    requires
        is_sql_struct(*item_struct),
    ensures
        names.lower_name@ == ascii_lower(item_struct.ident@),
        names.new_name@ == "New"@ + item_struct.ident@,
        names.table_name@ == spec_table_name(table_name@, item_struct.ident@),
        names.from_name@ == "from_"@ + ascii_lower(item_struct.ident@),
        final(migrations)@.len() == old(migrations)@.len() + 1,
        final(migrations)@.take(old(migrations)@.len() as int) == old(migrations)@,
        final(migrations)@.last().0@ == spec_up(*item_struct),
        final(migrations)@.last().1@ == spec_down(*item_struct),
{
    register_migration(migrations, item_struct);
    let lower_name = to_ascii_lowercase(item_struct.ident.as_str());
    let mut new_name = String::from_str("New");
    new_name.append(item_struct.ident.as_str());
    let table = if table_name.unicode_len() == 0 {
        let mut t = lower_name.clone();
        t.append("s");
        t
    } else {
        remove_char(table_name, '"')
    };
    let mut from_name = String::from_str("from_");
    from_name.append(lower_name.as_str());
    ModelNames { lower_name, new_name, table_name: table, from_name }
}

/// `#[db]` on a struct: records the model and derives the names of its
/// protocol enum and id type.
pub fn impl_proto(models: &mut Vec<String>, name: &str) -> (names: ProtoNames)
    ensures
        final(models)@.len() == old(models)@.len() + 1,
        final(models)@.take(old(models)@.len() as int) == old(models)@,
        final(models)@.last()@ == name@,
        names.proto_name@ == name@ + "Proto"@,
        names.id_name@ == name@ + "Id"@,
{
    models.push(String::from_str(name));
    assert(models@.take(old(models)@.len() as int) =~= old(models)@);
    let mut proto_name = String::from_str(name);
    proto_name.append("Proto");
    let mut id_name = String::from_str(name);
    id_name.append("Id");
    ProtoNames { proto_name, id_name }
}

/// The model table of `generate_proto!`: each registered model with its
/// protocol enum and its number, in registration order.
pub fn exprs_to_idents(models: &Vec<String>) -> (res: Vec<ModelEntry>)
    requires
        models@.len() < u64::MAX,
    ensures
        res@.len() == models@.len(),
        forall|i: int|
            0 <= i < res@.len() ==> {
                &&& (#[trigger] res@[i]).name@ == models@[i]@
                &&& res@[i].proto_name@ == models@[i]@ + "Proto"@
                &&& res@[i].model_id == i
            },
{
    let mut res: Vec<ModelEntry> = Vec::new();
    let mut i: usize = 0;
    while i < models.len()
        invariant
            i <= models@.len(),
            models@.len() < u64::MAX,
            res@.len() == i,
            forall|j: int|
                0 <= j < i ==> {
                    &&& (#[trigger] res@[j]).name@ == models@[j]@
                    &&& res@[j].proto_name@ == models@[j]@ + "Proto"@
                    &&& res@[j].model_id == j
                },
        decreases models@.len() - i,
    {
        let mut proto_name = models[i].clone();
        proto_name.append("Proto");
        res.push(ModelEntry { name: models[i].clone(), proto_name, model_id: i as u64 });
        i = i + 1;
    }
    res
}

/// Different models of the table have different numbers.
pub proof fn lemma_model_ids_distinct(table: Seq<ModelEntry>, i: int, j: int)
    requires
        forall|k: int| 0 <= k < table.len() ==> (#[trigger] table[k]).model_id == k,
        0 <= i < table.len(),
        0 <= j < table.len(),
        i != j,
    ensures
        table[i].model_id != table[j].model_id,
{
}

} // verus!
