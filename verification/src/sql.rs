//! The `#[sql]` and `#[watch]` attributes: each watched query gets the next
//! query number, and is rewritten for the client or the server depending on
//! the `cfg` attribute it carries.
use vstd::prelude::*;

use crate::text::views;

verus! {

/// How a `#[watch]` method is rewritten.
pub struct SqlWatchPlan {
    /// The query's number.
    pub query_id: u64,
    /// The method is the client (wasm) version, answered from the cache.
    pub client: bool,
}

/// The token text of the arguments of `#[cfg(target_arch = "wasm32")]`.
pub open spec fn wasm_cfg() -> Seq<char> {
    "(target_arch = \"wasm32\")"@
}

/// Some attribute of the method has the arguments of the wasm `cfg`.
pub open spec fn is_client_watch(attr_args: Seq<Seq<char>>) -> bool {
    exists|i: int| 0 <= i < attr_args.len() && attr_args[i] == wasm_cfg()
}

/// Registers a `#[watch]` method: takes the next query number and decides,
/// from the token text of its attributes' arguments, whether it is the
/// client version.
pub fn register_sql_watch(queries: &mut u64, attr_args: &Vec<String>) -> (plan: SqlWatchPlan)
    requires
        *old(queries) < u64::MAX,
    ensures
        *final(queries) == *old(queries) + 1,
        plan.query_id == *old(queries),
        plan.client == is_client_watch(views(attr_args@)),
{
    let query_id = *queries;
    *queries = query_id + 1;
    let cfg = String::from_str("(target_arch = \"wasm32\")");
    let mut client = false;
    let mut i: usize = 0;
    while i < attr_args.len()
        invariant
            i <= attr_args@.len(),
            cfg@ == wasm_cfg(),
            client == exists|j: int| 0 <= j < i && views(attr_args@)[j] == wasm_cfg(),
        decreases attr_args@.len() - i,
    {
        if attr_args[i] == cfg {
            client = true;
        }
        proof {
            assert(views(attr_args@)[i as int] == attr_args@[i as int]@);
            if !client {
                assert forall|j: int| 0 <= j < i + 1 implies views(attr_args@)[j] != wasm_cfg() by {
                    if j < i {
                    }
                }
            }
        }
        i = i + 1;
    }
    SqlWatchPlan { query_id, client }
}

/// Where a query method of an `#[sql]` block splits its statements: the
/// last statement is the query that is run, the ones before it prepare it.
pub fn register_sql_query(n_stmts: usize) -> (split: usize)
    requires
        n_stmts >= 1,
    ensures
        split == n_stmts - 1,
{
    n_stmts - 1
}

/// Where the server version of a watched query splits its statements: the
/// statements before the last four build the query, the last four use it.
pub fn generate_server_sql_watch(n_stmts: usize) -> (split: usize)
    requires
        n_stmts >= 4,
    ensures
        split == n_stmts - 4,
{
    n_stmts - 4
}

} // verus!
