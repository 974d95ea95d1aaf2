//! The `#[rpc]` registry: each method of an `#[rpc]` impl block gets a query
//! variant and a response variant, numbered in registration order, and
//! `generate_rpc_proto!` turns the registry into one dispatch arm per entry.
use vstd::prelude::*;

use crate::text::{
    contains, contains_seq, decimal, lemma_decimal_injective, lemma_prefix_cancel, occurs_at,
    to_lowercase, u64_to_decimal, unicode_lowercase, views,
};

verus! {

/// What the registry remembers of one remote procedure.
pub struct RpcEntry {
    pub model_name: String,
    pub method_name: String,
    pub query_variant: String,
    /// `(is_mut, type)` of each parameter; the receiver has the model's type.
    pub query_types: Vec<(bool, String)>,
    pub response_variant: String,
    /// `(is mut self, return type)`.
    pub response_type: (bool, String),
}

/// One parameter of a method, as written in the source.
pub enum FnInput {
    /// `self`, `&self` or `&mut self`.
    Receiver { mutable: bool },
    /// `pat: ty`, both as token text.
    Typed { pat: String, ty: String },
}

/// A method of an `#[rpc]` impl block.
pub struct RpcMethod {
    pub name: String,
    /// The method carries a `#[watch]` attribute.
    pub is_watch: bool,
    pub inputs: Vec<FnInput>,
    /// The return type as token text; `None` for `()`.
    pub output: Option<String>,
}

/// What `register_rpc` computes for one method.
pub struct RpcMethodPlan {
    /// The entry that was added to the registry.
    pub entry: RpcEntry,
    /// The arguments of the query variant on the client side: `self` for the
    /// receiver, the pattern for each typed parameter.
    pub query_args: Vec<String>,
    /// The response carries the updated receiver first.
    pub returns_self: bool,
    /// For a `#[watch]` method, the name of its wrapper function.
    pub watch_wrapper: Option<String>,
}

/// What `register_rpcs` computes for one impl block.
pub struct RpcImplPlan {
    /// Name of the module that wraps the rewritten impl block.
    pub mod_name: String,
    pub methods: Vec<RpcMethodPlan>,
}

/// One arm of the generated `RPCQuery::dispatch` match.
pub struct DispatchArm {
    pub model: String,
    pub method: String,
    pub query_variant: String,
    pub query_types: Vec<String>,
    /// Patterns that bind the variant's fields: `arg_<i>`, `mut arg_0`.
    pub query_params: Vec<String>,
    /// Arguments of the call to the model's method.
    pub call_args: Vec<String>,
    pub response_variant: String,
    pub response_types: Vec<String>,
    /// Values placed before the result in the response variant.
    pub response_self: Vec<String>,
}

/// The `(is_mut, type)` views of the registry's parameter types.
pub open spec fn query_types_view(v: Seq<(bool, String)>) -> Seq<(bool, Seq<char>)> {
    v.map_values(|t: (bool, String)| (t.0, t.1@))
}

/// The `(is_mut, type)` pair recorded for one parameter.
pub open spec fn spec_query_type(input: FnInput, self_type: Seq<char>) -> (bool, Seq<char>) {
    match input {
        FnInput::Receiver { mutable } => (mutable, self_type),
        FnInput::Typed { pat, ty } => (false, ty@),
    }
}

/// The name under which a method is dispatched: its own name, or the name of
/// its watch wrapper `__<name>_watch__`.
pub open spec fn spec_method_name(m: RpcMethod) -> Seq<char> {
    if m.is_watch {
        watch_wrapper_name(m.name@)
    } else {
        m.name@
    }
}

/// `__<name>_watch__`.
pub open spec fn watch_wrapper_name(name: Seq<char>) -> Seq<char> {
    "__"@ + name + "_watch__"@
}

/// `RPCQuery<n>`.
pub open spec fn query_variant_name(n: nat) -> Seq<char> {
    "RPCQuery"@ + decimal(n)
}

/// `RPCResponse<n>`.
pub open spec fn response_variant_name(n: nat) -> Seq<char> {
    "RPCResponse"@ + decimal(n)
}

/// The return type's text, `()` when the method declares none.
pub open spec fn spec_output(m: RpcMethod) -> Seq<char> {
    match m.output {
        Some(t) => t@,
        None => "()"@,
    }
}

/// The method's first parameter is `&mut self` (or `mut self`).
pub open spec fn first_is_mut(m: RpcMethod, self_type: Seq<char>) -> bool {
    m.inputs@.len() > 0 && spec_query_type(m.inputs@[0], self_type).0
}

/// The `(is_mut, type)` pairs recorded for a list of parameters.
pub open spec fn query_types_of(inputs: Seq<FnInput>, self_type: Seq<char>) -> Seq<(bool, Seq<char>)> {
    inputs.map_values(|i: FnInput| spec_query_type(i, self_type))
}

/// The client-side arguments for a list of parameters.
pub open spec fn query_args_of(inputs: Seq<FnInput>) -> Seq<Seq<char>> {
    inputs.map_values(|i: FnInput| spec_query_arg(i))
}

/// Two entries hold the same text and flags.
pub open spec fn same_entry(a: RpcEntry, b: RpcEntry) -> bool {
    &&& a.model_name@ == b.model_name@
    &&& a.method_name@ == b.method_name@
    &&& a.query_variant@ == b.query_variant@
    &&& query_types_view(a.query_types@) == query_types_view(b.query_types@)
    &&& a.response_variant@ == b.response_variant@
    &&& a.response_type.0 == b.response_type.0
    &&& a.response_type.1@ == b.response_type.1@
}

/// `e` is the entry registered for method `m` of `self_type` as procedure
/// number `n`.
pub open spec fn entry_describes(e: RpcEntry, self_type: Seq<char>, m: RpcMethod, n: nat) -> bool {
    &&& e.model_name@ == self_type
    &&& e.method_name@ == spec_method_name(m)
    &&& e.query_variant@ == query_variant_name(n)
    &&& query_types_view(e.query_types@) == query_types_of(m.inputs@, self_type)
    &&& e.response_variant@ == response_variant_name(n)
    &&& e.response_type.0 == first_is_mut(m, self_type)
    &&& e.response_type.1@ == spec_output(m)
}

/// The client-side argument for one parameter.
pub open spec fn spec_query_arg(input: FnInput) -> Seq<char> {
    match input {
        FnInput::Receiver { mutable } => "self"@,
        FnInput::Typed { pat, ty } => pat@,
    }
}

/// `plan` is what `register_rpc` computes for method `m` of `self_type` as
/// procedure number `n`.
pub open spec fn method_plan_describes(
    plan: RpcMethodPlan,
    self_type: Seq<char>,
    m: RpcMethod,
    n: nat,
) -> bool {
    &&& entry_describes(plan.entry, self_type, m, n)
    &&& views(plan.query_args@) == query_args_of(m.inputs@)
    &&& plan.returns_self == first_is_mut(m, self_type)
    &&& match plan.watch_wrapper {
        Some(w) => m.is_watch && w@ == watch_wrapper_name(m.name@),
        None => !m.is_watch,
    }
}

/// Entry `i` of the registry is numbered `i`.
pub open spec fn well_numbered(rpcs: Seq<RpcEntry>) -> bool {
    forall|i: int|
        0 <= i < rpcs.len() ==> {
            &&& (#[trigger] rpcs[i]).query_variant@ == query_variant_name(i as nat)
            &&& rpcs[i].response_variant@ == response_variant_name(i as nat)
        }
}

/// A string built from a literal prefix and a number.
fn numbered(prefix: &str, n: u64) -> (res: String)
    ensures
        res@ == prefix@ + decimal(n as nat),
{
    let mut s = String::from_str(prefix);
    let d = u64_to_decimal(n);
    s.append(d.as_str());
    s
}

fn query_type_of(input: &FnInput, self_type: &str) -> (res: (bool, String))
    ensures
        (res.0, res.1@) == spec_query_type(*input, self_type@),
{
    match input {
        FnInput::Receiver { mutable } => (*mutable, String::from_str(self_type)),
        FnInput::Typed { pat, ty } => (false, ty.clone()),
    }
}

fn query_arg_of(input: &FnInput) -> (res: String)
    ensures
        res@ == spec_query_arg(*input),
{
    match input {
        FnInput::Receiver { mutable } => String::from_str("self"),
        FnInput::Typed { pat, ty } => pat.clone(),
    }
}

/// The response of a procedure carries the updated receiver exactly when the
/// method's first parameter is a mutable receiver (`&mut self` or `mut
/// self`), that is exactly when its first recorded parameter is mutable; a
/// `&self` or `self` receiver, a typed first parameter or no parameter give
/// no receiver back.
pub proof fn lemma_returns_self_iff_mut_receiver(
    plan: RpcMethodPlan,
    self_type: Seq<char>,
    m: RpcMethod,
    n: nat,
)
    requires
        method_plan_describes(plan, self_type, m, n),
    ensures
        plan.returns_self == (m.inputs@.len() > 0 && (m.inputs@[0] matches FnInput::Receiver {
            mutable,
        } && mutable)),
        plan.entry.response_type.0 == plan.returns_self,
        plan.returns_self == (plan.entry.query_types@.len() > 0 && plan.entry.query_types@[0].0),
{
    let qt = query_types_view(plan.entry.query_types@);
    let qs = query_types_of(m.inputs@, self_type);
    assert(qt.len() == plan.entry.query_types@.len());
    if m.inputs@.len() > 0 {
        assert(qt[0] == qs[0]);
        assert(qt[0].0 == plan.entry.query_types@[0].0);
    }
}

/// Registers one method of an `#[rpc]` impl block for `self_type`: appends
/// its entry, numbered by the registry's length, and returns what the code
/// generator needs to rewrite the method.
pub fn register_rpc(rpcs: &mut Vec<RpcEntry>, self_type: &str, method: &RpcMethod) -> (plan:
    RpcMethodPlan)
    requires
        old(rpcs)@.len() < u64::MAX,
    ensures
        method_plan_describes(plan, self_type@, *method, old(rpcs)@.len()),
        final(rpcs)@.len() == old(rpcs)@.len() + 1,
        final(rpcs)@.take(old(rpcs)@.len() as int) == old(rpcs)@,
        same_entry(final(rpcs)@.last(), plan.entry),
        plan.returns_self == (method.inputs@.len() > 0 && (method.inputs@[0] matches FnInput::Receiver {
            mutable,
        } && mutable)),
        plan.entry.response_type.0 == plan.returns_self,
{
    let n = method.inputs.len();
    let mut query_types: Vec<(bool, String)> = Vec::new();
    let mut query_args: Vec<String> = Vec::new();
    let mut i: usize = 0;
    while i < n
        invariant
            n == method.inputs@.len(),
            i <= n,
            query_types_view(query_types@) == query_types_of(method.inputs@.take(i as int), self_type@),
            views(query_args@) == query_args_of(method.inputs@.take(i as int)),
        decreases n - i,
    {
        let t = query_type_of(&method.inputs[i], self_type);
        let a = query_arg_of(&method.inputs[i]);
        let ghost prev_t = query_types@;
        let ghost prev_a = query_args@;
        let ghost tv = (t.0, t.1@);
        let ghost av = a@;
        query_types.push(t);
        query_args.push(a);
        proof {
            let x = method.inputs@[i as int];
            assert(method.inputs@.take(i + 1) =~= method.inputs@.take(i as int).push(x));
            assert(query_types_of(method.inputs@.take(i as int).push(x), self_type@) =~= query_types_of(
                method.inputs@.take(i as int),
                self_type@,
            ).push(tv));
            assert(query_types_view(prev_t.push(query_types@.last())) =~= query_types_view(
                prev_t,
            ).push(tv));
            assert(query_types@ =~= prev_t.push(query_types@.last()));
            assert(query_args_of(method.inputs@.take(i as int).push(x)) =~= query_args_of(
                method.inputs@.take(i as int),
            ).push(av));
            assert(views(prev_a.push(query_args@.last())) =~= views(prev_a).push(av));
            assert(query_args@ =~= prev_a.push(query_args@.last()));
        }
        i = i + 1;
    }
    assert(method.inputs@.take(n as int) =~= method.inputs@);
    let rpc_nb = rpcs.len() as u64;
    let query_variant = numbered("RPCQuery", rpc_nb);
    let response_variant = numbered("RPCResponse", rpc_nb);
    let response_text = match &method.output {
        Some(t) => t.clone(),
        None => String::from_str("()"),
    };
    let self_mut = n > 0 && query_types[0].0;
    let watch_wrapper = if method.is_watch {
        let mut w = String::from_str("__");
        w.append(method.name.as_str());
        w.append("_watch__");
        Some(w)
    } else {
        None
    };
    let method_name = match &watch_wrapper {
        Some(w) => w.clone(),
        None => method.name.clone(),
    };
    let entry = RpcEntry {
        model_name: String::from_str(self_type),
        method_name,
        query_variant,
        query_types,
        response_variant,
        response_type: (self_mut, response_text),
    };
    let entry_copy = RpcEntry {
        model_name: entry.model_name.clone(),
        method_name: entry.method_name.clone(),
        query_variant: entry.query_variant.clone(),
        query_types: clone_types(&entry.query_types),
        response_variant: entry.response_variant.clone(),
        response_type: (entry.response_type.0, entry.response_type.1.clone()),
    };
    rpcs.push(entry_copy);
    proof {
        if n > 0 {
            assert(query_types_view(entry.query_types@)[0] == query_types_of(method.inputs@, self_type@)[0]);
        }
        assert(entry_describes(entry, self_type@, *method, old(rpcs)@.len()));
    }
    let plan = RpcMethodPlan { entry, query_args, returns_self: self_mut, watch_wrapper };
    proof {
        lemma_returns_self_iff_mut_receiver(plan, self_type@, *method, old(rpcs)@.len());
    }
    plan
}

fn clone_types(v: &Vec<(bool, String)>) -> (res: Vec<(bool, String)>)
    ensures
        res@ == v@,
{
    let mut res: Vec<(bool, String)> = Vec::new();
    let mut i: usize = 0;
    while i < v.len()
        invariant
            i <= v@.len(),
            res@ == v@.take(i as int),
        decreases v@.len() - i,
    {
        res.push((v[i].0, v[i].1.clone()));
        assert(res@ =~= v@.take(i + 1));
        i = i + 1;
    }
    assert(v@.take(v@.len() as int) =~= v@);
    res
}


/// `arg_<i>`, the name bound to the `i`-th field of a query variant.
pub open spec fn arg_name(i: nat) -> Seq<char> {
    "arg_"@ + decimal(i)
}

/// The pattern for the `i`-th field: `mut arg_0` when the receiver is
/// `&mut self`, `arg_<i>` otherwise.
pub open spec fn spec_query_param(e: RpcEntry, i: nat) -> Seq<char> {
    if i == 0 && e.query_types@[0].0 {
        "mut "@ + arg_name(0)
    } else {
        arg_name(i)
    }
}

/// The argument passed for the `i`-th field: the receiver by reference when
/// the first parameter has the model's type, the bound name otherwise.
pub open spec fn spec_call_arg(e: RpcEntry, i: nat) -> Seq<char> {
    if i == 0 && e.query_types@[0].1@ == e.model_name@ {
        if e.query_types@[0].0 {
            "&mut "@ + arg_name(0)
        } else {
            "&"@ + arg_name(0)
        }
    } else {
        arg_name(i)
    }
}

/// The patterns of the first `n` fields.
pub open spec fn query_params_spec(e: RpcEntry, n: nat) -> Seq<Seq<char>> {
    Seq::new(n, |j: int| spec_query_param(e, j as nat))
}

/// The arguments passed for the first `n` fields.
pub open spec fn call_args_spec(e: RpcEntry, n: nat) -> Seq<Seq<char>> {
    Seq::new(n, |j: int| spec_call_arg(e, j as nat))
}

/// The type texts of a list of `(is_mut, type)` pairs.
pub open spec fn type_texts(v: Seq<(bool, String)>) -> Seq<Seq<char>> {
    v.map_values(|t: (bool, String)| t.1@)
}

/// The extra arguments of a watch method: the request id and the client.
pub open spec fn watch_extras(e: RpcEntry) -> Seq<Seq<char>> {
    if contains_seq(e.method_name@, "_watch__"@) {
        seq!["request_id"@, "client"@]
    } else {
        Seq::empty()
    }
}

/// The fields of the response variant: the updated model first when the
/// method takes `&mut self`, then the result.
pub open spec fn spec_response_types(e: RpcEntry) -> Seq<Seq<char>> {
    if e.response_type.0 {
        seq![e.model_name@, e.response_type.1@]
    } else {
        seq![e.response_type.1@]
    }
}

/// `a` is the dispatch arm generated for entry `e`.
pub open spec fn arm_describes(a: DispatchArm, e: RpcEntry) -> bool {
    let k = e.query_types@.len();
    &&& a.model@ == e.model_name@
    &&& a.method@ == e.method_name@
    &&& a.query_variant@ == e.query_variant@
    &&& views(a.query_types@) == type_texts(e.query_types@)
    &&& views(a.query_params@) == query_params_spec(e, k)
    &&& views(a.call_args@) == call_args_spec(e, k) + watch_extras(e)
    &&& a.response_variant@ == e.response_variant@
    &&& views(a.response_types@) == spec_response_types(e)
    &&& views(a.response_self@) == (if e.response_type.0 {
        seq!["arg_0"@]
    } else {
        Seq::<Seq<char>>::empty()
    })
}

fn arg_name_of(i: usize) -> (res: String)
    ensures
        res@ == arg_name(i as nat),
{
    numbered("arg_", i as u64)
}

fn prefixed(prefix: &str, s: &String) -> (res: String)
    ensures
        res@ == prefix@ + s@,
{
    let mut r = String::from_str(prefix);
    r.append(s.as_str());
    r
}

/// Builds the dispatch arm of one registry entry.
fn dispatch_arm(e: &RpcEntry) -> (a: DispatchArm)
    ensures
        arm_describes(a, *e),
{
    let k = e.query_types.len();
    let mut query_types: Vec<String> = Vec::new();
    let mut query_params: Vec<String> = Vec::new();
    let mut call_args: Vec<String> = Vec::new();
    let mut i: usize = 0;
    while i < k
        invariant
            k == e.query_types@.len(),
            i <= k,
            views(query_types@) == type_texts(e.query_types@.take(i as int)),
            views(query_params@) == query_params_spec(*e, i as nat),
            views(call_args@) == call_args_spec(*e, i as nat),
        decreases k - i,
    {
        let name = arg_name_of(i);
        let param = if i == 0 && e.query_types[0].0 {
            prefixed("mut ", &name)
        } else {
            name.clone()
        };
        let arg = if i == 0 && e.query_types[0].1 == e.model_name {
            if e.query_types[0].0 {
                prefixed("&mut ", &name)
            } else {
                prefixed("&", &name)
            }
        } else {
            name.clone()
        };
        let ghost pt = query_types@;
        let ghost pp = query_params@;
        let ghost pc = call_args@;
        let ghost tv = e.query_types@[i as int].1@;
        let ghost pv = param@;
        let ghost av = arg@;
        query_types.push(e.query_types[i].1.clone());
        query_params.push(param);
        call_args.push(arg);
        proof {
            let x = e.query_types@[i as int];
            assert(e.query_types@.take(i + 1) =~= e.query_types@.take(i as int).push(x));
            assert(type_texts(e.query_types@.take(i as int).push(x)) =~= type_texts(
                e.query_types@.take(i as int),
            ).push(tv));
            assert(query_types@ =~= pt.push(query_types@.last()));
            assert(views(pt.push(query_types@.last())) =~= views(pt).push(tv));
            assert(query_params@ =~= pp.push(query_params@.last()));
            assert(views(pp.push(query_params@.last())) =~= views(pp).push(pv));
            assert(query_params_spec(*e, (i + 1) as nat) =~= query_params_spec(*e, i as nat).push(pv));
            assert(call_args@ =~= pc.push(call_args@.last()));
            assert(views(pc.push(call_args@.last())) =~= views(pc).push(av));
            assert(call_args_spec(*e, (i + 1) as nat) =~= call_args_spec(*e, i as nat).push(av));
        }
        i = i + 1;
    }
    assert(e.query_types@.take(k as int) =~= e.query_types@);
    let ghost base = call_args@;
    let is_watch = contains(e.method_name.as_str(), "_watch__");
    if is_watch {
        call_args.push(String::from_str("request_id"));
        call_args.push(String::from_str("client"));
    }
    proof {
        assert(views(call_args@) =~= views(base) + watch_extras(*e));
    }
    let mut response_types: Vec<String> = Vec::new();
    let mut response_self: Vec<String> = Vec::new();
    if e.response_type.0 {
        response_types.push(e.model_name.clone());
        response_self.push(String::from_str("arg_0"));
    }
    response_types.push(e.response_type.1.clone());
    proof {
        assert(views(response_types@) =~= spec_response_types(*e));
        assert(views(response_self@) =~= (if e.response_type.0 {
            seq!["arg_0"@]
        } else {
            Seq::<Seq<char>>::empty()
        }));
    }
    DispatchArm {
        model: e.model_name.clone(),
        method: e.method_name.clone(),
        query_variant: e.query_variant.clone(),
        query_types,
        query_params,
        call_args,
        response_variant: e.response_variant.clone(),
        response_types,
        response_self,
    }
}

/// Computes the `RPCQuery` and `RPCResponse` enums and the dispatch match of
/// `generate_rpc_proto!`: one arm per registry entry, in registry order.
pub fn generate_rpc_proto(rpcs: &Vec<RpcEntry>) -> (arms: Vec<DispatchArm>)
    ensures
        arms@.len() == rpcs@.len(),
        forall|i: int| 0 <= i < rpcs@.len() ==> arm_describes(#[trigger] arms@[i], rpcs@[i]),
{
    let mut arms: Vec<DispatchArm> = Vec::new();
    let mut i: usize = 0;
    while i < rpcs.len()
        invariant
            i <= rpcs@.len(),
            arms@.len() == i,
            forall|j: int| 0 <= j < i ==> arm_describes(#[trigger] arms@[j], rpcs@[j]),
        decreases rpcs@.len() - i,
    {
        arms.push(dispatch_arm(&rpcs[i]));
        i = i + 1;
    }
    arms
}

/// `__<lower-case model>_rpcs_<n>`.
pub open spec fn rpc_mod_name(self_type: Seq<char>, n: nat) -> Seq<char> {
    "__"@ + unicode_lowercase(self_type) + "_rpcs_"@ + decimal(n)
}

/// Registers every method of an `#[rpc]` impl block, in order, and names the
/// module that wraps the rewritten block after the model and the registry's
/// length once all are registered.
pub fn register_rpcs(rpcs: &mut Vec<RpcEntry>, self_type: &str, methods: &Vec<RpcMethod>) -> (plan:
    RpcImplPlan)
    requires
        old(rpcs)@.len() + methods@.len() < u64::MAX,
    ensures
        final(rpcs)@.len() == old(rpcs)@.len() + methods@.len(),
        final(rpcs)@.take(old(rpcs)@.len() as int) == old(rpcs)@,
        plan.methods@.len() == methods@.len(),
        forall|i: int|
            0 <= i < methods@.len() ==> {
                &&& method_plan_describes(
                    #[trigger] plan.methods@[i],
                    self_type@,
                    methods@[i],
                    (old(rpcs)@.len() + i) as nat,
                )
                &&& same_entry(final(rpcs)@[old(rpcs)@.len() + i], plan.methods@[i].entry)
            },
        plan.mod_name@ == rpc_mod_name(self_type@, final(rpcs)@.len()),
{
    let ghost start = rpcs@;
    let mut plans: Vec<RpcMethodPlan> = Vec::new();
    let mut i: usize = 0;
    while i < methods.len()
        invariant
            i <= methods@.len(),
            start.len() + methods@.len() < u64::MAX,
            rpcs@.len() == start.len() + i,
            rpcs@.take(start.len() as int) == start,
            plans@.len() == i,
            forall|j: int|
                0 <= j < i ==> {
                    &&& method_plan_describes(
                        #[trigger] plans@[j],
                        self_type@,
                        methods@[j],
                        (start.len() + j) as nat,
                    )
                    &&& same_entry(rpcs@[start.len() + j], plans@[j].entry)
                },
        decreases methods@.len() - i,
    {
        let ghost before = rpcs@;
        let p = register_rpc(rpcs, self_type, &methods[i]);
        proof {
            assert forall|j: int| 0 <= j < start.len() + i implies rpcs@[j] == before[j] by {
                assert(rpcs@.take(before.len() as int)[j] == before[j]);
            }
            assert(rpcs@.take(start.len() as int) =~= start) by {
                assert forall|j: int| 0 <= j < start.len() implies rpcs@[j] == start[j] by {
                    assert(before.take(start.len() as int)[j] == start[j]);
                }
            }
        }
        plans.push(p);
        i = i + 1;
    }
    let lower = to_lowercase(self_type);
    let mut mod_name = String::from_str("__");
    mod_name.append(lower.as_str());
    mod_name.append("_rpcs_");
    let count = u64_to_decimal(rpcs.len() as u64);
    mod_name.append(count.as_str());
    RpcImplPlan { mod_name, methods: plans }
}

/// Registering a procedure keeps the registry numbered by position.
pub proof fn lemma_register_keeps_numbering(
    before: Seq<RpcEntry>,
    after: Seq<RpcEntry>,
    self_type: Seq<char>,
    m: RpcMethod,
    e: RpcEntry,
)
    requires
        well_numbered(before),
        after.len() == before.len() + 1,
        after.take(before.len() as int) == before,
        same_entry(after.last(), e),
        entry_describes(e, self_type, m, before.len()),
    ensures
        well_numbered(after),
{
    assert forall|i: int| 0 <= i < after.len() implies {
        &&& (#[trigger] after[i]).query_variant@ == query_variant_name(i as nat)
        &&& after[i].response_variant@ == response_variant_name(i as nat)
    } by {
        if i < before.len() {
            assert(after.take(before.len() as int)[i] == before[i]);
        }
    }
}

/// In a registry numbered by position, no two procedures share a query
/// variant or a response variant.
pub proof fn lemma_variants_distinct(rpcs: Seq<RpcEntry>, i: int, j: int)
    requires
        well_numbered(rpcs),
        0 <= i < rpcs.len(),
        0 <= j < rpcs.len(),
        i != j,
    ensures
        rpcs[i].query_variant@ != rpcs[j].query_variant@,
        rpcs[i].response_variant@ != rpcs[j].response_variant@,
{
    let a = rpcs[i];
    let b = rpcs[j];
    if a.query_variant@ == b.query_variant@ {
        lemma_prefix_cancel("RPCQuery"@, decimal(i as nat), decimal(j as nat));
        lemma_decimal_injective(i as nat, j as nat);
    }
    if a.response_variant@ == b.response_variant@ {
        lemma_prefix_cancel("RPCResponse"@, decimal(i as nat), decimal(j as nat));
        lemma_decimal_injective(i as nat, j as nat);
    }
}

/// A method registered with `#[watch]` is dispatched with the request id and
/// the client appended to its own arguments.
pub proof fn lemma_watch_method_gets_request(
    e: RpcEntry,
    self_type: Seq<char>,
    m: RpcMethod,
    n: nat,
    a: DispatchArm,
)
    requires
        m.is_watch,
        entry_describes(e, self_type, m, n),
        arm_describes(a, e),
    ensures
        views(a.call_args@) == call_args_spec(e, e.query_types@.len()) + seq![
            "request_id"@,
            "client"@,
        ],
{
    let s = e.method_name@;
    let at: int = ("__"@.len() + m.name@.len()) as int;
    assert(s =~= "__"@ + m.name@ + "_watch__"@);
    assert(s.subrange(at, at + "_watch__"@.len() as int) =~= "_watch__"@);
    assert(occurs_at(s, "_watch__"@, at));
}

} // verus!
