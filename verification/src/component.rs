//! The `component!` macro: a type and the view it renders. The handlers the
//! view declares become the variants `Event0`, `Event1`, … of the
//! component's message type, in the order the view declares them, and the
//! update function runs handler `i` on message `Event<i>`.
use vstd::prelude::*;

use crate::html::{code_refs_view, element_collected, element_view, Code, Element};
use crate::text::{decimal, lemma_decimal_injective, lemma_prefix_cancel, to_lowercase,
    u64_to_decimal, unicode_lowercase, views};

verus! {

/// `name { html }`: the type that becomes a component, as token text, and
/// its view.
pub struct Component {
    pub name: String,
    pub html: Element,
}

/// What the code generator makes of a component.
pub struct ComponentPlan<'a> {
    /// `__component_<lower-case type>`.
    pub mod_name: String,
    /// The message variants, one per handler.
    pub variants: Vec<String>,
    /// The handlers, in the order the view declares them.
    pub events: Vec<&'a Code>,
    /// The places bound by inputs, in the order the view declares them.
    pub bindings: Vec<&'a Code>,
}

/// `Event<i>`.
pub open spec fn event_variant(i: nat) -> Seq<char> {
    "Event"@ + decimal(i)
}

/// The variants `Event0` … `Event<n-1>`.
pub open spec fn event_variants(n: nat) -> Seq<Seq<char>> {
    Seq::new(n, |i: int| event_variant(i as nat))
}

/// `__component_<lower-case type>`.
pub open spec fn component_mod_name(name: Seq<char>) -> Seq<char> {
    "__component_"@ + unicode_lowercase(name)
}

impl Component {
    /// The handlers the view declares, in order.
    pub fn collect_events(&self) -> (res: Vec<&Code>)
        ensures
            code_refs_view(res@) == element_collected(element_view(self.html), false),
    {
        self.html.collect_events()
    }

    /// The places the view binds, in order.
    pub fn collect_bindings(&self) -> (res: Vec<&Code>)
        ensures
            code_refs_view(res@) == element_collected(element_view(self.html), true),
    {
        self.html.collect_bindings()
    }
}

/// One message variant per handler: `Event0`, `Event1`, ….
pub fn msg_variants(events: &Vec<&Code>) -> (res: Vec<String>)
    requires
        events@.len() < u64::MAX,
    ensures
        views(res@) == event_variants(events@.len()),
{
    let mut res: Vec<String> = Vec::new();
    let mut i: usize = 0;
    while i < events.len()
        invariant
            i <= events@.len(),
            events@.len() < u64::MAX,
            views(res@) == event_variants(i as nat),
        decreases events@.len() - i,
    {
        let mut v = String::from_str("Event");
        let d = u64_to_decimal(i as u64);
        v.append(d.as_str());
        let ghost prev = res@;
        res.push(v);
        proof {
            assert(views(res@) =~= views(prev).push(event_variant(i as nat)));
            assert(event_variants((i + 1) as nat) =~= event_variants(i as nat).push(
                event_variant(i as nat),
            ));
        }
        i = i + 1;
    }
    res
}

/// The arms of the update match: variant `i` runs handler `i`.
pub fn generate_update_match<'a>(events: &Vec<&'a Code>, variants: &Vec<String>) -> (arms: Vec<
    (String, &'a Code),
>)
    requires
        events@.len() == variants@.len(),
    ensures
        arms@.len() == events@.len(),
        forall|i: int|
            0 <= i < arms@.len() ==> (#[trigger] arms@[i]).0@ == variants@[i]@ && arms@[i].1
                == events@[i],
{
    let mut arms: Vec<(String, &'a Code)> = Vec::new();
    let mut i: usize = 0;
    while i < events.len()
        invariant
            i <= events@.len(),
            events@.len() == variants@.len(),
            arms@.len() == i,
            forall|j: int|
                0 <= j < i ==> (#[trigger] arms@[j]).0@ == variants@[j]@ && arms@[j].1 == events@[j],
        decreases events@.len() - i,
    {
        arms.push((variants[i].clone(), events[i]));
        i = i + 1;
    }
    arms
}

/// Computes what the `component!` macro generates for a component: the
/// module name, one message variant per handler of the view, the handlers
/// and the bound places.
pub fn component(c: &Component) -> (plan: ComponentPlan)
    requires
        element_collected(element_view(c.html), false).len() < u64::MAX,
    ensures
        plan.mod_name@ == component_mod_name(c.name@),
        code_refs_view(plan.events@) == element_collected(element_view(c.html), false),
        code_refs_view(plan.bindings@) == element_collected(element_view(c.html), true),
        views(plan.variants@) == event_variants(plan.events@.len()),
{
    let lower = to_lowercase(c.name.as_str());
    let mut mod_name = String::from_str("__component_");
    mod_name.append(lower.as_str());
    let events = c.collect_events();
    let bindings = c.collect_bindings();
    let variants = msg_variants(&events);
    ComponentPlan { mod_name, variants, events, bindings }
}

/// The message variants of a component are pairwise different, so each
/// handler has a message of its own.
pub proof fn lemma_event_variants_distinct(n: nat, i: int, j: int)
    requires
        0 <= i < n,
        0 <= j < n,
        i != j,
    ensures
        event_variants(n)[i] != event_variants(n)[j],
{
    if event_variants(n)[i] == event_variants(n)[j] {
        lemma_prefix_cancel("Event"@, decimal(i as nat), decimal(j as nat));
        lemma_decimal_injective(i as nat, j as nat);
    }
}

} // verus!
