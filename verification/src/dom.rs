//! What `create_element` sets on a new DOM element: id, classes, the inline
//! style built from the style pairs, the event listeners, and the value of a
//! bound input.
use vstd::prelude::*;

use crate::text::{eq_str, views};

verus! {

/// What to set on a new element.
pub struct ElementPlan<Msg> {
    pub tag: String,
    pub id: Option<String>,
    pub classes: Vec<String>,
    /// The `style` attribute, when there are style pairs.
    pub style: Option<String>,
    /// The listeners: DOM event name and the message it sends.
    pub events: Vec<(String, Msg)>,
    /// For a bound `input`, the value to show; the element then also sends
    /// an empty message when it loses focus.
    pub bound_value: Option<String>,
}

/// `k: v;` for each style pair, concatenated.
pub open spec fn style_text(attrs: Seq<(String, String)>) -> Seq<char>
    decreases attrs.len(),
{
    if attrs.len() == 0 {
        Seq::empty()
    } else {
        style_text(attrs.drop_last()) + attrs.last().0@ + ": "@ + attrs.last().1@ + ";"@
    }
}

/// The inline style of a list of style pairs: `k: v;` for each pair,
/// concatenated.
pub fn style_string(attrs: &Vec<(String, String)>) -> (res: String)
    ensures
        res@ == style_text(attrs@),
{
    let mut res = String::new();
    let mut i: usize = 0;
    while i < attrs.len()
        invariant
            i <= attrs@.len(),
            res@ == style_text(attrs@.take(i as int)),
        decreases attrs@.len() - i,
    {
        res.append(attrs[i].0.as_str());
        res.append(": ");
        res.append(attrs[i].1.as_str());
        res.append(";");
        assert(attrs@.take(i + 1).drop_last() =~= attrs@.take(i as int));
        i = i + 1;
    }
    assert(attrs@.take(attrs@.len() as int) =~= attrs@);
    res
}

/// The DOM event a handler listens to: `click` handlers listen to
/// `mousedown`, the others to their own name.
pub open spec fn dom_event_name(name: Seq<char>) -> Seq<char> {
    if name == "click"@ {
        "mousedown"@
    } else {
        name
    }
}

/// The DOM event names of a list of handlers, with their messages.
pub open spec fn dom_events<Msg>(events: Seq<(String, Msg)>) -> Seq<(Seq<char>, Msg)> {
    events.map_values(|e: (String, Msg)| (dom_event_name(e.0@), e.1))
}

/// The DOM event names of a list of handlers, unchanged.
pub open spec fn plain_events<Msg>(events: Seq<(String, Msg)>) -> Seq<(Seq<char>, Msg)> {
    events.map_values(|e: (String, Msg)| (e.0@, e.1))
}

/// The optional text's view.
pub open spec fn opt_text(o: Option<String>) -> Option<Seq<char>> {
    match o {
        Some(s) => Some(s@),
        None => None,
    }
}

/// The element's style: none without pairs.
pub open spec fn spec_style(attrs: Seq<(String, String)>) -> Option<Seq<char>> {
    if attrs.len() == 0 {
        None
    } else {
        Some(style_text(attrs))
    }
}

fn rename_events<Msg>(events: Vec<(String, Msg)>, map_click: bool) -> (res: Vec<(String, Msg)>)
    ensures
        map_click ==> dom_events(res@) == plain_events(res@) && plain_events(res@) == dom_events(
            events@,
        ),
        !map_click ==> plain_events(res@) == plain_events(events@),
{
    let mut rest = events;
    let ghost orig = rest@;
    let n = rest.len();
    let mut res: Vec<(String, Msg)> = Vec::new();
    let mut i: usize = 0;
    while i < n
        invariant
            n == orig.len(),
            i <= n,
            rest@ == orig.skip(i as int),
            map_click ==> plain_events(res@) == dom_events(orig.take(i as int)),
            map_click ==> forall|j: int| 0 <= j < res@.len() ==> (#[trigger] res@[j]).0@ != "click"@,
            !map_click ==> plain_events(res@) == plain_events(orig.take(i as int)),
        decreases n - i,
    {
        let (name, msg) = rest.remove(0);
        let ghost gname = name@;
        let ghost gm = msg;
        proof {
            assert(orig[i as int] == (name, msg));
            assert(rest@ =~= orig.skip(i + 1));
            assert(orig.take(i + 1) =~= orig.take(i as int).push(orig[i as int]));
            reveal_strlit("click");
            reveal_strlit("mousedown");
            assert("mousedown"@.len() != "click"@.len());
        }
        let dom_name = if map_click && eq_str(&name, "click") {
            String::from_str("mousedown")
        } else {
            name
        };
        let ghost dn = dom_name@;
        let ghost prev = res@;
        res.push((dom_name, msg));
        proof {
            assert(plain_events(res@) =~= plain_events(prev).push((dn, gm)));
            assert(dom_events(orig.take(i + 1)) =~= dom_events(orig.take(i as int)).push(
                (dom_event_name(gname), gm),
            ));
            assert(plain_events(orig.take(i + 1)) =~= plain_events(orig.take(i as int)).push(
                (gname, gm),
            ));
        }
        i = i + 1;
    }
    assert(orig.take(n as int) =~= orig);
    if map_click {
        assert(dom_events(res@) =~= plain_events(res@));
    }
    res
}


/// `plan` sets what `create_element` sets for these arguments.
pub open spec fn plan_describes<Msg>(
    plan: ElementPlan<Msg>,
    tag: Seq<char>,
    id_name: Option<Seq<char>>,
    class_names: Seq<Seq<char>>,
    attrs: Seq<(String, String)>,
    events: Seq<(Seq<char>, Msg)>,
    bound_value: Option<Seq<char>>,
) -> bool {
    &&& plan.tag@ == tag
    &&& opt_text(plan.id) == id_name
    &&& views(plan.classes@) == class_names
    &&& opt_text(plan.style) == spec_style(attrs)
    &&& plain_events(plan.events@) == events
    &&& opt_text(plan.bound_value) == bound_value
}

/// What the client's `create_element` sets on a new element: the id, the
/// classes, the style when there are style pairs, one listener per handler
/// (`click` handlers on `mousedown`), and, for an `input`, the bound value.
pub fn create_element<Msg>(
    tag: &str,
    id_name: Option<String>,
    class_names: Vec<String>,
    attrs: &Vec<(String, String)>,
    events: Vec<(String, Msg)>,
    binding: Option<String>,
) -> (plan: ElementPlan<Msg>)
    ensures
        plan_describes(
            plan,
            tag@,
            opt_text(id_name),
            views(class_names@),
            attrs@,
            dom_events(events@),
            if tag@ == "input"@ {
                opt_text(binding)
            } else {
                None
            },
        ),
{
    let style = if attrs.len() == 0 {
        None
    } else {
        Some(style_string(attrs))
    };
    let events = rename_events(events, true);
    let tag_string = String::from_str(tag);
    let bound_value = if eq_str(&tag_string, "input") {
        binding
    } else {
        None
    };
    ElementPlan { tag: tag_string, id: id_name, classes: class_names, style, events, bound_value }
}

/// What the first `create_element` of the framework's core sets on a new
/// element: the id, the classes, the style when there are style pairs, and
/// one listener per handler under the handler's own name.
pub fn create_element_core<Msg>(
    tag: &str,
    id_name: Option<String>,
    class_names: Vec<String>,
    attrs: &Vec<(String, String)>,
    events: Vec<(String, Msg)>,
) -> (plan: ElementPlan<Msg>)
    ensures
        plan_describes(
            plan,
            tag@,
            opt_text(id_name),
            views(class_names@),
            attrs@,
            plain_events(events@),
            None,
        ),
{
    let style = if attrs.len() == 0 {
        None
    } else {
        Some(style_string(attrs))
    };
    let events = rename_events(events, false);
    ElementPlan {
        tag: String::from_str(tag),
        id: id_name,
        classes: class_names,
        style,
        events,
        bound_value: None,
    }
}

} // verus!
