use comet::component::{component, generate_update_match, msg_variants, Component};
use comet::html::{
    class_name_of_uuid, extend_id_classes, tag_plan_with_names, AttrCode, Attribute, AttrsOrExpr, Code, Element,
    For, If, Tag, TagEvent,
};

fn s(x: &str) -> String {
    x.to_string()
}

fn src(x: &str) -> Code {
    Code::Source(s(x))
}

fn attr(name: &str, expr: &str) -> Attribute {
    Attribute { name: s(name), value: AttrsOrExpr::Expr(src(expr)) }
}

fn tag(name: &str, attrs: Vec<Attribute>, children: Vec<Element>) -> Tag {
    Tag { name: s(name), id: None, classes: vec![], attrs, children }
}

fn source_text(c: &Code) -> String {
    match c {
        Code::Source(t) => t.clone(),
        _ => panic!("not a source expression"),
    }
}

fn view() -> Element {
    // div { button click: A {} ; if c { input bind: self.x {} } else { span change: B {} } ; for i in v { b click: C {} } }
    let button = Element::Tag(tag("button", vec![attr("click", "A"), attr("style", "s")], vec![]));
    let input = Element::Tag(tag("input", vec![attr("bind", "self.x")], vec![]));
    let span = Element::Tag(tag("span", vec![attr("change", "B")], vec![Element::Into(src("text"))]));
    let cond = Element::If(If { cond: src("c"), then_: Box::new(input), else_: Some(Box::new(span)) });
    let b = Element::Tag(tag("b", vec![attr("click", "C"), attr("bind", "self.y")], vec![]));
    let looped = Element::For(For { pat: s("i"), cond: src("v"), block: Box::new(b) });
    Element::Tag(tag("div", vec![], vec![button, cond, looped]))
}

#[test]
fn events_are_collected_depth_first() {
    let v = view();
    let events: Vec<String> = v.collect_events().into_iter().map(source_text).collect();
    assert_eq!(events, vec![s("A"), s("B"), s("C")]);
    let binds: Vec<String> = v.collect_bindings().into_iter().map(source_text).collect();
    assert_eq!(binds, vec![s("self.x"), s("self.y")]);
}

#[test]
fn braced_handler_is_not_collected() {
    let a = Attribute { name: s("click"), value: AttrsOrExpr::Attrs(vec![]) };
    assert!(a.collect_events().is_empty());
    assert!(attr("bind", "v").collect_events().is_empty());
    assert_eq!(attr("bind", "v").collect_bindings().len(), 1);
}

#[test]
fn id_and_classes_are_added() {
    let mut attrs = vec![attr("href", "url")];
    extend_id_classes(&mut attrs, &Some(s("main")), &vec![s("a"), s("b")]);
    assert_eq!(attrs.len(), 3);
    assert_eq!(attrs[1].name, "id");
    assert!(matches!(&attrs[1].value, AttrsOrExpr::Expr(Code::StrLit(t)) if t == "main"));
    assert_eq!(attrs[2].name, "class");
    assert!(matches!(&attrs[2].value, AttrsOrExpr::Expr(Code::OwnedStr(t)) if t == "a b"));
}

#[test]
fn classes_prefix_an_existing_class_attribute() {
    let mut attrs = vec![attr("class", "extra"), attr("title", "t")];
    extend_id_classes(&mut attrs, &None, &vec![s("card")]);
    assert_eq!(attrs.len(), 2);
    match &attrs[0].value {
        AttrsOrExpr::Expr(Code::PrefixClasses(cs, old)) => {
            assert_eq!(cs, "card");
            assert!(matches!(&**old, AttrsOrExpr::Expr(Code::Source(t)) if t == "extra"));
        }
        _ => panic!("class attribute not prefixed"),
    }
}

#[test]
fn no_classes_leave_attributes() {
    let mut attrs = vec![attr("title", "t")];
    extend_id_classes(&mut attrs, &None, &vec![]);
    assert_eq!(attrs.len(), 1);
}

#[test]
fn tag_plan_splits_handlers_and_bindings() {
    let t = Tag {
        name: s("input"),
        id: Some(s("field")),
        classes: vec![s("wide")],
        attrs: vec![attr("click", "Go"), attr("bind", "self.name"), attr("r#type", "\"text\""), attr("change", "Ch")],
        children: vec![],
    };
    let plan = tag_plan_with_names(t, vec![s("_abc")]);
    assert_eq!(plan.name, "input");
    assert_eq!(plan.events.len(), 3);
    assert!(matches!(&plan.events[0], TagEvent::Click(a) if a.name == "click"));
    assert!(matches!(&plan.events[1], TagEvent::Input));
    assert!(matches!(&plan.events[2], TagEvent::Change(a) if a.name == "change"));
    assert_eq!(plan.binds, vec![s("_abc")]);
    let names: Vec<&str> = plan.attrs.iter().map(|a| a.name.as_str()).collect();
    assert_eq!(names, vec!["value", "type", "id", "class"]);
    assert!(matches!(&plan.attrs[3].value, AttrsOrExpr::Expr(Code::OwnedStr(t)) if t == "wide _abc"));
}

#[test]
fn tag_plan_makes_fresh_bind_classes() {
    let t = tag("input", vec![attr("bind", "self.a"), attr("bind", "self.b")], vec![]);
    let plan = t.plan();
    assert_eq!(plan.binds.len(), 2);
    assert_ne!(plan.binds[0], plan.binds[1]);
    for b in &plan.binds {
        assert_eq!(b.len(), 33);
        assert!(b.starts_with('_'));
        assert!(b[1..].chars().all(|c| c.is_ascii_digit() || ('a'..='f').contains(&c)));
    }
}

#[test]
fn uuid_class_name() {
    assert_eq!(class_name_of_uuid("67e55044-10b1-426f-9247-bb680e5fe0c8"), "_67e5504410b1426f9247bb680e5fe0c8");
}

#[test]
fn attribute_code_by_name() {
    assert!(matches!(attr("click", "M").code(), AttrCode::Event { name, .. } if name == "click"));
    assert!(matches!(attr("style", "st").code(), AttrCode::Raw { name, .. } if name == "style"));
    assert!(matches!(attr("href", "u").code(), AttrCode::Text { name, value: Code::Source(v) } if name == "href" && v == "u"));
    let style = Attribute { name: s("style"), value: AttrsOrExpr::Attrs(vec![attr("color", "red"), attr("width", "w")]) };
    match style.code() {
        AttrCode::Style { name, parts } => {
            assert_eq!(name, "style");
            let keys: Vec<&str> = parts.iter().map(|p| p.0.as_str()).collect();
            assert_eq!(keys, vec!["color", "width"]);
        }
        _ => panic!("style list not kept"),
    }
}

#[test]
fn as_expr_returns_the_expression() {
    let v = AttrsOrExpr::Expr(src("x + 1"));
    assert_eq!(source_text(v.as_expr()), "x + 1");
}

#[test]
fn component_plan_numbers_handlers() {
    let c = Component { name: s("Counter"), html: view() };
    let plan = component(&c);
    assert_eq!(plan.mod_name, "__component_counter");
    assert_eq!(plan.variants, vec![s("Event0"), s("Event1"), s("Event2")]);
    assert_eq!(plan.events.len(), 3);
    assert_eq!(plan.bindings.len(), 2);
    let arms = generate_update_match(&plan.events, &plan.variants);
    assert_eq!(arms[1].0, "Event1");
    assert_eq!(source_text(arms[1].1), "B");
}

#[test]
fn msg_variants_count() {
    let a = src("a");
    let events = vec![&a; 11];
    let v = msg_variants(&events);
    assert_eq!(v.len(), 11);
    assert_eq!(v[10], "Event10");
}

#[test]
fn attributes_the_generator_takes() {
    assert!(attr("click", "A").code_ok());
    assert!(attr("value", "x").code_ok());
    let braced_click = Attribute { name: s("click"), value: AttrsOrExpr::Attrs(vec![]) };
    assert!(braced_click.code_ok());
    let style = Attribute { name: s("style"), value: AttrsOrExpr::Attrs(vec![attr("color", "c")]) };
    assert!(style.code_ok());
    let nested = Attribute {
        name: s("style"),
        value: AttrsOrExpr::Attrs(vec![Attribute { name: s("x"), value: AttrsOrExpr::Attrs(vec![]) }]),
    };
    assert!(!nested.code_ok());
    let braced_other = Attribute { name: s("title"), value: AttrsOrExpr::Attrs(vec![attr("a", "b")]) };
    assert!(!braced_other.code_ok());
}

#[test]
fn tags_whose_handlers_are_expressions() {
    assert!(tag("button", vec![attr("click", "A"), attr("change", "B")], vec![]).events_ok());
    let braced_change = Attribute { name: s("change"), value: AttrsOrExpr::Attrs(vec![]) };
    assert!(!tag("input", vec![attr("value", "v"), braced_change], vec![]).events_ok());
    let braced_style = Attribute { name: s("style"), value: AttrsOrExpr::Attrs(vec![attr("color", "c")]) };
    assert!(tag("p", vec![braced_style], vec![]).events_ok());
}
