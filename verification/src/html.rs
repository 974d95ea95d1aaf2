//! The tree that the `html!` and `component!` macros parse, and what the code
//! generator computes from it: the event handlers and input bindings that a
//! view declares, the attribute list of each tag, and the code of each
//! attribute.
use vstd::prelude::*;

use crate::text::{eq_str, join, join_seq, other_than, push_char, remove_char, views, without_char};

verus! {

/// An expression of the generated code.
pub enum Code {
    /// An expression written in the macro input, as token text.
    Source(String),
    /// A string literal with this content.
    StrLit(String),
    /// `"<text>".to_string()`.
    OwnedStr(String),
    /// `format!("{} {}", "<classes>", <value>)`, the value rendered as an
    /// attribute value.
    PrefixClasses(String, Box<AttrsOrExpr>),
}

/// The value of an attribute: a braced list of attributes, or an expression.
pub enum AttrsOrExpr {
    Attrs(Vec<Attribute>),
    Expr(Code),
}

/// `name: value`.
pub struct Attribute {
    pub name: String,
    pub value: AttrsOrExpr,
}

/// One node of a view.
pub enum Element {
    Tag(Tag),
    /// An expression turned into a node.
    Into(Code),
    If(If),
    For(For),
}

/// `name #id .class* attr* { children }`.
pub struct Tag {
    pub name: String,
    pub id: Option<String>,
    pub classes: Vec<String>,
    pub attrs: Vec<Attribute>,
    pub children: Vec<Element>,
}

/// `if cond { then_ } else { else_ }`.
pub struct If {
    pub cond: Code,
    pub then_: Box<Element>,
    pub else_: Option<Box<Element>>,
}

/// `for pat in cond { block }`.
pub struct For {
    pub pat: String,
    pub cond: Code,
    pub block: Box<Element>,
}

/// The mathematical form of a [`Code`].
pub enum CodeV {
    Source(Seq<char>),
    StrLit(Seq<char>),
    OwnedStr(Seq<char>),
    PrefixClasses(Seq<char>, Box<ValueV>),
}

/// The mathematical form of an [`AttrsOrExpr`].
pub enum ValueV {
    Attrs(Seq<AttributeV>),
    Expr(CodeV),
}

/// The mathematical form of an [`Attribute`].
pub struct AttributeV {
    pub name: Seq<char>,
    pub value: ValueV,
}

/// The mathematical form of an [`Element`].
pub enum ElementV {
    Tag(TagV),
    Into(CodeV),
    If(IfV),
    For(ForV),
}

/// The mathematical form of a [`Tag`].
pub struct TagV {
    pub name: Seq<char>,
    pub id: Option<Seq<char>>,
    pub classes: Seq<Seq<char>>,
    pub attrs: Seq<AttributeV>,
    pub children: Seq<ElementV>,
}

/// The mathematical form of an [`If`].
pub struct IfV {
    pub cond: CodeV,
    pub then_: Box<ElementV>,
    pub else_: Option<Box<ElementV>>,
}

/// The mathematical form of a [`For`].
pub struct ForV {
    pub pat: Seq<char>,
    pub cond: CodeV,
    pub block: Box<ElementV>,
}

pub open spec fn code_view(c: Code) -> CodeV
    decreases c,
{
    match c {
        Code::Source(s) => CodeV::Source(s@),
        Code::StrLit(s) => CodeV::StrLit(s@),
        Code::OwnedStr(s) => CodeV::OwnedStr(s@),
        Code::PrefixClasses(s, v) => CodeV::PrefixClasses(s@, Box::new(value_view(*v))),
    }
}

pub open spec fn value_view(v: AttrsOrExpr) -> ValueV
    decreases v,
{
    match v {
        AttrsOrExpr::Attrs(a) => ValueV::Attrs(attrs_view(a@)),
        AttrsOrExpr::Expr(e) => ValueV::Expr(code_view(e)),
    }
}

pub open spec fn attr_view(a: Attribute) -> AttributeV
    decreases a,
{
    AttributeV { name: a.name@, value: value_view(a.value) }
}

pub open spec fn attrs_view(s: Seq<Attribute>) -> Seq<AttributeV>
    decreases s,
{
    if s.len() == 0 {
        Seq::empty()
    } else {
        attrs_view(s.drop_last()).push(attr_view(s.last()))
    }
}

pub open spec fn element_view(e: Element) -> ElementV
    decreases e,
{
    match e {
        Element::Tag(t) => ElementV::Tag(tag_view(t)),
        Element::Into(c) => ElementV::Into(code_view(c)),
        Element::If(i) => ElementV::If(
            IfV {
                cond: code_view(i.cond),
                then_: Box::new(element_view(*i.then_)),
                else_: match i.else_ {
                    Some(b) => Some(Box::new(element_view(*b))),
                    None => None,
                },
            },
        ),
        Element::For(f) => ElementV::For(
            ForV { pat: f.pat@, cond: code_view(f.cond), block: Box::new(element_view(*f.block)) },
        ),
    }
}

pub open spec fn tag_view(t: Tag) -> TagV
    decreases t,
{
    TagV {
        name: t.name@,
        id: match t.id {
            Some(i) => Some(i@),
            None => None,
        },
        classes: views(t.classes@),
        attrs: attrs_view(t.attrs@),
        children: elements_view(t.children@),
    }
}

pub open spec fn elements_view(s: Seq<Element>) -> Seq<ElementV>
    decreases s,
{
    if s.len() == 0 {
        Seq::empty()
    } else {
        elements_view(s.drop_last()).push(element_view(s.last()))
    }
}

/// The views of a list of borrowed expressions.
pub open spec fn code_refs_view(s: Seq<&Code>) -> Seq<CodeV> {
    s.map_values(|c: &Code| code_view(*c))
}

impl View for Code {
    type V = CodeV;

    open spec fn view(&self) -> CodeV {
        code_view(*self)
    }
}

impl View for AttrsOrExpr {
    type V = ValueV;

    open spec fn view(&self) -> ValueV {
        value_view(*self)
    }
}

impl View for Attribute {
    type V = AttributeV;

    open spec fn view(&self) -> AttributeV {
        attr_view(*self)
    }
}

impl View for Element {
    type V = ElementV;

    open spec fn view(&self) -> ElementV {
        element_view(*self)
    }
}

impl View for Tag {
    type V = TagV;

    open spec fn view(&self) -> TagV {
        tag_view(*self)
    }
}

/// An attribute that declares an event handler: `click` or `change`.
pub open spec fn is_event_name(n: Seq<char>) -> bool {
    n == "click"@ || n == "change"@
}

/// What one attribute contributes: with `bind == false`, the handler of a
/// `click` or `change` attribute; with `bind == true`, the place bound by a
/// `bind` attribute. Only expression values count.
pub open spec fn attr_collected(a: AttributeV, bind: bool) -> Seq<CodeV> {
    let selected = if bind {
        a.name == "bind"@
    } else {
        is_event_name(a.name)
    };
    if selected {
        match a.value {
            ValueV::Expr(e) => seq![e],
            ValueV::Attrs(_) => Seq::empty(),
        }
    } else {
        Seq::empty()
    }
}

/// What a list of attributes contributes, in order.
pub open spec fn attrs_collected(s: Seq<AttributeV>, bind: bool) -> Seq<CodeV>
    decreases s.len(),
{
    if s.len() == 0 {
        Seq::empty()
    } else {
        attrs_collected(s.drop_last(), bind) + attr_collected(s.last(), bind)
    }
}

/// What a view declares, depth first: a tag's own attributes before its
/// children, the `then_` branch of an `if` before its `else` branch, the body
/// of a `for` once. Expressions turned into nodes declare nothing.
pub open spec fn element_collected(e: ElementV, bind: bool) -> Seq<CodeV>
    decreases e,
{
    match e {
        ElementV::Tag(t) => tag_collected(t, bind),
        ElementV::Into(_) => Seq::empty(),
        ElementV::If(i) => element_collected(*i.then_, bind) + match i.else_ {
            Some(b) => element_collected(*b, bind),
            None => Seq::empty(),
        },
        ElementV::For(f) => element_collected(*f.block, bind),
    }
}

/// What a tag declares: its attributes, then its children.
pub open spec fn tag_collected(t: TagV, bind: bool) -> Seq<CodeV>
    decreases t,
{
    attrs_collected(t.attrs, bind) + elements_collected(t.children, bind)
}

/// What a list of nodes declares, in order.
pub open spec fn elements_collected(s: Seq<ElementV>, bind: bool) -> Seq<CodeV>
    decreases s,
{
    if s.len() == 0 {
        Seq::empty()
    } else {
        elements_collected(s.drop_last(), bind) + element_collected(s.last(), bind)
    }
}


impl AttrsOrExpr {
    /// The expression of an expression value.
    pub fn as_expr(&self) -> (res: &Code)
        requires
            self is Expr,
        ensures
            *self == AttrsOrExpr::Expr(*res),
    {
        match self {
            AttrsOrExpr::Expr(expr) => expr,
            AttrsOrExpr::Attrs(_) => vstd::pervasive::unreached(),
        }
    }
}

impl Attribute {
    fn collect(&self, bind: bool) -> (res: Vec<&Code>)
        ensures
            code_refs_view(res@) == attr_collected(self@, bind),
    {
        let selected = if bind {
            eq_str(&self.name, "bind")
        } else {
            eq_str(&self.name, "click") || eq_str(&self.name, "change")
        };
        let mut res: Vec<&Code> = Vec::new();
        if selected {
            if let AttrsOrExpr::Expr(expr) = &self.value {
                res.push(expr);
            }
        }
        assert(code_refs_view(res@) =~= attr_collected(self@, bind));
        res
    }

    /// The handler this attribute declares: its expression when it is a
    /// `click` or `change` attribute.
    pub fn collect_events(&self) -> (res: Vec<&Code>)
        ensures
            code_refs_view(res@) == attr_collected(self@, false),
    {
        self.collect(false)
    }

    /// The place this attribute binds: its expression when it is a `bind`
    /// attribute.
    pub fn collect_bindings(&self) -> (res: Vec<&Code>)
        ensures
            code_refs_view(res@) == attr_collected(self@, true),
    {
        self.collect(true)
    }
}

/// Appends `b` to `a`, keeping the views in step.
fn append_refs<'a>(a: &mut Vec<&'a Code>, b: Vec<&'a Code>)
    ensures
        code_refs_view(final(a)@) == code_refs_view(old(a)@) + code_refs_view(b@),
{
    let mut b = b;
    let ghost bv = b@;
    a.append(&mut b);
    assert(code_refs_view(a@) =~= code_refs_view(old(a)@) + code_refs_view(bv));
}

impl Tag {
    fn collect(&self, bind: bool) -> (res: Vec<&Code>)
        ensures
            code_refs_view(res@) == tag_collected(self@, bind),
        decreases *self,
    {
        let mut res: Vec<&Code> = Vec::new();
        let mut i: usize = 0;
        while i < self.attrs.len()
            invariant
                i <= self.attrs@.len(),
                code_refs_view(res@) == attrs_collected(attrs_view(self.attrs@.take(i as int)), bind),
            decreases self.attrs@.len() - i,
        {
            let part = self.attrs[i].collect(bind);
            append_refs(&mut res, part);
            proof {
                let t = self.attrs@.take(i + 1);
                assert(t.drop_last() =~= self.attrs@.take(i as int));
                assert(attrs_view(t) == attrs_view(t.drop_last()).push(attr_view(t.last())));
                let v = attrs_view(t);
                assert(v.drop_last() =~= attrs_view(t.drop_last()));
            }
            i = i + 1;
        }
        assert(self.attrs@.take(self.attrs@.len() as int) =~= self.attrs@);
        let ghost attrs_part = code_refs_view(res@);
        let mut j: usize = 0;
        let mut kids: Vec<&Code> = Vec::new();
        while j < self.children.len()
            invariant
                j <= self.children@.len(),
                code_refs_view(kids@) == elements_collected(
                    elements_view(self.children@.take(j as int)),
                    bind,
                ),
            decreases self.children@.len() - j,
        {
            proof {
                broadcast use vstd::std_specs::vec::axiom_vec_decreases_to_view;

                assert(decreases_to!(self.children => self.children@));
                assert(decreases_to!(self.children@ => self.children@[j as int]));
            }
            let part = self.children[j].collect(bind);
            append_refs(&mut kids, part);
            proof {
                let t = self.children@.take(j + 1);
                assert(t.drop_last() =~= self.children@.take(j as int));
                assert(elements_view(t) == elements_view(t.drop_last()).push(element_view(t.last())));
                let v = elements_view(t);
                assert(v.drop_last() =~= elements_view(t.drop_last()));
            }
            j = j + 1;
        }
        assert(self.children@.take(self.children@.len() as int) =~= self.children@);
        append_refs(&mut res, kids);
        res
    }

    /// The handlers this tag and everything inside it declare, in order.
    pub fn collect_events(&self) -> (res: Vec<&Code>)
        ensures
            code_refs_view(res@) == tag_collected(self@, false),
    {
        self.collect(false)
    }

    /// The places this tag and everything inside it bind, in order.
    pub fn collect_bindings(&self) -> (res: Vec<&Code>)
        ensures
            code_refs_view(res@) == tag_collected(self@, true),
    {
        self.collect(true)
    }
}

impl Element {
    fn collect(&self, bind: bool) -> (res: Vec<&Code>)
        ensures
            code_refs_view(res@) == element_collected(self@, bind),
        decreases *self,
    {
        match self {
            Element::Tag(tag) => {
                proof {
                    assert(decreases_to!(*self => (*self)->Tag_0));
                }
                tag.collect(bind)
            },
            Element::Into(_) => {
                let res: Vec<&Code> = Vec::new();
                assert(code_refs_view(res@) =~= Seq::<CodeV>::empty());
                res
            },
            Element::If(expr_if) => {
                proof {
                    assert(decreases_to!(*self => (*self)->If_0));
                }
                expr_if.collect(bind)
            },
            Element::For(expr_for) => {
                proof {
                    assert(decreases_to!(*self => (*self)->For_0));
                }
                expr_for.collect(bind)
            },
        }
    }

    /// The handlers this node and everything inside it declare, in order.
    pub fn collect_events(&self) -> (res: Vec<&Code>)
        ensures
            code_refs_view(res@) == element_collected(self@, false),
    {
        self.collect(false)
    }

    /// The places this node and everything inside it bind, in order.
    pub fn collect_bindings(&self) -> (res: Vec<&Code>)
        ensures
            code_refs_view(res@) == element_collected(self@, true),
    {
        self.collect(true)
    }
}

/// The mathematical form of an [`If`].
pub open spec fn if_view(i: If) -> IfV {
    match element_view(Element::If(i)) {
        ElementV::If(v) => v,
        _ => arbitrary(),
    }
}

/// The mathematical form of a [`For`].
pub open spec fn for_view(f: For) -> ForV {
    match element_view(Element::For(f)) {
        ElementV::For(v) => v,
        _ => arbitrary(),
    }
}

impl If {
    fn collect(&self, bind: bool) -> (res: Vec<&Code>)
        ensures
            code_refs_view(res@) == element_collected(element_view(Element::If(*self)), bind),
        decreases *self,
    {
        let mut res = self.then_.collect(bind);
        let ghost e = element_view(Element::If(*self));
        match &self.else_ {
            Some(else_) => {
                let part = else_.collect(bind);
                append_refs(&mut res, part);
            },
            None => {
                assert(code_refs_view(res@) =~= code_refs_view(res@) + Seq::<CodeV>::empty());
            },
        }
        res
    }

    /// The handlers both branches declare, `then_` first.
    pub fn collect_events(&self) -> (res: Vec<&Code>)
        ensures
            code_refs_view(res@) == element_collected(element_view(Element::If(*self)), false),
    {
        self.collect(false)
    }

    /// The places both branches bind, `then_` first.
    pub fn collect_bindings(&self) -> (res: Vec<&Code>)
        ensures
            code_refs_view(res@) == element_collected(element_view(Element::If(*self)), true),
    {
        self.collect(true)
    }
}

impl For {
    fn collect(&self, bind: bool) -> (res: Vec<&Code>)
        ensures
            code_refs_view(res@) == element_collected(element_view(Element::For(*self)), bind),
        decreases *self,
    {
        self.block.collect(bind)
    }

    /// The handlers the body declares.
    pub fn collect_events(&self) -> (res: Vec<&Code>)
        ensures
            code_refs_view(res@) == element_collected(element_view(Element::For(*self)), false),
    {
        self.collect(false)
    }

    /// The places the body binds.
    pub fn collect_bindings(&self) -> (res: Vec<&Code>)
        ensures
            code_refs_view(res@) == element_collected(element_view(Element::For(*self)), true),
    {
        self.collect(true)
    }
}


/// Viewing a list with one more attribute appends that attribute's view.
pub proof fn lemma_attrs_view_push(s: Seq<Attribute>, a: Attribute)
    ensures
        attrs_view(s.push(a)) == attrs_view(s).push(attr_view(a)),
{
    assert(s.push(a).drop_last() =~= s);
}

/// The optional id's text.
pub open spec fn opt_view(o: Option<String>) -> Option<Seq<char>> {
    match o {
        Some(s) => Some(s@),
        None => None,
    }
}

/// Some attribute of the list is named `class`.
pub open spec fn has_class_attr(s: Seq<AttributeV>) -> bool {
    exists|i: int| 0 <= i < s.len() && (#[trigger] s[i]).name == "class"@
}

/// Each `class` attribute of the list has its value prefixed with the class
/// names: `format!("{} {}", "<classes>", <old value>)`.
pub open spec fn prefix_class_attrs(s: Seq<AttributeV>, classes: Seq<char>) -> Seq<AttributeV>
    decreases s.len(),
{
    if s.len() == 0 {
        Seq::empty()
    } else {
        let a = s.last();
        let b = if a.name == "class"@ {
            AttributeV {
                name: a.name,
                value: ValueV::Expr(CodeV::PrefixClasses(classes, Box::new(a.value))),
            }
        } else {
            a
        };
        prefix_class_attrs(s.drop_last(), classes).push(b)
    }
}

/// The attributes after `extend_id_classes`: an `id` attribute holding the
/// id as a string literal is appended when there is an id; then, when there
/// are classes, their names joined by spaces prefix every `class`
/// attribute, or form a new `class` attribute appended when there is none.
pub open spec fn spec_extend_id_classes(
    attrs: Seq<AttributeV>,
    id: Option<Seq<char>>,
    classes: Seq<Seq<char>>,
) -> Seq<AttributeV> {
    let with_id = match id {
        Some(i) => attrs.push(AttributeV { name: "id"@, value: ValueV::Expr(CodeV::StrLit(i)) }),
        None => attrs,
    };
    if classes.len() == 0 {
        with_id
    } else {
        let cs = join_seq(classes, " "@);
        let prefixed = prefix_class_attrs(with_id, cs);
        if has_class_attr(with_id) {
            prefixed
        } else {
            prefixed.push(AttributeV { name: "class"@, value: ValueV::Expr(CodeV::OwnedStr(cs)) })
        }
    }
}

/// The attribute that a tag's `#id` becomes: `id` with the id as a string
/// literal.
pub open spec fn id_attribute(i: Seq<char>) -> AttributeV {
    AttributeV { name: "id"@, value: ValueV::Expr(CodeV::StrLit(i)) }
}

/// Prefixing the classes leaves every attribute not named `class` where it
/// was.
pub proof fn lemma_prefix_keeps_others(s: Seq<AttributeV>, classes: Seq<char>)
    ensures
        prefix_class_attrs(s, classes).len() == s.len(),
        forall|i: int|
            0 <= i < s.len() && s[i].name != "class"@ ==> #[trigger] prefix_class_attrs(s, classes)[i]
                == s[i],
    decreases s.len(),
{
    if s.len() > 0 {
        lemma_prefix_keeps_others(s.drop_last(), classes);
        assert forall|i: int|
            0 <= i < s.len() && s[i].name != "class"@ implies #[trigger] prefix_class_attrs(
            s,
            classes,
        )[i] == s[i] by {
            if i < s.len() - 1 {
                assert(s.drop_last()[i] == s[i]);
            }
        }
    }
}

/// A tag's `#id` always becomes an `id` attribute holding the id as a
/// string literal, whether or not the tag has classes; a tag without
/// classes keeps its attributes and gains that `id` attribute last (or
/// keeps them unchanged without an id).
pub proof fn lemma_id_attribute_added(attrs: Seq<AttributeV>, id: Option<Seq<char>>, classes: Seq<Seq<char>>)
    ensures
        id matches Some(i) ==> spec_extend_id_classes(attrs, id, classes).contains(id_attribute(i)),
        classes.len() == 0 ==> spec_extend_id_classes(attrs, id, classes) == match id {
            Some(i) => attrs.push(id_attribute(i)),
            None => attrs,
        },
{
    reveal_strlit("id");
    reveal_strlit("class");
    if let Some(i) = id {
        let with_id = attrs.push(id_attribute(i));
        let k = attrs.len() as int;
        assert(with_id[k] == id_attribute(i));
        assert("id"@ != "class"@) by {
            assert("id"@.len() != "class"@.len());
        }
        if classes.len() > 0 {
            let cs = join_seq(classes, " "@);
            lemma_prefix_keeps_others(with_id, cs);
            let prefixed = prefix_class_attrs(with_id, cs);
            assert(prefixed[k] == id_attribute(i));
            if has_class_attr(with_id) {
                assert(spec_extend_id_classes(attrs, id, classes) == prefixed);
            } else {
                let r = prefixed.push(
                    AttributeV { name: "class"@, value: ValueV::Expr(CodeV::OwnedStr(cs)) },
                );
                assert(r[k] == id_attribute(i));
            }
        } else {
            assert(spec_extend_id_classes(attrs, id, classes)[k] == id_attribute(i));
        }
    }
}

/// Adds the id and the classes written in a tag's head to its attributes.
pub fn extend_id_classes(attrs: &mut Vec<Attribute>, id: &Option<String>, classes: &Vec<String>)
    ensures
        attrs_view(final(attrs)@) == spec_extend_id_classes(
            attrs_view(old(attrs)@),
            opt_view(*id),
            views(classes@),
        ),
        id matches Some(i) ==> attrs_view(final(attrs)@).contains(id_attribute(i@)),
        classes@.len() == 0 ==> attrs_view(final(attrs)@) == match id {
            Some(i) => attrs_view(old(attrs)@).push(id_attribute(i@)),
            None => attrs_view(old(attrs)@),
        },
{
    proof {
        lemma_id_attribute_added(attrs_view(attrs@), opt_view(*id), views(classes@));
    }
    if let Some(id) = id {
        let ghost before = attrs@;
        attrs.push(
            Attribute {
                name: String::from_str("id"),
                value: AttrsOrExpr::Expr(Code::StrLit(id.clone())),
            },
        );
        proof {
            lemma_attrs_view_push(before, attrs@.last());
            assert(attrs@ =~= before.push(attrs@.last()));
        }
    }
    let ghost with_id = attrs_view(attrs@);
    if classes.len() == 0 {
        return;
    }
    let classes_str = join(classes, " ");
    let mut rest: Vec<Attribute> = Vec::new();
    std::mem::swap(attrs, &mut rest);
    let ghost orig = rest@;
    let n = rest.len();
    let mut found = false;
    let mut i: usize = 0;
    while i < n
        invariant
            n == orig.len(),
            i <= n,
            rest@ == orig.skip(i as int),
            attrs_view(orig) == with_id,
            attrs_view(attrs@) == prefix_class_attrs(attrs_view(orig.take(i as int)), classes_str@),
            found == has_class_attr(attrs_view(orig.take(i as int))),
        decreases n - i,
    {
        let a = rest.remove(0);
        let is_class = eq_str(&a.name, "class");
        let ghost av = attr_view(a);
        let b = if is_class {
            Attribute {
                name: a.name,
                value: AttrsOrExpr::Expr(Code::PrefixClasses(classes_str.clone(), Box::new(a.value))),
            }
        } else {
            a
        };
        let ghost before = attrs@;
        attrs.push(b);
        let ghost old_found = found;
        found = found || is_class;
        proof {
            let t = orig.take(i + 1);
            assert(t =~= orig.take(i as int).push(orig[i as int]));
            assert(orig[i as int] == a);
            lemma_attrs_view_push(orig.take(i as int), a);
            lemma_attrs_view_push(before, b);
            assert(attrs@ =~= before.push(b));
            let tv = attrs_view(t);
            assert(tv.drop_last() =~= attrs_view(orig.take(i as int)));
            assert(tv.last() == av);
            if is_class {
                assert(attr_view(b) == AttributeV {
                    name: av.name,
                    value: ValueV::Expr(CodeV::PrefixClasses(classes_str@, Box::new(av.value))),
                });
            }
            assert(rest@ =~= orig.skip(i + 1));
            if has_class_attr(tv) {
                let k = choose|k: int| 0 <= k < tv.len() && (#[trigger] tv[k]).name == "class"@;
                if k < tv.len() - 1 {
                    assert(tv.drop_last()[k] == tv[k]);
                }
            }
            if old_found {
                let k = choose|k: int|
                    0 <= k < tv.drop_last().len() && (#[trigger] tv.drop_last()[k]).name == "class"@;
                assert(tv[k] == tv.drop_last()[k]);
            }
            if is_class {
                assert(tv[tv.len() - 1].name == "class"@);
            }
        }
        i = i + 1;
    }
    assert(orig.take(n as int) =~= orig);
    if !found {
        let ghost before = attrs@;
        attrs.push(
            Attribute {
                name: String::from_str("class"),
                value: AttrsOrExpr::Expr(Code::OwnedStr(classes_str)),
            },
        );
        proof {
            lemma_attrs_view_push(before, attrs@.last());
            assert(attrs@ =~= before.push(attrs@.last()));
        }
    }
}


/// A handler that a tag installs.
pub enum TagEvent {
    /// A `click` attribute, rendered as an attribute.
    Click(Attribute),
    /// A `change` attribute, rendered as an attribute.
    Change(Attribute),
    /// The input listener of a `bind` attribute.
    Input,
}

/// The mathematical form of a [`TagEvent`].
pub enum TagEventV {
    Click(AttributeV),
    Change(AttributeV),
    Input,
}

pub open spec fn tag_event_view(e: TagEvent) -> TagEventV {
    match e {
        TagEvent::Click(a) => TagEventV::Click(attr_view(a)),
        TagEvent::Change(a) => TagEventV::Change(attr_view(a)),
        TagEvent::Input => TagEventV::Input,
    }
}

pub open spec fn tag_events_view(s: Seq<TagEvent>) -> Seq<TagEventV> {
    s.map_values(|e: TagEvent| tag_event_view(e))
}

/// What the code generator makes of a tag.
pub struct TagPlan {
    pub name: String,
    /// The handlers, in attribute order.
    pub events: Vec<TagEvent>,
    /// The attributes of the element.
    pub attrs: Vec<Attribute>,
    /// The class names that mark the bound inputs.
    pub binds: Vec<String>,
    pub children: Vec<Element>,
}

/// The handlers, plain attributes and bound class names of a list of
/// attributes, given the class names to use for its `bind` attributes in
/// order: `click` and `change` become handlers; `bind` becomes an input
/// handler, a `value` attribute and the next class name; `r#type` is renamed
/// `type`; the rest stay.
pub open spec fn split_attrs(attrs: Seq<AttributeV>, names: Seq<Seq<char>>) -> (Seq<TagEventV>, Seq<AttributeV>, Seq<Seq<char>>)
    decreases attrs.len(),
{
    if attrs.len() == 0 {
        (Seq::empty(), Seq::empty(), Seq::empty())
    } else {
        let (events, plain, binds) = split_attrs(attrs.drop_last(), names);
        let a = attrs.last();
        if a.name == "click"@ {
            (events.push(TagEventV::Click(a)), plain, binds)
        } else if a.name == "change"@ {
            (events.push(TagEventV::Change(a)), plain, binds)
        } else if a.name == "bind"@ {
            (
                events.push(TagEventV::Input),
                plain.push(AttributeV { name: "value"@, value: a.value }),
                binds.push(names[binds.len() as int]),
            )
        } else if a.name == "r#type"@ {
            (events, plain.push(AttributeV { name: "type"@, value: a.value }), binds)
        } else {
            (events, plain.push(a), binds)
        }
    }
}

/// The number of `bind` attributes.
pub open spec fn bind_count(attrs: Seq<AttributeV>) -> nat
    decreases attrs.len(),
{
    if attrs.len() == 0 {
        0
    } else {
        bind_count(attrs.drop_last()) + if attrs.last().name == "bind"@ {
            1nat
        } else {
            0nat
        }
    }
}

/// Every `click` and `change` attribute has an expression value (the code
/// generator rejects a braced list there).
pub open spec fn events_are_exprs(attrs: Seq<AttributeV>) -> bool {
    forall|i: int|
        0 <= i < attrs.len() && is_event_name((#[trigger] attrs[i]).name) ==> attrs[i].value is Expr
}

/// `plan` is what the code generator makes of `tag`, with `names` as the
/// class names of its `bind` attributes.
pub open spec fn tag_plan_describes(plan: TagPlan, tag: TagV, names: Seq<Seq<char>>) -> bool {
    let (events, plain, binds) = split_attrs(tag.attrs, names);
    &&& plan.name@ == tag.name
    &&& tag_events_view(plan.events@) == events
    &&& views(plan.binds@) == binds
    &&& attrs_view(plan.attrs@) == spec_extend_id_classes(plain, tag.id, tag.classes + binds)
    &&& elements_view(plan.children@) == tag.children
}

/// The split uses the first class names, one per `bind` attribute, in order.
pub proof fn lemma_split_binds(attrs: Seq<AttributeV>, names: Seq<Seq<char>>)
    requires
        bind_count(attrs) <= names.len(),
    ensures
        split_attrs(attrs, names).2.len() == bind_count(attrs),
        split_attrs(attrs, names).2 == names.take(bind_count(attrs) as int),
    decreases attrs.len(),
{
    reveal_strlit("click");
    reveal_strlit("change");
    reveal_strlit("bind");
    reveal_strlit("r#type");
    if attrs.len() > 0 {
        assert(bind_count(attrs.drop_last()) <= bind_count(attrs));
        lemma_split_binds(attrs.drop_last(), names);
        let r = split_attrs(attrs.drop_last(), names);
        let a = attrs.last();
        let x = split_attrs(attrs, names);
        assert(bind_count(attrs) == bind_count(attrs.drop_last()) + (if a.name == "bind"@ {
            1nat
        } else {
            0nat
        }));
        if a.name == "click"@ {
            assert(x.2 == r.2);
        } else if a.name == "change"@ {
            assert(x.2 == r.2);
        } else if a.name == "bind"@ {
            assert(x.2 == r.2.push(names[r.2.len() as int]));
            assert(names.take(r.2.len() as int + 1) =~= names.take(r.2.len() as int).push(
                names[r.2.len() as int],
            ));
        } else {
            assert(x.2 == r.2);
        }
        assert("click"@.len() != "bind"@.len());
        assert("change"@.len() != "bind"@.len());
        assert(x.2.len() == r.2.len() + (if a.name == "bind"@ {
            1nat
        } else {
            0nat
        }));
    }
}

/// Computes the element of a tag, using `bind_names` in order as the class
/// names of its `bind` attributes.
pub fn tag_plan_with_names(tag: Tag, bind_names: Vec<String>) -> (plan: TagPlan)
    requires
        events_are_exprs(attrs_view(tag.attrs@)),
        bind_names@.len() == bind_count(attrs_view(tag.attrs@)),
    ensures
        tag_plan_describes(plan, tag_view(tag), views(bind_names@)),
{
    let ghost tv = tag_view(tag);
    let ghost names = views(bind_names@);
    let Tag { name, id, classes, attrs, children } = tag;
    let mut classes = classes;
    let mut rest = attrs;
    let ghost orig = rest@;
    let n = rest.len();
    let mut events: Vec<TagEvent> = Vec::new();
    let mut plain: Vec<Attribute> = Vec::new();
    let mut binds: Vec<String> = Vec::new();
    let mut i: usize = 0;
    let ghost orig_classes = views(classes@);
    proof {
        lemma_split_binds(attrs_view(orig), names);
    }
    while i < n
        invariant
            n == orig.len(),
            i <= n,
            rest@ == orig.skip(i as int),
            attrs_view(orig) == tv.attrs,
            events_are_exprs(tv.attrs),
            names == views(bind_names@),
            bind_names@.len() == bind_count(tv.attrs),
            ({
                let (e, p, b) = split_attrs(attrs_view(orig.take(i as int)), names);
                &&& tag_events_view(events@) == e
                &&& attrs_view(plain@) == p
                &&& views(binds@) == b
            }),
            views(classes@) == orig_classes + views(binds@),
            binds@.len() == bind_count(attrs_view(orig.take(i as int))),
        decreases n - i,
    {
        let a = rest.remove(0);
        let ghost t = orig.take(i + 1);
        let ghost av = attr_view(a);
        proof {
            assert(t =~= orig.take(i as int).push(orig[i as int]));
            assert(orig[i as int] == a);
            lemma_attrs_view_push(orig.take(i as int), a);
            assert(attrs_view(t).drop_last() =~= attrs_view(orig.take(i as int)));
            assert(rest@ =~= orig.skip(i + 1));
            lemma_attrs_view_take(orig, i + 1);
            lemma_attrs_view_take(orig, i as int);
            lemma_bind_count_prefix(tv.attrs, i + 1);
            lemma_split_binds(attrs_view(orig.take(i as int)), names);
            reveal_strlit("click");
            reveal_strlit("change");
            reveal_strlit("bind");
            reveal_strlit("r#type");
            assert("click"@.len() != "bind"@.len());
            assert("change"@.len() != "bind"@.len());
        }
        let ghost pc = classes@;
        let ghost pe = events@;
        let ghost pp = plain@;
        let ghost pb = binds@;
        if eq_str(&a.name, "click") {
            events.push(TagEvent::Click(a));
            assert(tag_events_view(events@) =~= tag_events_view(pe).push(TagEventV::Click(av)));
        } else if eq_str(&a.name, "change") {
            events.push(TagEvent::Change(a));
            assert(tag_events_view(events@) =~= tag_events_view(pe).push(TagEventV::Change(av)));
        } else if eq_str(&a.name, "bind") {
            let k = binds.len();
            let bind_name = bind_names[k].clone();
            binds.push(bind_name.clone());
            classes.push(bind_name);
            events.push(TagEvent::Input);
            let b = Attribute { name: String::from_str("value"), value: a.value };
            plain.push(b);
            proof {
                assert(tag_events_view(events@) =~= tag_events_view(pe).push(TagEventV::Input));
                lemma_attrs_view_push(pp, b);
                assert(plain@ =~= pp.push(b));
                assert(views(binds@) =~= views(pb).push(names[k as int]));
                assert(views(classes@) =~= views(pc).push(names[k as int]));
            }
        } else if eq_str(&a.name, "r#type") {
            let b = Attribute { name: String::from_str("type"), value: a.value };
            plain.push(b);
            proof {
                lemma_attrs_view_push(pp, b);
                assert(plain@ =~= pp.push(b));
            }
        } else {
            plain.push(a);
            proof {
                lemma_attrs_view_push(pp, a);
                assert(plain@ =~= pp.push(a));
            }
        }
        i = i + 1;
    }
    assert(orig.take(n as int) =~= orig);
    extend_id_classes(&mut plain, &id, &classes);
    TagPlan { name, events, attrs: plain, binds, children }
}

/// Viewing a prefix of a list of attributes gives the prefix of its view.
pub proof fn lemma_attrs_view_take(s: Seq<Attribute>, k: int)
    requires
        0 <= k <= s.len(),
    ensures
        attrs_view(s.take(k)) == attrs_view(s).take(k),
        attrs_view(s).len() == s.len(),
        k < s.len() ==> attrs_view(s)[k] == attr_view(s[k]),
    decreases s.len(),
{
    if s.len() > 0 {
        if k == s.len() {
            assert(s.take(k) =~= s);
            lemma_attrs_view_take(s.drop_last(), k - 1);
        } else {
            assert(s.take(k) =~= s.drop_last().take(k));
            lemma_attrs_view_take(s.drop_last(), k);
        }
        assert(attrs_view(s).drop_last() == attrs_view(s.drop_last()));
    }
}

/// The number of `bind` attributes of a prefix, one attribute longer.
pub proof fn lemma_bind_count_prefix(attrs: Seq<AttributeV>, k: int)
    requires
        0 < k <= attrs.len(),
    ensures
        bind_count(attrs.take(k)) == bind_count(attrs.take(k - 1)) + if attrs[k - 1].name
            == "bind"@ {
            1nat
        } else {
            0nat
        },
        bind_count(attrs.take(k)) <= bind_count(attrs),
    decreases attrs.len() - k,
{
    assert(attrs.take(k).drop_last() =~= attrs.take(k - 1));
    if k < attrs.len() {
        lemma_bind_count_prefix(attrs, k + 1);
    } else {
        assert(attrs.take(k) =~= attrs);
    }
}


/// `c` is a lower-case hexadecimal digit.
pub open spec fn is_lower_hex(c: char) -> bool {
    ('0' <= c && c <= '9') || ('a' <= c && c <= 'f')
}

/// `s` is a UUID in the hyphenated lower-case form
/// `xxxxxxxx-xxxx-xxxx-xxxx-xxxxxxxxxxxx`.
pub open spec fn is_hyphenated_uuid(s: Seq<char>) -> bool {
    &&& s.len() == 36
    &&& forall|i: int|
        0 <= i < 36 ==> if i == 8 || i == 13 || i == 18 || i == 23 {
            s[i] == '-'
        } else {
            is_lower_hex(#[trigger] s[i])
        }
}

/// A fresh random UUID as text.
///
/// Trusted: `uuid::Uuid::new_v4` then `to_string`; the crate's `Display`
/// writes the hyphenated lower-case form (`fmt.rs`, `format_hyphenated`).
/// The value itself is random, so nothing else is stated of it.
#[verifier::external_body]
fn new_uuid_text() -> (res: String)
    ensures
        is_hyphenated_uuid(res@),
{
    uuid::Uuid::new_v4().to_string()
}

/// `_` followed by the UUID's hexadecimal digits: the class name that marks a
/// bound input.
pub open spec fn bind_class_name(uuid: Seq<char>) -> Seq<char> {
    seq!['_'] + without_char(uuid, '-')
}

/// `n` is the class name of some UUID in the hyphenated lower-case form.
pub open spec fn is_uuid_class_name(n: Seq<char>) -> bool {
    exists|u: Seq<char>| is_hyphenated_uuid(u) && #[trigger] bind_class_name(u) == n
}

/// `n` is a valid identifier made of `_` and the 32 lower-case hexadecimal
/// digits of a UUID.
pub open spec fn is_bind_class_name(n: Seq<char>) -> bool {
    &&& n.len() == 33
    &&& n[0] == '_'
    &&& forall|i: int| 1 <= i < n.len() ==> is_lower_hex(#[trigger] n[i])
}

/// The number of hyphens among the first `k` characters of a hyphenated UUID.
pub open spec fn uuid_hyphens_below(k: int) -> int {
    (if k > 8 { 1int } else { 0int }) + (if k > 13 { 1int } else { 0int }) + (if k > 18 {
        1int
    } else {
        0int
    }) + (if k > 23 { 1int } else { 0int })
}

/// Removing the hyphens from the first `k` characters of a hyphenated UUID
/// leaves `k` less the hyphens among them.
pub proof fn lemma_uuid_prefix_digits(uuid: Seq<char>, k: int)
    requires
        is_hyphenated_uuid(uuid),
        0 <= k <= 36,
    ensures
        without_char(uuid.take(k), '-').len() == k - uuid_hyphens_below(k),
    decreases k,
{
    if k == 0 {
        assert(uuid.take(0) =~= Seq::<char>::empty());
        assert(Seq::<char>::empty().filter(other_than('-')) =~= Seq::<char>::empty()) by {
            reveal(Seq::filter);
        }
    } else {
        lemma_uuid_prefix_digits(uuid, k - 1);
        assert(uuid.take(k) =~= uuid.take(k - 1).push(uuid[k - 1]));
        uuid.take(k - 1).lemma_filter_push(uuid[k - 1], other_than('-'));
        let i = k - 1;
        if !(i == 8 || i == 13 || i == 18 || i == 23) {
            assert(is_lower_hex(uuid[i]));
        }
    }
}

/// The class name of a UUID is a valid identifier.
pub proof fn lemma_bind_class_name(uuid: Seq<char>)
    requires
        is_hyphenated_uuid(uuid),
    ensures
        is_bind_class_name(bind_class_name(uuid)),
{
    let f = without_char(uuid, '-');
    let pred = other_than('-');
    broadcast use vstd::seq_lib::group_filter_ensures;
    assert(uuid.contains(uuid[0]));
    assert(is_lower_hex(uuid[0]));
    assert(f.contains(uuid[0]));
    assert forall|i: int| 0 <= i < f.len() implies is_lower_hex(#[trigger] f[i]) by {
        assert(f.contains(f[i]));
        uuid.lemma_filter_contains_rev(pred, f[i]);
        assert(uuid.contains(f[i]));
        let k = choose|k: int| 0 <= k < uuid.len() && uuid[k] == f[i];
        assert(f[i] != '-');
    }
    let n = bind_class_name(uuid);
    lemma_uuid_prefix_digits(uuid, 36);
    assert(uuid.take(36) =~= uuid);
    assert forall|i: int| 1 <= i < n.len() implies is_lower_hex(#[trigger] n[i]) by {
        assert(n[i] == f[i - 1]);
    }
}

/// Makes the class name of a bound input from a UUID.
pub fn class_name_of_uuid(uuid: &str) -> (res: String)
    ensures
        res@ == bind_class_name(uuid@),
{
    let mut res = String::new();
    push_char(&mut res, '_');
    let rest = remove_char(uuid, '-');
    res.append(rest.as_str());
    assert(res@ =~= bind_class_name(uuid@));
    res
}

fn count_binds(attrs: &Vec<Attribute>) -> (n: usize)
    ensures
        n as nat == bind_count(attrs_view(attrs@)),
{
    let mut n: usize = 0;
    let mut i: usize = 0;
    proof {
        lemma_attrs_view_take(attrs@, 0);
    }
    while i < attrs.len()
        invariant
            i <= attrs@.len(),
            n <= i,
            n as nat == bind_count(attrs_view(attrs@).take(i as int)),
        decreases attrs@.len() - i,
    {
        proof {
            lemma_attrs_view_take(attrs@, i as int);
            lemma_bind_count_prefix(attrs_view(attrs@), i + 1);
        }
        if eq_str(&attrs[i].name, "bind") {
            n = n + 1;
        }
        i = i + 1;
    }
    proof {
        lemma_attrs_view_take(attrs@, attrs@.len() as int);
        assert(attrs_view(attrs@).take(attrs@.len() as int) =~= attrs_view(attrs@));
    }
    n
}

impl Tag {
    /// Computes the element of this tag: its handlers, its attributes (with
    /// the id and classes of its head and one fresh class per bound input),
    /// the bound class names and its children.
    pub fn plan(self) -> (plan: TagPlan)
        requires
            events_are_exprs(attrs_view(self.attrs@)),
        ensures
            tag_plan_describes(plan, tag_view(self), views(plan.binds@)),
            forall|i: int|
                0 <= i < plan.binds@.len() ==> is_bind_class_name(#[trigger] plan.binds@[i]@)
                    && is_uuid_class_name(plan.binds@[i]@),
    {
        let count = count_binds(&self.attrs);
        let mut names: Vec<String> = Vec::new();
        let mut i: usize = 0;
        while i < count
            invariant
                i <= count,
                names@.len() == i,
                forall|j: int|
                    0 <= j < i ==> is_bind_class_name(#[trigger] names@[j]@) && is_uuid_class_name(
                        names@[j]@,
                    ),
            decreases count - i,
        {
            let uuid = new_uuid_text();
            let name = class_name_of_uuid(uuid.as_str());
            proof {
                lemma_bind_class_name(uuid@);
                assert(is_uuid_class_name(name@));
            }
            names.push(name);
            i = i + 1;
        }
        let ghost nv = views(names@);
        let ghost attrs = attrs_view(self.attrs@);
        let plan = tag_plan_with_names(self, names);
        proof {
            lemma_split_binds(attrs, nv);
            assert(nv.take(bind_count(attrs) as int) =~= nv);
            assert forall|j: int| 0 <= j < plan.binds@.len() implies is_bind_class_name(
                #[trigger] plan.binds@[j]@,
            ) && is_uuid_class_name(plan.binds@[j]@) by {
                assert(views(plan.binds@)[j] == nv[j]);
            }
        }
        plan
    }
}

/// The code of an attribute.
pub enum AttrCode {
    /// `("<name>".to_string(), <value>)` for a `click` or `change` handler.
    Event { name: String, handler: AttrsOrExpr },
    /// A `style` attribute built at run time as `name:value;` for each part.
    Style { name: String, parts: Vec<(String, Code)> },
    /// `("<name>".to_string(), <value>)`: a `style` given as an expression.
    Raw { name: String, value: Code },
    /// `("<name>".to_string(), AttributeValue::String(<value>.to_string()))`.
    Text { name: String, value: Code },
}

/// The mathematical form of an [`AttrCode`].
pub enum AttrCodeV {
    Event { name: Seq<char>, handler: ValueV },
    Style { name: Seq<char>, parts: Seq<(Seq<char>, CodeV)> },
    Raw { name: Seq<char>, value: CodeV },
    Text { name: Seq<char>, value: CodeV },
}

pub open spec fn style_parts_view(s: Seq<(String, Code)>) -> Seq<(Seq<char>, CodeV)> {
    s.map_values(|p: (String, Code)| (p.0@, code_view(p.1)))
}

pub open spec fn attr_code_view(c: AttrCode) -> AttrCodeV {
    match c {
        AttrCode::Event { name, handler } => AttrCodeV::Event { name: name@, handler: value_view(handler) },
        AttrCode::Style { name, parts } => AttrCodeV::Style {
            name: name@,
            parts: style_parts_view(parts@),
        },
        AttrCode::Raw { name, value } => AttrCodeV::Raw { name: name@, value: code_view(value) },
        AttrCode::Text { name, value } => AttrCodeV::Text { name: name@, value: code_view(value) },
    }
}

/// The `(name, expression)` pairs of a braced `style` list.
pub open spec fn style_parts(s: Seq<AttributeV>) -> Seq<(Seq<char>, CodeV)> {
    s.map_values(|a: AttributeV| (a.name, a.value->Expr_0))
}

/// The code generator accepts this attribute: a braced `style` list holds
/// only expressions, and any attribute other than `click`, `change` and
/// `style` has an expression value.
pub open spec fn attr_code_ok(a: AttributeV) -> bool {
    if is_event_name(a.name) {
        true
    } else if a.name == "style"@ {
        match a.value {
            ValueV::Attrs(list) => forall|i: int| 0 <= i < list.len() ==> (#[trigger] list[i]).value is Expr,
            ValueV::Expr(_) => true,
        }
    } else {
        a.value is Expr
    }
}

/// The code of an attribute, by its name: handlers keep their value, a
/// braced `style` list becomes its parts, a `style` expression is used as it
/// is, and any other expression is turned into a string.
pub open spec fn spec_attr_code(a: AttributeV) -> AttrCodeV {
    if is_event_name(a.name) {
        AttrCodeV::Event { name: a.name, handler: a.value }
    } else if a.name == "style"@ {
        match a.value {
            ValueV::Attrs(list) => AttrCodeV::Style { name: a.name, parts: style_parts(list) },
            ValueV::Expr(e) => AttrCodeV::Raw { name: a.name, value: e },
        }
    } else {
        AttrCodeV::Text { name: a.name, value: a.value->Expr_0 }
    }
}

/// A `click` or a `change` attribute is rendered as a handler under its own
/// name with its own value, whatever the value's form, and no other
/// attribute is rendered as a handler.
pub proof fn lemma_event_attributes_are_handlers(a: AttributeV)
    ensures
        (a.name == "click"@ || a.name == "change"@) <==> (spec_attr_code(a) is Event),
        (a.name == "click"@ || a.name == "change"@) ==> spec_attr_code(a) == (AttrCodeV::Event {
            name: a.name,
            handler: a.value,
        }),
{
}

impl Attribute {
    /// The code that renders this attribute.
    pub fn code(self) -> (res: AttrCode)
        requires
            attr_code_ok(attr_view(self)),
        ensures
            attr_code_view(res) == spec_attr_code(attr_view(self)),
            (self.name@ == "click"@ || self.name@ == "change"@) <==> (res is Event),
            (self.name@ == "click"@ || self.name@ == "change"@) ==> attr_code_view(res) == (
            AttrCodeV::Event { name: self.name@, handler: value_view(self.value) }),
    {
        proof {
            lemma_event_attributes_are_handlers(attr_view(self));
        }
        let ghost av = attr_view(self);
        let Attribute { name, value } = self;
        if eq_str(&name, "click") || eq_str(&name, "change") {
            AttrCode::Event { name, handler: value }
        } else if eq_str(&name, "style") {
            match value {
                AttrsOrExpr::Attrs(list) => {
                    let ghost lv = attrs_view(list@);
                    let n = list.len();
                    let mut rest = list;
                    let ghost orig = rest@;
                    let mut parts: Vec<(String, Code)> = Vec::new();
                    let mut i: usize = 0;
                    proof {
                        lemma_attrs_view_take(orig, 0);
                    }
                    while i < n
                        invariant
                            n == orig.len(),
                            i <= n,
                            rest@ == orig.skip(i as int),
                            lv == attrs_view(orig),
                            lv.len() == n,
                            forall|j: int| 0 <= j < lv.len() ==> (#[trigger] lv[j]).value is Expr,
                            style_parts_view(parts@) == style_parts(lv.take(i as int)),
                        decreases n - i,
                    {
                        let a = rest.remove(0);
                        proof {
                            lemma_attrs_view_take(orig, i as int);
                            assert(orig[i as int] == a);
                            assert(rest@ =~= orig.skip(i + 1));
                        }
                        let Attribute { name: part_name, value: part_value } = a;
                        let code = match part_value {
                            AttrsOrExpr::Expr(e) => e,
                            AttrsOrExpr::Attrs(_) => vstd::pervasive::unreached(),
                        };
                        let ghost pp = parts@;
                        parts.push((part_name, code));
                        proof {
                            assert(style_parts_view(parts@) =~= style_parts_view(pp).push(
                                (lv[i as int].name, lv[i as int].value->Expr_0),
                            ));
                            assert(style_parts(lv.take(i + 1)) =~= style_parts(lv.take(i as int)).push(
                                (lv[i as int].name, lv[i as int].value->Expr_0),
                            ));
                        }
                        i = i + 1;
                    }
                    assert(lv.take(n as int) =~= lv);
                    AttrCode::Style { name, parts }
                },
                AttrsOrExpr::Expr(e) => AttrCode::Raw { name, value: e },
            }
        } else {
            match value {
                AttrsOrExpr::Expr(e) => AttrCode::Text { name, value: e },
                AttrsOrExpr::Attrs(_) => vstd::pervasive::unreached(),
            }
        }
    }
}

impl Attribute {
    /// Whether the code generator takes this attribute: see `attr_code_ok`.
    pub fn code_ok(&self) -> (res: bool)
        ensures
            res == attr_code_ok(attr_view(*self)),
    {
        if eq_str(&self.name, "click") || eq_str(&self.name, "change") {
            return true;
        }
        match &self.value {
            AttrsOrExpr::Expr(_) => true,
            AttrsOrExpr::Attrs(list) => {
                if !eq_str(&self.name, "style") {
                    return false;
                }
                proof {
                    lemma_attrs_view_take(list@, 0);
                }
                let ghost a = attr_view(*self);
                assert(a.value == ValueV::Attrs(attrs_view(list@)));
                assert(!is_event_name(a.name) && a.name == "style"@);
                let mut i: usize = 0;
                while i < list.len()
                    invariant
                        a == attr_view(*self),
                        a.value == ValueV::Attrs(attrs_view(list@)),
                        !is_event_name(a.name) && a.name == "style"@,
                        i <= list@.len(),
                        attrs_view(list@).len() == list@.len(),
                        forall|j: int| 0 <= j < i ==> (#[trigger] attrs_view(list@)[j]).value is Expr,
                    decreases list@.len() - i,
                {
                    proof {
                        lemma_attrs_view_take(list@, i as int);
                    }
                    if let AttrsOrExpr::Attrs(_) = &list[i].value {
                        proof {
                            assert(attrs_view(list@)[i as int] == attr_view(list@[i as int]));
                            assert(!(attrs_view(list@)[i as int].value is Expr));
                        }
                        return false;
                    }
                    i = i + 1;
                }
                true
            },
        }
    }
}

impl Tag {
    /// Whether every `click` and `change` attribute of this tag has an
    /// expression value: see `events_are_exprs`.
    pub fn events_ok(&self) -> (res: bool)
        ensures
            res == events_are_exprs(attrs_view(self.attrs@)),
    {
        proof {
            lemma_attrs_view_take(self.attrs@, 0);
        }
        let mut i: usize = 0;
        while i < self.attrs.len()
            invariant
                i <= self.attrs@.len(),
                attrs_view(self.attrs@).len() == self.attrs@.len(),
                forall|j: int|
                    0 <= j < i && is_event_name((#[trigger] attrs_view(self.attrs@)[j]).name)
                        ==> attrs_view(self.attrs@)[j].value is Expr,
            decreases self.attrs@.len() - i,
        {
            proof {
                lemma_attrs_view_take(self.attrs@, i as int);
            }
            let a = &self.attrs[i];
            if eq_str(&a.name, "click") || eq_str(&a.name, "change") {
                if let AttrsOrExpr::Attrs(_) = &a.value {
                    return false;
                }
            }
            i = i + 1;
        }
        true
    }
}

} // verus!

