use vstd::prelude::*;
use crate::icu::{
    choice_part, choice_texts, choices_wf, control_key, icu_fragment, literal_template,
    ChoiceBlock, IcuChoice, choice_values,
};
use crate::text::eq_lit;
use crate::values::{placeholder_key, Entry, ExprItem, ExprKind, ExprRef};

verus! {

broadcast use vstd::seq::group_seq_axioms, vstd::std_specs::vec::group_vec_axioms;

/// The value of a markup attribute.
pub enum AttrValue {
    /// A string literal: `one="# Book"`.
    Str(String),
    /// An expression container: `value={count}`.
    Expr(ExprItem),
    /// Any other shape (nested markup, a fragment).
    Other,
}

/// A markup attribute; `name` is `None` for a spread or a namespaced name.
pub struct JsxAttr {
    pub name: Option<String>,
    pub value: Option<AttrValue>,
}

/// A child of a translatable element.
pub enum JsxChild {
    /// Plain text, as written.
    Text(String),
    /// An expression container.
    Expr(ExprItem),
    /// A nested element.
    Element(JsxElem),
    /// Anything else (an empty container, a fragment, a spread child).
    Other,
}

/// A nested element: its name where it is a plain identifier, the host's
/// handle for its opening tag, its attributes and its children.
pub struct JsxElem {
    pub name: Option<String>,
    pub tag: usize,
    pub attrs: Vec<JsxAttr>,
    pub children: Vec<JsxChild>,
}

/// One unit of translatable content.
pub enum MsgToken {
    String(String),
    Value(ExprItem),
    Icu(ChoiceBlock),
    /// An opening tag, by the host's handle for it.
    TagOpening(usize),
    TagClosing,
}

/// A token as the message builder sees it; a choice is seen as its lowered
/// fragment and values.
pub enum TokenView {
    Text(Seq<char>),
    Value(ExprItem),
    Choice(Seq<char>, Seq<Entry>),
    Open(usize),
    Close,
}

impl MsgToken {
    pub open spec fn wf(&self) -> bool {
        match self {
            MsgToken::Icu(b) => b.wf(),
            _ => true,
        }
    }
}

impl View for MsgToken {
    type V = TokenView;

    open spec fn view(&self) -> TokenView {
        match self {
            MsgToken::String(s) => TokenView::Text(s@),
            MsgToken::Value(e) => TokenView::Value(*e),
            MsgToken::Icu(b) => TokenView::Choice(
                icu_fragment(control_key(*b), b.method@, choice_texts(b.choices@)),
                seq![(control_key(*b), b.value.expr)] + choice_values(b.choices@),
            ),
            MsgToken::TagOpening(t) => TokenView::Open(*t),
            MsgToken::TagClosing => TokenView::Close,
        }
    }
}

/// The views of a token list.
pub open spec fn token_views(ts: Seq<MsgToken>) -> Seq<TokenView> {
    ts.map_values(|t: MsgToken| t@)
}

pub open spec fn tokens_wf(ts: Seq<MsgToken>) -> bool {
    forall|i: int| 0 <= i < ts.len() ==> (#[trigger] ts[i]).wf()
}

/// The name of the element that stands for a nested plural choice.
pub open spec fn plural_name() -> Seq<char> {
    seq!['P', 'l', 'u', 'r', 'a', 'l']
}

pub open spec fn value_name() -> Seq<char> {
    seq!['v', 'a', 'l', 'u', 'e']
}

pub open spec fn plural_method() -> Seq<char> {
    seq!['p', 'l', 'u', 'r', 'a', 'l']
}

/// The branch text of an attribute of a choice element: the text of a string
/// literal, directly or in a container; nothing for any other shape.
pub open spec fn attr_text(v: AttrValue) -> Seq<char> {
    match v {
        AttrValue::Str(s) => s@,
        AttrValue::Expr(e) => match e.kind {
            ExprKind::Str(s) => s@,
            _ => Seq::empty(),
        },
        AttrValue::Other => Seq::empty(),
    }
}

/// The branch `key {text}` of an attribute, where it gives one: a named
/// attribute with a value, other than `value`.
pub open spec fn attr_branch(a: JsxAttr) -> Option<Seq<char>> {
    match a.name {
        Some(n) => match a.value {
            Some(v) => if n@ == value_name() {
                None
            } else {
                Some(n@ + seq![' ', '{'] + attr_text(v) + seq!['}'])
            },
            None => None,
        },
        None => None,
    }
}

/// The branch texts of a choice element's attributes, in order.
pub open spec fn attr_texts(attrs: Seq<JsxAttr>) -> Seq<Seq<char>>
    decreases attrs.len(),
{
    if attrs.len() == 0 {
        Seq::empty()
    } else {
        match attr_branch(attrs.last()) {
            Some(b) => attr_texts(attrs.drop_last()).push(b),
            None => attr_texts(attrs.drop_last()),
        }
    }
}

/// The controlling value of a choice element: the expression of its first
/// `value` attribute where that is a container, else a `null` literal.
pub open spec fn attr_control(attrs: Seq<JsxAttr>) -> ExprItem
    decreases attrs.len(),
{
    if attrs.len() == 0 {
        ExprItem { kind: ExprKind::Other, expr: ExprRef::Null }
    } else {
        let a = attrs[0];
        if a.name is Some && a.name->Some_0@ == value_name() {
            match a.value {
                Some(AttrValue::Expr(e)) => e,
                _ => ExprItem { kind: ExprKind::Other, expr: ExprRef::Null },
            }
        } else {
            attr_control(attrs.drop_first())
        }
    }
}

/// The token that a choice element becomes.
pub open spec fn choice_view(attrs: Seq<JsxAttr>) -> TokenView {
    let c = attr_control(attrs);
    let key = placeholder_key(c.name(), 0);
    TokenView::Choice(
        icu_fragment(key, plural_method(), attr_texts(attrs)),
        seq![(key, c.expr)],
    )
}

/// Whether an element is a choice element.
pub open spec fn is_choice_elem(e: JsxElem) -> bool {
    e.name is Some && e.name->Some_0@ == plural_name()
}

/// The token stream of a list of children, in document order.
pub open spec fn flatten_spec(cs: Seq<JsxChild>) -> Seq<TokenView>
    decreases cs,
{
    if cs.len() == 0 {
        Seq::empty()
    } else {
        let last = match cs.last() {
            JsxChild::Text(s) => seq![TokenView::Text(s@)],
            JsxChild::Expr(e) => match e.kind {
                ExprKind::Str(s) => seq![TokenView::Text(s@)],
                _ => seq![TokenView::Value(e)],
            },
            JsxChild::Element(e) => if is_choice_elem(e) {
                seq![choice_view(e.attrs@)]
            } else {
                seq![TokenView::Open(e.tag)] + flatten_spec(e.children@) + seq![TokenView::Close]
            },
            JsxChild::Other => Seq::empty(),
        };
        flatten_spec(cs.drop_last()) + last
    }
}

/// The branches of a choice element's attributes, in order: each named
/// attribute with a value other than `value` gives `name {text}`.
pub fn transform_icu_jsx_macro(attrs: &Vec<JsxAttr>) -> (r: Vec<IcuChoice>)
    ensures
        choices_wf(r@),
        choice_texts(r@) == attr_texts(attrs@),
        choice_values(r@) == Seq::<Entry>::empty(),
{
    let mut r: Vec<IcuChoice> = Vec::new();
    let n = attrs.len();
    let mut i: usize = 0;
    while i < n
        invariant
            n == attrs@.len(),
            i <= n,
            choices_wf(r@),
            choice_texts(r@) == attr_texts(attrs@.subrange(0, i as int)),
            choice_values(r@) == Seq::<Entry>::empty(),
        decreases n - i,
    {
        let a = &attrs[i];
        let ghost before = r@;
        let ghost sub = attrs@.subrange(0, i + 1);
        assert(sub.drop_last() =~= attrs@.subrange(0, i as int));
        assert(sub.last() == *a);
        proof {
            reveal_strlit("value");
            assert("value"@ =~= value_name());
        }
        if let Some(name) = &a.name {
            if let Some(v) = &a.value {
                if !eq_lit(name, "value") {
                    let text = match v {
                        AttrValue::Str(s) => s.clone(),
                        AttrValue::Expr(e) => match &e.kind {
                            ExprKind::Str(s) => s.clone(),
                            _ => String::new(),
                        },
                        AttrValue::Other => String::new(),
                    };
                    assert(text@ == attr_text(*v));
                    let body = literal_template(text);
                    r.push(IcuChoice { key: name.clone(), body });
                    proof {
                        assert(r@.drop_last() =~= before);
                        assert(choice_texts(r@) =~= choice_texts(before).push(choice_part(r@.last())));
                        assert(choice_values(r@) =~= Seq::<Entry>::empty());
                    }
                }
            }
        }
        i = i + 1;
    }
    assert(attrs@.subrange(0, n as int) =~= attrs@);
    r
}

/// The controlling value of a choice element: its first `value` attribute's
/// expression where that is a container, else a `null` literal.
pub fn choice_control(attrs: &Vec<JsxAttr>) -> (r: ExprItem)
    ensures
        r == attr_control(attrs@),
{
    let n = attrs.len();
    let mut i: usize = 0;
    proof {
        reveal_strlit("value");
        assert("value"@ =~= value_name());
    }
    assert(attrs@.subrange(0, n as int) =~= attrs@);
    while i < n
        invariant
            n == attrs@.len(),
            i <= n,
            "value"@ == value_name(),
            attr_control(attrs@) == attr_control(attrs@.subrange(i as int, n as int)),
        decreases n - i,
    {
        let a = &attrs[i];
        let ghost rest = attrs@.subrange(i as int, n as int);
        assert(rest[0] == *a);
        assert(rest.drop_first() =~= attrs@.subrange(i + 1, n as int));
        if let Some(name) = &a.name {
            if eq_lit(name, "value") {
                return match &a.value {
                    Some(AttrValue::Expr(e)) => e.duplicate(),
                    _ => ExprItem { kind: ExprKind::Other, expr: ExprRef::Null },
                };
            }
        }
        i = i + 1;
    }
    assert(attrs@.subrange(n as int, n as int) =~= Seq::<JsxAttr>::empty());
    ExprItem { kind: ExprKind::Other, expr: ExprRef::Null }
}

/// Appends the tokens of `children` to `out`: text and string literals as
/// strings, other expressions as values, a choice element as one choice, and
/// any other element as its opening tag, its children and a closing tag.
pub fn flatten_children(children: &Vec<JsxChild>, out: &mut Vec<MsgToken>)
    requires
        tokens_wf(old(out)@),
    ensures
        tokens_wf(final(out)@),
        token_views(final(out)@) == token_views(old(out)@) + flatten_spec(children@),
    decreases children@,
{
    let n = children.len();
    let mut i: usize = 0;
    let ghost start = token_views(out@);
    while i < n
        invariant
            n == children@.len(),
            i <= n,
            tokens_wf(out@),
            token_views(out@) == start + flatten_spec(children@.subrange(0, i as int)),
        decreases n - i,
    {
        let c = &children[i];
        let ghost before = token_views(out@);
        let ghost sub = children@.subrange(0, i + 1);
        assert(sub.drop_last() =~= children@.subrange(0, i as int));
        assert(sub.last() == *c);
        match c {
            JsxChild::Text(s) => {
                out.push(MsgToken::String(s.clone()));
                assert(token_views(out@) =~= before.push(TokenView::Text(s@)));
            },
            JsxChild::Expr(e) => {
                match &e.kind {
                    ExprKind::Str(s) => {
                        out.push(MsgToken::String(s.clone()));
                        assert(token_views(out@) =~= before.push(TokenView::Text(s@)));
                    },
                    _ => {
                        out.push(MsgToken::Value(e.duplicate()));
                        assert(token_views(out@) =~= before.push(TokenView::Value(*e)));
                    },
                }
            },
            JsxChild::Element(e) => {
                let mut is_choice = false;
                if let Some(name) = &e.name {
                    is_choice = eq_lit(name, "Plural");
                }
                proof {
                    reveal_strlit("Plural");
                    assert("Plural"@ =~= plural_name());
                }
                if is_choice {
                    let value = choice_control(&e.attrs);
                    let choices = transform_icu_jsx_macro(&e.attrs);
                    let method = String::from_str("plural");
                    proof {
                        reveal_strlit("plural");
                        assert(method@ =~= plural_method());
                    }
                    let b = ChoiceBlock { value, method, choices };
                    let ghost v = TokenView::Choice(
                        icu_fragment(control_key(b), b.method@, choice_texts(b.choices@)),
                        seq![(control_key(b), b.value.expr)] + choice_values(b.choices@),
                    );
                    proof {
                        assert(seq![(control_key(b), b.value.expr)] + choice_values(b.choices@) =~= seq![(control_key(b), b.value.expr)]);
                    }
                    let tok = MsgToken::Icu(b);
                    assert(tok@ == v);
                    out.push(tok);
                    assert(v == choice_view(e.attrs@));
                    assert(token_views(out@) =~= before.push(v));
                } else {
                    out.push(MsgToken::TagOpening(e.tag));
                    assert(token_views(out@) =~= before.push(TokenView::Open(e.tag)));
                    proof {
                        assert(decreases_to!(children@ => e.children@)) by {
                            assert(children@[i as int] == *c);
                        }
                    }
                    flatten_children(&e.children, out);
                    let ghost mid = token_views(out@);
                    out.push(MsgToken::TagClosing);
                    assert(token_views(out@) =~= mid.push(TokenView::Close));
                    assert(token_views(out@) =~= before + (seq![TokenView::Open(e.tag)] + flatten_spec(e.children@) + seq![TokenView::Close]));
                }
            },
            JsxChild::Other => {
                assert(token_views(out@) =~= before);
            },
        }
        proof {
            assert(token_views(out@) =~= start + flatten_spec(sub));
        }
        i = i + 1;
    }
    assert(children@.subrange(0, n as int) =~= children@);
}

} // verus!
