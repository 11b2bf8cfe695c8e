use vstd::prelude::*;
use crate::builder::{build_spec, lemma_flatten_balanced, MessageBuilder};
use crate::icu::{get_icu_from_choices_obj, icu_fragment, prop_texts, prop_values, props_wf, ObjProp};
use crate::markup::{flatten_children, flatten_spec, token_views, JsxAttr, JsxChild, MsgToken};
use crate::template::{tpl_message, tpl_values, transform_tpl_to_msg_and_values, Template};
use crate::text::{eq_lit, normalize, normalize_whitespaces};
use crate::values::{
    dedup_spec, dedup_values, entries, get_value_with_placeholder, placeholder_key, ExprItem,
    ValueWithPlaceholder,
};

verus! {

/// The handle whose `_` method a lowered call invokes.
#[derive(Clone, Copy, PartialEq, Eq, Structural, Debug)]
pub enum Callee {
    /// The default runtime handle, `i18n`.
    DefaultI18n,
    /// An expression of the host, by its handle: `t(custom)`.
    Host(usize),
}

/// A lowered call `<callee>._(message, {values})`.
pub struct I18nCall {
    pub callee: Callee,
    pub message: String,
    pub values: Vec<ValueWithPlaceholder>,
}

/// The tag of a tagged template.
pub enum TplTag {
    /// A bare identifier: `t`.
    Ident(String),
    /// A call: `t(custom)`; the callee's name where it is an identifier, and
    /// the host's handles for the arguments.
    Call { callee: Option<String>, args: Vec<usize> },
    /// Any other tag.
    Other,
}

/// An argument of a call: its description, and its properties where it is an
/// object literal.
pub struct CallArg {
    pub expr: ExprItem,
    pub object: Option<Vec<ObjProp>>,
}

/// A translation element after lowering: the name of the attribute that
/// carries the message (`id`, or `message` where the source set its own
/// `id`), the message, its values, and its components by index.
pub struct TransElement {
    pub id_attr: String,
    pub message: String,
    pub values: Vec<ValueWithPlaceholder>,
    pub components: Vec<usize>,
}

/// The per-unit state of the rewrite: whether the macro namespace was
/// imported, and which runtime symbols rewritten code uses.
pub struct TransformVisitor {
    pub has_lingui_macro_imports: bool,
    pub should_add_18n_import: bool,
    pub should_add_trans_import: bool,
}

/// The names of the choice functions.
pub open spec fn is_lingui_fn_spec(name: Seq<char>) -> bool {
    name == "plural"@ || name == "select"@ || name == "selectOrdinal"@
}

/// Whether `name` is one of the choice functions `plural`, `select`, `selectOrdinal`.
pub fn is_lingui_fn(name: &String) -> (r: bool)
    ensures
        r == is_lingui_fn_spec(name@),
{
    eq_lit(name, "plural") || eq_lit(name, "select") || eq_lit(name, "selectOrdinal")
}

/// Some attribute is named `id`.
pub open spec fn has_id_attr(attrs: Seq<JsxAttr>) -> bool {
    exists|i: int| 0 <= i < attrs.len() && (#[trigger] attrs[i]).name is Some && attrs[i].name->Some_0@ == "id"@
}

/// The message of a translation element's children.
pub open spec fn trans_message(children: Seq<JsxChild>) -> Seq<char> {
    normalize(build_spec(flatten_spec(children)).message)
}

/// The values of a translation element's children: named values (and those
/// of choices), then positional ones, deduplicated.
pub open spec fn trans_values(children: Seq<JsxChild>) -> Seq<crate::values::Entry> {
    let st = build_spec(flatten_spec(children));
    dedup_spec(st.named + st.positional)
}

/// Lowers a translation element's children and attributes.
pub fn transform_trans_jsx_macro(attrs: &Vec<JsxAttr>, children: &Vec<JsxChild>) -> (r: TransElement)
    ensures
        r.id_attr@ == (if has_id_attr(attrs@) { "message"@ } else { "id"@ }),
        r.message@ == trans_message(children@),
        entries(r.values@) == trans_values(children@),
        r.components@ == build_spec(flatten_spec(children@)).components,
{
    let mut tokens: Vec<MsgToken> = Vec::new();
    flatten_children(children, &mut tokens);
    assert(token_views(tokens@) =~= flatten_spec(children@));
    proof {
        lemma_flatten_balanced(children@);
    }
    let builder = MessageBuilder::new(&tokens);
    let mut has_id = false;
    let n = attrs.len();
    let mut i: usize = 0;
    while i < n
        invariant
            n == attrs@.len(),
            i <= n,
            has_id == exists|j: int| 0 <= j < i && (#[trigger] attrs@[j]).name is Some && attrs@[j].name->Some_0@ == "id"@,
        decreases n - i,
    {
        if let Some(name) = &attrs[i].name {
            if eq_lit(name, "id") {
                has_id = true;
            }
        }
        i = i + 1;
    }
    let id_attr = if has_id { String::from_str("message") } else { String::from_str("id") };
    let message = normalize_whitespaces(builder.message.as_str());
    let mut values = builder.values;
    let mut indexed = builder.values_indexed;
    let ghost named = values@;
    let ghost positional = indexed@;
    values.append(&mut indexed);
    assert(entries(values@) =~= entries(named) + entries(positional));
    let values = dedup_values(values);
    TransElement { id_attr, message, values, components: builder.components }
}

impl Default for TransformVisitor {
    fn default() -> (r: TransformVisitor)
        ensures
            !r.has_lingui_macro_imports,
            !r.should_add_18n_import,
            !r.should_add_trans_import,
    {
        TransformVisitor::new()
    }
}

impl TransformVisitor {
    /// A state for a unit in which nothing was seen yet.
    pub fn new() -> (r: TransformVisitor)
        ensures
            !r.has_lingui_macro_imports,
            !r.should_add_18n_import,
            !r.should_add_trans_import,
    {
        TransformVisitor {
            has_lingui_macro_imports: false,
            should_add_18n_import: false,
            should_add_trans_import: false,
        }
    }

    /// Records an import of `source`; returns whether the import stays in the
    /// unit. An import of the macro namespace is dropped and turns rewriting on.
    pub fn observe_import(&mut self, source: &String) -> (keep: bool)
        ensures
            keep == (source@ != "@lingui/macro"@),
            final(self).has_lingui_macro_imports == (old(self).has_lingui_macro_imports || !keep),
            final(self).should_add_18n_import == old(self).should_add_18n_import,
            final(self).should_add_trans_import == old(self).should_add_trans_import,
    {
        if eq_lit(source, "@lingui/macro") {
            self.has_lingui_macro_imports = true;
            false
        } else {
            true
        }
    }

    /// Lowers `` t`...` `` to `i18n._(...)` and `` t(handle)`...` `` to
    /// `handle._(...)`; any other tagged template, or any template before the
    /// macro namespace is imported, gives `None`.
    pub fn fold_tagged_template(&mut self, tag: &TplTag, tpl: &Template) -> (r: Option<I18nCall>)
        requires
            tpl.wf(),
        ensures
            r is Some <==> old(self).has_lingui_macro_imports && match tag {
                TplTag::Ident(n) => n@ == "t"@,
                TplTag::Call { callee, args } => callee is Some && callee->Some_0@ == "t"@ && args@.len() == 1,
                TplTag::Other => false,
            },
            r is Some ==> r->Some_0.message@ == tpl_message(*tpl) && entries(r->Some_0.values@) == dedup_spec(tpl_values(*tpl)),
            r is Some ==> r->Some_0.callee == match tag {
                TplTag::Call { args, .. } => Callee::Host(args@[0]),
                _ => Callee::DefaultI18n,
            },
            final(self).has_lingui_macro_imports == old(self).has_lingui_macro_imports,
            final(self).should_add_18n_import == (old(self).should_add_18n_import || (r is Some && tag is Ident)),
            final(self).should_add_trans_import == old(self).should_add_trans_import,
    {
        if !self.has_lingui_macro_imports {
            return None;
        }
        let callee = match tag {
            TplTag::Ident(n) => {
                if eq_lit(n, "t") { Some(Callee::DefaultI18n) } else { None }
            },
            TplTag::Call { callee, args } => {
                match callee {
                    Some(c) => if eq_lit(c, "t") && args.len() == 1 {
                        Some(Callee::Host(args[0]))
                    } else {
                        None
                    },
                    None => None,
                }
            },
            TplTag::Other => None,
        };
        match callee {
            Some(callee) => {
                let (message, values) = transform_tpl_to_msg_and_values(tpl);
                if callee == Callee::DefaultI18n {
                    self.should_add_18n_import = true;
                }
                Some(I18nCall { callee, message, values: dedup_values(values) })
            },
            None => None,
        }
    }

    /// Lowers `plural(value, {key: text, ...})` (or `select`, `selectOrdinal`)
    /// to `i18n._("{value, plural, key {text} ...}", {values})`. Any other
    /// call, another number of arguments, a second argument that is not an
    /// object literal, or a call before the macro namespace is imported, gives
    /// `None`.
    pub fn fold_call(&mut self, callee: &Option<String>, args: Vec<CallArg>) -> (r: Option<I18nCall>)
        requires
            args@.len() == 2 && args@[1].object is Some ==> props_wf(args@[1].object->Some_0@),
        ensures
            r is Some <==> old(self).has_lingui_macro_imports && callee is Some && is_lingui_fn_spec(callee->Some_0@)
                && args@.len() == 2 && args@[1].object is Some,
            r is Some ==> ({
                let key = placeholder_key(args@[0].expr.name(), 0);
                let props = args@[1].object->Some_0@;
                &&& r->Some_0.callee == Callee::DefaultI18n
                &&& r->Some_0.message@ == icu_fragment(key, callee->Some_0@, prop_texts(props, props.len() as int))
                &&& entries(r->Some_0.values@) == dedup_spec(seq![(key, args@[0].expr.expr)] + prop_values(props, props.len() as int))
            }),
            final(self).has_lingui_macro_imports == old(self).has_lingui_macro_imports,
            final(self).should_add_18n_import == (old(self).should_add_18n_import || r is Some),
            final(self).should_add_trans_import == old(self).should_add_trans_import,
    {
        if !self.has_lingui_macro_imports {
            return None;
        }
        let method = match callee {
            Some(c) => c,
            None => return None,
        };
        if !is_lingui_fn(method) || args.len() != 2 {
            return None;
        }
        let ghost all = args@;
        let mut args = args;
        let second = args.pop().unwrap();
        let first = args.pop().unwrap();
        assert(first == all[0] && second == all[1]);
        match second.object {
            Some(props) => {
                let icu_value = get_value_with_placeholder(&first.expr, 0);
                let (message, mut values) = get_icu_from_choices_obj(props, &icu_value.placeholder, method);
                let ghost head = icu_value@;
                let ghost rest = values@;
                let mut all_values: Vec<ValueWithPlaceholder> = Vec::new();
                all_values.push(icu_value);
                all_values.append(&mut values);
                assert(all_values@ =~= seq![all_values@[0]] + rest);
                assert(entries(all_values@) =~= seq![head] + entries(rest));
                self.should_add_18n_import = true;
                Some(I18nCall { callee: Callee::DefaultI18n, message, values: dedup_values(all_values) })
            },
            None => None,
        }
    }

    /// Lowers a `Trans` element; any other element, or one before the macro
    /// namespace is imported, gives `None`.
    pub fn fold_jsx_element(&mut self, name: &Option<String>, attrs: &Vec<JsxAttr>, children: &Vec<JsxChild>) -> (r: Option<TransElement>)
        ensures
            r is Some <==> old(self).has_lingui_macro_imports && name is Some && name->Some_0@ == "Trans"@,
            r is Some ==> ({
                let t = r->Some_0;
                &&& t.id_attr@ == (if has_id_attr(attrs@) { "message"@ } else { "id"@ })
                &&& t.message@ == trans_message(children@)
                &&& entries(t.values@) == trans_values(children@)
                &&& t.components@ == build_spec(flatten_spec(children@)).components
            }),
            final(self).has_lingui_macro_imports == old(self).has_lingui_macro_imports,
            final(self).should_add_18n_import == old(self).should_add_18n_import,
            final(self).should_add_trans_import == (old(self).should_add_trans_import || r is Some),
    {
        if !self.has_lingui_macro_imports {
            return None;
        }
        match name {
            Some(n) => {
                if eq_lit(n, "Trans") {
                    self.should_add_trans_import = true;
                    Some(transform_trans_jsx_macro(attrs, children))
                } else {
                    None
                }
            },
            None => None,
        }
    }

    /// The symbols to import from the runtime module in a new import
    /// statement: each one that rewritten code uses and that the unit's own
    /// runtime import does not already bring.
    pub fn missing_imports(&self, has_i18n_import: bool, has_trans_import: bool) -> (r: Vec<String>)
        ensures
            r@.len() == (if !has_i18n_import && self.should_add_18n_import { 1int } else { 0int })
                + (if !has_trans_import && self.should_add_trans_import { 1int } else { 0int }),
            !has_i18n_import && self.should_add_18n_import ==> r@[0]@ == "i18n"@,
            !has_trans_import && self.should_add_trans_import ==> r@.last()@ == "Trans"@,
    {
        let mut r: Vec<String> = Vec::new();
        if !has_i18n_import && self.should_add_18n_import {
            r.push(String::from_str("i18n"));
        }
        if !has_trans_import && self.should_add_trans_import {
            r.push(String::from_str("Trans"));
        }
        r
    }
}

/// Which runtime symbols an import already brings: `(i18n, Trans)`. Only a
/// value import of the runtime module counts; `locals` are the local names of
/// its named specifiers.
pub fn scan_core_import(source: &String, type_only: bool, locals: &Vec<String>) -> (r: (bool, bool))
    ensures
        r.0 == (source@ == "@lingui/core"@ && !type_only && exists|i: int| 0 <= i < locals@.len() && (#[trigger] locals@[i])@ == "i18n"@),
        r.1 == (source@ == "@lingui/core"@ && !type_only && exists|i: int| 0 <= i < locals@.len() && (#[trigger] locals@[i])@ == "Trans"@),
{
    if !eq_lit(source, "@lingui/core") || type_only {
        return (false, false);
    }
    let mut has_i18n = false;
    let mut has_trans = false;
    let n = locals.len();
    let mut i: usize = 0;
    while i < n
        invariant
            n == locals@.len(),
            i <= n,
            has_i18n == exists|j: int| 0 <= j < i && (#[trigger] locals@[j])@ == "i18n"@,
            has_trans == exists|j: int| 0 <= j < i && (#[trigger] locals@[j])@ == "Trans"@,
        decreases n - i,
    {
        if eq_lit(&locals[i], "i18n") {
            has_i18n = true;
        }
        if eq_lit(&locals[i], "Trans") {
            has_trans = true;
        }
        i = i + 1;
    }
    (has_i18n, has_trans)
}

} // verus!
