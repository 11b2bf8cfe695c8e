use vstd::prelude::*;
use crate::text::decimal;
use crate::values::{
    braced, get_value_with_placeholder, placeholder_key, Entry, ExprItem, ValueWithPlaceholder,
    entries,
};

verus! {

/// A template literal: literal chunks with one embedded expression between
/// each two of them.
pub struct Template {
    pub quasis: Vec<String>,
    pub exprs: Vec<ExprItem>,
}

impl Template {
    /// Chunks and expressions alternate, beginning and ending with a chunk.
    pub open spec fn wf(&self) -> bool {
        self.quasis@.len() == self.exprs@.len() + 1
    }
}

/// How many of the first `n` expressions have no name.
pub open spec fn unnamed_before(exprs: Seq<ExprItem>, n: int) -> nat
    decreases n,
{
    if n <= 0 {
        0
    } else if exprs[n - 1].is_named() {
        unnamed_before(exprs, n - 1)
    } else {
        unnamed_before(exprs, n - 1) + 1
    }
}

/// The placeholder of expression `i` of a list: its name, or its position among
/// the unnamed ones.
pub open spec fn item_key(exprs: Seq<ExprItem>, i: int) -> Seq<char> {
    placeholder_key(exprs[i].name(), unnamed_before(exprs, i))
}

/// The message of the first `n` chunks, each followed by its expression's placeholder.
pub open spec fn tpl_prefix(t: Template, n: int) -> Seq<char>
    decreases n,
{
    if n <= 0 {
        Seq::empty()
    } else {
        tpl_prefix(t, n - 1) + t.quasis@[n - 1]@ + braced(item_key(t.exprs@, n - 1))
    }
}

/// The message of a template: its chunks with each expression replaced by `{placeholder}`.
pub open spec fn tpl_message(t: Template) -> Seq<char> {
    tpl_prefix(t, t.exprs@.len() as int) + t.quasis@[t.exprs@.len() as int]@
}

/// The values of a template, one per expression, in order.
pub open spec fn tpl_values(t: Template) -> Seq<Entry> {
    Seq::new(t.exprs@.len(), |i: int| (item_key(t.exprs@, i), t.exprs@[i].expr))
}

/// Turns a template into its message and the values of its placeholders.
/// Repeated placeholders are kept: values are deduplicated once all sources
/// of a message are merged.
pub fn transform_tpl_to_msg_and_values(tpl: &Template) -> (r: (String, Vec<ValueWithPlaceholder>))
    requires
        tpl.wf(),
    ensures
        r.0@ == tpl_message(*tpl),
        entries(r.1@) == tpl_values(*tpl),
{
    let mut message = String::new();
    let mut values: Vec<ValueWithPlaceholder> = Vec::new();
    let n = tpl.exprs.len();
    let mut unnamed: usize = 0;
    let mut i: usize = 0;
    while i < n
        invariant
            tpl.wf(),
            n == tpl.exprs@.len(),
            i <= n,
            unnamed == unnamed_before(tpl.exprs@, i as int),
            unnamed <= i,
            message@ == tpl_prefix(*tpl, i as int),
            entries(values@) == tpl_values(*tpl).subrange(0, i as int),
        decreases n - i,
    {
        message.append(tpl.quasis[i].as_str());
        let item = &tpl.exprs[i];
        let v = get_value_with_placeholder(item, unnamed);
        message.append("{");
        message.append(v.placeholder.as_str());
        message.append("}");
        proof {
            reveal_strlit("{");
            reveal_strlit("}");
            assert(message@ =~= tpl_prefix(*tpl, i + 1));
        }
        let ghost before = values@;
        let ghost e = v@;
        values.push(v);
        assert(values@ == before.push(v));
        assert(entries(values@) =~= entries(before).push(e));
        assert(e == tpl_values(*tpl)[i as int]);
        assert(entries(values@) =~= tpl_values(*tpl).subrange(0, i + 1));
        if !is_named(item) {
            unnamed = unnamed + 1;
        }
        i = i + 1;
    }
    message.append(tpl.quasis[n].as_str());
    assert(entries(values@) =~= tpl_values(*tpl));
    (message, values)
}

/// Whether an expression is a bare name reference.
pub fn is_named(item: &ExprItem) -> (r: bool)
    ensures
        r == item.is_named(),
{
    match item.kind {
        crate::values::ExprKind::Ident(_) => true,
        _ => false,
    }
}

/// The expressions without a name.
pub open spec fn unnamed(exprs: Seq<ExprItem>) -> Seq<ExprItem> {
    exprs.filter(|e: ExprItem| !e.is_named())
}

proof fn lemma_unnamed_before(exprs: Seq<ExprItem>, i: int)
    requires
        0 <= i <= exprs.len(),
    ensures
        unnamed_before(exprs, i) == unnamed(exprs.subrange(0, i)).len(),
    decreases i,
{
    reveal(Seq::filter);
    if i > 0 {
        lemma_unnamed_before(exprs, i - 1);
        assert(exprs.subrange(0, i).drop_last() =~= exprs.subrange(0, i - 1));
    }
}

/// In a template, a bare name stands as its own placeholder, and any other
/// expression as the number of unnamed expressions before it.
pub proof fn lemma_template_placeholders(t: Template)
    requires
        t.wf(),
    ensures
        forall|i: int| #![trigger tpl_values(t)[i]] 0 <= i < t.exprs@.len() && t.exprs@[i].is_named()
            ==> tpl_values(t)[i].0 == t.exprs@[i].name()->Some_0,
        forall|i: int| #![trigger tpl_values(t)[i]] 0 <= i < t.exprs@.len() && !t.exprs@[i].is_named()
            ==> tpl_values(t)[i].0 == decimal(unnamed(t.exprs@.subrange(0, i)).len()),
{
    assert forall|i: int| #![trigger tpl_values(t)[i]] 0 <= i < t.exprs@.len() && !t.exprs@[i].is_named()
        implies tpl_values(t)[i].0 == decimal(unnamed(t.exprs@.subrange(0, i)).len()) by {
        lemma_unnamed_before(t.exprs@, i);
    }
}

} // verus!
