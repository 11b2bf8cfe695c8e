use vstd::prelude::*;
use crate::template::{tpl_message, tpl_values, transform_tpl_to_msg_and_values, Template};
use crate::values::{
    entries, get_value_with_placeholder, placeholder_key, reversed, Entry, ExprItem,
    ValueWithPlaceholder,
};

verus! {

/// One keyed branch of a choice.
pub struct IcuChoice {
    pub key: String,
    pub body: Template,
}

/// A structured choice: a controlling value, the choice method (`plural`,
/// `select`, `selectOrdinal`) and its branches in declaration order.
pub struct ChoiceBlock {
    pub value: ExprItem,
    pub method: String,
    pub choices: Vec<IcuChoice>,
}

/// Every branch is a well-formed template.
pub open spec fn choices_wf(cs: Seq<IcuChoice>) -> bool {
    forall|i: int| 0 <= i < cs.len() ==> (#[trigger] cs[i]).body.wf()
}

impl ChoiceBlock {
    pub open spec fn wf(&self) -> bool {
        choices_wf(self.choices@)
    }
}

/// `key {message}` for one branch.
pub open spec fn choice_part(c: IcuChoice) -> Seq<char> {
    c.key@ + seq![' ', '{'] + tpl_message(c.body) + seq!['}']
}

/// The texts `parts`, separated by single spaces.
pub open spec fn join_space(parts: Seq<Seq<char>>) -> Seq<char>
    decreases parts.len(),
{
    if parts.len() == 0 {
        Seq::empty()
    } else if parts.len() == 1 {
        parts[0]
    } else {
        join_space(parts.drop_last()) + seq![' '] + parts.last()
    }
}

/// The text of each branch.
pub open spec fn choice_texts(cs: Seq<IcuChoice>) -> Seq<Seq<char>> {
    Seq::new(cs.len(), |i: int| choice_part(cs[i]))
}

/// The values of all branches, in order.
pub open spec fn choice_values(cs: Seq<IcuChoice>) -> Seq<Entry>
    decreases cs.len(),
{
    if cs.len() == 0 {
        Seq::empty()
    } else {
        choice_values(cs.drop_last()) + tpl_values(cs.last().body)
    }
}

/// `{key, method, k1 {m1} k2 {m2} ...}`.
pub open spec fn icu_fragment(key: Seq<char>, method: Seq<char>, parts: Seq<Seq<char>>) -> Seq<char> {
    seq!['{'] + key + seq![',', ' '] + method + seq![',', ' '] + join_space(parts) + seq!['}']
}

/// The placeholder of a choice's controlling value: its name, else `0`.
pub open spec fn control_key(b: ChoiceBlock) -> Seq<char> {
    placeholder_key(b.value.name(), 0)
}

/// Builds the ICU fragment of the branches `choices` for a controlling value
/// already named `value_key`, with the values of all branches in order.
pub fn icu_from_choices(choices: &Vec<IcuChoice>, value_key: &String, method: &String) -> (r: (
    String,
    Vec<ValueWithPlaceholder>,
))
    requires
        choices_wf(choices@),
    ensures
        r.0@ == icu_fragment(value_key@, method@, choice_texts(choices@)),
        entries(r.1@) == choice_values(choices@),
{
    let mut parts = String::new();
    let mut values: Vec<ValueWithPlaceholder> = Vec::new();
    let n = choices.len();
    let mut i: usize = 0;
    while i < n
        invariant
            n == choices@.len(),
            i <= n,
            choices_wf(choices@),
            parts@ == join_space(choice_texts(choices@).subrange(0, i as int)),
            entries(values@) == choice_values(choices@.subrange(0, i as int)),
        decreases n - i,
    {
        let c = &choices[i];
        assert(c.body.wf());
        let (msg, mut vs) = transform_tpl_to_msg_and_values(&c.body);
        if i > 0 {
            parts.append(" ");
        }
        parts.append(c.key.as_str());
        parts.append(" {");
        parts.append(msg.as_str());
        parts.append("}");
        proof {
            reveal_strlit(" ");
            reveal_strlit(" {");
            reveal_strlit("}");
            let texts = choice_texts(choices@);
            assert(texts.subrange(0, i + 1).drop_last() =~= texts.subrange(0, i as int));
            assert(parts@ =~= join_space(texts.subrange(0, i + 1)));
        }
        let ghost before = values@;
        let ghost added = vs@;
        values.append(&mut vs);
        proof {
            assert(values@ == before + added);
            assert(entries(values@) =~= entries(before) + entries(added));
            assert(choices@.subrange(0, i + 1).drop_last() =~= choices@.subrange(0, i as int));
            assert(entries(values@) =~= choice_values(choices@.subrange(0, i + 1)));
        }
        i = i + 1;
    }
    assert(choice_texts(choices@).subrange(0, n as int) =~= choice_texts(choices@));
    assert(choices@.subrange(0, n as int) =~= choices@);
    let mut msg = String::new();
    msg.append("{");
    msg.append(value_key.as_str());
    msg.append(", ");
    msg.append(method.as_str());
    msg.append(", ");
    msg.append(parts.as_str());
    msg.append("}");
    proof {
        reveal_strlit("{");
        reveal_strlit(", ");
        reveal_strlit("}");
        assert(msg@ =~= icu_fragment(value_key@, method@, choice_texts(choices@)));
    }
    (msg, values)
}

/// Lowers a choice: the fragment `{key, method, ...}` and its values, the
/// controlling value first.
pub fn lower_choice(block: &ChoiceBlock) -> (r: (String, Vec<ValueWithPlaceholder>))
    requires
        block.wf(),
    ensures
        r.0@ == icu_fragment(control_key(*block), block.method@, choice_texts(block.choices@)),
        entries(r.1@) == seq![(control_key(*block), block.value.expr)] + choice_values(block.choices@),
{
    let control = get_value_with_placeholder(&block.value, 0);
    let (msg, mut vs) = icu_from_choices(&block.choices, &control.placeholder, &block.method);
    let ghost first = control@;
    let ghost rest = vs@;
    let mut values: Vec<ValueWithPlaceholder> = Vec::new();
    values.push(control);
    values.append(&mut vs);
    proof {
        assert(values@ =~= seq![values@[0]] + rest);
        assert(entries(values@) =~= seq![first] + entries(rest));
    }
    (msg, values)
}

/// The value of one property of a choice object literal.
pub enum PropValue {
    /// A string literal: `one: '# Book'`.
    Str(String),
    /// A template literal: `` one: `${name} has # friend` ``.
    Tpl(Template),
    /// Anything else, which contributes no branch.
    Other,
}

/// A property of a choice object literal; `key` is its name where the key is
/// a plain identifier, `None` for any other property or a spread.
pub struct ObjProp {
    pub key: Option<String>,
    pub value: PropValue,
}

/// The templates of the properties are well formed.
pub open spec fn props_wf(props: Seq<ObjProp>) -> bool {
    forall|i: int| 0 <= i < props.len() ==> match (#[trigger] props[i]).value {
        PropValue::Tpl(t) => t.wf(),
        _ => true,
    }
}

/// The branch text and values of one property, where it contributes a branch.
pub open spec fn prop_branch(p: ObjProp) -> Option<(Seq<char>, Seq<Entry>)> {
    match p.key {
        Some(k) => match p.value {
            PropValue::Str(s) => Some((k@ + seq![' ', '{'] + s@ + seq!['}'], Seq::empty())),
            PropValue::Tpl(t) => Some(
                (k@ + seq![' ', '{'] + tpl_message(t) + seq!['}'], tpl_values(t)),
            ),
            PropValue::Other => None,
        },
        None => None,
    }
}

/// The branch texts of the first `n` properties.
pub open spec fn prop_texts(props: Seq<ObjProp>, n: int) -> Seq<Seq<char>>
    decreases n,
{
    if n <= 0 {
        Seq::empty()
    } else {
        match prop_branch(props[n - 1]) {
            Some(b) => prop_texts(props, n - 1).push(b.0),
            None => prop_texts(props, n - 1),
        }
    }
}

/// The values of the branches of the first `n` properties.
pub open spec fn prop_values(props: Seq<ObjProp>, n: int) -> Seq<Entry>
    decreases n,
{
    if n <= 0 {
        Seq::empty()
    } else {
        match prop_branch(props[n - 1]) {
            Some(b) => prop_values(props, n - 1) + b.1,
            None => prop_values(props, n - 1),
        }
    }
}

/// A template of one chunk and no expression.
pub fn literal_template(s: String) -> (r: Template)
    ensures
        r.wf(),
        tpl_message(r) == s@,
        tpl_values(r) == Seq::<Entry>::empty(),
{
    let mut quasis: Vec<String> = Vec::new();
    quasis.push(s);
    let r = Template { quasis, exprs: Vec::new() };
    assert(tpl_message(r) =~= s@);
    assert(tpl_values(r) =~= Seq::<Entry>::empty());
    r
}

/// The branches of a choice object literal, in declaration order. Properties
/// that are not `identifier: string-or-template` are skipped.
pub fn choices_from_object(props: Vec<ObjProp>) -> (r: Vec<IcuChoice>)
    requires
        props_wf(props@),
    ensures
        choices_wf(r@),
        choice_texts(r@) == prop_texts(props@, props@.len() as int),
        choice_values(r@) == prop_values(props@, props@.len() as int),
{
    let ghost all = props@;
    let n = props.len();
    let mut rest = reversed(props);
    let mut r: Vec<IcuChoice> = Vec::new();
    let mut i: usize = 0;
    while i < n
        invariant
            n == all.len(),
            i <= n,
            props_wf(all),
            rest@.len() == n - i,
            forall|k: int| 0 <= k < n - i ==> #[trigger] rest@[k] == all[n - 1 - k],
            choices_wf(r@),
            choice_texts(r@) == prop_texts(all, i as int),
            choice_values(r@) == prop_values(all, i as int),
        decreases n - i,
    {
        let p = rest.pop().unwrap();
        assert(p == all[i as int]);
        let ghost before = r@;
        match p.key {
            Some(key) => match p.value {
                PropValue::Str(s) => {
                    let body = literal_template(s);
                    r.push(IcuChoice { key, body });
                },
                PropValue::Tpl(body) => {
                    r.push(IcuChoice { key, body });
                },
                PropValue::Other => {},
            },
            None => {},
        }
        proof {
            if r@.len() != before.len() {
                assert(r@.drop_last() =~= before);
                assert(choice_texts(r@) =~= choice_texts(before).push(choice_part(r@.last())));
                assert(choice_values(r@) == choice_values(before)
                    + tpl_values(r@.last().body));
            } else {
                assert(r@ =~= before);
            }
        }
        i = i + 1;
    }
    r
}

/// Builds the ICU fragment of a choice object literal for a controlling value
/// named `value_key`, with the values of its template branches in order.
pub fn get_icu_from_choices_obj(props: Vec<ObjProp>, value_key: &String, method: &String) -> (r: (
    String,
    Vec<ValueWithPlaceholder>,
))
    requires
        props_wf(props@),
    ensures
        r.0@ == icu_fragment(value_key@, method@, prop_texts(props@, props@.len() as int)),
        entries(r.1@) == prop_values(props@, props@.len() as int),
{
    let choices = choices_from_object(props);
    icu_from_choices(&choices, value_key, method)
}

} // verus!
