use vstd::prelude::*;
use crate::icu::lower_choice;
use crate::markup::{flatten_spec, token_views, tokens_wf, JsxChild, MsgToken, TokenView};
use crate::template::is_named;
use crate::text::{decimal, write_decimal};
use crate::values::{braced, entries, get_value_with_placeholder, placeholder_key, Entry, ValueWithPlaceholder};

verus! {

/// Opening tags minus closing tags in `ts`.
pub open spec fn nest(ts: Seq<TokenView>) -> int
    decreases ts.len(),
{
    if ts.len() == 0 {
        0
    } else {
        nest(ts.drop_last()) + match ts.last() {
            TokenView::Open(_) => 1int,
            TokenView::Close => -1int,
            _ => 0int,
        }
    }
}

/// Every closing tag closes an earlier opening tag, and every opening tag is closed.
pub open spec fn balanced(ts: Seq<TokenView>) -> bool {
    &&& nest(ts) == 0
    &&& forall|n: int| 0 <= n <= ts.len() ==> nest(#[trigger] ts.subrange(0, n)) >= 0
}

proof fn lemma_nest_concat(a: Seq<TokenView>, b: Seq<TokenView>)
    ensures
        nest(a + b) == nest(a) + nest(b),
    decreases b.len(),
{
    if b.len() > 0 {
        assert((a + b).drop_last() =~= a + b.drop_last());
        lemma_nest_concat(a, b.drop_last());
    } else {
        assert(a + b =~= a);
    }
}

proof fn lemma_balanced_concat(a: Seq<TokenView>, b: Seq<TokenView>)
    requires
        balanced(a),
        balanced(b),
    ensures
        balanced(a + b),
{
    lemma_nest_concat(a, b);
    assert forall|n: int| 0 <= n <= (a + b).len() implies nest(#[trigger] (a + b).subrange(0, n)) >= 0 by {
        if n <= a.len() {
            assert((a + b).subrange(0, n) =~= a.subrange(0, n));
        } else {
            assert((a + b).subrange(0, n) =~= a + b.subrange(0, n - a.len()));
            lemma_nest_concat(a, b.subrange(0, n - a.len()));
            assert(a.subrange(0, a.len() as int) =~= a);
        }
    }
}

proof fn lemma_balanced_wrap(tag: usize, x: Seq<TokenView>)
    requires
        balanced(x),
    ensures
        balanced(seq![TokenView::Open(tag)] + x + seq![TokenView::Close]),
{
    let o = seq![TokenView::Open(tag)];
    let w = o + x + seq![TokenView::Close];
    assert(nest(o) == 1) by {
        assert(o.drop_last() =~= Seq::<TokenView>::empty());
        assert(nest(o.drop_last()) == 0);
        assert(o.last() == TokenView::Open(tag));
    }
    lemma_nest_concat(o, x);
    assert(w.drop_last() =~= o + x);
    assert forall|n: int| 0 <= n <= w.len() implies nest(#[trigger] w.subrange(0, n)) >= 0 by {
        if n == 0 {
            assert(w.subrange(0, 0) =~= Seq::<TokenView>::empty());
        } else if n <= x.len() + 1 {
            assert(w.subrange(0, n) =~= o + x.subrange(0, n - 1));
            lemma_nest_concat(o, x.subrange(0, n - 1));
        } else {
            assert(w.subrange(0, n) =~= w);
        }
    }
}

proof fn lemma_balanced_single(t: TokenView)
    requires
        !(t is Open),
        !(t is Close),
    ensures
        balanced(seq![t]),
{
    assert(seq![t].drop_last() =~= Seq::<TokenView>::empty());
    assert(nest(seq![t].drop_last()) == 0);
    assert(nest(seq![t]) == 0);
    assert forall|n: int| 0 <= n <= 1 implies nest(#[trigger] seq![t].subrange(0, n)) >= 0 by {
        if n == 0 {
            assert(seq![t].subrange(0, 0) =~= Seq::<TokenView>::empty());
        } else {
            assert(seq![t].subrange(0, 1) =~= seq![t]);
        }
    }
}

/// Flattening markup always yields a balanced token stream.
pub proof fn lemma_flatten_balanced(cs: Seq<JsxChild>)
    ensures
        balanced(flatten_spec(cs)),
    decreases cs,
{
    if cs.len() == 0 {
        assert forall|n: int| 0 <= n <= 0 implies nest(#[trigger] flatten_spec(cs).subrange(0, n)) >= 0 by {
            assert(flatten_spec(cs).subrange(0, n) =~= Seq::<TokenView>::empty());
        }
    } else {
        lemma_flatten_balanced(cs.drop_last());
        let e = Seq::<TokenView>::empty();
        assert(balanced(e)) by {
            assert forall|n: int| 0 <= n <= 0 implies nest(#[trigger] e.subrange(0, n)) >= 0 by {
                assert(e.subrange(0, n) =~= e);
            }
        }
        let prev = flatten_spec(cs.drop_last());
        let last: Seq<TokenView> = match cs.last() {
            JsxChild::Text(s) => {
                lemma_balanced_single(TokenView::Text(s@));
                seq![TokenView::Text(s@)]
            },
            JsxChild::Expr(x) => match x.kind {
                crate::values::ExprKind::Str(s) => {
                    lemma_balanced_single(TokenView::Text(s@));
                    seq![TokenView::Text(s@)]
                },
                _ => {
                    lemma_balanced_single(TokenView::Value(x));
                    seq![TokenView::Value(x)]
                },
            },
            JsxChild::Element(el) => {
                if crate::markup::is_choice_elem(el) {
                    lemma_balanced_single(crate::markup::choice_view(el.attrs@));
                    seq![crate::markup::choice_view(el.attrs@)]
                } else {
                    assert(decreases_to!(cs => el.children@)) by {
                        assert(cs[cs.len() - 1] == cs.last());
                    }
                    lemma_flatten_balanced(el.children@);
                    lemma_balanced_wrap(el.tag, flatten_spec(el.children@));
                    seq![TokenView::Open(el.tag)] + flatten_spec(el.children@) + seq![TokenView::Close]
                }
            },
            JsxChild::Other => e,
        };
        assert(flatten_spec(cs) == prev + last);
        lemma_balanced_concat(prev, last);
    }
}

/// What the builder has gathered after some tokens.
pub struct BuildState {
    pub message: Seq<char>,
    pub named: Seq<Entry>,
    pub positional: Seq<Entry>,
    pub components: Seq<usize>,
    pub stack: Seq<nat>,
    pub unnamed: nat,
}

pub open spec fn open_marker(k: nat) -> Seq<char> {
    seq!['<'] + decimal(k) + seq!['>']
}

pub open spec fn empty_marker(k: nat) -> Seq<char> {
    seq!['<'] + decimal(k) + seq!['/', '>']
}

pub open spec fn close_marker(k: nat) -> Seq<char> {
    seq!['<', '/'] + decimal(k) + seq!['>']
}

/// The state after token `i` of `ts`, from the state before it. An opening
/// tag directly followed by its closing tag is written once, as `<k/>`.
pub open spec fn step(st: BuildState, ts: Seq<TokenView>, i: int) -> BuildState {
    match ts[i] {
        TokenView::Text(s) => BuildState { message: st.message + s, ..st },
        TokenView::Value(e) => {
            let key = placeholder_key(e.name(), st.unnamed);
            if e.is_named() {
                BuildState {
                    message: st.message + braced(key),
                    named: st.named.push((key, e.expr)),
                    ..st
                }
            } else {
                BuildState {
                    message: st.message + braced(key),
                    positional: st.positional.push((key, e.expr)),
                    unnamed: st.unnamed + 1,
                    ..st
                }
            }
        },
        TokenView::Choice(frag, vals) => BuildState {
            message: st.message + frag,
            named: st.named + vals,
            ..st
        },
        TokenView::Open(tag) => {
            let k = st.components.len();
            if i + 1 < ts.len() && ts[i + 1] is Close {
                BuildState {
                    message: st.message + empty_marker(k),
                    components: st.components.push(tag),
                    ..st
                }
            } else {
                BuildState {
                    message: st.message + open_marker(k),
                    components: st.components.push(tag),
                    stack: st.stack.push(k),
                    ..st
                }
            }
        },
        TokenView::Close => {
            if i > 0 && ts[i - 1] is Open {
                st
            } else if st.stack.len() > 0 {
                BuildState {
                    message: st.message + close_marker(st.stack.last()),
                    stack: st.stack.drop_last(),
                    ..st
                }
            } else {
                st
            }
        },
    }
}

/// The state after the first `n` tokens of `ts`.
pub open spec fn build_prefix(ts: Seq<TokenView>, n: int) -> BuildState
    decreases n,
{
    if n <= 0 {
        BuildState {
            message: Seq::empty(),
            named: Seq::empty(),
            positional: Seq::empty(),
            components: Seq::empty(),
            stack: Seq::empty(),
            unnamed: 0,
        }
    } else {
        step(build_prefix(ts, n - 1), ts, n - 1)
    }
}

/// The state after all of `ts`.
pub open spec fn build_spec(ts: Seq<TokenView>) -> BuildState {
    build_prefix(ts, ts.len() as int)
}

/// An opening tag at `i - 1` waits for its closing tag at `i`, and so was
/// never put on the stack.
pub open spec fn pending(ts: Seq<TokenView>, i: int) -> bool {
    0 < i < ts.len() && ts[i - 1] is Open && ts[i] is Close
}

/// The opening and closing tags of `ts`, in order.
pub open spec fn tag_tokens(ts: Seq<TokenView>) -> Seq<TokenView> {
    ts.filter(|t: TokenView| t is Open || t is Close)
}

/// The tags that the opening tags of `ts` carry, in order.
pub open spec fn opened_tags(ts: Seq<TokenView>) -> Seq<usize> {
    ts.filter_map(|t: TokenView| match t {
        TokenView::Open(tag) => Some(tag),
        _ => None,
    })
}

proof fn lemma_components_prefix(ts: Seq<TokenView>, n: int)
    requires
        0 <= n <= ts.len(),
    ensures
        build_prefix(ts, n).components == opened_tags(ts.subrange(0, n)),
        build_prefix(ts, n).positional.len() == build_prefix(ts, n).unnamed,
        forall|k: int| 0 <= k < build_prefix(ts, n).positional.len()
            ==> (#[trigger] build_prefix(ts, n).positional[k]).0 == decimal(k as nat),
    decreases n,
{
    if n == 0 {
        assert(ts.subrange(0, 0) =~= Seq::<TokenView>::empty());
    } else {
        lemma_components_prefix(ts, n - 1);
        assert(ts.subrange(0, n).drop_last() =~= ts.subrange(0, n - 1));
        let prev = build_prefix(ts, n - 1);
        let cur = build_prefix(ts, n);
        assert forall|k: int| 0 <= k < cur.positional.len() implies (#[trigger] cur.positional[k]).0 == decimal(k as nat) by {
            if k < prev.positional.len() {
                assert(cur.positional[k] == prev.positional[k]);
            }
        }
    }
}

proof fn lemma_opened_tags_of_tags(ts: Seq<TokenView>)
    ensures
        opened_tags(tag_tokens(ts)) == opened_tags(ts),
    decreases ts.len(),
{
    reveal(Seq::filter);
    if ts.len() > 0 {
        lemma_opened_tags_of_tags(ts.drop_last());
        let t = ts.last();
        let f = tag_tokens(ts.drop_last());
        if t is Open || t is Close {
            assert(tag_tokens(ts) == f.push(t));
            assert(f.push(t).drop_last() =~= f);
        }
    }
}

/// Positional values are numbered from zero in order of appearance: the k-th
/// value without a name has placeholder `k`.
pub proof fn lemma_positional_placeholders(ts: Seq<TokenView>)
    ensures
        forall|k: int| 0 <= k < build_spec(ts).positional.len()
            ==> (#[trigger] build_spec(ts).positional[k]).0 == decimal(k as nat),
{
    lemma_components_prefix(ts, ts.len() as int);
}

/// Components are numbered by the order of their opening tags alone: two
/// token streams with the same tags, in the same order, get the same
/// components, whatever text, values and choices stand between the tags.
pub proof fn lemma_tag_indices_stable(a: Seq<TokenView>, b: Seq<TokenView>)
    requires
        tag_tokens(a) == tag_tokens(b),
    ensures
        build_spec(a).components == build_spec(b).components,
        build_spec(a).components == opened_tags(a),
{
    lemma_components_prefix(a, a.len() as int);
    lemma_components_prefix(b, b.len() as int);
    assert(a.subrange(0, a.len() as int) =~= a);
    assert(b.subrange(0, b.len() as int) =~= b);
    lemma_opened_tags_of_tags(a);
    lemma_opened_tags_of_tags(b);
}

/// The message, values and components gathered from a token stream, before
/// the message is normalized and the values deduplicated.
pub struct MessageBuilder {
    pub message: String,
    /// Values with a name, and the values of choices.
    pub values: Vec<ValueWithPlaceholder>,
    /// Values without a name, by their position.
    pub values_indexed: Vec<ValueWithPlaceholder>,
    /// The opening tags, by index.
    pub components: Vec<usize>,
}

impl MessageBuilder {
    /// Consumes `tokens` once, left to right.
    pub fn new(tokens: &Vec<MsgToken>) -> (r: MessageBuilder)
        requires
            tokens_wf(tokens@),
            balanced(token_views(tokens@)),
        ensures
            r.message@ == build_spec(token_views(tokens@)).message,
            entries(r.values@) == build_spec(token_views(tokens@)).named,
            entries(r.values_indexed@) == build_spec(token_views(tokens@)).positional,
            r.components@ == build_spec(token_views(tokens@)).components,
    {
        let ghost ts = token_views(tokens@);
        let n = tokens.len();
        let mut message = String::new();
        let mut values: Vec<ValueWithPlaceholder> = Vec::new();
        let mut values_indexed: Vec<ValueWithPlaceholder> = Vec::new();
        let mut components: Vec<usize> = Vec::new();
        let mut stack: Vec<usize> = Vec::new();
        let mut unnamed: usize = 0;
        let mut i: usize = 0;
        assert(ts.subrange(0, 0) =~= Seq::<TokenView>::empty());
        while i < n
            invariant
                n == tokens@.len() == ts.len(),
                ts == token_views(tokens@),
                tokens_wf(tokens@),
                balanced(ts),
                i <= n,
                message@ == build_prefix(ts, i as int).message,
                entries(values@) == build_prefix(ts, i as int).named,
                entries(values_indexed@) == build_prefix(ts, i as int).positional,
                components@ == build_prefix(ts, i as int).components,
                unnamed == build_prefix(ts, i as int).unnamed,
                stack@.len() == build_prefix(ts, i as int).stack.len(),
                forall|j: int| 0 <= j < stack@.len() ==> stack@[j] as nat == #[trigger] build_prefix(ts, i as int).stack[j],
                components@.len() <= i,
                unnamed <= i,
                stack@.len() + (if pending(ts, i as int) { 1int } else { 0int }) == nest(ts.subrange(0, i as int)),
            decreases n - i,
        {
            let ghost st = build_prefix(ts, i as int);
            let ghost pre = ts.subrange(0, i as int);
            assert(ts.subrange(0, i + 1).drop_last() =~= pre);
            assert(ts[i as int] == tokens@[i as int]@);
            assert(tokens@[i as int].wf());
            match &tokens[i] {
                MsgToken::String(s) => {
                    message.append(s.as_str());
                },
                MsgToken::Value(e) => {
                    let v = get_value_with_placeholder(e, unnamed);
                    message.append("{");
                    message.append(v.placeholder.as_str());
                    message.append("}");
                    proof {
                        reveal_strlit("{");
                        reveal_strlit("}");
                        assert(message@ =~= st.message + braced(v.placeholder@));
                    }
                    let ghost e2 = v@;
                    if is_named(e) {
                        let ghost before = values@;
                        values.push(v);
                        assert(entries(values@) =~= entries(before).push(e2));
                    } else {
                        let ghost before = values_indexed@;
                        values_indexed.push(v);
                        assert(entries(values_indexed@) =~= entries(before).push(e2));
                        unnamed = unnamed + 1;
                    }
                },
                MsgToken::Icu(b) => {
                    let (frag, mut vs) = lower_choice(b);
                    message.append(frag.as_str());
                    let ghost before = values@;
                    let ghost added = vs@;
                    values.append(&mut vs);
                    assert(entries(values@) =~= entries(before) + entries(added));
                },
                MsgToken::TagOpening(tag) => {
                    let k = components.len();
                    components.push(*tag);
                    let collapse = i + 1 < n && is_close(&tokens[i + 1]);
                    message.append("<");
                    write_decimal(k, &mut message);
                    if collapse {
                        message.append("/>");
                        proof {
                            reveal_strlit("<");
                            reveal_strlit("/>");
                            assert(message@ =~= st.message + empty_marker(k as nat));
                        }
                    } else {
                        message.append(">");
                        stack.push(k);
                        proof {
                            reveal_strlit("<");
                            reveal_strlit(">");
                            assert(message@ =~= st.message + open_marker(k as nat));
                        }
                    }
                },
                MsgToken::TagClosing => {
                    let after_open = i > 0 && is_open(&tokens[i - 1]);
                    if !after_open {
                        proof {
                            assert(ts.subrange(0, i + 1) =~= pre.push(TokenView::Close));
                            assert(nest(ts.subrange(0, i + 1)) >= 0);
                        }
                        let k = stack.pop().unwrap();
                        message.append("</");
                        write_decimal(k, &mut message);
                        message.append(">");
                        proof {
                            reveal_strlit("</");
                            reveal_strlit(">");
                            assert(message@ =~= st.message + close_marker(st.stack.last()));
                        }
                    }
                },
            }
            proof {
                let nx = build_prefix(ts, i + 1);
                assert(nx == step(st, ts, i as int));
                assert(stack@.len() == nx.stack.len());
                assert forall|j: int| 0 <= j < stack@.len() implies stack@[j] as nat == #[trigger] nx.stack[j] by {
                    if j < st.stack.len() {
                        assert(nx.stack[j] == st.stack[j]);
                    }
                }
            }
            i = i + 1;
        }
        MessageBuilder { message, values, values_indexed, components }
    }
}

fn is_close(t: &MsgToken) -> (r: bool)
    ensures
        r == (t@ is Close),
{
    match t {
        MsgToken::TagClosing => true,
        _ => false,
    }
}

fn is_open(t: &MsgToken) -> (r: bool)
    ensures
        r == (t@ is Open),
{
    match t {
        MsgToken::TagOpening(_) => true,
        _ => false,
    }
}

} // verus!
