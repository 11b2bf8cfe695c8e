use vstd::prelude::*;

verus! {

/// A character that separates words of a message.
pub open spec fn is_ws(c: char) -> bool {
    c == ' ' || c == '\t' || c == '\n' || c == '\r' || c == '\x0B' || c == '\x0C'
}

/// The decimal digit for `d < 10`.
pub open spec fn digit(d: nat) -> char {
    seq!['0', '1', '2', '3', '4', '5', '6', '7', '8', '9'][d as int]
}

/// The decimal rendering of `n`, most significant digit first.
pub open spec fn decimal(n: nat) -> Seq<char>
    decreases n,
{
    if n < 10 {
        seq![digit(n)]
    } else {
        decimal(n / 10).push(digit(n % 10))
    }
}

/// Runs of whitespace collapsed to a single space.
pub open spec fn collapse(s: Seq<char>) -> Seq<char>
    decreases s.len(),
{
    if s.len() == 0 {
        s
    } else if is_ws(s[0]) {
        if s.len() >= 2 && is_ws(s[1]) {
            collapse(s.drop_first())
        } else {
            seq![' '] + collapse(s.drop_first())
        }
    } else {
        seq![s[0]] + collapse(s.drop_first())
    }
}

/// `s` without one leading and one trailing space.
pub open spec fn trim_space(s: Seq<char>) -> Seq<char> {
    let a = if s.len() > 0 && s[0] == ' ' { s.drop_first() } else { s };
    if a.len() > 0 && a.last() == ' ' { a.drop_last() } else { a }
}

/// A message with every whitespace run collapsed to one space, then trimmed.
pub open spec fn normalize(s: Seq<char>) -> Seq<char> {
    trim_space(collapse(s))
}

/// A message in normal form: no whitespace at either end, no two whitespace
/// characters in a row, and every whitespace character a space.
pub open spec fn is_normal(s: Seq<char>) -> bool {
    &&& s.len() > 0 ==> !is_ws(s[0]) && !is_ws(s.last())
    &&& forall|i: int| 0 <= i < s.len() && is_ws(#[trigger] s[i]) ==> s[i] == ' '
    &&& forall|i: int| 0 <= i < s.len() - 1 && is_ws(#[trigger] s[i]) ==> !is_ws(s[i + 1])
}

/// The characters of `s` that are not whitespace, in order.
pub open spec fn visible(s: Seq<char>) -> Seq<char> {
    s.filter(|c: char| !is_ws(c))
}

/// Relies on `String::push`: appends one character.
#[verifier::external_body]
pub(crate) fn push_char(s: &mut String, c: char)
    ensures
        final(s)@ == old(s)@.push(c),
{
    s.push(c)
}

/// Relies on `str::chars` collected into a `Vec`: the characters of `s` in order.
#[verifier::external_body]
pub(crate) fn char_vec(s: &str) -> (r: Vec<char>)
    ensures
        r@ == s@,
{
    s.chars().collect()
}

/// Whether `s` is the text `lit`.
pub fn eq_lit(s: &String, lit: &str) -> (r: bool)
    ensures
        r == (s@ == lit@),
{
    let l = String::from_str(lit);
    *s == l
}

fn digit_char(d: usize) -> (c: char)
    requires
        d < 10,
    ensures
        c == digit(d as nat),
{
    if d == 0 { '0' } else if d == 1 { '1' } else if d == 2 { '2' } else if d == 3 { '3' }
    else if d == 4 { '4' } else if d == 5 { '5' } else if d == 6 { '6' } else if d == 7 { '7' }
    else if d == 8 { '8' } else { '9' }
}

/// Appends the decimal rendering of `n` to `out`.
pub fn write_decimal(n: usize, out: &mut String)
    ensures
        final(out)@ == old(out)@ + decimal(n as nat),
    decreases n,
{
    if n >= 10 {
        write_decimal(n / 10, out);
    }
    push_char(out, digit_char(n % 10));
    proof {
        assert(final(out)@ =~= old(out)@ + decimal(n as nat));
    }
}


/// Collapses every whitespace run of `s` to a single space and trims both ends.
pub fn normalize_whitespaces(s: &str) -> (r: String)
    ensures
        r@ == normalize(s@),
{
    let cs = char_vec(s);
    let n = cs.len();
    let mut collapsed: Vec<char> = Vec::new();
    let mut i: usize = 0;
    assert(s@.subrange(0, n as int) =~= s@);
    assert(collapsed@ + collapse(s@) =~= collapse(s@));
    while i < n
        invariant
            n == cs@.len(),
            cs@ == s@,
            i <= n,
            collapsed@ + collapse(s@.subrange(i as int, n as int)) == collapse(s@),
        decreases n - i,
    {
        let c = cs[i];
        let ghost rest = s@.subrange(i as int, n as int);
        let ghost before = collapsed@;
        assert(rest.drop_first() =~= s@.subrange(i + 1, n as int));
        if is_space(c) {
            if i + 1 < n && is_space(cs[i + 1]) {
            } else {
                collapsed.push(' ');
                assert(collapsed@ + collapse(rest.drop_first()) =~= before + collapse(rest));
            }
        } else {
            collapsed.push(c);
            assert(collapsed@ + collapse(rest.drop_first()) =~= before + collapse(rest));
        }
        i = i + 1;
    }
    assert(s@.subrange(n as int, n as int) =~= Seq::<char>::empty());
    assert(collapsed@ =~= collapse(s@));
    let m = collapsed.len();
    let start: usize = if m > 0 && collapsed[0] == ' ' { 1 } else { 0 };
    let end: usize = if m > start && collapsed[m - 1] == ' ' { m - 1 } else { m };
    let mut r = String::new();
    let mut k: usize = start;
    while k < end
        invariant
            start <= k <= end <= m == collapsed@.len(),
            r@ == collapsed@.subrange(start as int, k as int),
        decreases end - k,
    {
        push_char(&mut r, collapsed[k]);
        assert(r@ =~= collapsed@.subrange(start as int, k + 1));
        k = k + 1;
    }
    assert(r@ =~= normalize(s@));
    r
}

fn is_space(c: char) -> (r: bool)
    ensures
        r == is_ws(c),
{
    c == ' ' || c == '\t' || c == '\n' || c == '\r' || c == '\x0B' || c == '\x0C'
}

/// The first character of a collapsed message tells whether the original began
/// with whitespace.
proof fn lemma_collapse_first(s: Seq<char>)
    requires
        s.len() > 0,
    ensures
        collapse(s).len() > 0,
        collapse(s)[0] == if is_ws(s[0]) { ' ' } else { s[0] },
    decreases s.len(),
{
    if is_ws(s[0]) && s.len() >= 2 && is_ws(s[1]) {
        lemma_collapse_first(s.drop_first());
    }
}

/// Collapsing leaves only single spaces.
proof fn lemma_collapse_spaces(s: Seq<char>)
    ensures
        forall|i: int| 0 <= i < collapse(s).len() && is_ws(#[trigger] collapse(s)[i]) ==> collapse(s)[i] == ' ',
        forall|i: int| 0 <= i < collapse(s).len() - 1 && is_ws(#[trigger] collapse(s)[i]) ==> !is_ws(collapse(s)[i + 1]),
    decreases s.len(),
{
    if s.len() > 0 {
        let t = s.drop_first();
        lemma_collapse_spaces(t);
        if t.len() > 0 {
            lemma_collapse_first(t);
        }
        let c = collapse(s);
        let ct = collapse(t);
        if !(is_ws(s[0]) && s.len() >= 2 && is_ws(s[1])) {
            assert forall|i: int| 0 <= i < c.len() && is_ws(#[trigger] c[i]) implies c[i] == ' ' by {
                if i > 0 {
                    assert(c[i] == ct[i - 1]);
                }
            }
            assert forall|i: int| 0 <= i < c.len() - 1 && is_ws(#[trigger] c[i]) implies !is_ws(c[i + 1]) by {
                if i > 0 {
                    assert(c[i] == ct[i - 1]);
                } else {
                    assert(c[1] == ct[0]);
                }
            }
        }
    }
}

/// A message without double or non-space whitespace is its own collapse.
proof fn lemma_collapse_single_spaces(t: Seq<char>)
    requires
        forall|i: int| 0 <= i < t.len() && is_ws(#[trigger] t[i]) ==> t[i] == ' ',
        forall|i: int| 0 <= i < t.len() - 1 && is_ws(#[trigger] t[i]) ==> !is_ws(t[i + 1]),
    ensures
        collapse(t) == t,
    decreases t.len(),
{
    if t.len() > 0 {
        let u = t.drop_first();
        assert forall|i: int| 0 <= i < u.len() && is_ws(#[trigger] u[i]) implies u[i] == ' ' by {
            assert(u[i] == t[i + 1]);
        }
        assert forall|i: int| 0 <= i < u.len() - 1 && is_ws(#[trigger] u[i]) implies !is_ws(u[i + 1]) by {
            assert(u[i] == t[i + 1]);
        }
        lemma_collapse_single_spaces(u);
        if t.len() >= 2 && is_ws(t[0]) {
            assert(!is_ws(t[1]));
        }
        assert(collapse(t) =~= t);
    }
}

/// Normalization yields a message in normal form.
pub proof fn lemma_normalize_is_normal(s: Seq<char>)
    ensures
        is_normal(normalize(s)),
{
    lemma_collapse_spaces(s);
    let c = collapse(s);
    let a = if c.len() > 0 && c[0] == ' ' { c.drop_first() } else { c };
    let r = normalize(s);
    assert forall|i: int| 0 <= i < a.len() && is_ws(#[trigger] a[i]) implies a[i] == ' ' by {
        if c.len() > 0 && c[0] == ' ' {
            assert(a[i] == c[i + 1]);
        }
    }
    assert forall|i: int| 0 <= i < a.len() - 1 && is_ws(#[trigger] a[i]) implies !is_ws(a[i + 1]) by {
        if c.len() > 0 && c[0] == ' ' {
            assert(a[i] == c[i + 1]);
            assert(a[i + 1] == c[i + 2]);
        }
    }
    if a.len() > 0 && c.len() > 0 && c[0] == ' ' {
        assert(a[0] == c[1]);
    }
    assert forall|i: int| 0 <= i < r.len() && is_ws(#[trigger] r[i]) implies r[i] == ' ' by {
        assert(r[i] == a[i]);
    }
    assert forall|i: int| 0 <= i < r.len() - 1 && is_ws(#[trigger] r[i]) implies !is_ws(r[i + 1]) by {
        assert(r[i] == a[i]);
        assert(r[i + 1] == a[i + 1]);
    }
    if r.len() > 0 {
        assert(r[0] == a[0]);
        if a.len() > 0 && a.last() == ' ' {
            assert(r.last() == a[a.len() - 2]);
        }
    }
}

/// A message in normal form is left unchanged by normalization.
pub proof fn lemma_normalize_normal(t: Seq<char>)
    requires
        is_normal(t),
    ensures
        normalize(t) == t,
{
    lemma_collapse_single_spaces(t);
    assert(trim_space(t) =~= t);
}

/// Normalizing an already normalized message changes nothing.
pub proof fn lemma_normalize_idempotent(s: Seq<char>)
    ensures
        normalize(normalize(s)) == normalize(s),
{
    lemma_normalize_is_normal(s);
    lemma_normalize_normal(normalize(s));
}

proof fn lemma_visible_single(c: char)
    ensures
        visible(seq![c]) == if is_ws(c) { Seq::<char>::empty() } else { seq![c] },
{
    reveal_with_fuel(Seq::filter, 2);
    assert(seq![c].drop_last() =~= Seq::<char>::empty());
}

proof fn lemma_visible_collapse(s: Seq<char>)
    ensures
        visible(collapse(s)) == visible(s),
    decreases s.len(),
{
    if s.len() > 0 {
        let t = s.drop_first();
        lemma_visible_collapse(t);
        assert(s =~= seq![s[0]] + t);
        Seq::filter_distributes_over_add(seq![s[0]], t, |c: char| !is_ws(c));
        lemma_visible_single(s[0]);
        lemma_visible_single(' ');
        if is_ws(s[0]) {
            if !(s.len() >= 2 && is_ws(s[1])) {
                Seq::filter_distributes_over_add(seq![' '], collapse(t), |c: char| !is_ws(c));
            }
            assert(visible(s) =~= visible(t));
        } else {
            Seq::filter_distributes_over_add(seq![s[0]], collapse(t), |c: char| !is_ws(c));
        }
    }
}

proof fn lemma_visible_trim(s: Seq<char>)
    ensures
        visible(trim_space(s)) == visible(s),
{
    lemma_visible_single(' ');
    let a = if s.len() > 0 && s[0] == ' ' { s.drop_first() } else { s };
    if s.len() > 0 && s[0] == ' ' {
        assert(s =~= seq![' '] + a);
        Seq::filter_distributes_over_add(seq![' '], a, |c: char| !is_ws(c));
    }
    if a.len() > 0 && a.last() == ' ' {
        assert(a =~= a.drop_last() + seq![' ']);
        Seq::filter_distributes_over_add(a.drop_last(), seq![' '], |c: char| !is_ws(c));
        assert(visible(a) =~= visible(a.drop_last()));
    }
}

/// Normalization only touches whitespace: the other characters, placeholder
/// braces included, stay as they were and in the same order.
pub proof fn lemma_normalize_keeps_text(s: Seq<char>)
    ensures
        visible(normalize(s)) == visible(s),
{
    lemma_visible_collapse(s);
    lemma_visible_trim(collapse(s));
}

} // verus!
