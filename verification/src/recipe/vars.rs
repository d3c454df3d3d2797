//! Recipe variables: `${name}` in a step's text stands for the value of the
//! variable `name`.
use vstd::prelude::*;
use vstd::string::*;

use crate::text::{chars_of, str_eq};

verus! {

/// The value of variable `name`: that of the last pair naming it, so that a
/// later definition overrides an earlier one.
pub open spec fn var_value(vars: Seq<(String, String)>, name: Seq<char>) -> Option<Seq<char>>
    decreases vars.len(),
{
    if vars.len() == 0 {
        None
    } else if vars.last().0@ == name {
        Some(vars.last().1@)
    } else {
        var_value(vars.drop_last(), name)
    }
}

/// The index of the first `}` at or after `i`, or -1 when there is none.
pub open spec fn close_brace(t: Seq<char>, i: int) -> int
    decreases t.len() - i,
{
    if i < 0 || i >= t.len() {
        -1
    } else if t[i] == '}' {
        i
    } else {
        close_brace(t, i + 1)
    }
}

/// Where `close_brace` points: at a `}` after `i`, with none between.
pub proof fn lemma_close_brace(t: Seq<char>, i: int)
    requires
        0 <= i,
    ensures
        close_brace(t, i) == -1 || (i <= close_brace(t, i) < t.len() && t[close_brace(t, i)] == '}'),
        close_brace(t, i) == -1 ==> forall|k: int| i <= k < t.len() ==> t[k] != '}',
        close_brace(t, i) >= 0 ==> forall|k: int| i <= k < close_brace(t, i) ==> t[k] != '}',
    decreases t.len() - i,
{
    if i < t.len() && t[i] != '}' {
        lemma_close_brace(t, i + 1);
    }
}

/// The text from index `i` on, where each `${name}` whose variable is set
/// is replaced by its value (the name ends at the first `}`); all other
/// text, an unset `${name}` included, is kept as it is.
pub open spec fn substituted_from(t: Seq<char>, i: int, vars: Seq<(String, String)>) -> Seq<char>
    decreases t.len() - i,
{
    if i < 0 || i >= t.len() {
        Seq::empty()
    } else {
        let c = close_brace(t, i + 2);
        if t[i] == '$' && i + 1 < t.len() && t[i + 1] == '{' && c >= 0 && var_value(
            vars,
            t.subrange(i + 2, c),
        ) is Some {
            proof {
                lemma_close_brace(t, i + 2);
            }
            var_value(vars, t.subrange(i + 2, c))->0 + substituted_from(t, c + 1, vars)
        } else {
            seq![t[i]] + substituted_from(t, i + 1, vars)
        }
    }
}

/// The whole text with its variables replaced.
pub open spec fn substituted(t: Seq<char>, vars: Seq<(String, String)>) -> Seq<char> {
    substituted_from(t, 0, vars)
}

/// Variables given later override earlier ones: in `defaults + given`, a
/// name that `given` sets has the value `given` gives it, and any other
/// name keeps its default.
pub proof fn law_given_vars_override(
    defaults: Seq<(String, String)>,
    given: Seq<(String, String)>,
    name: Seq<char>,
)
    ensures
        var_value(defaults + given, name) == match var_value(given, name) {
            Some(v) => Some(v),
            None => var_value(defaults, name),
        },
    decreases given.len(),
{
    if given.len() == 0 {
        assert(defaults + given =~= defaults);
    } else {
        assert((defaults + given).drop_last() =~= defaults + given.drop_last());
        law_given_vars_override(defaults, given.drop_last(), name);
    }
}

/// A variable's value is that of the last pair that names it; a variable
/// that no pair names is not set.
pub proof fn law_value_is_last_definition(vars: Seq<(String, String)>, name: Seq<char>)
    ensures
        var_value(vars, name) is None <==> forall|k: int| 0 <= k < vars.len() ==> (#[trigger] vars[k]).0@ != name,
        var_value(vars, name) matches Some(x) ==> exists|k: int|
            0 <= k < vars.len() && (#[trigger] vars[k]).0@ == name && vars[k].1@ == x && forall|j: int|
                k < j < vars.len() ==> (#[trigger] vars[j]).0@ != name,
    decreases vars.len(),
{
    if vars.len() > 0 {
        let pre = vars.drop_last();
        law_value_is_last_definition(pre, name);
        if vars.last().0@ != name {
            assert forall|k: int| 0 <= k < pre.len() implies #[trigger] pre[k] == vars[k] by {}
            if var_value(vars, name) is None {
                assert forall|k: int| 0 <= k < vars.len() implies (#[trigger] vars[k]).0@ != name by {
                    if k < pre.len() {
                        assert(pre[k] == vars[k]);
                    }
                }
            } else {
                let k = choose|k: int|
                    0 <= k < pre.len() && (#[trigger] pre[k]).0@ == name && pre[k].1@ == var_value(vars, name)->0
                        && forall|j: int| k < j < pre.len() ==> (#[trigger] pre[j]).0@ != name;
                assert(vars[k] == pre[k]);
                assert forall|j: int| k < j < vars.len() implies (#[trigger] vars[j]).0@ != name by {
                    if j < pre.len() {
                        assert(vars[j] == pre[j]);
                    }
                }
            }
            if forall|k: int| 0 <= k < vars.len() ==> (#[trigger] vars[k]).0@ != name {
                assert forall|k: int| 0 <= k < pre.len() implies (#[trigger] pre[k]).0@ != name by {
                    assert(pre[k] == vars[k]);
                }
            }
        } else {
            assert(vars[vars.len() - 1].0@ == name);
        }
    }
}

/// A text without `$` is kept as it is, whatever the variables.
pub proof fn law_plain_text_unchanged(t: Seq<char>, vars: Seq<(String, String)>)
    requires
        forall|k: int| 0 <= k < t.len() ==> t[k] != '$',
    ensures
        substituted(t, vars) == t,
{
    lemma_plain_from(t, 0, vars);
    assert(t.subrange(0, t.len() as int) =~= t);
}

proof fn lemma_plain_from(t: Seq<char>, i: int, vars: Seq<(String, String)>)
    requires
        0 <= i <= t.len(),
        forall|k: int| 0 <= k < t.len() ==> t[k] != '$',
    ensures
        substituted_from(t, i, vars) == t.subrange(i, t.len() as int),
    decreases t.len() - i,
{
    if i < t.len() {
        lemma_plain_from(t, i + 1, vars);
        assert(t.subrange(i, t.len() as int) =~= seq![t[i]] + t.subrange(i + 1, t.len() as int));
    } else {
        assert(t.subrange(i, t.len() as int) =~= Seq::<char>::empty());
    }
}

proof fn lemma_close_brace_shift(p: Seq<char>, r: Seq<char>, j: int)
    requires
        0 <= j,
    ensures
        close_brace(p + r, p.len() + j) == if close_brace(r, j) >= 0 {
            p.len() + close_brace(r, j)
        } else {
            -1
        },
    decreases r.len() - j,
{
    if j < r.len() {
        assert((p + r)[p.len() + j] == r[j]);
        if r[j] != '}' {
            lemma_close_brace_shift(p, r, j + 1);
        }
    }
}

proof fn lemma_substituted_shift(p: Seq<char>, r: Seq<char>, j: int, vars: Seq<(String, String)>)
    requires
        0 <= j,
    ensures
        substituted_from(p + r, p.len() + j, vars) == substituted_from(r, j, vars),
    decreases r.len() - j,
{
    let t = p + r;
    let i = p.len() + j;
    if j < r.len() {
        assert(t[i] == r[j]);
        if j + 1 < r.len() {
            assert(t[i + 1] == r[j + 1]);
        }
        lemma_close_brace_shift(p, r, j + 2);
        lemma_close_brace(r, j + 2);
        let cr = close_brace(r, j + 2);
        if cr >= 0 {
            assert(t.subrange(i + 2, p.len() + cr) =~= r.subrange(j + 2, cr));
            lemma_substituted_shift(p, r, cr + 1, vars);
        }
        lemma_substituted_shift(p, r, j + 1, vars);
    }
}

/// A reference to a set variable is replaced by its value, and what follows
/// it is substituted in turn: `${name}` (a name without `}`) followed by
/// `rest` becomes the value of `name` followed by the substitution of
/// `rest`.
pub proof fn law_reference_is_replaced(name: Seq<char>, rest: Seq<char>, vars: Seq<(String, String)>)
    requires
        forall|k: int| 0 <= k < name.len() ==> name[k] != '}',
        var_value(vars, name) is Some,
    ensures
        substituted(seq!['$', '{'] + name + seq!['}'] + rest, vars) == var_value(vars, name)->0
            + substituted(rest, vars),
{
    let p = seq!['$', '{'] + name + seq!['}'];
    let t = p + rest;
    let e: int = 2 + name.len() as int;
    assert(t[0] == '$');
    assert(t[1] == '{');
    assert(t[e] == '}');
    assert forall|k: int| 2 <= k < e implies t[k] != '}' by {
        assert(t[k] == name[k - 2]);
    }
    lemma_close_brace(t, 2);
    let c = close_brace(t, 2);
    assert(c == e);
    assert(t.subrange(2, c) =~= name);
    assert(t =~= seq!['$', '{'] + name + seq!['}'] + rest);
    lemma_substituted_shift(p, rest, 0, vars);
    assert(p.len() + 0 == c + 1);
}

/// Text without `$` is copied, and what follows it is substituted in turn:
/// `plain + rest` becomes `plain` followed by the substitution of `rest`.
pub proof fn law_plain_prefix_is_kept(plain: Seq<char>, rest: Seq<char>, vars: Seq<(String, String)>)
    requires
        forall|k: int| 0 <= k < plain.len() ==> plain[k] != '$',
    ensures
        substituted(plain + rest, vars) == plain + substituted(rest, vars),
{
    lemma_plain_from_prefix(plain, rest, 0, vars);
    assert(plain.subrange(0, plain.len() as int) =~= plain);
}

proof fn lemma_plain_from_prefix(plain: Seq<char>, rest: Seq<char>, i: int, vars: Seq<(String, String)>)
    requires
        0 <= i <= plain.len(),
        forall|k: int| 0 <= k < plain.len() ==> plain[k] != '$',
    ensures
        substituted_from(plain + rest, i, vars) == plain.subrange(i, plain.len() as int) + substituted(
            rest,
            vars,
        ),
    decreases plain.len() - i,
{
    if i < plain.len() {
        assert((plain + rest)[i] == plain[i]);
        lemma_plain_from_prefix(plain, rest, i + 1, vars);
        assert(plain.subrange(i, plain.len() as int) =~= seq![plain[i]] + plain.subrange(
            i + 1,
            plain.len() as int,
        ));
    } else {
        lemma_substituted_shift(plain, rest, 0, vars);
        assert(plain.subrange(i, plain.len() as int) =~= Seq::<char>::empty());
    }
}

/// Every reference is replaced, not only the first: two references to set
/// variables with plain text between them become the two values with that
/// text between them (so `${dir}/${app}` becomes the value of `dir`, `/`
/// and the value of `app`).
pub proof fn law_every_reference_is_replaced(
    a: Seq<char>,
    between: Seq<char>,
    b: Seq<char>,
    vars: Seq<(String, String)>,
)
    requires
        forall|k: int| 0 <= k < a.len() ==> a[k] != '}',
        forall|k: int| 0 <= k < b.len() ==> b[k] != '}',
        forall|k: int| 0 <= k < between.len() ==> between[k] != '$',
        var_value(vars, a) is Some,
        var_value(vars, b) is Some,
    ensures
        substituted(
            seq!['$', '{'] + a + seq!['}'] + between + seq!['$', '{'] + b + seq!['}'],
            vars,
        ) == var_value(vars, a)->0 + between + var_value(vars, b)->0,
{
    let second = seq!['$', '{'] + b + seq!['}'];
    law_reference_is_replaced(b, Seq::empty(), vars);
    assert(second + Seq::<char>::empty() =~= second);
    assert(substituted(Seq::<char>::empty(), vars) =~= Seq::<char>::empty());
    law_plain_prefix_is_kept(between, second, vars);
    law_reference_is_replaced(a, between + second, vars);
    assert(seq!['$', '{'] + a + seq!['}'] + (between + second) =~= seq!['$', '{'] + a + seq!['}']
        + between + seq!['$', '{'] + b + seq!['}']);
    assert(var_value(vars, b)->0 + Seq::<char>::empty() =~= var_value(vars, b)->0);
    assert(var_value(vars, a)->0 + (between + var_value(vars, b)->0) =~= var_value(vars, a)->0
        + between + var_value(vars, b)->0);
}

/// The value of variable `name`, if it is set.
pub fn lookup_var<'a>(vars: &'a Vec<(String, String)>, name: &str) -> (r: Option<&'a String>)
    ensures
        match r {
            Some(v) => var_value(vars@, name@) == Some(v@),
            None => var_value(vars@, name@) is None,
        },
{
    let mut i: usize = vars.len();
    assert(vars@.subrange(0, i as int) =~= vars@);
    while i > 0
        invariant
            i <= vars@.len(),
            var_value(vars@, name@) == var_value(vars@.subrange(0, i as int), name@),
        decreases i,
    {
        let ghost pre = vars@.subrange(0, i as int);
        assert(pre.drop_last() =~= vars@.subrange(0, i - 1));
        i = i - 1;
        if str_eq(vars[i].0.as_str(), name) {
            return Some(&vars[i].1);
        }
    }
    None
}

/// The text with each `${name}` whose variable is set replaced by its
/// value.
pub fn substitute(text: &str, vars: &Vec<(String, String)>) -> (r: String)
    ensures
        r@ == substituted(text@, vars@),
{
    let cs = chars_of(text);
    let n = cs.len();
    let mut out = String::new();
    let mut i: usize = 0;
    while i < n
        invariant
            cs@ == text@,
            n == text@.len(),
            i <= n,
            out@ + substituted_from(text@, i as int, vars@) == substituted(text@, vars@),
        decreases n - i,
    {
        let ghost t = text@;
        let ghost before = out@;
        let mut done = false;
        if cs[i] == '$' && i + 1 < n && cs[i + 1] == '{' {
            let mut j: usize = i + 2;
            while j < n && cs[j] != '}'
                invariant
                    cs@ == text@,
                    n == text@.len(),
                    i + 2 <= j <= n,
                    forall|k: int| i + 2 <= k < j ==> text@[k] != '}',
                decreases n - j,
            {
                j = j + 1;
            }
            proof {
                lemma_close_brace(t, i + 2);
            }
            if j < n {
                assert(close_brace(t, i + 2) == j as int);
                let name = text.substring_char(i + 2, j);
                match lookup_var(vars, name) {
                    Some(v) => {
                        out = out.concat(v.as_str());
                        assert(substituted_from(t, i as int, vars@) == v@ + substituted_from(
                            t,
                            j + 1,
                            vars@,
                        ));
                        assert(before + (v@ + substituted_from(t, j + 1, vars@)) =~= out@
                            + substituted_from(t, j + 1, vars@));
                        i = j + 1;
                        done = true;
                    },
                    None => {},
                }
            } else {
                assert(close_brace(t, i + 2) == -1);
            }
        }
        if !done {
            let piece = text.substring_char(i, i + 1);
            assert(piece@ =~= seq![t[i as int]]);
            out = out.concat(piece);
            assert(substituted_from(t, i as int, vars@) == seq![t[i as int]] + substituted_from(
                t,
                i + 1,
                vars@,
            ));
            assert(before + (seq![t[i as int]] + substituted_from(t, i + 1, vars@)) =~= out@
                + substituted_from(t, i + 1, vars@));
            i = i + 1;
        }
    }
    assert(out@ + substituted_from(text@, n as int, vars@) =~= out@);
    out
}

} // verus!
