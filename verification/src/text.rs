//! Small verified string utilities shared by the other modules:
//! equality of string slices, character access, decimal rendering of
//! integers and the lexicographic order that `String`'s `Ord` uses.
use vstd::prelude::*;
use vstd::string::*;

verus! {

/// The view of every string in a vector.
pub open spec fn views(v: Seq<String>) -> Seq<Seq<char>> {
    v.map_values(|s: String| s@)
}

/// Equality of two string slices by their characters.
pub fn str_eq(a: &str, b: &str) -> (r: bool)
    ensures
        r == (a@ == b@),
{
    let x = a.to_owned();
    let y = b.to_owned();
    x == y
}

/// The characters of a string slice, in order.
pub fn chars_of(s: &str) -> (r: Vec<char>)
    ensures
        r@ == s@,
{
    let n = s.unicode_len();
    let mut r: Vec<char> = Vec::new();
    let mut i: usize = 0;
    while i < n
        invariant
            n == s@.len(),
            i <= n,
            r@ == s@.subrange(0, i as int),
        decreases n - i,
    {
        let c = s.get_char(i);
        r.push(c);
        i = i + 1;
        assert(r@ =~= s@.subrange(0, i as int));
    }
    assert(r@ =~= s@);
    r
}

/// A copy of each string of a vector.
pub fn clone_strings(v: &Vec<String>) -> (r: Vec<String>)
    ensures
        r@ == v@,
{
    let mut r: Vec<String> = Vec::new();
    let mut i: usize = 0;
    while i < v.len()
        invariant
            i <= v.len(),
            r@ == v@.subrange(0, i as int),
        decreases v.len() - i,
    {
        r.push(v[i].clone());
        i = i + 1;
        assert(r@ =~= v@.subrange(0, i as int));
    }
    assert(r@ =~= v@);
    r
}

/// A copy of an optional string.
pub fn clone_opt_string(o: &Option<String>) -> (r: Option<String>)
    ensures
        r == *o,
{
    match o {
        Some(s) => Some(s.clone()),
        None => None,
    }
}

/// Whether a vector of strings holds one whose characters are `s`.
pub fn contains_str(v: &Vec<String>, s: &str) -> (r: bool)
    ensures
        r == views(v@).contains(s@),
{
    let mut i: usize = 0;
    while i < v.len()
        invariant
            i <= v.len(),
            forall|k: int| 0 <= k < i ==> v@[k]@ != s@,
        decreases v.len() - i,
    {
        if str_eq(v[i].as_str(), s) {
            assert(views(v@)[i as int] == s@);
            return true;
        }
        i = i + 1;
    }
    proof {
        if views(v@).contains(s@) {
            let k = choose|k: int| 0 <= k < views(v@).len() && views(v@)[k] == s@;
            assert(v@[k]@ == s@);
        }
    }
    false
}

// ---------------------------------------------------------------------------
// Decimal rendering
// ---------------------------------------------------------------------------

/// The text of one decimal digit.
pub open spec fn digit_text(d: nat) -> Seq<char> {
    if d == 0 {
        "0"@
    } else if d == 1 {
        "1"@
    } else if d == 2 {
        "2"@
    } else if d == 3 {
        "3"@
    } else if d == 4 {
        "4"@
    } else if d == 5 {
        "5"@
    } else if d == 6 {
        "6"@
    } else if d == 7 {
        "7"@
    } else if d == 8 {
        "8"@
    } else {
        "9"@
    }
}

/// The decimal text of a natural number, most significant digit first.
pub open spec fn decimal(n: nat) -> Seq<char>
    decreases n,
{
    if n < 10 {
        digit_text(n)
    } else {
        decimal(n / 10) + digit_text(n % 10)
    }
}

/// The decimal text of an integer, with a leading `-` when it is negative.
pub open spec fn signed_decimal(n: int) -> Seq<char> {
    if n < 0 {
        "-"@ + decimal((-n) as nat)
    } else {
        decimal(n as nat)
    }
}

fn digit_string(d: u64) -> (r: String)
    requires
        d < 10,
    ensures
        r@ == digit_text(d as nat),
{
    let s: &str = if d == 0 {
        "0"
    } else if d == 1 {
        "1"
    } else if d == 2 {
        "2"
    } else if d == 3 {
        "3"
    } else if d == 4 {
        "4"
    } else if d == 5 {
        "5"
    } else if d == 6 {
        "6"
    } else if d == 7 {
        "7"
    } else if d == 8 {
        "8"
    } else {
        "9"
    };
    s.to_owned()
}

/// The decimal text of an unsigned integer.
pub fn u64_to_decimal(n: u64) -> (r: String)
    ensures
        r@ == decimal(n as nat),
    decreases n,
{
    if n < 10 {
        digit_string(n)
    } else {
        let head = u64_to_decimal(n / 10);
        let tail = digit_string(n % 10);
        head.concat(tail.as_str())
    }
}

/// The decimal text of a signed integer.
pub fn i64_to_decimal(n: i64) -> (r: String)
    ensures
        r@ == signed_decimal(n as int),
{
    if n < 0 {
        let magnitude: u64 = if n == i64::MIN {
            9223372036854775808u64
        } else {
            (-n) as u64
        };
        let digits = u64_to_decimal(magnitude);
        "-".to_owned().concat(digits.as_str())
    } else {
        u64_to_decimal(n as u64)
    }
}

// ---------------------------------------------------------------------------
// Lexicographic order
// ---------------------------------------------------------------------------

/// `a` sorts strictly before `b`: the order of `String`'s `Ord`, which
/// compares UTF-8 bytes and therefore orders by code point.
pub open spec fn text_lt(a: Seq<char>, b: Seq<char>) -> bool
    decreases a.len(),
{
    if b.len() == 0 {
        false
    } else if a.len() == 0 {
        true
    } else if a[0] != b[0] {
        (a[0] as u32) < (b[0] as u32)
    } else {
        text_lt(a.drop_first(), b.drop_first())
    }
}

/// A sequence of texts in strictly ascending order.
pub open spec fn strictly_sorted(s: Seq<Seq<char>>) -> bool {
    forall|i: int, j: int| 0 <= i < j < s.len() ==> text_lt(#[trigger] s[i], #[trigger] s[j])
}

pub proof fn lemma_text_lt_irreflexive(a: Seq<char>)
    ensures
        !text_lt(a, a),
    decreases a.len(),
{
    if a.len() > 0 {
        lemma_text_lt_irreflexive(a.drop_first());
    }
}

pub proof fn lemma_text_lt_transitive(a: Seq<char>, b: Seq<char>, c: Seq<char>)
    requires
        text_lt(a, b),
        text_lt(b, c),
    ensures
        text_lt(a, c),
    decreases a.len(),
{
    if a.len() > 0 && b.len() > 0 && c.len() > 0 {
        if a[0] == b[0] && b[0] == c[0] {
            lemma_text_lt_transitive(a.drop_first(), b.drop_first(), c.drop_first());
        }
    }
}

pub proof fn lemma_text_lt_total(a: Seq<char>, b: Seq<char>)
    requires
        a != b,
    ensures
        text_lt(a, b) || text_lt(b, a),
    decreases a.len(),
{
    if a.len() > 0 && b.len() > 0 {
        if a[0] == b[0] {
            if a.drop_first() == b.drop_first() {
                assert(a =~= seq![a[0]] + a.drop_first());
                assert(b =~= seq![b[0]] + b.drop_first());
            }
            lemma_text_lt_total(a.drop_first(), b.drop_first());
        } else {
            lemma_char_code_injective(a[0], b[0]);
        }
    } else if a.len() == 0 && b.len() == 0 {
        assert(a =~= b);
    }
}

proof fn lemma_char_code_injective(x: char, y: char)
    requires
        x != y,
    ensures
        (x as u32) != (y as u32),
{
}

pub proof fn lemma_text_lt_asymmetric(a: Seq<char>, b: Seq<char>)
    requires
        text_lt(a, b),
    ensures
        !text_lt(b, a),
{
    if text_lt(b, a) {
        lemma_text_lt_transitive(a, b, a);
        lemma_text_lt_irreflexive(a);
    }
}

/// The order of texts is lexicographic by code point, whatever the
/// lengths: a proper prefix sorts before every extension of it, and two
/// texts that first differ at position `k` are ordered by their characters
/// at `k`.
pub proof fn law_text_order_is_lexicographic(a: Seq<char>, b: Seq<char>, k: int)
    ensures
        a.len() < b.len() && a == b.subrange(0, a.len() as int) ==> text_lt(a, b) && !text_lt(b, a),
        0 <= k < a.len() && k < b.len() && a.subrange(0, k) == b.subrange(0, k) && a[k] != b[k] ==> (
        text_lt(a, b) <==> (a[k] as u32) < (b[k] as u32)),
    decreases a.len(),
{
    if a.len() < b.len() && a == b.subrange(0, a.len() as int) {
        lemma_prefix_lt(a, b);
        lemma_text_lt_asymmetric(a, b);
    }
    if 0 <= k < a.len() && k < b.len() && a.subrange(0, k) == b.subrange(0, k) && a[k] != b[k] {
        lemma_first_difference(a, b, k);
    }
}

proof fn lemma_prefix_lt(a: Seq<char>, b: Seq<char>)
    requires
        a.len() < b.len(),
        a == b.subrange(0, a.len() as int),
    ensures
        text_lt(a, b),
    decreases a.len(),
{
    if a.len() > 0 {
        assert(a[0] == b[0]);
        assert(a.drop_first() =~= b.drop_first().subrange(0, a.len() - 1));
        lemma_prefix_lt(a.drop_first(), b.drop_first());
    }
}

proof fn lemma_first_difference(a: Seq<char>, b: Seq<char>, k: int)
    requires
        0 <= k < a.len(),
        k < b.len(),
        a.subrange(0, k) == b.subrange(0, k),
        a[k] != b[k],
    ensures
        text_lt(a, b) <==> (a[k] as u32) < (b[k] as u32),
    decreases k,
{
    if k > 0 {
        assert(a[0] == a.subrange(0, k)[0]);
        assert(b[0] == b.subrange(0, k)[0]);
        assert(a.drop_first().subrange(0, k - 1) =~= a.subrange(0, k).drop_first());
        assert(b.drop_first().subrange(0, k - 1) =~= b.subrange(0, k).drop_first());
        lemma_first_difference(a.drop_first(), b.drop_first(), k - 1);
    }
}

/// Whether the characters `a` sort strictly before the characters `b`.
pub fn chars_lt(a: &Vec<char>, b: &Vec<char>) -> (r: bool)
    ensures
        r == text_lt(a@, b@),
{
    let mut i: usize = 0;
    assert(a@.subrange(0, a@.len() as int) =~= a@);
    assert(b@.subrange(0, b@.len() as int) =~= b@);
    while i < a.len() && i < b.len() && a[i] == b[i]
        invariant
            i <= a.len(),
            i <= b.len(),
            text_lt(a@, b@) == text_lt(a@.subrange(i as int, a@.len() as int), b@.subrange(i as int, b@.len() as int)),
        decreases a.len() - i,
    {
        let ghost sa = a@.subrange(i as int, a@.len() as int);
        let ghost sb = b@.subrange(i as int, b@.len() as int);
        assert(sa.drop_first() =~= a@.subrange(i + 1, a@.len() as int));
        assert(sb.drop_first() =~= b@.subrange(i + 1, b@.len() as int));
        i = i + 1;
    }
    if i == b.len() {
        false
    } else if i == a.len() {
        true
    } else {
        let ca = a[i];
        let cb = b[i];
        assert(a@.subrange(i as int, a@.len() as int)[0] == ca);
        assert(b@.subrange(i as int, b@.len() as int)[0] == cb);
        let xa = ca as u32;
        let xb = cb as u32;
        xa < xb
    }
}

/// Whether the string `a` sorts strictly before the string `b`.
pub fn str_lt(a: &str, b: &str) -> (r: bool)
    ensures
        r == text_lt(a@, b@),
{
    let x = chars_of(a);
    let y = chars_of(b);
    chars_lt(&x, &y)
}

/// The strings of `v`, in ascending order. The input holds no two equal
/// strings, so neither does the result.
pub fn sort_strings(v: Vec<String>) -> (r: Vec<String>)
    requires
        views(v@).no_duplicates(),
    ensures
        strictly_sorted(views(r@)),
        views(r@).to_set() == views(v@).to_set(),
        r@.len() == v@.len(),
{
    let mut r: Vec<String> = Vec::new();
    let mut i: usize = 0;
    while i < v.len()
        invariant
            i <= v.len(),
            views(v@).no_duplicates(),
            strictly_sorted(views(r@)),
            views(r@).to_set() == views(v@.subrange(0, i as int)).to_set(),
            r@.len() == i,
        decreases v.len() - i,
    {
        let x = v[i].clone();
        // The first position whose string sorts after `x`.
        let mut j: usize = 0;
        while j < r.len() && !str_lt(x.as_str(), r[j].as_str())
            invariant
                j <= r.len(),
                forall|k: int| 0 <= k < j ==> !text_lt(x@, #[trigger] r@[k]@),
            decreases r.len() - j,
        {
            j = j + 1;
        }
        let ghost old_r = views(r@);
        proof {
            // x is new: it does not occur in r.
            assert(!old_r.contains(x@)) by {
                if old_r.contains(x@) {
                    let k = choose|k: int| 0 <= k < old_r.len() && old_r[k] == x@;
                    assert(views(r@).to_set().contains(x@));
                    assert(views(v@.subrange(0, i as int)).to_set().contains(x@));
                    let m = choose|m: int|
                        0 <= m < views(v@.subrange(0, i as int)).len() && views(
                            v@.subrange(0, i as int),
                        )[m] == x@;
                    assert(views(v@)[m] == views(v@)[i as int]);
                }
            }
        }
        r.insert(j, x);
        proof {
            let nr = views(r@);
            assert(nr =~= old_r.subrange(0, j as int).push(x@) + old_r.subrange(
                j as int,
                old_r.len() as int,
            ));
            assert forall|a: int, b: int| 0 <= a < b < nr.len() implies text_lt(
                #[trigger] nr[a],
                #[trigger] nr[b],
            ) by {
                if a < j && b == j {
                    assert(!text_lt(x@, old_r[a]));
                    assert(old_r[a] != x@);
                    lemma_text_lt_total(x@, old_r[a]);
                } else if a == j && b > j {
                    assert(nr[b] == old_r[b - 1]);
                    if j < old_r.len() {
                        assert(text_lt(x@, old_r[j as int]));
                        if b - 1 > j {
                            assert(text_lt(old_r[j as int], old_r[b - 1]));
                            lemma_text_lt_transitive(x@, old_r[j as int], old_r[b - 1]);
                        }
                    }
                } else if a < j && b > j {
                    assert(nr[a] == old_r[a]);
                    assert(nr[b] == old_r[b - 1]);
                } else if a > j {
                    assert(nr[a] == old_r[a - 1]);
                    assert(nr[b] == old_r[b - 1]);
                }
            }
            assert(views(v@.subrange(0, i + 1)) =~= views(v@.subrange(0, i as int)).push(
                x@,
            ));
            assert(nr.to_set() =~= old_r.to_set().insert(x@)) by {
                assert forall|y: Seq<char>| nr.to_set().contains(y) implies old_r.to_set().insert(
                    x@,
                ).contains(y) by {
                    let k = choose|k: int| 0 <= k < nr.len() && nr[k] == y;
                    if k < j {
                        assert(old_r[k] == y);
                    } else if k > j {
                        assert(old_r[k - 1] == y);
                    }
                }
                assert forall|y: Seq<char>| old_r.to_set().insert(x@).contains(y) implies nr.to_set().contains(
                    y,
                ) by {
                    if y == x@ {
                        assert(nr[j as int] == y);
                    } else {
                        let k = choose|k: int| 0 <= k < old_r.len() && old_r[k] == y;
                        if k < j {
                            assert(nr[k] == y);
                        } else {
                            assert(nr[k + 1] == y);
                        }
                    }
                }
            }
            let pre = views(v@.subrange(0, i as int));
            assert(pre.push(x@).to_set() =~= pre.to_set().insert(x@)) by {
                assert forall|y: Seq<char>| pre.push(x@).to_set().contains(y) implies pre.to_set().insert(
                    x@,
                ).contains(y) by {
                    let k = choose|k: int| 0 <= k < pre.push(x@).len() && pre.push(x@)[k] == y;
                    if k < pre.len() {
                        assert(pre[k] == y);
                    }
                }
                assert forall|y: Seq<char>| pre.to_set().insert(x@).contains(y) implies pre.push(
                    x@,
                ).to_set().contains(y) by {
                    if y == x@ {
                        assert(pre.push(x@)[pre.len() as int] == y);
                    } else {
                        let k = choose|k: int| 0 <= k < pre.len() && pre[k] == y;
                        assert(pre.push(x@)[k] == y);
                    }
                }
            }
        }
        i = i + 1;
    }
    assert(v@.subrange(0, v@.len() as int) =~= v@);
    r
}

// ---------------------------------------------------------------------------
// Escaped text, as a quoted string shows in a debug listing
// ---------------------------------------------------------------------------

/// The hexadecimal digits, in order.
pub open spec fn hex_digits() -> Seq<char> {
    "0123456789abcdef"@
}

/// A number below 256 in lowercase hexadecimal, without leading zeros.
pub open spec fn hex_text(n: nat) -> Seq<char> {
    if n < 16 {
        seq![hex_digits()[n as int]]
    } else {
        seq![hex_digits()[(n / 16) as int], hex_digits()[(n % 16) as int]]
    }
}

/// A character as it shows inside a quoted string of a debug listing:
/// `\0`, `\t`, `\r`, `\n`, `\\` and `\"` for those characters, `\u{..}`
/// with its code in hexadecimal for any other ASCII control character, and
/// the character itself otherwise.
pub open spec fn escaped_char(c: char) -> Seq<char> {
    if c == '\0' {
        "\\0"@
    } else if c == '\t' {
        "\\t"@
    } else if c == '\r' {
        "\\r"@
    } else if c == '\n' {
        "\\n"@
    } else if c == '\\' {
        "\\\\"@
    } else if c == '"' {
        "\\\""@
    } else if (c as u32) < 0x20 || (c as u32) == 0x7f {
        "\\u{"@ + hex_text(c as u32 as nat) + "}"@
    } else {
        seq![c]
    }
}

/// A text with each of its characters escaped.
pub open spec fn escaped(s: Seq<char>) -> Seq<char>
    decreases s.len(),
{
    if s.len() == 0 {
        Seq::empty()
    } else {
        escaped(s.drop_last()) + escaped_char(s.last())
    }
}

fn hex_string(n: u32) -> (r: String)
    requires
        n < 256,
    ensures
        r@ == hex_text(n as nat),
{
    let digits = "0123456789abcdef";
    proof {
        reveal_strlit("0123456789abcdef");
    }
    if n < 16 {
        let d = digits.substring_char(n as usize, n as usize + 1);
        assert(d@ =~= hex_text(n as nat));
        d.to_owned()
    } else {
        let hi = (n / 16) as usize;
        let lo = (n % 16) as usize;
        let a = digits.substring_char(hi, hi + 1);
        let b = digits.substring_char(lo, lo + 1);
        let r = a.to_owned().concat(b);
        assert(r@ =~= hex_text(n as nat));
        r
    }
}

/// The text with each of its characters escaped as a quoted string shows
/// them in a debug listing (see `escaped_char`).
pub fn escape_text(s: &str) -> (r: String)
    ensures
        r@ == escaped(s@),
{
    let cs = chars_of(s);
    let n = cs.len();
    let mut out = String::new();
    let mut i: usize = 0;
    while i < n
        invariant
            cs@ == s@,
            n == s@.len(),
            i <= n,
            out@ == escaped(s@.subrange(0, i as int)),
        decreases n - i,
    {
        let c = cs[i];
        let ghost before = out@;
        assert(s@.subrange(0, i + 1).drop_last() =~= s@.subrange(0, i as int));
        assert(s@.subrange(0, i + 1).last() == c);
        let code = c as u32;
        if c == '\0' {
            out = out.concat("\\0");
        } else if c == '\t' {
            out = out.concat("\\t");
        } else if c == '\r' {
            out = out.concat("\\r");
        } else if c == '\n' {
            out = out.concat("\\n");
        } else if c == '\\' {
            out = out.concat("\\\\");
        } else if c == '"' {
            out = out.concat("\\\"");
        } else if code < 0x20 || code == 0x7f {
            out = out.concat("\\u{").concat(hex_string(code).as_str()).concat("}");
            assert(out@ =~= before + escaped_char(c));
        } else {
            let piece = s.substring_char(i, i + 1);
            assert(piece@ =~= seq![c]);
            out = out.concat(piece);
        }
        i = i + 1;
    }
    assert(s@.subrange(0, n as int) =~= s@);
    out
}

} // verus!
