//! The text form of token claims: a JSON object with a fixed field order.

use vstd::prelude::*;

use crate::models::{scopes_view, Claims, TokenType};
use crate::escape::{
    esc, esc_all, lemma_esc_quote_free, lemma_unesc_esc, push_escaped, unesc, unescape, unescape_all,
};
use crate::text::{chars_of, push_char, str_eq, string_of_range};

verus! {

/// The digit character of a value below ten.
pub open spec fn digit_char(d: nat) -> char {
    if d == 0 {
        '0'
    } else if d == 1 {
        '1'
    } else if d == 2 {
        '2'
    } else if d == 3 {
        '3'
    } else if d == 4 {
        '4'
    } else if d == 5 {
        '5'
    } else if d == 6 {
        '6'
    } else if d == 7 {
        '7'
    } else if d == 8 {
        '8'
    } else {
        '9'
    }
}

/// Decimal digits of `n`, without leading zeros.
pub open spec fn decimal(n: nat) -> Seq<char>
    decreases n,
{
    if n < 10 {
        seq![digit_char(n)]
    } else {
        decimal(n / 10).push(digit_char(n % 10))
    }
}

/// Decimal text of an integer, with a leading `-` when negative.
pub open spec fn int_text(i: int) -> Seq<char> {
    if i < 0 {
        seq!['-'] + decimal((-i) as nat)
    } else {
        decimal(i as nat)
    }
}

/// A string between double quotes.
pub open spec fn quoted(s: Seq<char>) -> Seq<char> {
    seq!['"'] + s + seq!['"']
}

/// Quoted strings separated by commas.
pub open spec fn items_text(l: Seq<Seq<char>>) -> Seq<char>
    decreases l.len(),
{
    if l.len() == 0 {
        Seq::empty()
    } else if l.len() == 1 {
        quoted(l[0])
    } else {
        items_text(l.drop_last()) + seq![','] + quoted(l.last())
    }
}

/// The name of a token kind in the payload.
pub open spec fn kind_name(t: TokenType) -> Seq<char> {
    match t {
        TokenType::Bootstrap => "bootstrap"@,
        TokenType::Access => "access"@,
        TokenType::Refresh => "refresh"@,
    }
}

/// The payload text of claims.
pub open spec fn claims_text(
    owner: Seq<char>,
    key_id: int,
    scopes: Seq<Seq<char>>,
    kind: TokenType,
    exp: nat,
    iat: nat,
) -> Seq<char> {
    "{\"owner\":"@ + quoted(esc(owner)) + ",\"key_id\":"@ + int_text(key_id) + ",\"scopes\":["@
        + items_text(esc_all(scopes)) + seq![']'] + ",\"token_type\":"@ + quoted(kind_name(kind)) + ",\"exp\":"@
        + decimal(exp) + ",\"iat\":"@ + decimal(iat) + "}"@
}

/// The payload text of a claims value.
pub open spec fn claims_json(c: Claims) -> Seq<char> {
    claims_text(
        c.owner@,
        c.key_id as int,
        scopes_view(c.scopes@),
        c.token_type,
        c.exp as nat,
        c.iat as nat,
    )
}

pub(crate) fn digit(d: u64) -> (c: char)
    requires
        d < 10,
    ensures
        c == digit_char(d as nat),
{
    if d == 0 {
        '0'
    } else if d == 1 {
        '1'
    } else if d == 2 {
        '2'
    } else if d == 3 {
        '3'
    } else if d == 4 {
        '4'
    } else if d == 5 {
        '5'
    } else if d == 6 {
        '6'
    } else if d == 7 {
        '7'
    } else if d == 8 {
        '8'
    } else {
        '9'
    }
}

/// Appends the decimal digits of `n`.
pub fn push_decimal(out: &mut String, n: u64)
    ensures
        final(out)@ == old(out)@ + decimal(n as nat),
    decreases n,
{
    if n >= 10 {
        push_decimal(out, n / 10);
    }
    push_char(out, digit(n % 10));
    proof {
        if n >= 10 {
            assert(decimal(n as nat) == decimal((n / 10) as nat).push(digit_char((n % 10) as nat)));
        }
    }
    assert(out@ =~= old(out)@ + decimal(n as nat));
}

/// Appends the decimal text of `i`.
pub fn push_int(out: &mut String, i: i32)
    ensures
        final(out)@ == old(out)@ + int_text(i as int),
{
    if i < 0 {
        push_char(out, '-');
        let m: i64 = -(i as i64);
        push_decimal(out, m as u64);
    } else {
        push_decimal(out, i as u64);
    }
    assert(out@ =~= old(out)@ + int_text(i as int));
}

/// Appends `s` between double quotes.
pub fn push_quoted(out: &mut String, s: &str)
    ensures
        final(out)@ == old(out)@ + quoted(s@),
{
    push_char(out, '"');
    out.append(s);
    push_char(out, '"');
    assert(out@ =~= old(out)@ + quoted(s@));
}

/// Appends the escaped form of `s` between double quotes.
pub fn push_quoted_escaped(out: &mut String, s: &str)
    ensures
        final(out)@ == old(out)@ + quoted(esc(s@)),
{
    push_char(out, '"');
    push_escaped(out, s);
    push_char(out, '"');
    assert(out@ =~= old(out)@ + quoted(esc(s@)));
}

/// Appends the quoted, escaped scopes separated by commas.
pub fn push_items(out: &mut String, items: &Vec<String>)
    ensures
        final(out)@ == old(out)@ + items_text(esc_all(scopes_view(items@))),
{
    let ghost base = out@;
    let ghost sv = esc_all(scopes_view(items@));
    let mut k: usize = 0;
    while k < items.len()
        invariant
            sv == esc_all(scopes_view(items@)),
            k <= items@.len(),
            out@ == base + items_text(sv.subrange(0, k as int)),
        decreases items.len() - k,
    {
        let ghost before = out@;
        if k > 0 {
            push_char(out, ',');
        }
        push_quoted_escaped(out, items[k].as_str());
        proof {
            let pre = sv.subrange(0, k as int);
            let next = sv.subrange(0, k + 1);
            assert(next.drop_last() =~= pre);
            assert(next.last() == esc(items@[k as int]@));
            if k == 0 {
                assert(items_text(pre) =~= Seq::<char>::empty());
                assert(out@ =~= base + items_text(next));
            } else {
                assert(out@ =~= base + items_text(next));
            }
        }
        k = k + 1;
    }
    assert(sv.subrange(0, items@.len() as int) =~= sv);
}

/// The payload word of a token kind.
pub fn kind_word(t: TokenType) -> (r: &'static str)
    ensures
        r@ == kind_name(t),
{
    match t {
        TokenType::Bootstrap => "bootstrap",
        TokenType::Access => "access",
        TokenType::Refresh => "refresh",
    }
}

/// Renders the payload text of claims.
pub fn render_claims(c: &Claims) -> (r: String)
    ensures
        r@ == claims_json(*c),
{
    let mut out = String::from_str("{\"owner\":");
    push_quoted_escaped(&mut out, c.owner.as_str());
    out.append(",\"key_id\":");
    push_int(&mut out, c.key_id);
    out.append(",\"scopes\":[");
    push_items(&mut out, &c.scopes);
    push_char(&mut out, ']');
    out.append(",\"token_type\":");
    push_quoted(&mut out, kind_word(c.token_type));
    out.append(",\"exp\":");
    push_decimal(&mut out, c.exp);
    out.append(",\"iat\":");
    push_decimal(&mut out, c.iat);
    out.append("}");
    assert(out@ =~= claims_json(*c));
    out
}

/// Whether `v` holds `lit` at `i`.
pub open spec fn lit_at(v: Seq<char>, i: int, lit: Seq<char>) -> bool {
    0 <= i && i + lit.len() <= v.len() && v.subrange(i, i + lit.len()) == lit
}

/// Position after `lit` when `v` holds it at `i`.
fn expect_lit(v: &Vec<char>, i: usize, lit: &str) -> (r: Option<usize>)
    requires
        i <= v@.len(),
    ensures
        r is Some <==> lit_at(v@, i as int, lit@),
        r matches Some(j) ==> j == i + lit@.len(),
{
    let l = chars_of(lit);
    if l.len() > v.len() - i {
        return None;
    }
    let mut k: usize = 0;
    while k < l.len()
        invariant
            i + l@.len() <= v@.len(),
            v@.len() == v.len(),
            l@.len() == l.len(),
            l@ == lit@,
            k <= l@.len(),
            forall|m: int| 0 <= m < k ==> v@[i + m] == l@[m],
        decreases l.len() - k,
    {
        if v[i + k] != l[k] {
            assert(v@.subrange(i as int, i + l@.len())[k as int] != lit@[k as int]);
            return None;
        }
        k = k + 1;
    }
    assert(v@.subrange(i as int, i + l@.len()) =~= lit@);
    Some(i + l.len())
}

/// No double quote in `s`.
pub open spec fn quote_free(s: Seq<char>) -> bool {
    forall|k: int| 0 <= k < s.len() ==> #[trigger] s[k] != '"'
}

/// A quoted string at `i`: the text up to the next quote, and the position
/// after that quote.
fn parse_quoted(v: &Vec<char>, i: usize) -> (r: Option<(String, usize)>)
    requires
        i <= v@.len(),
    ensures
        r matches Some((s, j)) ==> {
            &&& i + 2 <= j <= v@.len()
            &&& v@[i as int] == '"'
            &&& v@[j - 1] == '"'
            &&& s@ == v@.subrange(i + 1, j - 1)
            &&& quote_free(s@)
        },
        r is None ==> i >= v@.len() || v@[i as int] != '"' || forall|k: int|
            i < k < v@.len() ==> #[trigger] v@[k] != '"',
{
    if i >= v.len() || v[i] != '"' {
        return None;
    }
    let mut j: usize = i + 1;
    while j < v.len() && v[j] != '"'
        invariant
            i < j <= v@.len(),
            forall|k: int| i < k < j ==> #[trigger] v@[k] != '"',
        decreases v.len() - j,
    {
        j = j + 1;
    }
    if j >= v.len() {
        return None;
    }
    let s = string_of_range(v, i + 1, j);
    assert forall|k: int| 0 <= k < s@.len() implies #[trigger] s@[k] != '"' by {
        assert(s@[k] == v@[i + 1 + k]);
    }
    Some((s, j + 1))
}

/// A quoted, quote-free string at `i` is read back exactly.
proof fn lemma_quoted_at(v: Seq<char>, i: int, s: Seq<char>, r: Option<(String, usize)>)
    requires
        lit_at(v, i, quoted(s)),
        quote_free(s),
        r matches Some((t, j)) ==> {
            &&& i + 2 <= j <= v.len()
            &&& v[i] == '"'
            &&& v[j - 1] == '"'
            &&& t@ == v.subrange(i + 1, j - 1)
            &&& quote_free(t@)
        },
        r is None ==> i >= v.len() || v[i] != '"' || forall|k: int| i < k < v.len() ==> #[trigger] v[k] != '"',
    ensures
        r matches Some((t, j)) && t@ == s && j == i + s.len() + 2,
{
    let q = quoted(s);
    assert(v.subrange(i, i + q.len())[0] == v[i]);
    assert(v[i] == '"');
    let e = i + s.len() + 1;
    assert(v.subrange(i, i + q.len())[s.len() as int + 1] == v[e]);
    assert(v[e] == '"');
    assert forall|k: int| i < k < e implies #[trigger] v[k] != '"' by {
        assert(v.subrange(i, i + q.len())[k - i] == v[k]);
        assert(q[k - i] == s[k - i - 1]);
    }
    if let Some((t, j)) = r {
        if j - 1 < e {
            assert(v[j - 1] != '"');
        }
        if j - 1 > e {
            assert(t@[e - i - 1] == v[e]);
        }
        assert(t@ =~= s) by {
            assert forall|k: int| 0 <= k < s.len() implies t@[k] == s[k] by {
                assert(v.subrange(i, i + q.len())[k + 1] == v[i + 1 + k]);
            }
        }
    }
}

/// Whether `c` is a decimal digit.
pub open spec fn is_digit(c: char) -> bool {
    '0' <= c <= '9'
}

/// Value of a decimal digit.
pub open spec fn digit_of(c: char) -> nat {
    (c as u32 - '0' as u32) as nat
}

/// Value of a run of decimal digits.
pub open spec fn digits_value(s: Seq<char>) -> nat
    decreases s.len(),
{
    if s.len() == 0 {
        0
    } else {
        digits_value(s.drop_last()) * 10 + digit_of(s.last())
    }
}

/// Every character of `v[i..j]` is a digit.
pub open spec fn all_digits(v: Seq<char>, i: int, j: int) -> bool {
    forall|k: int| i <= k < j ==> is_digit(#[trigger] v[k])
}

proof fn lemma_digit_char(d: nat)
    requires
        d < 10,
    ensures
        is_digit(digit_char(d)),
        digit_of(digit_char(d)) == d,
{
}

/// The decimal text of `n` is a non-empty run of digits worth `n`.
pub proof fn lemma_decimal(n: nat)
    ensures
        decimal(n).len() >= 1,
        all_digits(decimal(n), 0, decimal(n).len() as int),
        digits_value(decimal(n)) == n,
    decreases n,
{
    lemma_digit_char(n % 10);
    if n >= 10 {
        lemma_decimal(n / 10);
        let s = decimal(n / 10);
        assert(decimal(n).drop_last() =~= s);
        assert(decimal(n).last() == digit_char(n % 10));
        assert((n / 10) * 10 + n % 10 == n);
        assert forall|k: int| 0 <= k < decimal(n).len() implies is_digit(#[trigger] decimal(n)[k]) by {
            if k < s.len() {
                assert(decimal(n)[k] == s[k]);
            }
        }
    } else {
        assert(n % 10 == n);
        assert(seq![digit_char(n)].drop_last() =~= Seq::<char>::empty());
        assert(digits_value(Seq::<char>::empty()) == 0);
    }
}

/// A prefix of a run of digits is worth no more than the run.
proof fn lemma_digits_prefix_le(s: Seq<char>, k: int)
    requires
        0 <= k <= s.len(),
    ensures
        digits_value(s.subrange(0, k)) <= digits_value(s),
    decreases s.len(),
{
    if k < s.len() {
        lemma_digits_prefix_le(s.drop_last(), k);
        assert(s.drop_last().subrange(0, k) =~= s.subrange(0, k));
    } else {
        assert(s.subrange(0, k) =~= s);
    }
}

/// `v` holds the decimal text of `n` at `i`, not followed by another digit.
pub open spec fn nat_at(v: Seq<char>, i: int, n: nat) -> bool {
    lit_at(v, i, decimal(n)) && (i + decimal(n).len() == v.len() || !is_digit(v[i + decimal(n).len()]))
}

fn digit_value(c: char) -> (r: Option<u64>)
    ensures
        r matches Some(d) ==> is_digit(c) && d == digit_of(c) && d < 10,
        r is None ==> !is_digit(c),
{
    if '0' <= c && c <= '9' {
        Some((c as u32 - '0' as u32) as u64)
    } else {
        None
    }
}

/// The run of decimal digits at `i` and the position after it, where the
/// run is not empty and its value fits in a `u64`.
fn parse_u64(v: &Vec<char>, i: usize) -> (r: Option<(u64, usize)>)
    requires
        i <= v@.len(),
    ensures
        r matches Some((n, j)) ==> i < j <= v@.len() && all_digits(v@, i as int, j as int) && (j == v@.len()
            || !is_digit(v@[j as int])) && n == digits_value(v@.subrange(i as int, j as int)),
        r is None ==> i == v@.len() || !is_digit(v@[i as int]) || exists|j: int|
            i < j <= v@.len() && all_digits(v@, i as int, j) && #[trigger] digits_value(v@.subrange(i as int, j))
                > u64::MAX,
{
    let mut j: usize = i;
    let mut acc: u128 = 0;
    while j < v.len() && digit_value(v[j]).is_some()
        invariant
            i <= j <= v@.len(),
            all_digits(v@, i as int, j as int),
            acc == digits_value(v@.subrange(i as int, j as int)),
            acc <= u64::MAX,
        decreases v.len() - j,
    {
        let d = digit_value(v[j]).unwrap();
        proof {
            assert(v@.subrange(i as int, j + 1).drop_last() =~= v@.subrange(i as int, j as int));
        }
        acc = acc * 10 + d as u128;
        if acc > u64::MAX as u128 {
            assert(all_digits(v@, i as int, j + 1));
            assert(digits_value(v@.subrange(i as int, j + 1)) > u64::MAX);
            return None;
        }
        j = j + 1;
    }
    if j == i {
        None
    } else {
        Some((acc as u64, j))
    }
}

/// The decimal text of a `u64` at `i` is read back exactly.
proof fn lemma_nat_at(v: Seq<char>, i: int, n: nat, r: Option<(u64, usize)>)
    requires
        nat_at(v, i, n),
        n <= u64::MAX,
        r matches Some((m, j)) ==> i < j <= v.len() && all_digits(v, i, j as int) && (j == v.len() || !is_digit(
            v[j as int],
        )) && m == digits_value(v.subrange(i, j as int)),
        r is None ==> i == v.len() || !is_digit(v[i]) || exists|j: int|
            i < j <= v.len() && all_digits(v, i, j) && #[trigger] digits_value(v.subrange(i, j)) > u64::MAX,
    ensures
        r matches Some((m, j)) && m == n && j == i + decimal(n).len(),
{
    lemma_decimal(n);
    let d = decimal(n);
    let e = i + d.len();
    assert(v.subrange(i, e) == d);
    assert forall|k: int| i <= k < e implies is_digit(#[trigger] v[k]) by {
        assert(v.subrange(i, e)[k - i] == v[k]);
        assert(is_digit(d[k - i]));
    }
    match r {
        Some((m, j)) => {
            if j < e {
                assert(is_digit(v[j as int]));
            }
            if j > e {
                assert(is_digit(v[e]));
            }
            assert(j == e);
        },
        None => {
            assert(is_digit(v[i]));
            let j = choose|j: int| i < j <= v.len() && all_digits(v, i, j) && #[trigger] digits_value(v.subrange(i, j)) > u64::MAX;
            if j > e {
                assert(is_digit(v[e]));
            } else {
                lemma_digits_prefix_le(d, j - i);
                assert(v.subrange(i, j) =~= d.subrange(0, j - i));
            }
        },
    }
}

/// `v` holds the decimal text of `k` at `i`, not followed by another digit.
pub open spec fn int_at(v: Seq<char>, i: int, k: int) -> bool {
    lit_at(v, i, int_text(k)) && (i + int_text(k).len() == v.len() || !is_digit(v[i + int_text(k).len()]))
}

/// A decimal integer, possibly negative, that fits in an `i32`.
fn parse_i32(v: &Vec<char>, i: usize) -> (r: Option<(i32, usize)>)
    requires
        i <= v@.len(),
    ensures
        r matches Some((_, j)) ==> i < j <= v@.len(),
        forall|k: i32| #[trigger] int_at(v@, i as int, k as int) ==> (r matches Some((m, j)) && m == k && j == i
            + int_text(k as int).len()),
{
    if i < v.len() && v[i] == '-' {
        let p = parse_u64(v, i + 1);
        let r = match p {
            Some((n, j)) => {
                if n <= 2147483648 {
                    Some(((-(n as i64)) as i32, j))
                } else {
                    None
                }
            },
            None => None,
        };
        proof {
            assert forall|k: i32| #[trigger] int_at(v@, i as int, k as int) implies (r matches Some((m, j)) && m == k
                && j == i + int_text(k as int).len()) by {
                if k >= 0 {
                    lemma_decimal(k as nat);
                    assert(v@.subrange(i as int, i + int_text(k as int).len())[0] == v@[i as int]);
                    assert(int_text(k as int)[0] == decimal(k as nat)[0]);
                    assert(is_digit(decimal(k as nat)[0]));
                } else {
                    let n = (-k) as nat;
                    assert(int_text(k as int) == seq!['-'] + decimal(n));
                    assert(v@.subrange(i + 1, i + 1 + decimal(n).len()) =~= v@.subrange(
                        i as int,
                        i + int_text(k as int).len(),
                    ).subrange(1, int_text(k as int).len() as int));
                    assert(int_text(k as int).len() == decimal(n).len() + 1);
                    assert(int_text(k as int).subrange(1, int_text(k as int).len() as int) =~= decimal(n));
                    assert(lit_at(v@, i + 1, decimal(n)));
                    assert(nat_at(v@, i + 1, n));
                    lemma_nat_at(v@, i + 1, n, p);
                }
            }
        }
        r
    } else {
        let p = parse_u64(v, i);
        let r = match p {
            Some((n, j)) => {
                if n <= 2147483647 {
                    Some((n as i32, j))
                } else {
                    None
                }
            },
            None => None,
        };
        proof {
            assert forall|k: i32| #[trigger] int_at(v@, i as int, k as int) implies (r matches Some((m, j)) && m == k
                && j == i + int_text(k as int).len()) by {
                if k < 0 {
                    assert(v@.subrange(i as int, i + int_text(k as int).len())[0] == v@[i as int]);
                    assert(int_text(k as int)[0] == '-');
                } else {
                    assert(nat_at(v@, i as int, k as nat));
                    lemma_nat_at(v@, i as int, k as nat, p);
                }
            }
        }
        r
    }
}

/// `v` holds, at `i`, the quoted quote-free strings of `l` separated by
/// commas and closed by `]`.
pub open spec fn items_at(v: Seq<char>, i: int, l: Seq<Seq<char>>) -> bool {
    &&& lit_at(v, i, items_text(l) + seq![']'])
    &&& forall|k: int| 0 <= k < l.len() ==> quote_free(#[trigger] l[k])
}

/// Where the `k`-th item of `l` starts, for a list that starts at `i`.
pub open spec fn item_start(l: Seq<Seq<char>>, k: int, i: int) -> int {
    if k == 0 {
        i
    } else {
        i + items_text(l.subrange(0, k)).len() + 1
    }
}

proof fn lemma_items_step(l: Seq<Seq<char>>, k: int)
    requires
        0 <= k < l.len(),
    ensures
        items_text(l.subrange(0, k + 1)) == if k == 0 {
            quoted(l[0])
        } else {
            items_text(l.subrange(0, k)) + seq![','] + quoted(l[k])
        },
{
    let m = l.subrange(0, k + 1);
    assert(m.drop_last() =~= l.subrange(0, k));
    assert(m.last() == l[k]);
    if k == 0 {
        assert(m.len() == 1);
    }
}

proof fn lemma_items_prefix(l: Seq<Seq<char>>, m: int)
    requires
        1 <= m <= l.len(),
    ensures
        items_text(l.subrange(0, m)).len() <= items_text(l).len(),
        items_text(l).subrange(0, items_text(l.subrange(0, m)).len() as int) == items_text(l.subrange(0, m)),
        m < l.len() ==> items_text(l.subrange(0, m)).len() < items_text(l).len(),
        m < l.len() ==> items_text(l)[items_text(l.subrange(0, m)).len() as int] == ',',
    decreases l.len(),
{
    if m == l.len() {
        assert(l.subrange(0, m) =~= l);
        assert(items_text(l).subrange(0, items_text(l).len() as int) =~= items_text(l));
    } else {
        let d = l.drop_last();
        assert(l.len() >= 2);
        assert(items_text(l) == items_text(d) + seq![','] + quoted(l.last()));
        assert(d.subrange(0, m) =~= l.subrange(0, m));
        if m < d.len() {
            lemma_items_prefix(d, m);
        } else {
            assert(d.subrange(0, m) =~= d);
        }
        let a = items_text(l.subrange(0, m));
        assert(items_text(l).subrange(0, a.len() as int) =~= items_text(d).subrange(0, a.len() as int));
        if m < d.len() {
            assert(items_text(l)[a.len() as int] == items_text(d)[a.len() as int]);
        } else {
            assert(items_text(d).subrange(0, items_text(d).len() as int) =~= items_text(d));
        }
    }
}

/// Where the `k`-th item of a list sits, and what follows it.
proof fn lemma_item_at(v: Seq<char>, i: int, l: Seq<Seq<char>>, k: int)
    requires
        items_at(v, i, l),
        0 <= k < l.len(),
    ensures
        lit_at(v, item_start(l, k, i), quoted(l[k])),
        quote_free(l[k]),
        k + 1 < l.len() ==> v[item_start(l, k, i) + quoted(l[k]).len()] == ',' && item_start(l, k + 1, i)
            == item_start(l, k, i) + quoted(l[k]).len() + 1,
        k + 1 == l.len() ==> v[item_start(l, k, i) + quoted(l[k]).len()] == ']' && item_start(l, k, i)
            + quoted(l[k]).len() + 1 == i + items_text(l).len() + 1,
{
    let t = items_text(l) + seq![']'];
    let a = items_text(l.subrange(0, k + 1));
    lemma_items_step(l, k);
    lemma_items_prefix(l, k + 1);
    let st = item_start(l, k, i);
    let q = quoted(l[k]);
    assert(st - i + q.len() == a.len());
    assert(v.subrange(i, i + t.len()) == t);
    assert(v.subrange(st, st + q.len()) =~= q) by {
        assert forall|x: int| 0 <= x < q.len() implies v.subrange(st, st + q.len())[x] == q[x] by {
            assert(v[st + x] == t[st - i + x]);
            assert(t[st - i + x] == items_text(l)[st - i + x]);
            assert(items_text(l)[st - i + x] == a[st - i + x]);
        }
    }
    if k + 1 < l.len() {
        assert(v[st + q.len()] == t[a.len() as int]);
        assert(item_start(l, k + 1, i) == i + a.len() + 1);
    } else {
        assert(l.subrange(0, k + 1) =~= l);
        assert(v[st + q.len()] == t[a.len() as int]);
    }
}

/// A list of quoted strings closed by `]`, and the position after the `]`.
fn parse_items(v: &Vec<char>, i: usize) -> (r: Option<(Vec<String>, usize)>)
    requires
        i <= v@.len(),
    ensures
        r matches Some((_, j)) ==> i < j <= v@.len(),
        forall|l: Seq<Seq<char>>| #[trigger] items_at(v@, i as int, l) ==> (r matches Some((items, j))
            && scopes_view(items@) == l && j == i + items_text(l).len() + 1),
{
    let mut items: Vec<String> = Vec::new();
    if i < v.len() && v[i] == ']' {
        proof {
            assert forall|l: Seq<Seq<char>>| #[trigger] items_at(v@, i as int, l) implies l.len() == 0 by {
                if l.len() > 0 {
                    lemma_item_at(v@, i as int, l, 0);
                    assert(v@.subrange(i as int, i + quoted(l[0]).len())[0] == v@[i as int]);
                }
            }
            assert(scopes_view(items@) =~= Seq::<Seq<char>>::empty());
        }
        return Some((items, i + 1));
    }
    proof {
        assert forall|l: Seq<Seq<char>>| #[trigger] items_at(v@, i as int, l) implies l.len() > 0 by {
            if l.len() == 0 {
                assert(v@.subrange(i as int, i + 1)[0] == v@[i as int]);
                assert((items_text(l) + seq![']'])[0] == ']');
            }
        }
    }
    let mut pos: usize = i;
    loop
        invariant
            i <= pos <= v@.len(),
            forall|l: Seq<Seq<char>>| #[trigger] items_at(v@, i as int, l) ==> items@.len() < l.len()
                && scopes_view(items@) == l.subrange(0, items@.len() as int) && pos == item_start(
                l,
                items@.len() as int,
                i as int,
            ),
        decreases v@.len() - pos,
    {
        let ghost k = items@.len() as int;
        let parsed = parse_quoted(v, pos);
        proof {
            assert forall|l: Seq<Seq<char>>| #[trigger] items_at(v@, i as int, l) implies (parsed matches Some((
                s,
                next,
            )) && s@ == l[k] && next == pos + l[k].len() + 2) by {
                lemma_item_at(v@, i as int, l, k);
                lemma_quoted_at(v@, pos as int, l[k], parsed);
            }
        }
        match parsed {
            Some((s, next)) => {
                let ghost before = items@;
                items.push(s);
                proof {
                    assert forall|l: Seq<Seq<char>>| #[trigger] items_at(v@, i as int, l) implies scopes_view(items@)
                        == l.subrange(0, k + 1) by {
                        assert(scopes_view(items@) =~= l.subrange(0, k + 1)) by {
                            assert(scopes_view(before) == l.subrange(0, k));
                            assert forall|x: int| 0 <= x < k + 1 implies scopes_view(items@)[x] == l.subrange(0, k + 1)[x] by {
                                if x < k {
                                    assert(scopes_view(items@)[x] == scopes_view(before)[x]);
                                }
                            }
                        }
                    }
                }
                if next < v.len() && v[next] == ',' {
                    proof {
                        assert forall|l: Seq<Seq<char>>| #[trigger] items_at(v@, i as int, l) implies items@.len() < l.len()
                            && next + 1 == item_start(l, items@.len() as int, i as int) by {
                            lemma_item_at(v@, i as int, l, k);
                        }
                    }
                    pos = next + 1;
                } else if next < v.len() && v[next] == ']' {
                    proof {
                        assert forall|l: Seq<Seq<char>>| #[trigger] items_at(v@, i as int, l) implies (scopes_view(items@)
                            == l && next + 1 == i + items_text(l).len() + 1) by {
                            lemma_item_at(v@, i as int, l, k);
                            assert(l.subrange(0, k + 1) =~= l);
                        }
                    }
                    return Some((items, next + 1));
                } else {
                    proof {
                        assert forall|l: Seq<Seq<char>>| #[trigger] items_at(v@, i as int, l) implies false by {
                            lemma_item_at(v@, i as int, l, k);
                            assert(quoted(l[k]).len() == l[k].len() + 2);
                            assert(next == item_start(l, k, i as int) + quoted(l[k]).len());
                            lemma_items_prefix(l, k + 1);
                            lemma_items_step(l, k);
                        }
                    }
                    return None;
                }
            },
            None => {
                return None;
            },
        }
    }
}

fn parse_kind(s: &str) -> (r: Option<TokenType>)
    ensures
        r matches Some(t) ==> s@ == kind_name(t),
        forall|t: TokenType| s@ == #[trigger] kind_name(t) ==> r == Some(t),
{
    proof {
        reveal_strlit("bootstrap");
        reveal_strlit("access");
        reveal_strlit("refresh");
        assert("bootstrap"@.len() == 9 && "access"@.len() == 6 && "refresh"@.len() == 7);
        assert(kind_name(TokenType::Bootstrap) != kind_name(TokenType::Access));
        assert(kind_name(TokenType::Bootstrap) != kind_name(TokenType::Refresh));
        assert(kind_name(TokenType::Access) != kind_name(TokenType::Refresh));
    }
    if str_eq(s, "bootstrap") {
        Some(TokenType::Bootstrap)
    } else if str_eq(s, "access") {
        Some(TokenType::Access)
    } else if str_eq(s, "refresh") {
        Some(TokenType::Refresh)
    } else {
        None
    }
}

/// `t` is the payload text of the claims `c`.
pub open spec fn payload_of(t: Seq<char>, c: Claims) -> bool {
    claims_json(c) == t
}

/// Two claims values that carry the same claims.
pub open spec fn same_claims(a: Claims, b: Claims) -> bool {
    &&& a.owner@ == b.owner@
    &&& a.key_id == b.key_id
    &&& scopes_view(a.scopes@) == scopes_view(b.scopes@)
    &&& a.token_type == b.token_type
    &&& a.exp == b.exp
    &&& a.iat == b.iat
}

/// Where the pieces of the payload text of `c` start, in order.
pub open spec fn offset(c: Claims, k: int) -> int {
    let o1 = "{\"owner\":"@.len() as int;
    let o2 = o1 + quoted(esc(c.owner@)).len();
    let o3 = o2 + ",\"key_id\":"@.len();
    let o4 = o3 + int_text(c.key_id as int).len();
    let o5 = o4 + ",\"scopes\":["@.len();
    let o6 = o5 + items_text(esc_all(scopes_view(c.scopes@))).len() + 1;
    let o7 = o6 + ",\"token_type\":"@.len();
    let o8 = o7 + quoted(kind_name(c.token_type)).len();
    let o9 = o8 + ",\"exp\":"@.len();
    let o10 = o9 + decimal(c.exp as nat).len();
    let o11 = o10 + ",\"iat\":"@.len();
    if k == 1 {
        o1
    } else if k == 2 {
        o2
    } else if k == 3 {
        o3
    } else if k == 4 {
        o4
    } else if k == 5 {
        o5
    } else if k == 6 {
        o6
    } else if k == 7 {
        o7
    } else if k == 8 {
        o8
    } else if k == 9 {
        o9
    } else if k == 10 {
        o10
    } else {
        o11
    }
}

broadcast proof fn lemma_lit_extend(x: Seq<char>, y: Seq<char>, i: int, p: Seq<char>)
    requires
        lit_at(x, i, p),
    ensures
        #[trigger] lit_at(x + y, i, p),
{
    assert((x + y).subrange(i, i + p.len()) =~= x.subrange(i, i + p.len()));
}

proof fn lemma_lit_tail(x: Seq<char>, p: Seq<char>)
    ensures
        lit_at(x + p, x.len() as int, p),
{
    assert((x + p).subrange(x.len() as int, (x.len() + p.len()) as int) =~= p);
}

proof fn lemma_lit_join(x: Seq<char>, i: int, a: Seq<char>, b: Seq<char>)
    requires
        lit_at(x, i, a),
        lit_at(x, i + a.len(), b),
    ensures
        lit_at(x, i, a + b),
{
    assert(x.subrange(i, i + a.len() + b.len()) =~= a + b) by {
        assert forall|k: int| 0 <= k < a.len() + b.len() implies x.subrange(i, i + a.len() + b.len())[k] == (a
            + b)[k] by {
            if k < a.len() {
                assert(x.subrange(i, i + a.len())[k] == a[k]);
            } else {
                assert(x.subrange(i + a.len(), i + a.len() + b.len())[k - a.len()] == b[k - a.len()]);
            }
        }
    }
}

/// The pieces of the payload text of claims, at their offsets.
proof fn lemma_layout(c: Claims)
    ensures
        ({
            let t = claims_json(c);
            &&& lit_at(t, 0, "{\"owner\":"@)
            &&& lit_at(t, offset(c, 1), quoted(esc(c.owner@)))
            &&& quote_free(esc(c.owner@))
            &&& lit_at(t, offset(c, 2), ",\"key_id\":"@)
            &&& int_at(t, offset(c, 3), c.key_id as int)
            &&& lit_at(t, offset(c, 4), ",\"scopes\":["@)
            &&& items_at(t, offset(c, 5), esc_all(scopes_view(c.scopes@)))
            &&& lit_at(t, offset(c, 6), ",\"token_type\":"@)
            &&& lit_at(t, offset(c, 7), quoted(kind_name(c.token_type)))
            &&& quote_free(kind_name(c.token_type))
            &&& lit_at(t, offset(c, 8), ",\"exp\":"@)
            &&& nat_at(t, offset(c, 9), c.exp as nat)
            &&& lit_at(t, offset(c, 10), ",\"iat\":"@)
            &&& nat_at(t, offset(c, 11), c.iat as nat)
        }),
{
    broadcast use lemma_lit_extend;

    reveal_strlit(",\"scopes\":[");
    reveal_strlit(",\"iat\":");
    reveal_strlit("}");
    reveal_strlit("bootstrap");
    reveal_strlit("access");
    reveal_strlit("refresh");
    let l1 = "{\"owner\":"@;
    lemma_esc_quote_free(c.owner@);
    let qo = quoted(esc(c.owner@));
    let l2 = ",\"key_id\":"@;
    let it = int_text(c.key_id as int);
    let l3 = ",\"scopes\":["@;
    let sc = esc_all(scopes_view(c.scopes@));
    let items = items_text(sc);
    let l4 = ",\"token_type\":"@;
    let qk = quoted(kind_name(c.token_type));
    let l5 = ",\"exp\":"@;
    let de = decimal(c.exp as nat);
    let l6 = ",\"iat\":"@;
    let di = decimal(c.iat as nat);
    let l7 = "}"@;
    let upto1 = l1;
    let upto2 = upto1 + qo;
    let upto3 = upto2 + l2;
    let upto4 = upto3 + it;
    let upto5 = upto4 + l3;
    let upto6 = upto5 + items;
    let upto6b = upto6 + seq![']'];
    let upto7 = upto6b + l4;
    let upto8 = upto7 + qk;
    let upto9 = upto8 + l5;
    let upto10 = upto9 + de;
    let upto11 = upto10 + l6;
    let upto12 = upto11 + di;
    let t = upto12 + l7;
    assert(t == claims_json(c));
    assert(lit_at(upto1, 0, l1)) by {
        assert(upto1.subrange(0, l1.len() as int) =~= l1);
    }
    lemma_lit_tail(upto1, qo);
    lemma_lit_tail(upto2, l2);
    lemma_lit_tail(upto3, it);
    lemma_lit_tail(upto4, l3);
    lemma_lit_tail(upto5, items);
    lemma_lit_tail(upto6, seq![']']);
    lemma_lit_tail(upto6b, l4);
    lemma_lit_tail(upto7, qk);
    lemma_lit_tail(upto8, l5);
    lemma_lit_tail(upto9, de);
    lemma_lit_tail(upto10, l6);
    lemma_lit_tail(upto11, di);
    lemma_lit_tail(upto12, l7);
    assert(lit_at(t, 0, l1));
    assert(lit_at(t, upto1.len() as int, qo));
    assert(lit_at(t, upto2.len() as int, l2));
    assert(lit_at(t, upto3.len() as int, it));
    assert(lit_at(t, upto4.len() as int, l3));
    assert(lit_at(t, upto5.len() as int, items));
    assert(lit_at(t, upto6.len() as int, seq![']']));
    lemma_lit_join(t, upto5.len() as int, items, seq![']']);
    assert(lit_at(t, upto6b.len() as int, l4));
    assert(lit_at(t, upto7.len() as int, qk));
    assert(lit_at(t, upto8.len() as int, l5));
    assert(lit_at(t, upto9.len() as int, de));
    assert(lit_at(t, upto10.len() as int, l6));
    assert(lit_at(t, upto11.len() as int, di));
    assert(lit_at(t, upto12.len() as int, l7));
    assert(t[upto4.len() as int] == ',') by {
        assert(t.subrange(upto4.len() as int, (upto4.len() + l3.len()) as int)[0] == t[upto4.len() as int]);
    }
    assert(t[upto10.len() as int] == ',') by {
        assert(t.subrange(upto10.len() as int, (upto10.len() + l6.len()) as int)[0] == t[upto10.len() as int]);
    }
    assert(t[upto12.len() as int] == '}') by {
        assert(t.subrange(upto12.len() as int, (upto12.len() + l7.len()) as int)[0] == t[upto12.len() as int]);
    }
    assert forall|k: int| 0 <= k < sc.len() implies quote_free(#[trigger] sc[k]) by {
        lemma_esc_quote_free(scopes_view(c.scopes@)[k]);
    }
}

/// Owner, identity and scopes at the start of a payload text, and the
/// position after the scopes.
#[verifier::rlimit(100)]
fn parse_head(v: &Vec<char>) -> (r: Option<(String, i32, Vec<String>, usize)>)
    ensures
        r matches Some((_, _, _, p)) ==> p <= v@.len(),
        forall|c: Claims| #[trigger] payload_of(v@, c) ==> (r matches Some((o, k, l, p)) && o@ == c.owner@
            && k == c.key_id && scopes_view(l@) == scopes_view(c.scopes@) && p == offset(c, 6)),
{
    let ghost t = v@;
    let p = match expect_lit(v, 0, "{\"owner\":") {
        Some(p) => p,
        None => {
            proof {
                assert forall|c: Claims| #[trigger] payload_of(t, c) implies false by {
                    lemma_layout(c);
                }
            }
            return None;
        },
    };
    proof {
        assert forall|c: Claims| #[trigger] payload_of(t, c) implies p == offset(c, 1) by {
            lemma_layout(c);
        }
    }
    let parsed = parse_quoted(v, p);
    proof {
        assert forall|c: Claims| #[trigger] payload_of(t, c) implies (parsed matches Some((s, q)) && s@ == esc(
            c.owner@,
        ) && q == offset(c, 2)) by {
            lemma_layout(c);
            lemma_quoted_at(v@, p as int, esc(c.owner@), parsed);
        }
    }
    let (raw_owner, p) = match parsed {
        Some(x) => x,
        None => return None,
    };
    let owner = match unescape(raw_owner.as_str()) {
        Some(o) => o,
        None => {
            proof {
                assert forall|c: Claims| #[trigger] payload_of(t, c) implies false by {
                    lemma_unesc_esc(c.owner@);
                }
            }
            return None;
        },
    };
    proof {
        assert forall|c: Claims| #[trigger] payload_of(t, c) implies owner@ == c.owner@ by {
            lemma_unesc_esc(c.owner@);
        }
    }
    let p = match expect_lit(v, p, ",\"key_id\":") {
        Some(p) => p,
        None => {
            proof {
                assert forall|c: Claims| #[trigger] payload_of(t, c) implies false by {
                    lemma_layout(c);
                }
            }
            return None;
        },
    };
    proof {
        assert forall|c: Claims| #[trigger] payload_of(t, c) implies p == offset(c, 3) by {
            lemma_layout(c);
        }
    }
    let parsed = parse_i32(v, p);
    proof {
        assert forall|c: Claims| #[trigger] payload_of(t, c) implies (parsed matches Some((k, q)) && k == c.key_id
            && q == offset(c, 4)) by {
            lemma_layout(c);
            assert(p == offset(c, 3));
            assert(int_at(v@, p as int, c.key_id as int));
            assert(p + int_text(c.key_id as int).len() == offset(c, 4));
        }
    }
    let (key_id, p) = match parsed {
        Some(x) => x,
        None => return None,
    };
    let p = match expect_lit(v, p, ",\"scopes\":[") {
        Some(p) => p,
        None => {
            proof {
                assert forall|c: Claims| #[trigger] payload_of(t, c) implies false by {
                    lemma_layout(c);
                }
            }
            return None;
        },
    };
    proof {
        assert forall|c: Claims| #[trigger] payload_of(t, c) implies p == offset(c, 5) by {
            lemma_layout(c);
        }
    }
    let parsed = parse_items(v, p);
    proof {
        assert forall|c: Claims| #[trigger] payload_of(t, c) implies (parsed matches Some((l, q)) && scopes_view(
            l@,
        ) == esc_all(scopes_view(c.scopes@)) && q == offset(c, 6)) by {
            lemma_layout(c);
            assert(items_at(v@, p as int, esc_all(scopes_view(c.scopes@))));
        }
    }
    let (raw_scopes, p) = match parsed {
        Some(x) => x,
        None => return None,
    };
    let unescaped = unescape_all(&raw_scopes);
    proof {
        assert forall|c: Claims| #[trigger] payload_of(t, c) implies (unescaped matches Some(l) && scopes_view(l@)
            == scopes_view(c.scopes@)) by {
            let sc = scopes_view(c.scopes@);
            assert forall|k: int| 0 <= k < raw_scopes@.len() implies (#[trigger] unesc(raw_scopes@[k]@)) is Some by {
                assert(raw_scopes@[k]@ == scopes_view(raw_scopes@)[k]);
                assert(scopes_view(raw_scopes@)[k] == esc(sc[k]));
                lemma_unesc_esc(sc[k]);
            }
            if let Some(l) = unescaped {
                assert forall|k: int| 0 <= k < sc.len() implies scopes_view(l@)[k] == sc[k] by {
                    assert(raw_scopes@[k]@ == scopes_view(raw_scopes@)[k]);
                    assert(scopes_view(raw_scopes@)[k] == esc(sc[k]));
                    lemma_unesc_esc(sc[k]);
                    assert(unesc(raw_scopes@[k]@) == Some(l@[k]@));
                }
                assert(scopes_view(l@) =~= sc);
            }
        }
    }
    let scopes = match unescaped {
        Some(l) => l,
        None => return None,
    };
    Some((owner, key_id, scopes, p))
}

/// Kind, expiry and issue time of a payload text, from the position after
/// the scopes.
#[verifier::rlimit(100)]
fn parse_tail(v: &Vec<char>, p: usize) -> (r: Option<(TokenType, u64, u64)>)
    requires
        p <= v@.len(),
    ensures
        forall|c: Claims| #[trigger] payload_of(v@, c) && p == offset(c, 6) ==> r == Some(
            (c.token_type, c.exp, c.iat),
        ),
{
    let ghost t = v@;
    let ghost start = p;
    let p = match expect_lit(v, p, ",\"token_type\":") {
        Some(p) => p,
        None => {
            proof {
                assert forall|c: Claims| #[trigger] payload_of(t, c) && start == offset(c, 6) implies false by {
                    lemma_layout(c);
                }
            }
            return None;
        },
    };
    proof {
        assert forall|c: Claims| #[trigger] payload_of(t, c) && start == offset(c, 6) implies p == offset(c, 7) by {
            lemma_layout(c);
            assert(lit_at(v@, offset(c, 6), ",\"token_type\":"@));
            assert(offset(c, 7) == offset(c, 6) + ",\"token_type\":"@.len());
        }
    }
    let parsed = parse_quoted(v, p);
    proof {
        assert forall|c: Claims| #[trigger] payload_of(t, c) && start == offset(c, 6) implies (parsed matches Some((s, q)) && s@ == kind_name(
            c.token_type,
        ) && q == offset(c, 8)) by {
            lemma_layout(c);
            lemma_quoted_at(v@, p as int, kind_name(c.token_type), parsed);
        }
    }
    let (kind, p) = match parsed {
        Some(x) => x,
        None => return None,
    };
    let token_type = match parse_kind(kind.as_str()) {
        Some(t) => t,
        None => {
            proof {
                assert forall|c: Claims| #[trigger] payload_of(t, c) && start == offset(c, 6) implies false by {
                    assert(kind@ == kind_name(c.token_type));
                }
            }
            return None;
        },
    };
    proof {
        assert forall|c: Claims| #[trigger] payload_of(t, c) && start == offset(c, 6) implies token_type == c.token_type by {
            assert(kind@ == kind_name(c.token_type));
        }
    }
    let p = match expect_lit(v, p, ",\"exp\":") {
        Some(p) => p,
        None => {
            proof {
                assert forall|c: Claims| #[trigger] payload_of(t, c) && start == offset(c, 6) implies false by {
                    lemma_layout(c);
                }
            }
            return None;
        },
    };
    proof {
        assert forall|c: Claims| #[trigger] payload_of(t, c) && start == offset(c, 6) implies p == offset(c, 9) by {
            lemma_layout(c);
        }
    }
    let parsed = parse_u64(v, p);
    proof {
        assert forall|c: Claims| #[trigger] payload_of(t, c) && start == offset(c, 6) implies (parsed matches Some((n, q)) && n == c.exp && q
            == offset(c, 10)) by {
            lemma_layout(c);
            lemma_nat_at(v@, p as int, c.exp as nat, parsed);
        }
    }
    let (exp, p) = match parsed {
        Some(x) => x,
        None => return None,
    };
    let p = match expect_lit(v, p, ",\"iat\":") {
        Some(p) => p,
        None => {
            proof {
                assert forall|c: Claims| #[trigger] payload_of(t, c) && start == offset(c, 6) implies false by {
                    lemma_layout(c);
                }
            }
            return None;
        },
    };
    proof {
        assert forall|c: Claims| #[trigger] payload_of(t, c) && start == offset(c, 6) implies p == offset(c, 11) by {
            lemma_layout(c);
        }
    }
    let parsed = parse_u64(v, p);
    proof {
        assert forall|c: Claims| #[trigger] payload_of(t, c) && start == offset(c, 6) implies (parsed matches Some((n, _q)) && n == c.iat) by {
            lemma_layout(c);
            lemma_nat_at(v@, p as int, c.iat as nat, parsed);
        }
    }
    let (iat, _p) = match parsed {
        Some(x) => x,
        None => return None,
    };
    Some((token_type, exp, iat))
}

/// Reads claims back from a payload text. Only the exact text that
/// [`render_claims`] gives for some claims is accepted, and the text of any
/// claims is always read back as those claims.
pub fn parse_claims(text: &str) -> (r: Option<Claims>)
    ensures
        r matches Some(c) ==> claims_json(c) == text@,
        forall|c: Claims| #[trigger] payload_of(text@, c) ==> (r matches Some(d) && same_claims(d, c)),
{
    let v = chars_of(text);
    let ghost t = text@;
    let (owner, key_id, scopes, p) = match parse_head(&v) {
        Some(x) => x,
        None => return None,
    };
    let (token_type, exp, iat) = match parse_tail(&v, p) {
        Some(x) => x,
        None => return None,
    };
    let d = Claims { owner, key_id, scopes, token_type, exp, iat };
    let rendered = render_claims(&d);
    proof {
        assert forall|c: Claims| #[trigger] payload_of(t, c) implies same_claims(d, c) && claims_json(d) == t by {
            assert(claims_json(d) == claims_json(c));
        }
    }
    if str_eq(rendered.as_str(), text) {
        Some(d)
    } else {
        None
    }
}

} // verus!
