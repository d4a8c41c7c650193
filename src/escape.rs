//! Escaping of text inside a quoted payload string: `\` becomes `\\`, and a
//! double quote or a control character becomes `\u00XX`, so that escaped
//! text never holds a double quote.

use vstd::prelude::*;

use crate::payload::{digit_char, digit_of, is_digit, quote_free};
use crate::text::{chars_of, push_char};

verus! {

/// The lower-case hexadecimal digit of a value below sixteen.
pub open spec fn hex_char(d: nat) -> char {
    if d < 10 {
        digit_char(d)
    } else if d == 10 {
        'a'
    } else if d == 11 {
        'b'
    } else if d == 12 {
        'c'
    } else if d == 13 {
        'd'
    } else if d == 14 {
        'e'
    } else {
        'f'
    }
}

/// Value of a lower-case hexadecimal digit.
pub open spec fn hex_value(c: char) -> Option<nat> {
    if is_digit(c) {
        Some(digit_of(c))
    } else if c == 'a' {
        Some(10)
    } else if c == 'b' {
        Some(11)
    } else if c == 'c' {
        Some(12)
    } else if c == 'd' {
        Some(13)
    } else if c == 'e' {
        Some(14)
    } else if c == 'f' {
        Some(15)
    } else {
        None
    }
}

/// Characters written as `\u00XX`.
pub open spec fn needs_code_escape(c: char) -> bool {
    c == '"' || (c as u32) < 32
}

/// The escaped form of one character.
pub open spec fn esc_char(c: char) -> Seq<char> {
    if c == '\\' {
        seq!['\\', '\\']
    } else if needs_code_escape(c) {
        seq!['\\', 'u', '0', '0', hex_char((c as u32 / 16) as nat), hex_char((c as u32 % 16) as nat)]
    } else {
        seq![c]
    }
}

/// The escaped form of a text.
pub open spec fn esc(s: Seq<char>) -> Seq<char>
    decreases s.len(),
{
    if s.len() == 0 {
        Seq::empty()
    } else {
        esc_char(s[0]) + esc(s.drop_first())
    }
}

/// `a` in front of the text in `o`, if any.
pub open spec fn prepend(a: Seq<char>, o: Option<Seq<char>>) -> Option<Seq<char>> {
    match o {
        Some(r) => Some(a + r),
        None => None,
    }
}

/// The text that an escaped text stands for, if it is well formed.
pub open spec fn unesc(t: Seq<char>) -> Option<Seq<char>>
    decreases t.len(),
{
    if t.len() == 0 {
        Some(Seq::empty())
    } else if t[0] != '\\' {
        prepend(seq![t[0]], unesc(t.drop_first()))
    } else if t.len() >= 2 && t[1] == '\\' {
        prepend(seq!['\\'], unesc(t.skip(2)))
    } else if t.len() >= 6 && t[1] == 'u' && t[2] == '0' && t[3] == '0' && hex_value(t[4]) is Some && hex_value(
        t[5],
    ) is Some {
        prepend(
            seq![((hex_value(t[4])->Some_0 * 16 + hex_value(t[5])->Some_0) as u32) as char],
            unesc(t.skip(6)),
        )
    } else {
        None
    }
}

/// The escaped forms of a list of texts.
pub open spec fn esc_all(l: Seq<Seq<char>>) -> Seq<Seq<char>> {
    l.map_values(|s: Seq<char>| esc(s))
}

proof fn lemma_hex_char(d: nat)
    requires
        d < 16,
    ensures
        hex_value(hex_char(d)) == Some(d),
        hex_char(d) != '"',
        hex_char(d) != '\\',
{
}

proof fn lemma_esc_char_unesc(c: char, rest: Seq<char>)
    ensures
        unesc(esc_char(c) + rest) == prepend(seq![c], unesc(rest)),
{
    let t = esc_char(c) + rest;
    if c == '\\' {
        assert(t.skip(2) =~= rest);
    } else if needs_code_escape(c) {
        let code = c as u32;
        lemma_hex_char((code / 16) as nat);
        lemma_hex_char((code % 16) as nat);
        assert(t.skip(6) =~= rest);
        assert((code / 16) * 16 + code % 16 == code);
        vstd::utf8::char_u32_cast(c, code);
        assert(((hex_value(t[4])->Some_0 * 16 + hex_value(t[5])->Some_0) as u32) as char == c);
    } else {
        assert(t.drop_first() =~= rest);
    }
}

/// Unescaping undoes escaping.
pub proof fn lemma_unesc_esc(s: Seq<char>)
    ensures
        unesc(esc(s)) == Some(s),
    decreases s.len(),
{
    if s.len() > 0 {
        lemma_esc_char_unesc(s[0], esc(s.drop_first()));
        lemma_unesc_esc(s.drop_first());
        assert(seq![s[0]] + s.drop_first() =~= s);
    }
}

/// Escaping one more character appends its escaped form.
pub proof fn lemma_esc_push(a: Seq<char>, c: char)
    ensures
        esc(a.push(c)) == esc(a) + esc_char(c),
    decreases a.len(),
{
    if a.len() == 0 {
        assert(a.push(c).drop_first() =~= Seq::<char>::empty());
        assert(a.push(c)[0] == c);
        assert(esc(Seq::<char>::empty()) =~= Seq::<char>::empty());
        assert(esc(a) =~= Seq::<char>::empty());
        assert(esc_char(c) + Seq::<char>::empty() =~= esc_char(c));
    } else {
        assert(a.push(c).drop_first() =~= a.drop_first().push(c));
        assert(a.push(c)[0] == a[0]);
        lemma_esc_push(a.drop_first(), c);
        assert(esc_char(a[0]) + (esc(a.drop_first()) + esc_char(c)) =~= (esc_char(a[0]) + esc(a.drop_first()))
            + esc_char(c));
    }
}

/// Escaped text holds no double quote.
pub proof fn lemma_esc_quote_free(s: Seq<char>)
    ensures
        quote_free(esc(s)),
    decreases s.len(),
{
    if s.len() > 0 {
        lemma_esc_quote_free(s.drop_first());
        let c = s[0];
        if needs_code_escape(c) && c != '\\' {
            lemma_hex_char((c as u32 / 16) as nat);
            lemma_hex_char((c as u32 % 16) as nat);
        }
        let e = esc_char(c);
        let r = esc(s.drop_first());
        assert forall|k: int| 0 <= k < (e + r).len() implies #[trigger] (e + r)[k] != '"' by {
            if k >= e.len() {
                assert((e + r)[k] == r[k - e.len()]);
            }
        }
    }
}

fn hex_digit(d: u32) -> (c: char)
    requires
        d < 16,
    ensures
        c == hex_char(d as nat),
{
    if d < 10 {
        crate::payload::digit(d as u64)
    } else if d == 10 {
        'a'
    } else if d == 11 {
        'b'
    } else if d == 12 {
        'c'
    } else if d == 13 {
        'd'
    } else if d == 14 {
        'e'
    } else {
        'f'
    }
}

fn hex_digit_value(c: char) -> (r: Option<u32>)
    ensures
        match r {
            Some(d) => hex_value(c) == Some(d as nat) && d < 16,
            None => hex_value(c) is None,
        },
{
    if '0' <= c && c <= '9' {
        Some(c as u32 - '0' as u32)
    } else if c == 'a' {
        Some(10)
    } else if c == 'b' {
        Some(11)
    } else if c == 'c' {
        Some(12)
    } else if c == 'd' {
        Some(13)
    } else if c == 'e' {
        Some(14)
    } else if c == 'f' {
        Some(15)
    } else {
        None
    }
}

/// Appends the escaped form of `s`.
pub fn push_escaped(out: &mut String, s: &str)
    ensures
        final(out)@ == old(out)@ + esc(s@),
{
    let v = chars_of(s);
    let ghost base = out@;
    let mut i: usize = 0;
    while i < v.len()
        invariant
            v@ == s@,
            i <= v@.len(),
            out@ == base + esc(v@.subrange(0, i as int)),
        decreases v.len() - i,
    {
        let c = v[i];
        let ghost before = out@;
        if c == '\\' {
            push_char(out, '\\');
            push_char(out, '\\');
        } else if c == '"' || (c as u32) < 32 {
            let code = c as u32;
            push_char(out, '\\');
            push_char(out, 'u');
            push_char(out, '0');
            push_char(out, '0');
            push_char(out, hex_digit(code / 16));
            push_char(out, hex_digit(code % 16));
        } else {
            push_char(out, c);
        }
        proof {
            assert(out@ =~= before + esc_char(c));
            lemma_esc_push(v@.subrange(0, i as int), c);
            assert(v@.subrange(0, i + 1) =~= v@.subrange(0, i as int).push(c));
        }
        i = i + 1;
    }
    assert(v@.subrange(0, v@.len() as int) =~= s@);
}

/// The text that an escaped text stands for.
pub fn unescape(s: &str) -> (r: Option<String>)
    ensures
        match r {
            Some(u) => unesc(s@) == Some(u@),
            None => unesc(s@) is None,
        },
{
    let t = chars_of(s);
    let n = t.len();
    let mut out = String::new();
    let mut i: usize = 0;
    proof {
        assert(t@.subrange(0, n as int) =~= s@);
        match unesc(s@) {
            Some(x) => assert(out@ + x =~= x),
            None => {},
        }
    }
    while i < n
        invariant
            t@ == s@,
            n == t@.len(),
            i <= n,
            unesc(s@) == prepend(out@, unesc(t@.subrange(i as int, n as int))),
        decreases n - i,
    {
        let ghost u = t@.subrange(i as int, n as int);
        let ghost before = out@;
        let c = t[i];
        if c != '\\' {
            push_char(&mut out, c);
            proof {
                assert(u.drop_first() =~= t@.subrange(i + 1, n as int));
                match unesc(u.drop_first()) {
                    Some(x) => assert(before + (seq![c] + x) =~= out@ + x),
                    None => {},
                }
            }
            i = i + 1;
        } else if i + 1 < n && t[i + 1] == '\\' {
            push_char(&mut out, '\\');
            proof {
                assert(u.skip(2) =~= t@.subrange(i + 2, n as int));
                match unesc(u.skip(2)) {
                    Some(x) => assert(before + (seq!['\\'] + x) =~= out@ + x),
                    None => {},
                }
            }
            i = i + 2;
        } else if n - i > 5 && t[i + 1] == 'u' && t[i + 2] == '0' && t[i + 3] == '0' && hex_digit_value(t[i + 4]).is_some()
            && hex_digit_value(t[i + 5]).is_some() {
            let hi = hex_digit_value(t[i + 4]).unwrap();
            let lo = hex_digit_value(t[i + 5]).unwrap();
            let code: u8 = (hi * 16 + lo) as u8;
            let ch = code as char;
            assert(ch == ((hi * 16 + lo) as u32) as char);
            push_char(&mut out, ch);
            proof {
                assert(u[4] == t@[i + 4]);
                assert(u[5] == t@[i + 5]);
                assert(u.skip(6) =~= t@.subrange(i + 6, n as int));
                match unesc(u.skip(6)) {
                    Some(x) => assert(before + (seq![ch] + x) =~= out@ + x),
                    None => {},
                }
            }
            i = i + 6;
        } else {
            proof {
                assert(u[0] == '\\');
                if u.len() >= 2 {
                    assert(u[1] == t@[i + 1]);
                }
                if u.len() >= 6 {
                    assert(u[1] == t@[i + 1] && u[2] == t@[i + 2] && u[3] == t@[i + 3]);
                    assert(u[4] == t@[i + 4] && u[5] == t@[i + 5]);
                }
            }
            return None;
        }
    }
    proof {
        assert(t@.subrange(n as int, n as int) =~= Seq::<char>::empty());
        assert(out@ + Seq::<char>::empty() =~= out@);
    }
    Some(out)
}

/// The texts that a list of escaped texts stands for.
pub fn unescape_all(raw: &Vec<String>) -> (r: Option<Vec<String>>)
    ensures
        r matches Some(l) ==> l@.len() == raw@.len() && forall|k: int|
            0 <= k < raw@.len() ==> unesc(#[trigger] raw@[k]@) == Some(l@[k]@),
        (forall|k: int| 0 <= k < raw@.len() ==> (#[trigger] unesc(raw@[k]@)) is Some) ==> r is Some,
{
    let mut l: Vec<String> = Vec::new();
    let mut i: usize = 0;
    while i < raw.len()
        invariant
            i <= raw@.len(),
            l@.len() == i,
            forall|k: int| 0 <= k < i ==> unesc(#[trigger] raw@[k]@) == Some(l@[k]@),
        decreases raw.len() - i,
    {
        match unescape(raw[i].as_str()) {
            Some(u) => l.push(u),
            None => return None,
        }
        i = i + 1;
    }
    Some(l)
}

} // verus!
