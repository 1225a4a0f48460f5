//! The JSON text of token claims: a fixed field order, strings escaped as
//! JSON requires, and a reader that accepts exactly that text.

use vstd::prelude::*;
use vstd::string::*;
use crate::text::{digit_char, hex_char};

verus! {

/// How one character is written inside a JSON string.
pub open spec fn escape_char(c: char) -> Seq<char> {
    if c == '"' {
        seq!['\\', '"']
    } else if c == '\\' {
        seq!['\\', '\\']
    } else if (c as u32) < 0x20 {
        seq!['\\', 'u', '0', '0', hex_char((c as u32) as int / 16), hex_char((c as u32) as int % 16)]
    } else {
        seq![c]
    }
}

pub open spec fn escape(s: Seq<char>) -> Seq<char>
    decreases s.len(),
{
    if s.len() == 0 {
        Seq::empty()
    } else {
        escape(s.drop_last()) + escape_char(s.last())
    }
}

/// A JSON string literal holding `s`.
pub open spec fn json_string(s: Seq<char>) -> Seq<char> {
    "\""@ + escape(s) + "\""@
}

proof fn lemma_char_eq(a: char, b: char)
    requires
        a as u32 == b as u32,
    ensures
        a == b,
{
}

/// A JSON string literal, or `null`.
pub open spec fn json_opt_string(s: Option<Seq<char>>) -> Seq<char> {
    match s {
        Some(t) => json_string(t),
        None => "null"@,
    }
}

/// The decimal digits of `n`, most significant first, without leading zeros.
pub open spec fn decimal(n: nat) -> Seq<char>
    decreases n,
{
    if n < 10 {
        seq![digit_char(n as int)]
    } else {
        decimal(n / 10).push(digit_char((n % 10) as int))
    }
}

/// A JSON integer.
pub open spec fn json_int(n: int) -> Seq<char> {
    if n < 0 {
        "-"@ + decimal((-n) as nat)
    } else {
        decimal(n as nat)
    }
}

fn hex_digit_str(d: u32) -> (r: &'static str)
    requires
        d < 16,
    ensures
        r@ == seq![hex_char(d as int)],
{
    proof {
        reveal_strlit("0"); reveal_strlit("1"); reveal_strlit("2"); reveal_strlit("3");
        reveal_strlit("4"); reveal_strlit("5"); reveal_strlit("6"); reveal_strlit("7");
        reveal_strlit("8"); reveal_strlit("9"); reveal_strlit("a"); reveal_strlit("b");
        reveal_strlit("c"); reveal_strlit("d"); reveal_strlit("e"); reveal_strlit("f");
    }
    let r = if d == 0 { "0" } else if d == 1 { "1" } else if d == 2 { "2" } else if d == 3 { "3" }
    else if d == 4 { "4" } else if d == 5 { "5" } else if d == 6 { "6" } else if d == 7 { "7" }
    else if d == 8 { "8" } else if d == 9 { "9" } else if d == 10 { "a" } else if d == 11 { "b" }
    else if d == 12 { "c" } else if d == 13 { "d" } else if d == 14 { "e" } else { "f" };
    assert(r@ =~= seq![hex_char(d as int)]);
    r
}

/// Appends `s` as a JSON string literal.
pub fn push_json_string(out: &mut String, s: &str)
    ensures
        final(out)@ == old(out)@ + json_string(s@),
{
    proof { reveal_strlit("\""); }
    out.append("\"");
    let n = s.unicode_len();
    let mut i: usize = 0;
    while i < n
        invariant
            n == s@.len(),
            i <= n,
            out@ == old(out)@ + "\""@ + escape(s@.take(i as int)),
        decreases n - i,
    {
        let c = s.get_char(i);
        let ghost before = out@;
        if c == '"' {
            out.append("\\\"");
            proof { reveal_strlit("\\\""); }
            assert("\\\""@ =~= seq!['\\', '"']);
        } else if c == '\\' {
            out.append("\\\\");
            proof { reveal_strlit("\\\\"); }
            assert("\\\\"@ =~= seq!['\\', '\\']);
        } else if (c as u32) < 0x20 {
            out.append("\\u00");
            proof { reveal_strlit("\\u00"); }
            assert("\\u00"@ =~= seq!['\\', 'u', '0', '0']);
            out.append(hex_digit_str((c as u32) / 16));
            out.append(hex_digit_str((c as u32) % 16));
        } else {
            out.append(s.substring_char(i, i + 1));
            assert(s@.subrange(i as int, i + 1) =~= seq![c]);
        }
        assert(out@ =~= before + escape_char(c));
        assert(s@.take(i + 1).drop_last() =~= s@.take(i as int));
        i = i + 1;
    }
    assert(s@.take(n as int) =~= s@);
    out.append("\"");
    assert(final(out)@ =~= old(out)@ + json_string(s@)) by {
        assert(out@ =~= old(out)@ + "\""@ + escape(s@) + "\""@);
    }
}

/// Appends `s` as a JSON string literal, or `null`.
pub fn push_json_opt_string(out: &mut String, s: &Option<String>)
    ensures
        final(out)@ == old(out)@ + json_opt_string(match s { Some(t) => Some(t@), None => None }),
{
    match s {
        Some(t) => push_json_string(out, t.as_str()),
        None => out.append("null"),
    }
}

pub(crate) fn push_decimal(out: &mut String, n: u64)
    ensures
        final(out)@ == old(out)@ + decimal(n as nat),
    decreases n,
{
    if n >= 10 {
        push_decimal(out, n / 10);
    }
    let ghost mid = out@;
    out.append(crate::text::digit_str_of((n % 10) as u32));
    assert(out@ =~= old(out)@ + decimal(n as nat));
}

/// Appends `n` as a JSON integer.
pub fn push_json_int(out: &mut String, n: i64)
    ensures
        final(out)@ == old(out)@ + json_int(n as int),
{
    if n < 0 {
        out.append("-");
        let m: u64 = (0i128 - (n as i128)) as u64;
        push_decimal(out, m);
        assert(final(out)@ =~= old(out)@ + json_int(n as int));
    } else {
        push_decimal(out, n as u64);
    }
}

/// Whether `text` holds `lit` from character `pos` on.
pub fn lit_at(text: &str, pos: usize, lit: &str) -> (r: bool)
    ensures
        r == (pos + lit@.len() <= text@.len() && text@.subrange(pos as int, pos + lit@.len()) == lit@),
{
    let n = text.unicode_len();
    let m = lit.unicode_len();
    if pos > n || m > n - pos {
        return false;
    }
    let mut j: usize = 0;
    while j < m
        invariant
            n == text@.len(),
            m == lit@.len(),
            pos + m <= n,
            j <= m,
            forall|t: int| 0 <= t < j ==> text@[pos + t] == lit@[t],
        decreases m - j,
    {
        if text.get_char(pos + j) != lit.get_char(j) {
            assert(text@.subrange(pos as int, pos + m)[j as int] != lit@[j as int]);
            return false;
        }
        j = j + 1;
    }
    assert(text@.subrange(pos as int, pos + m) =~= lit@);
    true
}

fn hex_value(c: char) -> (r: Option<u32>)
    ensures
        r matches Some(v) ==> v < 16,
        forall|d: int| 0 <= d < 16 && c == hex_char(d) ==> r == Some(d as u32),
{
    if '0' <= c && c <= '9' {
        Some((c as u32) - ('0' as u32))
    } else if 'a' <= c && c <= 'f' {
        Some((c as u32) - ('a' as u32) + 10)
    } else {
        None
    }
}

/// `text` holds `piece` from character `pos` on.
pub open spec fn holds_at(text: Seq<char>, pos: int, piece: Seq<char>) -> bool {
    0 <= pos && pos + piece.len() <= text.len() && text.subrange(pos, pos + piece.len()) == piece
}

proof fn lemma_escape_prefix(s: Seq<char>, k: int)
    requires
        0 <= k <= s.len(),
    ensures
        escape(s.take(k)).len() <= escape(s).len(),
        escape(s).subrange(0, escape(s.take(k)).len() as int) == escape(s.take(k)),
    decreases s.len() - k,
{
    if k == s.len() {
        assert(s.take(k) =~= s);
    } else {
        lemma_escape_prefix(s, k + 1);
        assert(s.take(k + 1).drop_last() =~= s.take(k));
        let a = escape(s.take(k));
        let b = escape(s.take(k + 1));
        assert(b == a + escape_char(s[k]));
        assert(escape(s).subrange(0, a.len() as int) =~= b.subrange(0, a.len() as int));
        assert(b.subrange(0, a.len() as int) =~= a);
    }
}

/// Appends the control character with code `code`.
fn push_control_char(out: &mut String, code: u32)
    requires
        code < 32,
    ensures
        final(out)@.len() == old(out)@.len() + 1,
        final(out)@.drop_last() == old(out)@,
        final(out)@.last() as u32 == code,
{
    let table = "\u{0}\u{1}\u{2}\u{3}\u{4}\u{5}\u{6}\u{7}\u{8}\u{9}\u{a}\u{b}\u{c}\u{d}\u{e}\u{f}\u{10}\u{11}\u{12}\u{13}\u{14}\u{15}\u{16}\u{17}\u{18}\u{19}\u{1a}\u{1b}\u{1c}\u{1d}\u{1e}\u{1f}";
    proof {
        reveal_strlit("\u{0}\u{1}\u{2}\u{3}\u{4}\u{5}\u{6}\u{7}\u{8}\u{9}\u{a}\u{b}\u{c}\u{d}\u{e}\u{f}\u{10}\u{11}\u{12}\u{13}\u{14}\u{15}\u{16}\u{17}\u{18}\u{19}\u{1a}\u{1b}\u{1c}\u{1d}\u{1e}\u{1f}");
        assert(table@.len() == 32);
        assert(table@[code as int] as u32 == code);
    }
    let k = code as usize;
    let one = table.substring_char(k, k + 1);
    assert(one@ =~= seq![table@[code as int]]);
    out.append(one);
    assert(out@.drop_last() =~= old(out)@);
}

/// Reads a JSON string literal starting at character `pos`: its contents and
/// the position just past its closing quote. Where `text` holds the literal
/// of `expect` there, that is what is read.
pub fn read_string(text: &str, pos: usize, Ghost(expect): Ghost<Seq<char>>) -> (r: Option<(String, usize)>)
    ensures
        r matches Some((_, p)) ==> p <= text@.len(),
        holds_at(text@, pos as int, json_string(expect)) ==> (r matches Some((v, p)) && v@ == expect
            && p == pos + json_string(expect).len()),
{
    let n = text.unicode_len();
    let ghost want = holds_at(text@, pos as int, json_string(expect));
    let ghost e = escape(expect);
    proof {
        reveal_strlit("\"");
        assert("\""@ =~= seq!['"']);
        if want {
            assert(json_string(expect) =~= seq!['"'] + e + seq!['"']);
            assert(text@.subrange(pos as int, pos + json_string(expect).len())[0] == json_string(expect)[0]);
        }
    }
    if pos >= n || text.get_char(pos) != '"' {
        return None;
    }
    let mut out = String::new();
    let mut i: usize = pos + 1;
    let ghost mut m: int = 0;
    while i < n
        invariant
            n == text@.len(),
            pos < i <= n,
            want == holds_at(text@, pos as int, json_string(expect)),
            e == escape(expect),
            want ==> 0 <= m <= expect.len() && out@ == expect.take(m) && i == pos + 1 + escape(expect.take(m)).len(),
        decreases n - i,
    {
        let ghost step = if want && m < expect.len() { escape_char(expect[m]) } else { Seq::empty() };
        proof {
            if want {
                lemma_escape_prefix(expect, m);
                let a = escape(expect.take(m));
                let js = json_string(expect);
                reveal_strlit("\"");
                assert("\""@ =~= seq!['"']);
                assert(js =~= seq!['"'] + e + seq!['"']);
                if m < expect.len() {
                    lemma_escape_prefix(expect, m + 1);
                    assert(expect.take(m + 1).drop_last() =~= expect.take(m));
                    assert(escape(expect.take(m + 1)) == a + step);
                    assert forall|t: int| 0 <= t < step.len() implies text@[i + t] == step[t] by {
                        assert(e.subrange(0, escape(expect.take(m + 1)).len() as int) == a + step);
                        assert(e[a.len() as int + t] == (a + step)[a.len() as int + t]);
                        assert(js[1 + a.len() as int + t] == e[a.len() as int + t]);
                        assert(text@.subrange(pos as int, pos + js.len())[1 + a.len() as int + t] == js[1 + a.len() as int + t]);
                    }
                    assert(text@[i as int] == step[0]);
                    if step.len() > 1 {
                        assert(text@[i + 1] == step[1]);
                    }
                    if step.len() > 2 {
                        assert(text@[i + 2] == step[2]);
                        assert(text@[i + 3] == step[3]);
                        assert(text@[i + 4] == step[4]);
                        assert(text@[i + 5] == step[5]);
                    }
                } else {
                    assert(expect.take(m) =~= expect);
                    assert(text@.subrange(pos as int, pos + js.len())[1 + a.len() as int] == js[1 + a.len() as int]);
                    assert(text@[i as int] == '"');
                }
            }
        }
        let c = text.get_char(i);
        if c == '"' {
            proof {
                if want && m < expect.len() {
                    assert(step[0] == c);
                    assert(false);
                }
                if want {
                    assert(expect.take(m) =~= expect);
                }
            }
            return Some((out, i + 1));
        } else if c == '\\' {
            if i + 1 >= n {
                return None;
            }
            let c2 = text.get_char(i + 1);
            if c2 == '"' {
                proof { reveal_strlit("\""); }
                out.append("\"");
                proof {
                    if want {
                        assert(expect[m] == '"');
                        assert(expect.take(m + 1) =~= expect.take(m).push(expect[m]));
                        assert(out@ =~= expect.take(m + 1));
                        assert(expect.take(m + 1).drop_last() =~= expect.take(m));
                        m = m + 1;
                    }
                }
                i = i + 2;
            } else if c2 == '\\' {
                proof { reveal_strlit("\\"); }
                out.append("\\");
                proof {
                    if want {
                        assert(expect[m] == '\\');
                        assert(expect.take(m + 1) =~= expect.take(m).push(expect[m]));
                        assert(out@ =~= expect.take(m + 1));
                        assert(expect.take(m + 1).drop_last() =~= expect.take(m));
                        m = m + 1;
                    }
                }
                i = i + 2;
            } else if c2 == 'u' && n - i > 5 && text.get_char(i + 2) == '0' && text.get_char(i + 3) == '0' {
                match (hex_value(text.get_char(i + 4)), hex_value(text.get_char(i + 5))) {
                    (Some(hi), Some(lo)) => {
                        if hi >= 2 {
                            return None;
                        }
                        push_control_char(&mut out, hi * 16 + lo);
                        proof {
                            if want {
                                let code = expect[m] as u32;
                                assert(code < 0x20);
                                assert(hi == code / 16);
                                assert(lo == code % 16);
                                assert(out@.last() as u32 == code);
                                lemma_char_eq(out@.last(), expect[m]);
                                assert(expect.take(m + 1) =~= expect.take(m).push(expect[m]));
                                assert(out@ =~= expect.take(m + 1));
                                assert(expect.take(m + 1).drop_last() =~= expect.take(m));
                                m = m + 1;
                            }
                        }
                        i = i + 6;
                    },
                    _ => {
                        return None;
                    },
                }
            } else {
                return None;
            }
        } else {
            if (c as u32) < 0x20 {
                return None;
            }
            out.append(text.substring_char(i, i + 1));
            proof {
                assert(text@.subrange(i as int, i + 1) =~= seq![c]);
                if want {
                    assert(expect[m] == c);
                    assert(expect.take(m + 1) =~= expect.take(m).push(expect[m]));
                    assert(out@ =~= expect.take(m + 1));
                    assert(expect.take(m + 1).drop_last() =~= expect.take(m));
                    m = m + 1;
                }
            }
            i = i + 1;
        }
    }
    proof {
        if want {
            lemma_escape_prefix(expect, m);
            assert(false);
        }
    }
    None
}

/// Reads a JSON string literal or `null` starting at character `pos`. Where
/// `text` holds the text of `expect` there, that is what is read.
pub fn read_opt_string(text: &str, pos: usize, Ghost(expect): Ghost<Option<Seq<char>>>) -> (r: Option<
    (Option<String>, usize),
>)
    ensures
        r matches Some((_, p)) ==> p <= text@.len(),
        holds_at(text@, pos as int, json_opt_string(expect)) ==> (r matches Some((v, p)) && opt_text(v)
            == expect && p == pos + json_opt_string(expect).len()),
{
    proof { reveal_strlit("null"); }
    let _n = text.unicode_len();
    let ghost want = holds_at(text@, pos as int, json_opt_string(expect));
    let ghost inner = match expect { Some(t) => t, None => Seq::empty() };
    if lit_at(text, pos, "null") {
        proof {
            reveal_strlit("\"");
            if want && expect is Some {
                assert(json_opt_string(expect)[0] == '"');
                assert(text@.subrange(pos as int, pos + json_opt_string(expect).len())[0] == json_opt_string(expect)[0]);
                assert(text@.subrange(pos as int, pos + 4)[0] == "null"@[0]);
                assert(text@[pos as int] == "null"@[0]);
            }
        }
        assert("null"@.len() == 4);
        Some((None, pos + 4))
    } else {
        proof {
            if want && expect is None {
                assert(text@.subrange(pos as int, pos + 4) =~= "null"@);
            }
        }
        match read_string(text, pos, Ghost(inner)) {
            Some((s, p)) => Some((Some(s), p)),
            None => None,
        }
    }
}

/// The optional text held by an optional string.
pub open spec fn opt_text(s: Option<String>) -> Option<Seq<char>> {
    match s {
        Some(t) => Some(t@),
        None => None,
    }
}

pub open spec fn is_digit(c: char) -> bool {
    '0' <= c && c <= '9'
}

/// The number that a run of decimal digits writes.
pub open spec fn digits_value(s: Seq<char>) -> int
    decreases s.len(),
{
    if s.len() == 0 {
        0
    } else {
        digits_value(s.drop_last()) * 10 + (s.last() as int - '0' as int)
    }
}

proof fn lemma_digit_char(d: int)
    requires
        0 <= d <= 9,
    ensures
        is_digit(digit_char(d)),
        digit_char(d) as int - '0' as int == d,
{
}

pub(crate) proof fn lemma_decimal(n: nat)
    ensures
        decimal(n).len() >= 1,
        forall|i: int| 0 <= i < decimal(n).len() ==> is_digit(#[trigger] decimal(n)[i]),
        digits_value(decimal(n)) == n,
    decreases n,
{
    if n < 10 {
        lemma_digit_char(n as int);
        let d = seq![digit_char(n as int)];
        assert(d.drop_last() =~= Seq::<char>::empty());
        assert(digits_value(d.drop_last()) == 0);
        assert(digits_value(d) == digits_value(d.drop_last()) * 10 + (d.last() as int - '0' as int));
    } else {
        lemma_decimal(n / 10);
        lemma_digit_char((n % 10) as int);
        let d = decimal(n / 10);
        assert(decimal(n).drop_last() =~= d);
        assert forall|i: int| 0 <= i < decimal(n).len() implies is_digit(#[trigger] decimal(n)[i]) by {
            if i < d.len() {
                assert(decimal(n)[i] == d[i]);
            }
        }
    }
}

proof fn lemma_digits_prefix(s: Seq<char>, k: int)
    requires
        0 <= k <= s.len(),
        forall|i: int| 0 <= i < s.len() ==> is_digit(#[trigger] s[i]),
    ensures
        0 <= digits_value(s.take(k)) <= digits_value(s),
    decreases s.len(),
{
    if s.len() > 0 {
        if k == s.len() {
            assert(s.take(k) =~= s);
            lemma_digits_prefix(s.drop_last(), k - 1);
            assert(s.drop_last().take(k - 1) =~= s.drop_last());
        } else {
            lemma_digits_prefix(s.drop_last(), k);
            assert(s.drop_last().take(k) =~= s.take(k));
            lemma_digits_prefix(s.drop_last(), s.len() - 1);
            assert(s.drop_last().take(s.len() - 1) =~= s.drop_last());
        }
    }
}

fn digit_at(text: &str, i: usize) -> (r: bool)
    requires
        i < text@.len(),
    ensures
        r == is_digit(text@[i as int]),
{
    let c = text.get_char(i);
    '0' <= c && c <= '9'
}

/// Reads a JSON integer that fits an `i64` starting at character `pos`.
/// Where `text` holds `expect` there, not followed by another digit, that is
/// what is read.
pub fn read_int(text: &str, pos: usize, Ghost(expect): Ghost<int>) -> (r: Option<(i64, usize)>)
    ensures
        r matches Some((_, p)) ==> p <= text@.len(),
        i64::MIN <= expect <= i64::MAX && holds_at(text@, pos as int, json_int(expect)) && (pos
            + json_int(expect).len() == text@.len() || !is_digit(text@[pos + json_int(expect).len()])) ==> (
        r matches Some((v, p)) && v == expect && p == pos + json_int(expect).len()),
{
    let n = text.unicode_len();
    let ghost want = i64::MIN <= expect <= i64::MAX && holds_at(text@, pos as int, json_int(expect)) && (pos
        + json_int(expect).len() == text@.len() || !is_digit(text@[pos + json_int(expect).len()]));
    let ghost mag: nat = if expect < 0 { (-expect) as nat } else { expect as nat };
    let ghost digits = decimal(mag);
    let ghost sign_len: int = if expect < 0 { 1 } else { 0 };
    proof {
        reveal_strlit("-");
        lemma_decimal(mag);
        if want {
            assert(json_int(expect) =~= (if expect < 0 { "-"@ } else { Seq::<char>::empty() }) + digits);
            assert(text@.subrange(pos as int, pos + json_int(expect).len())[0] == json_int(expect)[0]);
            if expect >= 0 {
                assert(json_int(expect)[0] == digits[0]);
            }
        }
    }
    if pos >= n {
        return None;
    }
    let negative = text.get_char(pos) == '-';
    let mut i: usize = if negative { pos + 1 } else { pos };
    let start = i;
    proof {
        if want {
            assert(negative == (expect < 0));
            assert(start == pos + sign_len);
        }
    }
    let mut value: u64 = 0;
    while i < n && digit_at(text, i)
        invariant
            n == text@.len(),
            start <= i <= n,
            want ==> start == pos + sign_len && i - start <= digits.len() && value == digits_value(
                digits.take(i - start)) && holds_at(text@, pos as int, json_int(expect)),
            want ==> json_int(expect) =~= (if expect < 0 { "-"@ } else { Seq::<char>::empty() }) + digits,
            want ==> (pos + json_int(expect).len() == text@.len() || !is_digit(
                text@[pos + json_int(expect).len()])),
            want ==> negative == (expect < 0),
            forall|t: int| 0 <= t < digits.len() ==> is_digit(#[trigger] digits[t]),
            digits_value(digits) == mag,
            mag == (if expect < 0 { -expect } else { expect }),
            want ==> mag <= 9223372036854775808,
            sign_len == (if expect < 0 { 1int } else { 0int }),
            want == (i64::MIN <= expect <= i64::MAX && holds_at(text@, pos as int, json_int(expect)) && (pos
                + json_int(expect).len() == text@.len() || !is_digit(text@[pos + json_int(expect).len()]))),
        decreases n - i,
    {
        let c = text.get_char(i);
        proof {
            reveal_strlit("-");
            assert("-"@.len() == 1);
            if want {
                let k = i - start;
                let ji = json_int(expect);
                if k < digits.len() {
                    assert(ji[sign_len + k] == digits[k]);
                    assert(text@.subrange(pos as int, pos + ji.len())[sign_len + k] == ji[sign_len + k]);
                    assert(c == digits[k]);
                } else {
                    assert(i == pos + ji.len());
                    assert(false);
                }
            }
        }
        let d: u64 = ((c as u32) - ('0' as u32)) as u64;
        proof {
            if want {
                let k = i - start;
                assert(digits.take(k + 1).drop_last() =~= digits.take(k));
                assert(digits.take(k + 1).last() == c);
                lemma_digits_prefix(digits, k + 1);
                assert(digits_value(digits.take(k + 1)) == value * 10 + d);
                assert(value * 10 + d <= 9223372036854775808);
            }
        }
        if value > 1_844_674_407_370_955_160 {
            return None;
        }
        value = value * 10 + d;
        i = i + 1;
    }
    proof {
        reveal_strlit("-");
        assert("-"@.len() == 1);
        if want {
            let k = i - start;
            let ji = json_int(expect);
            if k < digits.len() {
                assert(ji[sign_len + k] == digits[k]);
                assert(text@.subrange(pos as int, pos + ji.len())[sign_len + k] == ji[sign_len + k]);
                assert(is_digit(text@[i as int]));
                assert(false);
            }
            assert(digits.take(digits.len() as int) =~= digits);
            assert(value == mag);
        }
    }
    if i == start {
        return None;
    }
    if negative {
        if value > 9_223_372_036_854_775_808 {
            return None;
        }
        Some(((0i128 - (value as i128)) as i64, i))
    } else {
        if value > 9_223_372_036_854_775_807 {
            return None;
        }
        Some((value as i64, i))
    }
}

proof fn lemma_escape_cons(c: char, s: Seq<char>)
    ensures
        escape(seq![c] + s) == escape_char(c) + escape(s),
    decreases s.len(),
{
    if s.len() == 0 {
        assert(seq![c] + s =~= seq![c]);
        assert(seq![c].drop_last() =~= Seq::<char>::empty());
        assert(escape(Seq::<char>::empty()) == Seq::<char>::empty());
        assert(escape(s) == Seq::<char>::empty());
        assert(seq![c].last() == c);
        assert(escape(seq![c]) == escape(seq![c].drop_last()) + escape_char(c));
        assert(escape(seq![c]) =~= escape_char(c));
        assert(escape_char(c) + escape(s) =~= escape_char(c));
    } else {
        lemma_escape_cons(c, s.drop_last());
        assert((seq![c] + s).drop_last() =~= seq![c] + s.drop_last());
        assert((seq![c] + s).last() == s.last());
        assert(escape(seq![c] + s) =~= escape_char(c) + escape(s));
    }
}

proof fn lemma_hex_char_injective(a: int, b: int)
    requires
        0 <= a < 16,
        0 <= b < 16,
        hex_char(a) == hex_char(b),
    ensures
        a == b,
{
}

proof fn lemma_escape_char_unique(x: char, y: char, r1: Seq<char>, r2: Seq<char>)
    requires
        escape_char(x) + r1 == escape_char(y) + r2,
    ensures
        x == y,
        r1 == r2,
{
    let l = escape_char(x) + r1;
    let ex = escape_char(x);
    let ey = escape_char(y);
    assert(l[0] == ex[0] && l[0] == ey[0]);
    if ex.len() >= 2 && ey.len() >= 2 {
        assert(l[1] == ex[1] && l[1] == ey[1]);
        if ex.len() == 6 && ey.len() == 6 {
            assert(l[4] == ex[4] && l[4] == ey[4]);
            assert(l[5] == ex[5] && l[5] == ey[5]);
            lemma_hex_char_injective((x as u32) as int / 16, (y as u32) as int / 16);
            lemma_hex_char_injective((x as u32) as int % 16, (y as u32) as int % 16);
            assert(x as u32 == y as u32);
            lemma_char_eq(x, y);
        }
    }
    assert(ex == ey);
    assert(r1 =~= l.skip(ex.len() as int));
    assert(r2 =~= (escape_char(y) + r2).skip(ey.len() as int));
}

/// A string literal ends at its first unescaped quote, so its text and what
/// follows it are both determined.
pub proof fn lemma_json_string_unique(a: Seq<char>, b: Seq<char>, r1: Seq<char>, r2: Seq<char>)
    requires
        escape(a) + seq!['"'] + r1 == escape(b) + seq!['"'] + r2,
    ensures
        a == b,
        r1 == r2,
    decreases a.len() + b.len(),
{
    if a.len() == 0 && b.len() == 0 {
        assert(r1 =~= (escape(a) + seq!['"'] + r1).skip(1));
        assert(r2 =~= (escape(b) + seq!['"'] + r2).skip(1));
    } else if a.len() == 0 {
        lemma_escape_cons(b[0], b.skip(1));
        assert(seq![b[0]] + b.skip(1) =~= b);
        assert((escape(a) + seq!['"'] + r1)[0] == '"');
        assert((escape(b) + seq!['"'] + r2)[0] == escape_char(b[0])[0]);
    } else if b.len() == 0 {
        lemma_escape_cons(a[0], a.skip(1));
        assert(seq![a[0]] + a.skip(1) =~= a);
        assert((escape(b) + seq!['"'] + r2)[0] == '"');
        assert((escape(a) + seq!['"'] + r1)[0] == escape_char(a[0])[0]);
    } else {
        lemma_escape_cons(a[0], a.skip(1));
        lemma_escape_cons(b[0], b.skip(1));
        assert(seq![a[0]] + a.skip(1) =~= a);
        assert(seq![b[0]] + b.skip(1) =~= b);
        let ta = escape(a.skip(1)) + seq!['"'] + r1;
        let tb = escape(b.skip(1)) + seq!['"'] + r2;
        assert(escape(a) + seq!['"'] + r1 =~= escape_char(a[0]) + ta);
        assert(escape(b) + seq!['"'] + r2 =~= escape_char(b[0]) + tb);
        lemma_escape_char_unique(a[0], b[0], ta, tb);
        lemma_json_string_unique(a.skip(1), b.skip(1), r1, r2);
        assert(a =~= seq![a[0]] + a.skip(1));
        assert(b =~= seq![b[0]] + b.skip(1));
    }
}

proof fn lemma_decimal_unique(m: nat, n: nat, r1: Seq<char>, r2: Seq<char>)
    requires
        decimal(m) + r1 == decimal(n) + r2,
        r1.len() > 0 && !is_digit(r1[0]),
        r2.len() > 0 && !is_digit(r2[0]),
    ensures
        m == n,
        r1 == r2,
{
    lemma_decimal(m);
    lemma_decimal(n);
    let dm = decimal(m);
    let dn = decimal(n);
    let t = dm + r1;
    if dm.len() < dn.len() {
        assert(t[dm.len() as int] == r1[0]);
        assert(t[dm.len() as int] == dn[dm.len() as int]);
    } else if dn.len() < dm.len() {
        assert(t[dn.len() as int] == dm[dn.len() as int]);
        assert((dn + r2)[dn.len() as int] == r2[0]);
    } else {
        assert(dm =~= t.take(dm.len() as int));
        assert(dn =~= (dn + r2).take(dn.len() as int));
        assert(r1 =~= t.skip(dm.len() as int));
        assert(r2 =~= (dn + r2).skip(dn.len() as int));
    }
}

/// An integer followed by a non-digit is determined by the text.
pub proof fn lemma_json_int_unique(m: int, n: int, r1: Seq<char>, r2: Seq<char>)
    requires
        json_int(m) + r1 == json_int(n) + r2,
        r1.len() > 0 && !is_digit(r1[0]),
        r2.len() > 0 && !is_digit(r2[0]),
    ensures
        m == n,
        r1 == r2,
{
    reveal_strlit("-");
    let am: nat = if m < 0 { (-m) as nat } else { m as nat };
    let an: nat = if n < 0 { (-n) as nat } else { n as nat };
    lemma_decimal(am);
    lemma_decimal(an);
    let t = json_int(m) + r1;
    if m < 0 {
        assert(json_int(m) =~= seq!['-'] + decimal(am));
    } else {
        assert(t[0] == decimal(am)[0]);
    }
    if n < 0 {
        assert(json_int(n) =~= seq!['-'] + decimal(an));
    } else {
        assert((json_int(n) + r2)[0] == decimal(an)[0]);
    }
    if m < 0 && n < 0 {
        assert(decimal(am) + r1 =~= t.skip(1));
        assert(decimal(an) + r2 =~= (json_int(n) + r2).skip(1));
        lemma_decimal_unique(am, an, r1, r2);
    } else if m >= 0 && n >= 0 {
        lemma_decimal_unique(am, an, r1, r2);
    } else {
        assert(t[0] == (json_int(n) + r2)[0]);
    }
}

} // verus!
