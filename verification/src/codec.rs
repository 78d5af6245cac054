//! The wire codec: the canonical textual form of envelopes and inner
//! payloads, an encoder and a strict decoder, and the round-trip laws
//! relating them.
//!
//! A piece of wire text is valid exactly when it is the canonical encoding
//! of a well-formed value; the decoder accepts precisely those texts.

use vstd::prelude::*;

use crate::wire::{env_wf, EnvelopeV, MessageData, MessageV, MsgTypes, TypingStatus, TypingV, WebSocketMessage, WireError};

verus! {

/// `w` stands verbatim in `x` at position `i`.
pub open spec fn at_pos(x: Seq<char>, i: int, w: Seq<char>) -> bool {
    0 <= i && i + w.len() <= x.len() && x.subrange(i, i + w.len()) == w
}

/// The lower-case hex digit for a value below 16.
pub open spec fn hex_digit(v: int) -> char {
    if v == 0 { '0' }
    else if v == 1 { '1' }
    else if v == 2 { '2' }
    else if v == 3 { '3' }
    else if v == 4 { '4' }
    else if v == 5 { '5' }
    else if v == 6 { '6' }
    else if v == 7 { '7' }
    else if v == 8 { '8' }
    else if v == 9 { '9' }
    else if v == 10 { 'a' }
    else if v == 11 { 'b' }
    else if v == 12 { 'c' }
    else if v == 13 { 'd' }
    else if v == 14 { 'e' }
    else { 'f' }
}

/// The value of a lower-case hex digit, or -1 for any other character.
pub open spec fn hex_val(c: char) -> int {
    if c == '0' { 0 }
    else if c == '1' { 1 }
    else if c == '2' { 2 }
    else if c == '3' { 3 }
    else if c == '4' { 4 }
    else if c == '5' { 5 }
    else if c == '6' { 6 }
    else if c == '7' { 7 }
    else if c == '8' { 8 }
    else if c == '9' { 9 }
    else if c == 'a' { 10 }
    else if c == 'b' { 11 }
    else if c == 'c' { 12 }
    else if c == 'd' { 13 }
    else if c == 'e' { 14 }
    else if c == 'f' { 15 }
    else { -1 }
}

/// The code of a control character (below 0x20), or -1 for any other
/// character.
pub open spec fn ctrl_of(c: char) -> int {
    if c == '\u{0}' { 0 }
    else if c == '\u{1}' { 1 }
    else if c == '\u{2}' { 2 }
    else if c == '\u{3}' { 3 }
    else if c == '\u{4}' { 4 }
    else if c == '\u{5}' { 5 }
    else if c == '\u{6}' { 6 }
    else if c == '\u{7}' { 7 }
    else if c == '\u{8}' { 8 }
    else if c == '\u{9}' { 9 }
    else if c == '\u{a}' { 10 }
    else if c == '\u{b}' { 11 }
    else if c == '\u{c}' { 12 }
    else if c == '\u{d}' { 13 }
    else if c == '\u{e}' { 14 }
    else if c == '\u{f}' { 15 }
    else if c == '\u{10}' { 16 }
    else if c == '\u{11}' { 17 }
    else if c == '\u{12}' { 18 }
    else if c == '\u{13}' { 19 }
    else if c == '\u{14}' { 20 }
    else if c == '\u{15}' { 21 }
    else if c == '\u{16}' { 22 }
    else if c == '\u{17}' { 23 }
    else if c == '\u{18}' { 24 }
    else if c == '\u{19}' { 25 }
    else if c == '\u{1a}' { 26 }
    else if c == '\u{1b}' { 27 }
    else if c == '\u{1c}' { 28 }
    else if c == '\u{1d}' { 29 }
    else if c == '\u{1e}' { 30 }
    else if c == '\u{1f}' { 31 }
    else { -1 }
}

/// The control character with the given code below 0x20.
pub open spec fn ctrl_char(v: int) -> char {
    if v == 0 { '\u{0}' }
    else if v == 1 { '\u{1}' }
    else if v == 2 { '\u{2}' }
    else if v == 3 { '\u{3}' }
    else if v == 4 { '\u{4}' }
    else if v == 5 { '\u{5}' }
    else if v == 6 { '\u{6}' }
    else if v == 7 { '\u{7}' }
    else if v == 8 { '\u{8}' }
    else if v == 9 { '\u{9}' }
    else if v == 10 { '\u{a}' }
    else if v == 11 { '\u{b}' }
    else if v == 12 { '\u{c}' }
    else if v == 13 { '\u{d}' }
    else if v == 14 { '\u{e}' }
    else if v == 15 { '\u{f}' }
    else if v == 16 { '\u{10}' }
    else if v == 17 { '\u{11}' }
    else if v == 18 { '\u{12}' }
    else if v == 19 { '\u{13}' }
    else if v == 20 { '\u{14}' }
    else if v == 21 { '\u{15}' }
    else if v == 22 { '\u{16}' }
    else if v == 23 { '\u{17}' }
    else if v == 24 { '\u{18}' }
    else if v == 25 { '\u{19}' }
    else if v == 26 { '\u{1a}' }
    else if v == 27 { '\u{1b}' }
    else if v == 28 { '\u{1c}' }
    else if v == 29 { '\u{1d}' }
    else if v == 30 { '\u{1e}' }
    else { '\u{1f}' }
}

/// The character named by a short escape letter.
pub open spec fn unesc_short(c: char) -> char {
    if c == '"' { '"' }
    else if c == '\\' { '\\' }
    else if c == 'b' { '\u{8}' }
    else if c == 't' { '\u{9}' }
    else if c == 'n' { '\u{a}' }
    else if c == 'f' { '\u{c}' }
    else { '\u{d}' }
}

/// The canonical escape of one character inside a quoted wire string:
/// quote and backslash get a backslash escape, the five common control
/// characters get their short escapes, the remaining control characters
/// get a `\u00xx` escape with lower-case hex digits, and every other
/// character stands for itself.
pub open spec fn esc_char(c: char) -> Seq<char> {
    if c == '"' {
        seq!['\\', '"']
    } else if c == '\\' {
        seq!['\\', '\\']
    } else if c == '\u{8}' {
        seq!['\\', 'b']
    } else if c == '\u{9}' {
        seq!['\\', 't']
    } else if c == '\u{a}' {
        seq!['\\', 'n']
    } else if c == '\u{c}' {
        seq!['\\', 'f']
    } else if c == '\u{d}' {
        seq!['\\', 'r']
    } else if ctrl_of(c) >= 0 {
        seq!['\\', 'u', '0', '0', hex_digit(ctrl_of(c) / 16), hex_digit(ctrl_of(c) % 16)]
    } else {
        seq![c]
    }
}

/// The canonical escape of a whole string, character by character.
pub open spec fn esc_str(s: Seq<char>) -> Seq<char>
    decreases s.len(),
{
    if s.len() == 0 {
        Seq::empty()
    } else {
        esc_char(s[0]) + esc_str(s.skip(1))
    }
}

/// A quoted wire string: the escaped content between two quotes.
pub open spec fn jstr(s: Seq<char>) -> Seq<char> {
    seq!['"'] + esc_str(s) + seq!['"']
}

/// The string parser, at a position just after an opening quote: returns
/// the unescaped content and the position just after the closing quote.
/// It accepts exactly the canonical escapes, so the text it consumes is
/// the canonical encoding of the content it returns.
pub open spec fn p_jstr(x: Seq<char>, i: int) -> Option<(Seq<char>, int)>
    decreases x.len() - i,
{
    if i < 0 || i >= x.len() {
        None
    } else if x[i] == '"' {
        Some((Seq::empty(), i + 1))
    } else if x[i] == '\\' {
        if i + 1 < x.len() {
            let c = x[i + 1];
            if c == '"' || c == '\\' || c == 'b' || c == 't' || c == 'n' || c == 'f' || c == 'r' {
                match p_jstr(x, i + 2) {
                    Some((s, j)) => Some((seq![unesc_short(c)] + s, j)),
                    None => None,
                }
            } else if c == 'u' {
                if i + 5 < x.len() && x[i + 2] == '0' && x[i + 3] == '0' && hex_val(x[i + 4]) >= 0
                    && hex_val(x[i + 5]) >= 0 {
                    let v = hex_val(x[i + 4]) * 16 + hex_val(x[i + 5]);
                    if v < 32 && v != 8 && v != 9 && v != 10 && v != 12 && v != 13 {
                        match p_jstr(x, i + 6) {
                            Some((s, j)) => Some((seq![ctrl_char(v)] + s, j)),
                            None => None,
                        }
                    } else {
                        None
                    }
                } else {
                    None
                }
            } else {
                None
            }
        } else {
            None
        }
    } else if ctrl_of(x[i]) < 0 {
        match p_jstr(x, i + 1) {
            Some((s, j)) => Some((seq![x[i]] + s, j)),
            None => None,
        }
    } else {
        None
    }
}

proof fn lemma_concat_assoc(a: Seq<char>, b: Seq<char>, c: Seq<char>)
    ensures
        (a + b) + c == a + (b + c),
{
    assert((a + b) + c =~= a + (b + c));
}

/// A successful string parse moves strictly forward and stays in bounds.
pub proof fn lemma_p_jstr_bounds(x: Seq<char>, i: int)
    ensures
        p_jstr(x, i) matches Some(p) ==> i < p.1 <= x.len(),
    decreases x.len() - i,
{
    if i < 0 || i >= x.len() {
    } else if x[i] == '"' {
    } else if x[i] == '\\' {
        if i + 1 < x.len() {
            let c = x[i + 1];
            if c == '"' || c == '\\' || c == 'b' || c == 't' || c == 'n' || c == 'f' || c == 'r' {
                lemma_p_jstr_bounds(x, i + 2);
            } else if c == 'u' {
                if i + 5 < x.len() {
                    lemma_p_jstr_bounds(x, i + 6);
                }
            }
        }
    } else {
        lemma_p_jstr_bounds(x, i + 1);
    }
}

/// Soundness of the string parser: the text it consumed is the canonical
/// encoding of the content it returned.
pub proof fn lemma_p_jstr_sound(x: Seq<char>, i: int)
    ensures
        p_jstr(x, i) matches Some(p) ==> {
            &&& i < p.1 <= x.len()
            &&& x.subrange(i, p.1) == esc_str(p.0) + seq!['"']
        },
    decreases x.len() - i,
{
    lemma_p_jstr_bounds(x, i);
    if i < 0 || i >= x.len() {
    } else if x[i] == '"' {
        if let Some((s, j)) = p_jstr(x, i) {
            assert(x.subrange(i, j) =~= seq!['"']);
            assert(esc_str(s) + seq!['"'] =~= seq!['"']);
        }
    } else if x[i] == '\\' {
        if i + 1 < x.len() {
            let c = x[i + 1];
            if c == '"' || c == '\\' || c == 'b' || c == 't' || c == 'n' || c == 'f' || c == 'r' {
                lemma_p_jstr_sound(x, i + 2);
                if let Some((s1, j)) = p_jstr(x, i + 2) {
                    let u = unesc_short(c);
                    assert(esc_char(u) =~= seq!['\\', c]);
                    assert((seq![u] + s1).skip(1) =~= s1);
                    assert(esc_str(seq![u] + s1) == esc_char(u) + esc_str(s1));
                    assert(x.subrange(i, j) =~= seq!['\\', c] + x.subrange(i + 2, j));
                    lemma_concat_assoc(esc_char(u), esc_str(s1), seq!['"']);
                }
            } else if c == 'u' {
                if i + 5 < x.len() && x[i + 2] == '0' && x[i + 3] == '0' && hex_val(x[i + 4]) >= 0
                    && hex_val(x[i + 5]) >= 0 {
                    let v = hex_val(x[i + 4]) * 16 + hex_val(x[i + 5]);
                    if v < 32 && v != 8 && v != 9 && v != 10 && v != 12 && v != 13 {
                        lemma_p_jstr_sound(x, i + 6);
                        if let Some((s1, j)) = p_jstr(x, i + 6) {
                            let u = ctrl_char(v);
                            assert(ctrl_of(u) == v);
                            assert(0 <= hex_val(x[i + 4]) < 16 && 0 <= hex_val(x[i + 5]) < 16);
                            assert(hex_digit(v / 16) == x[i + 4] && hex_digit(v % 16) == x[i + 5])
                                by {
                                assert(v / 16 == hex_val(x[i + 4]) && v % 16 == hex_val(x[i + 5]))
                                    by (nonlinear_arith)
                                    requires
                                        0 <= hex_val(x[i + 4]) < 16,
                                        0 <= hex_val(x[i + 5]) < 16,
                                        v == hex_val(x[i + 4]) * 16 + hex_val(x[i + 5]),
                                ;
                            };
                            assert(esc_char(u) =~= seq!['\\', 'u', '0', '0', x[i + 4], x[i + 5]]);
                            assert((seq![u] + s1).skip(1) =~= s1);
                            assert(esc_str(seq![u] + s1) == esc_char(u) + esc_str(s1));
                            assert(x.subrange(i, j) =~= esc_char(u) + x.subrange(i + 6, j));
                            lemma_concat_assoc(esc_char(u), esc_str(s1), seq!['"']);
                        }
                    }
                }
            }
        }
    } else if ctrl_of(x[i]) < 0 {
        lemma_p_jstr_sound(x, i + 1);
        if let Some((s1, j)) = p_jstr(x, i + 1) {
            let c = x[i];
            assert(esc_char(c) =~= seq![c]);
            assert((seq![c] + s1).skip(1) =~= s1);
            assert(esc_str(seq![c] + s1) == esc_char(c) + esc_str(s1));
            assert(x.subrange(i, j) =~= seq![c] + x.subrange(i + 1, j));
            lemma_concat_assoc(esc_char(c), esc_str(s1), seq!['"']);
        }
    }
}

/// Completeness of the string parser: on a canonical encoding it succeeds
/// and returns exactly the encoded content.
pub proof fn lemma_p_jstr_complete(x: Seq<char>, i: int, s: Seq<char>)
    requires
        0 <= i,
        i + esc_str(s).len() + 1 <= x.len(),
        x.subrange(i, i + esc_str(s).len() + 1) == esc_str(s) + seq!['"'],
    ensures
        p_jstr(x, i) == Some((s, i + esc_str(s).len() + 1)),
    decreases s.len(),
{
    let e = esc_str(s);
    let end = i + e.len() + 1;
    if s.len() == 0 {
        assert(x[i] == (esc_str(s) + seq!['"'])[0]);
        assert(x[i] == '"');
        assert(p_jstr(x, i) == Some((Seq::<char>::empty(), i + 1)));
        assert(s =~= Seq::<char>::empty());
    } else {
        let c = s[0];
        let k = esc_char(c).len() as int;
        let rest = s.skip(1);
        assert(e == esc_char(c) + esc_str(rest));
        lemma_concat_assoc(esc_char(c), esc_str(rest), seq!['"']);
        assert(x.subrange(i, end) == esc_char(c) + (esc_str(rest) + seq!['"']));
        assert forall|m: int| 0 <= m < k implies x[i + m] == esc_char(c)[m] by {
            assert(x[i + m] == x.subrange(i, end)[m]);
        }
        assert forall|m: int| i + k <= m < end implies x[m] == (esc_str(rest) + seq!['"'])[m - (i
            + k)] by {
            assert(x[m] == x.subrange(i, end)[m - i]);
        }
        assert(x.subrange(i + k, end) =~= esc_str(rest) + seq!['"']);
        lemma_p_jstr_complete(x, i + k, rest);
        if c == '"' || c == '\\' {
            assert(esc_char(c) =~= seq!['\\', c]);
            assert(x[i] == '\\' && x[i + 1] == c);
            assert(unesc_short(c) == c);
            assert(seq![c] + rest =~= s);
        } else if c == '\u{8}' || c == '\u{9}' || c == '\u{a}' || c == '\u{c}' || c == '\u{d}' {
            let l = esc_char(c)[1];
            assert(x[i] == '\\' && x[i + 1] == l);
            assert(unesc_short(l) == c);
            assert(seq![c] + rest =~= s);
        } else if ctrl_of(c) >= 0 {
            let v = ctrl_of(c);
            assert(0 <= v / 16 < 16 && 0 <= v % 16 < 16) by (nonlinear_arith)
                requires
                    0 <= v < 32,
            ;
            assert(x[i] == '\\' && x[i + 1] == 'u' && x[i + 2] == '0' && x[i + 3] == '0');
            assert(x[i + 4] == hex_digit(v / 16) && x[i + 5] == hex_digit(v % 16));
            assert(hex_val(hex_digit(v / 16)) == v / 16);
            assert(hex_val(hex_digit(v % 16)) == v % 16);
            assert((v / 16) * 16 + v % 16 == v) by (nonlinear_arith)
                requires
                    0 <= v,
            ;
            assert(v != 8 && v != 9 && v != 10 && v != 12 && v != 13) by {
                assert(c != '\u{8}' && c != '\u{9}' && c != '\u{a}' && c != '\u{c}' && c != '\u{d}');
            };
            assert(ctrl_char(v) == c);
            assert(seq![c] + rest =~= s);
        } else {
            assert(esc_char(c) =~= seq![c]);
            assert(x[i] == x.subrange(i, end)[0]);
            assert(x[i] == c);
            assert(seq![c] + rest =~= s);
        }
    }
}

/// Relies on `String::push`: appends the given character to the end of
/// the string.
#[verifier::external_body]
fn push_char(s: &mut String, c: char)
    ensures
        final(s)@ == old(s)@ + seq![c],
{
    s.push(c)
}

fn hex_val_exec(c: char) -> (v: i32)
    ensures
        v as int == hex_val(c),
{
    match c {
        '0' => 0,
        '1' => 1,
        '2' => 2,
        '3' => 3,
        '4' => 4,
        '5' => 5,
        '6' => 6,
        '7' => 7,
        '8' => 8,
        '9' => 9,
        'a' => 10,
        'b' => 11,
        'c' => 12,
        'd' => 13,
        'e' => 14,
        'f' => 15,
        _ => -1,
    }
}

fn ctrl_val_exec(c: char) -> (v: i32)
    ensures
        v as int == ctrl_of(c),
{
    match c {
        '\u{0}' => 0,
        '\u{1}' => 1,
        '\u{2}' => 2,
        '\u{3}' => 3,
        '\u{4}' => 4,
        '\u{5}' => 5,
        '\u{6}' => 6,
        '\u{7}' => 7,
        '\u{8}' => 8,
        '\u{9}' => 9,
        '\u{a}' => 10,
        '\u{b}' => 11,
        '\u{c}' => 12,
        '\u{d}' => 13,
        '\u{e}' => 14,
        '\u{f}' => 15,
        '\u{10}' => 16,
        '\u{11}' => 17,
        '\u{12}' => 18,
        '\u{13}' => 19,
        '\u{14}' => 20,
        '\u{15}' => 21,
        '\u{16}' => 22,
        '\u{17}' => 23,
        '\u{18}' => 24,
        '\u{19}' => 25,
        '\u{1a}' => 26,
        '\u{1b}' => 27,
        '\u{1c}' => 28,
        '\u{1d}' => 29,
        '\u{1e}' => 30,
        '\u{1f}' => 31,
        _ => -1,
    }
}

fn ctrl_char_exec(v: i32) -> (c: char)
    requires
        0 <= v < 32,
    ensures
        c == ctrl_char(v as int),
{
    match v {
        0 => '\u{0}',
        1 => '\u{1}',
        2 => '\u{2}',
        3 => '\u{3}',
        4 => '\u{4}',
        5 => '\u{5}',
        6 => '\u{6}',
        7 => '\u{7}',
        8 => '\u{8}',
        9 => '\u{9}',
        10 => '\u{a}',
        11 => '\u{b}',
        12 => '\u{c}',
        13 => '\u{d}',
        14 => '\u{e}',
        15 => '\u{f}',
        16 => '\u{10}',
        17 => '\u{11}',
        18 => '\u{12}',
        19 => '\u{13}',
        20 => '\u{14}',
        21 => '\u{15}',
        22 => '\u{16}',
        23 => '\u{17}',
        24 => '\u{18}',
        25 => '\u{19}',
        26 => '\u{1a}',
        27 => '\u{1b}',
        28 => '\u{1c}',
        29 => '\u{1d}',
        30 => '\u{1e}',
        _ => '\u{1f}',
    }
}

/// Parses a quoted string's content starting just after the opening quote;
/// on success returns the content and the position after the closing quote.
fn parse_jstr(x: &str, n: usize, i: usize) -> (r: Option<(String, usize)>)
    requires
        n == x@.len(),
        i <= n,
    ensures
        match r {
            Some(p) => p_jstr(x@, i as int) == Some((p.0@, p.1 as int)) && i < p.1 <= n,
            None => p_jstr(x@, i as int) is None,
        },
{
    let mut out = String::new();
    let mut cur = i;
    loop
        invariant
            n == x@.len(),
            i <= cur <= n,
            match p_jstr(x@, cur as int) {
                Some(p) => p_jstr(x@, i as int) == Some((out@ + p.0, p.1)),
                None => p_jstr(x@, i as int) is None,
            },
        decreases n - cur,
    {
        proof {
            lemma_p_jstr_bounds(x@, i as int);
            lemma_p_jstr_bounds(x@, cur as int);
        }
        if cur >= n {
            return None;
        }
        let c = x.get_char(cur);
        if c == '"' {
            assert(out@ + Seq::<char>::empty() =~= out@);
            return Some((out, cur + 1));
        } else if c == '\\' {
            if n - cur < 2 {
                return None;
            }
            let e = x.get_char(cur + 1);
            if e == '"' || e == '\\' || e == 'b' || e == 't' || e == 'n' || e == 'f' || e == 'r' {
                let u: char = if e == '"' { '"' }
                else if e == '\\' { '\\' }
                else if e == 'b' { '\u{8}' }
                else if e == 't' { '\u{9}' }
                else if e == 'n' { '\u{a}' }
                else if e == 'f' { '\u{c}' }
                else { '\u{d}' };
                assert(u == unesc_short(e));
                let ghost out0 = out@;
                push_char(&mut out, u);
                cur = cur + 2;
                proof {
                    if let Some((s, j)) = p_jstr(x@, cur as int) {
                        lemma_concat_assoc(out0, seq![u], s);
                        assert(out0 + (seq![u] + s) =~= out@ + s);
                    }
                }
            } else if e == 'u' {
                if n - cur < 6 {
                    return None;
                }
                let d2 = x.get_char(cur + 2);
                let d3 = x.get_char(cur + 3);
                if d2 != '0' || d3 != '0' {
                    return None;
                }
                let v1 = hex_val_exec(x.get_char(cur + 4));
                let v2 = hex_val_exec(x.get_char(cur + 5));
                if v1 < 0 || v2 < 0 {
                    return None;
                }
                let v = v1 * 16 + v2;
                if v >= 32 || v == 8 || v == 9 || v == 10 || v == 12 || v == 13 {
                    return None;
                }
                let u = ctrl_char_exec(v);
                let ghost out0 = out@;
                push_char(&mut out, u);
                cur = cur + 6;
                proof {
                    if let Some((s, j)) = p_jstr(x@, cur as int) {
                        lemma_concat_assoc(out0, seq![u], s);
                        assert(out0 + (seq![u] + s) =~= out@ + s);
                    }
                }
            } else {
                return None;
            }
        } else {
            let w = ctrl_val_exec(c);
            if w >= 0 {
                return None;
            }
            let ghost out0 = out@;
            push_char(&mut out, c);
            cur = cur + 1;
            proof {
                if let Some((s, j)) = p_jstr(x@, cur as int) {
                    lemma_concat_assoc(out0, seq![c], s);
                    assert(out0 + (seq![c] + s) =~= out@ + s);
                }
            }
        }
    }
}

/// `esc_str` distributes over appending one character.
pub proof fn lemma_esc_str_snoc(s: Seq<char>, c: char)
    ensures
        esc_str(s.push(c)) == esc_str(s) + esc_char(c),
    decreases s.len(),
{
    if s.len() == 0 {
        assert(s.push(c)[0] == c);
        assert(s.push(c).skip(1) =~= Seq::<char>::empty());
        assert(esc_char(c) + Seq::<char>::empty() =~= esc_char(c));
        assert(esc_str(Seq::<char>::empty()) == Seq::<char>::empty());
        assert(esc_str(s.push(c)) == esc_char(c) + esc_str(Seq::<char>::empty()));
        assert(esc_str(s.push(c)) =~= esc_char(c));
        assert(esc_str(s) + esc_char(c) =~= esc_char(c));
    } else {
        assert(s.push(c).skip(1) =~= s.skip(1).push(c));
        lemma_esc_str_snoc(s.skip(1), c);
        lemma_concat_assoc(esc_char(s[0]), esc_str(s.skip(1)), esc_char(c));
        assert(esc_str(s.push(c)) == esc_char(s.push(c)[0]) + esc_str(s.skip(1).push(c)));
        assert(s.push(c)[0] == s[0]);
    }
}

/// Appends the canonical escape of one character.
fn push_esc_char(out: &mut String, c: char)
    ensures
        final(out)@ == old(out)@ + esc_char(c),
{
    if c == '"' {
        proof {
            reveal_strlit("\\\"");
        }
        assert("\\\""@ =~= seq!['\\', '"']);
        out.append("\\\"");
    } else if c == '\\' {
        proof {
            reveal_strlit("\\\\");
        }
        assert("\\\\"@ =~= seq!['\\', '\\']);
        out.append("\\\\");
    } else if c == '\u{8}' {
        proof {
            reveal_strlit("\\b");
        }
        assert("\\b"@ =~= seq!['\\', 'b']);
        out.append("\\b");
    } else if c == '\u{9}' {
        proof {
            reveal_strlit("\\t");
        }
        assert("\\t"@ =~= seq!['\\', 't']);
        out.append("\\t");
    } else if c == '\u{a}' {
        proof {
            reveal_strlit("\\n");
        }
        assert("\\n"@ =~= seq!['\\', 'n']);
        out.append("\\n");
    } else if c == '\u{c}' {
        proof {
            reveal_strlit("\\f");
        }
        assert("\\f"@ =~= seq!['\\', 'f']);
        out.append("\\f");
    } else if c == '\u{d}' {
        proof {
            reveal_strlit("\\r");
        }
        assert("\\r"@ =~= seq!['\\', 'r']);
        out.append("\\r");
    } else {
        let v = ctrl_val_exec(c);
        if v >= 0 {
            proof {
                reveal_strlit("\\u00");
            }
            assert("\\u00"@ =~= seq!['\\', 'u', '0', '0']);
            let ghost out0 = old(out)@;
            out.append("\\u00");
            assert(0 <= v / 16 < 16 && 0 <= v % 16 < 16) by (nonlinear_arith)
                requires
                    0 <= v < 32,
            ;
            let h1 = hex_digit_exec(v / 16);
            let h2 = hex_digit_exec(v % 16);
            push_char(out, h1);
            push_char(out, h2);
            assert(out@ =~= out0 + esc_char(c));
        } else {
            push_char(out, c);
            assert(esc_char(c) =~= seq![c]);
        }
    }
}

fn hex_digit_exec(v: i32) -> (c: char)
    requires
        0 <= v < 16,
    ensures
        c == hex_digit(v as int),
{
    match v {
        0 => '0',
        1 => '1',
        2 => '2',
        3 => '3',
        4 => '4',
        5 => '5',
        6 => '6',
        7 => '7',
        8 => '8',
        9 => '9',
        10 => 'a',
        11 => 'b',
        12 => 'c',
        13 => 'd',
        14 => 'e',
        _ => 'f',
    }
}

/// Appends the quoted canonical encoding of a string.
fn push_jstr(out: &mut String, s: &str)
    ensures
        final(out)@ == old(out)@ + jstr(s@),
{
    let ghost out0 = old(out)@;
    let n = s.unicode_len();
    proof {
        reveal_strlit("\"");
    }
    assert("\""@ =~= seq!['"']);
    out.append("\"");
    let mut i: usize = 0;
    while i < n
        invariant
            n == s@.len(),
            i <= n,
            out@ == out0 + seq!['"'] + esc_str(s@.take(i as int)),
        decreases n - i,
    {
        let c = s.get_char(i);
        push_esc_char(out, c);
        proof {
            assert(s@.take(i + 1) =~= s@.take(i as int).push(c));
            lemma_esc_str_snoc(s@.take(i as int), c);
            lemma_concat_assoc(out0 + seq!['"'], esc_str(s@.take(i as int)), esc_char(c));
        }
        i = i + 1;
    }
    assert(s@.take(n as int) =~= s@);
    out.append("\"");
    proof {
        lemma_concat_assoc(out0, seq!['"'], esc_str(s@));
        lemma_concat_assoc(out0, seq!['"'] + esc_str(s@), seq!['"']);
        lemma_concat_assoc(seq!['"'], esc_str(s@), seq!['"']);
    }
    assert(out@ =~= out0 + jstr(s@));
}

/// Splitting a verbatim occurrence of a concatenation.
pub proof fn lemma_at_cat(x: Seq<char>, i: int, a: Seq<char>, b: Seq<char>)
    ensures
        at_pos(x, i, a + b) <==> at_pos(x, i, a) && at_pos(x, i + a.len(), b),
{
    if at_pos(x, i, a + b) {
        assert forall|m: int| 0 <= m < a.len() implies x[i + m] == a[m] by {
            assert(x[i + m] == x.subrange(i, i + (a + b).len())[m]);
        }
        assert(x.subrange(i, i + a.len()) =~= a);
        assert forall|m: int| 0 <= m < b.len() implies x[i + a.len() + m] == b[m] by {
            assert(x[i + a.len() + m] == x.subrange(i, i + (a + b).len())[a.len() + m]);
        }
        assert(x.subrange(i + a.len(), i + a.len() + b.len()) =~= b);
    }
    if at_pos(x, i, a) && at_pos(x, i + a.len(), b) {
        assert forall|m: int| 0 <= m < (a + b).len() implies x.subrange(
            i,
            i + (a + b).len(),
        )[m] == (a + b)[m] by {
            if m < a.len() {
                assert(x[i + m] == x.subrange(i, i + a.len())[m]);
            } else {
                assert(x[i + m] == x.subrange(i + a.len(), i + a.len() + b.len())[m - a.len()]);
            }
        }
        assert(x.subrange(i, i + (a + b).len()) =~= a + b);
    }
}

/// A literal parser: succeeds exactly when the literal stands at `i`.
pub open spec fn p_lit(x: Seq<char>, i: int, lit: Seq<char>) -> Option<int> {
    if at_pos(x, i, lit) {
        Some(i + lit.len())
    } else {
        None
    }
}

/// The opening of an envelope, up to the kind tag.
pub open spec fn env_head() -> Seq<char> {
    "{\"messageType\":\""@
}

/// The kind tag together with the text up to the `dataArray` field value.
pub open spec fn kind_tail(k: MsgTypes) -> Seq<char> {
    match k {
        MsgTypes::Users => "users\",\"dataArray\":"@,
        MsgTypes::Register => "register\",\"dataArray\":"@,
        MsgTypes::Message => "message\",\"dataArray\":"@,
        MsgTypes::Typing => "typing\",\"dataArray\":"@,
    }
}

/// The text between the `dataArray` and `data` field values.
pub open spec fn data_sep() -> Seq<char> {
    ",\"data\":"@
}

/// An optional string field: `null` or a quoted string.
pub open spec fn enc_jstropt(o: Option<Seq<char>>) -> Seq<char> {
    match o {
        Option::None => "null"@,
        Option::Some(s) => jstr(s),
    }
}

/// The comma-separated items of a non-empty string array.
pub open spec fn enc_items(a: Seq<Seq<char>>) -> Seq<char>
    decreases a.len(),
{
    if a.len() == 0 {
        Seq::empty()
    } else if a.len() == 1 {
        jstr(a[0])
    } else {
        jstr(a[0]) + seq![','] + enc_items(a.skip(1))
    }
}

/// A string array between brackets.
pub open spec fn enc_arr(a: Seq<Seq<char>>) -> Seq<char> {
    seq!['['] + enc_items(a) + seq![']']
}

/// An optional string-array field: `null` or a bracketed array.
pub open spec fn enc_arropt(o: Option<Seq<Seq<char>>>) -> Seq<char> {
    match o {
        Option::None => "null"@,
        Option::Some(a) => enc_arr(a),
    }
}

/// The canonical text of an envelope.
pub open spec fn enc_env(e: EnvelopeV) -> Seq<char> {
    env_head() + kind_tail(e.kind) + enc_arropt(e.data_array) + data_sep() + enc_jstropt(e.data)
        + "}"@
}

/// The canonical text of a transcript entry payload.
pub open spec fn enc_msgdata(m: MessageV) -> Seq<char> {
    "{\"from\":"@ + jstr(m.from) + ",\"message\":"@ + jstr(m.message) + ",\"timestamp\":"@
        + enc_jstropt(m.timestamp) + "}"@
}

/// The canonical text of a typing-signal payload.
pub open spec fn enc_typing(t: TypingV) -> Seq<char> {
    "{\"username\":"@ + jstr(t.username) + ",\"isTyping\":"@ + (if t.is_typing {
        "true"@
    } else {
        "false"@
    }) + "}"@
}

/// Parses the kind tag (with the text up to the `dataArray` value), trying
/// the four kinds in turn.
pub open spec fn p_kind(x: Seq<char>, i: int) -> Option<(MsgTypes, int)> {
    match p_lit(x, i, kind_tail(MsgTypes::Users)) {
        Some(j) => Some((MsgTypes::Users, j)),
        None => match p_lit(x, i, kind_tail(MsgTypes::Register)) {
            Some(j) => Some((MsgTypes::Register, j)),
            None => match p_lit(x, i, kind_tail(MsgTypes::Message)) {
                Some(j) => Some((MsgTypes::Message, j)),
                None => match p_lit(x, i, kind_tail(MsgTypes::Typing)) {
                    Some(j) => Some((MsgTypes::Typing, j)),
                    None => None,
                },
            },
        },
    }
}

/// Parses one quoted string, from its opening quote through its closing
/// quote.
pub open spec fn p_qstr(x: Seq<char>, i: int) -> Option<(Seq<char>, int)> {
    if 0 <= i < x.len() && x[i] == '"' {
        p_jstr(x, i + 1)
    } else {
        None
    }
}

/// Parses the comma-separated items of a non-empty array, from the start
/// of the first item through the closing bracket.
pub open spec fn p_items(x: Seq<char>, i: int) -> Option<(Seq<Seq<char>>, int)>
    decreases x.len() - i,
{
    if 0 <= i < x.len() && x[i] == '"' {
        match p_jstr(x, i + 1) {
            Some((s, j)) => {
                if j < x.len() && x[j] == ',' {
                    if i <= j {
                        match p_items(x, j + 1) {
                            Some((items, k)) => Some((seq![s] + items, k)),
                            None => None,
                        }
                    } else {
                        None
                    }
                } else if j < x.len() && x[j] == ']' {
                    Some((seq![s], j + 1))
                } else {
                    None
                }
            },
            None => None,
        }
    } else {
        None
    }
}

/// Parses an optional string array: `null` or a bracketed array.
pub open spec fn p_arr(x: Seq<char>, i: int) -> Option<(Option<Seq<Seq<char>>>, int)> {
    match p_lit(x, i, "null"@) {
        Some(j) => Some((Option::None, j)),
        None => {
            if 0 <= i < x.len() && x[i] == '[' {
                if i + 1 < x.len() && x[i + 1] == ']' {
                    Some((Option::Some(Seq::empty()), i + 2))
                } else {
                    match p_items(x, i + 1) {
                        Some((items, j)) => Some((Option::Some(items), j)),
                        None => None,
                    }
                }
            } else {
                None
            }
        },
    }
}

/// Parses an optional string: `null` or a quoted string.
pub open spec fn p_strnull(x: Seq<char>, i: int) -> Option<(Option<Seq<char>>, int)> {
    match p_lit(x, i, "null"@) {
        Some(j) => Some((Option::None, j)),
        None => match p_qstr(x, i) {
            Some((s, j)) => Some((Option::Some(s), j)),
            None => None,
        },
    }
}

/// The envelope parser: accepts exactly the canonical texts of well-formed
/// envelopes, consuming the whole input.
pub open spec fn p_env(x: Seq<char>) -> Option<EnvelopeV> {
    match p_lit(x, 0, env_head()) {
        None => None,
        Some(i1) => match p_kind(x, i1) {
            None => None,
            Some((k, i2)) => match p_arr(x, i2) {
                None => None,
                Some((arr, i3)) => match p_lit(x, i3, data_sep()) {
                    None => None,
                    Some(i4) => match p_strnull(x, i4) {
                        None => None,
                        Some((d, i5)) => {
                            if p_lit(x, i5, "}"@) == Some(x.len() as int) {
                                let e = EnvelopeV { kind: k, data_array: arr, data: d };
                                if env_wf(e) {
                                    Some(e)
                                } else {
                                    None
                                }
                            } else {
                                None
                            }
                        },
                    },
                },
            },
        },
    }
}

/// The transcript-entry payload parser, consuming the whole input.
pub open spec fn p_msgdata(x: Seq<char>) -> Option<MessageV> {
    match p_lit(x, 0, "{\"from\":"@) {
        None => None,
        Some(i1) => match p_qstr(x, i1) {
            None => None,
            Some((from, i2)) => match p_lit(x, i2, ",\"message\":"@) {
                None => None,
                Some(i3) => match p_qstr(x, i3) {
                    None => None,
                    Some((message, i4)) => match p_lit(x, i4, ",\"timestamp\":"@) {
                        None => None,
                        Some(i5) => match p_strnull(x, i5) {
                            None => None,
                            Some((ts, i6)) => {
                                if p_lit(x, i6, "}"@) == Some(x.len() as int) {
                                    Some((MessageV { from, message, timestamp: ts }))
                                } else {
                                    None
                                }
                            },
                        },
                    },
                },
            },
        },
    }
}

/// The typing-signal payload parser, consuming the whole input.
pub open spec fn p_typing(x: Seq<char>) -> Option<TypingV> {
    match p_lit(x, 0, "{\"username\":"@) {
        None => None,
        Some(i1) => match p_qstr(x, i1) {
            None => None,
            Some((username, i2)) => match p_lit(x, i2, ",\"isTyping\":"@) {
                None => None,
                Some(i3) => {
                    let t = match p_lit(x, i3, "true"@) {
                        Some(j) => Some((true, j)),
                        None => match p_lit(x, i3, "false"@) {
                            Some(j) => Some((false, j)),
                            None => None,
                        },
                    };
                    match t {
                        None => None,
                        Some((b, i4)) => {
                            if p_lit(x, i4, "}"@) == Some(x.len() as int) {
                                Some((TypingV { username, is_typing: b }))
                            } else {
                                None
                            }
                        },
                    }
                },
            },
        },
    }
}

/// A quoted-string parse succeeds exactly on a quoted canonical encoding.
pub proof fn lemma_p_qstr_complete(x: Seq<char>, i: int, s: Seq<char>)
    requires
        at_pos(x, i, jstr(s)),
    ensures
        p_qstr(x, i) == Some((s, i + jstr(s).len())),
{
    lemma_concat_assoc(seq!['"'], esc_str(s), seq!['"']);
    lemma_at_cat(x, i, seq!['"'], esc_str(s) + seq!['"']);
    assert(x[i] == x.subrange(i, i + 1)[0]);
    assert(x[i] == '"');
    lemma_p_jstr_complete(x, i + 1, s);
}

/// What a successful quoted-string parse consumed is the quoted canonical
/// encoding of its result.
pub proof fn lemma_p_qstr_sound(x: Seq<char>, i: int)
    ensures
        p_qstr(x, i) matches Some(p) ==> {
            &&& at_pos(x, i, jstr(p.0))
            &&& p.1 == i + jstr(p.0).len()
            &&& i < p.1 <= x.len()
        },
{
    if 0 <= i < x.len() && x[i] == '"' {
        lemma_p_jstr_sound(x, i + 1);
        if let Some((s, j)) = p_jstr(x, i + 1) {
            assert(x.subrange(i, i + 1) =~= seq!['"']);
            lemma_at_cat(x, i, seq!['"'], esc_str(s) + seq!['"']);
            lemma_concat_assoc(seq!['"'], esc_str(s), seq!['"']);
        }
    }
}

/// The item-list parser succeeds on the canonical text of a non-empty
/// item list followed by the closing bracket.
pub proof fn lemma_p_items_complete(x: Seq<char>, i: int, items: Seq<Seq<char>>)
    requires
        items.len() >= 1,
        at_pos(x, i, enc_items(items) + seq![']']),
    ensures
        p_items(x, i) == Some((items, i + enc_items(items).len() + 1)),
    decreases items.len(),
{
    let s = items[0];
    if items.len() == 1 {
        lemma_at_cat(x, i, jstr(s), seq![']']);
        lemma_p_qstr_complete(x, i, s);
        let j = i + jstr(s).len();
        assert(x[j] == x.subrange(j, j + 1)[0]);
        assert(x[j] == ']');
        assert(seq![s] =~= items);
    } else {
        let rest = items.skip(1);
        assert(enc_items(items) == jstr(s) + seq![','] + enc_items(rest));
        lemma_concat_assoc(jstr(s) + seq![','], enc_items(rest), seq![']']);
        lemma_at_cat(x, i, jstr(s) + seq![','], enc_items(rest) + seq![']']);
        lemma_at_cat(x, i, jstr(s), seq![',']);
        lemma_p_qstr_complete(x, i, s);
        let j = i + jstr(s).len();
        assert(x[j] == x.subrange(j, j + 1)[0]);
        assert(x[j] == ',');
        lemma_p_items_complete(x, j + 1, rest);
        assert(seq![s] + rest =~= items);
    }
}

/// What a successful item-list parse consumed is the canonical text of its
/// result followed by the closing bracket.
pub proof fn lemma_p_items_sound(x: Seq<char>, i: int)
    ensures
        p_items(x, i) matches Some(p) ==> {
            &&& p.0.len() >= 1
            &&& at_pos(x, i, enc_items(p.0) + seq![']'])
            &&& p.1 == i + enc_items(p.0).len() + 1
            &&& i < p.1 <= x.len()
        },
    decreases x.len() - i,
{
    if 0 <= i < x.len() && x[i] == '"' {
        lemma_p_qstr_sound(x, i);
        if let Some((s, j)) = p_jstr(x, i + 1) {
            if j < x.len() && x[j] == ',' {
                if i <= j {
                    lemma_p_items_sound(x, j + 1);
                    if let Some((rest, k)) = p_items(x, j + 1) {
                        let items = seq![s] + rest;
                        assert(items[0] == s);
                        assert(items.skip(1) =~= rest);
                        assert(enc_items(items) == jstr(s) + seq![','] + enc_items(rest));
                        assert(x.subrange(j, j + 1) =~= seq![',']);
                        lemma_at_cat(x, i, jstr(s), seq![',']);
                        lemma_at_cat(x, i, jstr(s) + seq![','], enc_items(rest) + seq![']']);
                        lemma_concat_assoc(jstr(s) + seq![','], enc_items(rest), seq![']']);
                    }
                }
            } else if j < x.len() && x[j] == ']' {
                let items = seq![s];
                assert(enc_items(items) == jstr(s));
                assert(x.subrange(j, j + 1) =~= seq![']']);
                lemma_at_cat(x, i, jstr(s), seq![']']);
            }
        }
    }
}

/// The array parser succeeds on the canonical text of an optional array.
pub proof fn lemma_p_arr_complete(x: Seq<char>, i: int, o: Option<Seq<Seq<char>>>)
    requires
        at_pos(x, i, enc_arropt(o)),
    ensures
        p_arr(x, i) == Some((o, i + enc_arropt(o).len())),
{
    reveal_strlit("null");
    match o {
        Option::None => {
        },
        Option::Some(a) => {
            let w = enc_arropt(o);
            assert(x[i] == x.subrange(i, i + w.len())[0]);
            assert(w[0] == '[');
            assert(x[i] == '[');
            assert(!at_pos(x, i, "null"@)) by {
                if at_pos(x, i, "null"@) {
                    assert(x[i] == x.subrange(i, i + 4)[0]);
                }
            };
            if a.len() == 0 {
                assert(w =~= seq!['[', ']']);
                assert(x[i + 1] == x.subrange(i, i + w.len())[1]);
                assert(x[i + 1] == ']');
            } else {
                lemma_concat_assoc(seq!['['], enc_items(a), seq![']']);
                lemma_at_cat(x, i, seq!['['], enc_items(a) + seq![']']);
                lemma_p_items_complete(x, i + 1, a);
                assert(x[i + 1] == x.subrange(i + 1, i + 1 + (enc_items(a) + seq![']']).len())[0]);
                assert((enc_items(a) + seq![']'])[0] == jstr(a[0])[0]);
                assert(x[i + 1] == '"');
            }
        },
    }
}

/// What a successful array parse consumed is the canonical text of its
/// result.
pub proof fn lemma_p_arr_sound(x: Seq<char>, i: int)
    ensures
        p_arr(x, i) matches Some(p) ==> {
            &&& at_pos(x, i, enc_arropt(p.0))
            &&& p.1 == i + enc_arropt(p.0).len()
            &&& i < p.1 <= x.len()
        },
{
    reveal_strlit("null");
    match p_lit(x, i, "null"@) {
        Some(j) => {
        },
        None => {
            if 0 <= i < x.len() && x[i] == '[' {
                if i + 1 < x.len() && x[i + 1] == ']' {
                    let w = enc_arropt(Option::Some(Seq::<Seq<char>>::empty()));
                    assert(w =~= seq!['[', ']']);
                    assert(x.subrange(i, i + 2) =~= seq!['[', ']']);
                } else {
                    lemma_p_items_sound(x, i + 1);
                    if let Some((items, j)) = p_items(x, i + 1) {
                        assert(x.subrange(i, i + 1) =~= seq!['[']);
                        lemma_at_cat(x, i, seq!['['], enc_items(items) + seq![']']);
                        lemma_concat_assoc(seq!['['], enc_items(items), seq![']']);
                    }
                }
            }
        },
    }
}

/// The optional-string parser succeeds on the canonical text of an
/// optional string.
pub proof fn lemma_p_strnull_complete(x: Seq<char>, i: int, o: Option<Seq<char>>)
    requires
        at_pos(x, i, enc_jstropt(o)),
    ensures
        p_strnull(x, i) == Some((o, i + enc_jstropt(o).len())),
{
    reveal_strlit("null");
    match o {
        Option::None => {
        },
        Option::Some(s) => {
            let w = enc_jstropt(o);
            assert(x[i] == x.subrange(i, i + w.len())[0]);
            assert(w[0] == '"');
            assert(x[i] == '"');
            assert(!at_pos(x, i, "null"@)) by {
                if at_pos(x, i, "null"@) {
                    assert(x[i] == x.subrange(i, i + 4)[0]);
                }
            };
            lemma_p_qstr_complete(x, i, s);
        },
    }
}

/// What a successful optional-string parse consumed is the canonical text
/// of its result.
pub proof fn lemma_p_strnull_sound(x: Seq<char>, i: int)
    ensures
        p_strnull(x, i) matches Some(p) ==> {
            &&& at_pos(x, i, enc_jstropt(p.0))
            &&& p.1 == i + enc_jstropt(p.0).len()
            &&& i < p.1 <= x.len()
        },
{
    reveal_strlit("null");
    match p_lit(x, i, "null"@) {
        Some(j) => {
        },
        None => {
            lemma_p_qstr_sound(x, i);
        },
    }
}

/// The kind parser succeeds on each kind's canonical tag text.
pub proof fn lemma_p_kind_complete(x: Seq<char>, i: int, k: MsgTypes)
    requires
        at_pos(x, i, kind_tail(k)),
    ensures
        p_kind(x, i) == Some((k, i + kind_tail(k).len())),
{
    reveal_strlit("users\",\"dataArray\":");
    reveal_strlit("register\",\"dataArray\":");
    reveal_strlit("message\",\"dataArray\":");
    reveal_strlit("typing\",\"dataArray\":");
    assert(x[i] == x.subrange(i, i + kind_tail(k).len())[0]);
    assert forall|k2: MsgTypes| at_pos(x, i, kind_tail(k2)) implies k2 == k by {
        assert(x[i] == x.subrange(i, i + kind_tail(k2).len())[0]);
    }
}

/// What a successful kind parse consumed is the kind's canonical tag text.
pub proof fn lemma_p_kind_sound(x: Seq<char>, i: int)
    ensures
        p_kind(x, i) matches Some(p) ==> {
            &&& at_pos(x, i, kind_tail(p.0))
            &&& p.1 == i + kind_tail(p.0).len()
        },
{
}

/// Round trip, one direction: decoding the canonical text of a well-formed
/// envelope yields that envelope.
#[verifier::rlimit(60)]
pub proof fn lemma_env_round_trip_enc(e: EnvelopeV)
    requires
        env_wf(e),
    ensures
        p_env(enc_env(e)) == Some(e),
{
    let a1 = env_head();
    let a2 = kind_tail(e.kind);
    let a3 = enc_arropt(e.data_array);
    let a4 = data_sep();
    let a5 = enc_jstropt(e.data);
    let a6 = "}"@;
    let x = enc_env(e);
    assert(x =~= a1 + (a2 + (a3 + (a4 + (a5 + a6)))));
    assert(at_pos(x, 0, a1 + (a2 + (a3 + (a4 + (a5 + a6)))))) by {
        assert(x.subrange(0, x.len() as int) =~= x);
    };
    lemma_at_cat(x, 0, a1, a2 + (a3 + (a4 + (a5 + a6))));
    let i1 = a1.len() as int;
    lemma_at_cat(x, i1, a2, a3 + (a4 + (a5 + a6)));
    let i2 = i1 + a2.len();
    lemma_at_cat(x, i2, a3, a4 + (a5 + a6));
    let i3 = i2 + a3.len();
    lemma_at_cat(x, i3, a4, a5 + a6);
    let i4 = i3 + a4.len();
    lemma_at_cat(x, i4, a5, a6);
    let i5 = i4 + a5.len();
    lemma_p_kind_complete(x, i1, e.kind);
    lemma_p_arr_complete(x, i2, e.data_array);
    lemma_p_strnull_complete(x, i4, e.data);
    assert(i5 + a6.len() == x.len());
    assert(e == (EnvelopeV { kind: e.kind, data_array: e.data_array, data: e.data }));
}

/// Round trip, the other direction: a text the envelope decoder accepts is
/// the canonical text of the well-formed envelope it returns.
#[verifier::rlimit(60)]
pub proof fn lemma_env_round_trip_dec(x: Seq<char>)
    ensures
        p_env(x) matches Some(e) ==> env_wf(e) && x == enc_env(e),
{
    if let Some(e) = p_env(x) {
        let a1 = env_head();
        let i1 = a1.len() as int;
        lemma_p_kind_sound(x, i1);
        let (k, i2) = p_kind(x, i1).unwrap();
        lemma_p_arr_sound(x, i2);
        let (arr, i3) = p_arr(x, i2).unwrap();
        let i4 = i3 + data_sep().len();
        lemma_p_strnull_sound(x, i4);
        let (d, i5) = p_strnull(x, i4).unwrap();
        let a2 = kind_tail(k);
        let a3 = enc_arropt(arr);
        let a4 = data_sep();
        let a5 = enc_jstropt(d);
        let a6 = "}"@;
        lemma_at_cat(x, i4, a5, a6);
        lemma_at_cat(x, i3, a4, a5 + a6);
        lemma_at_cat(x, i2, a3, a4 + (a5 + a6));
        lemma_at_cat(x, i1, a2, a3 + (a4 + (a5 + a6)));
        lemma_at_cat(x, 0, a1, a2 + (a3 + (a4 + (a5 + a6))));
        assert(enc_env(e) =~= a1 + (a2 + (a3 + (a4 + (a5 + a6)))));
        assert(at_pos(x, 0, enc_env(e)));
        assert(x =~= enc_env(e)) by {
            assert(x.subrange(0, x.len() as int) =~= x);
        };
    }
}

/// Round trip for a transcript-entry payload, encoding direction.
#[verifier::rlimit(60)]
pub proof fn lemma_msgdata_round_trip_enc(m: MessageV)
    ensures
        p_msgdata(enc_msgdata(m)) == Some(m),
{
    let a1 = "{\"from\":"@;
    let a2 = jstr(m.from);
    let a3 = ",\"message\":"@;
    let a4 = jstr(m.message);
    let a5 = ",\"timestamp\":"@;
    let a6 = enc_jstropt(m.timestamp);
    let a7 = "}"@;
    let x = enc_msgdata(m);
    assert(x =~= a1 + (a2 + (a3 + (a4 + (a5 + (a6 + a7))))));
    assert(at_pos(x, 0, a1 + (a2 + (a3 + (a4 + (a5 + (a6 + a7))))))) by {
        assert(x.subrange(0, x.len() as int) =~= x);
    };
    lemma_at_cat(x, 0, a1, a2 + (a3 + (a4 + (a5 + (a6 + a7)))));
    let i1 = a1.len() as int;
    lemma_at_cat(x, i1, a2, a3 + (a4 + (a5 + (a6 + a7))));
    let i2 = i1 + a2.len();
    lemma_at_cat(x, i2, a3, a4 + (a5 + (a6 + a7)));
    let i3 = i2 + a3.len();
    lemma_at_cat(x, i3, a4, a5 + (a6 + a7));
    let i4 = i3 + a4.len();
    lemma_at_cat(x, i4, a5, a6 + a7);
    let i5 = i4 + a5.len();
    lemma_at_cat(x, i5, a6, a7);
    let i6 = i5 + a6.len();
    lemma_p_qstr_complete(x, i1, m.from);
    lemma_p_qstr_complete(x, i3, m.message);
    lemma_p_strnull_complete(x, i5, m.timestamp);
    assert(i6 + a7.len() == x.len());
    assert(m == (MessageV { from: m.from, message: m.message, timestamp: m.timestamp }));
}

/// Round trip for a transcript-entry payload, decoding direction.
#[verifier::rlimit(60)]
pub proof fn lemma_msgdata_round_trip_dec(x: Seq<char>)
    ensures
        p_msgdata(x) matches Some(m) ==> x == enc_msgdata(m),
{
    if let Some(m) = p_msgdata(x) {
        let a1 = "{\"from\":"@;
        let i1 = a1.len() as int;
        lemma_p_qstr_sound(x, i1);
        let (from, i2) = p_qstr(x, i1).unwrap();
        let a3 = ",\"message\":"@;
        let i3 = i2 + a3.len();
        lemma_p_qstr_sound(x, i3);
        let (message, i4) = p_qstr(x, i3).unwrap();
        let a5 = ",\"timestamp\":"@;
        let i5 = i4 + a5.len();
        lemma_p_strnull_sound(x, i5);
        let (ts, i6) = p_strnull(x, i5).unwrap();
        let a2 = jstr(from);
        let a4 = jstr(message);
        let a6 = enc_jstropt(ts);
        let a7 = "}"@;
        lemma_at_cat(x, i5, a6, a7);
        lemma_at_cat(x, i4, a5, a6 + a7);
        lemma_at_cat(x, i3, a4, a5 + (a6 + a7));
        lemma_at_cat(x, i2, a3, a4 + (a5 + (a6 + a7)));
        lemma_at_cat(x, i1, a2, a3 + (a4 + (a5 + (a6 + a7))));
        lemma_at_cat(x, 0, a1, a2 + (a3 + (a4 + (a5 + (a6 + a7)))));
        assert(enc_msgdata(m) =~= a1 + (a2 + (a3 + (a4 + (a5 + (a6 + a7))))));
        assert(at_pos(x, 0, enc_msgdata(m)));
        assert(x =~= enc_msgdata(m)) by {
            assert(x.subrange(0, x.len() as int) =~= x);
        };
    }
}

/// Round trip for a typing-signal payload, encoding direction.
#[verifier::rlimit(60)]
pub proof fn lemma_typing_round_trip_enc(t: TypingV)
    ensures
        p_typing(enc_typing(t)) == Some(t),
{
    reveal_strlit("true");
    reveal_strlit("false");
    let a1 = "{\"username\":"@;
    let a2 = jstr(t.username);
    let a3 = ",\"isTyping\":"@;
    let a4 = if t.is_typing {
        "true"@
    } else {
        "false"@
    };
    let a5 = "}"@;
    let x = enc_typing(t);
    assert(x =~= a1 + (a2 + (a3 + (a4 + a5))));
    assert(at_pos(x, 0, a1 + (a2 + (a3 + (a4 + a5))))) by {
        assert(x.subrange(0, x.len() as int) =~= x);
    };
    lemma_at_cat(x, 0, a1, a2 + (a3 + (a4 + a5)));
    let i1 = a1.len() as int;
    lemma_at_cat(x, i1, a2, a3 + (a4 + a5));
    let i2 = i1 + a2.len();
    lemma_at_cat(x, i2, a3, a4 + a5);
    let i3 = i2 + a3.len();
    lemma_at_cat(x, i3, a4, a5);
    let i4 = i3 + a4.len();
    lemma_p_qstr_complete(x, i1, t.username);
    if !t.is_typing {
        assert(!at_pos(x, i3, "true"@)) by {
            if at_pos(x, i3, "true"@) {
                assert(x[i3] == x.subrange(i3, i3 + 4)[0]);
                assert(x[i3] == x.subrange(i3, i3 + 5)[0]);
            }
        };
    }
    assert(i4 + a5.len() == x.len());
    assert(t == (TypingV { username: t.username, is_typing: t.is_typing }));
}

/// Round trip for a typing-signal payload, decoding direction.
#[verifier::rlimit(60)]
pub proof fn lemma_typing_round_trip_dec(x: Seq<char>)
    ensures
        p_typing(x) matches Some(t) ==> x == enc_typing(t),
{
    if let Some(t) = p_typing(x) {
        let a1 = "{\"username\":"@;
        let i1 = a1.len() as int;
        lemma_p_qstr_sound(x, i1);
        let (username, i2) = p_qstr(x, i1).unwrap();
        let a3 = ",\"isTyping\":"@;
        let i3 = i2 + a3.len();
        let a2 = jstr(username);
        let a4 = if t.is_typing {
            "true"@
        } else {
            "false"@
        };
        let a5 = "}"@;
        let i4 = i3 + a4.len();
        lemma_at_cat(x, i3, a4, a5);
        lemma_at_cat(x, i2, a3, a4 + a5);
        lemma_at_cat(x, i1, a2, a3 + (a4 + a5));
        lemma_at_cat(x, 0, a1, a2 + (a3 + (a4 + a5)));
        assert(enc_typing(t) =~= a1 + (a2 + (a3 + (a4 + a5))));
        assert(at_pos(x, 0, enc_typing(t)));
        assert(x =~= enc_typing(t)) by {
            assert(x.subrange(0, x.len() as int) =~= x);
        };
    }
}

/// `enc_items` distributes over appending one more item.
pub proof fn lemma_enc_items_snoc(a: Seq<Seq<char>>, s: Seq<char>)
    requires
        a.len() >= 1,
    ensures
        enc_items(a.push(s)) == enc_items(a) + seq![','] + jstr(s),
    decreases a.len(),
{
    if a.len() == 1 {
        assert(a.push(s)[0] == a[0]);
        assert(a.push(s).skip(1) =~= seq![s]);
        assert(enc_items(seq![s]) == jstr(s));
        assert(enc_items(a.push(s)) == jstr(a[0]) + seq![','] + enc_items(seq![s]));
        assert(enc_items(a) == jstr(a[0]));
    } else {
        assert(a.push(s)[0] == a[0]);
        assert(a.push(s).skip(1) =~= a.skip(1).push(s));
        lemma_enc_items_snoc(a.skip(1), s);
        assert(enc_items(a.push(s)) == jstr(a[0]) + seq![','] + (enc_items(a.skip(1)) + seq![',']
            + jstr(s)));
        assert(enc_items(a) == jstr(a[0]) + seq![','] + enc_items(a.skip(1)));
        assert(jstr(a[0]) + seq![','] + (enc_items(a.skip(1)) + seq![','] + jstr(s)) =~= enc_items(
            a,
        ) + seq![','] + jstr(s));
    }
}

/// Matches a literal at position `i`.
fn match_lit(x: &str, n: usize, i: usize, lit: &str) -> (r: Option<usize>)
    requires
        n == x@.len(),
        i <= n,
    ensures
        match r {
            Some(j) => p_lit(x@, i as int, lit@) == Some(j as int) && i <= j <= n,
            None => p_lit(x@, i as int, lit@) is None,
        },
{
    let m = lit.unicode_len();
    if n - i < m {
        return None;
    }
    let mut j: usize = 0;
    while j < m
        invariant
            n == x@.len(),
            m == lit@.len(),
            i + m <= n,
            j <= m,
            forall|k: int| 0 <= k < j ==> x@[i + k] == lit@[k],
        decreases m - j,
    {
        let cx = x.get_char(i + j);
        let cl = lit.get_char(j);
        if cx != cl {
            proof {
                if at_pos(x@, i as int, lit@) {
                    assert(x@[i + j] == x@.subrange(i as int, i + m)[j as int]);
                }
            }
            return None;
        }
        j = j + 1;
    }
    assert forall|k: int| 0 <= k < m implies x@.subrange(i as int, i + m)[k] == lit@[k] by {
        assert(x@.subrange(i as int, i + m)[k] == x@[i + k]);
    }
    assert(x@.subrange(i as int, i + m) =~= lit@);
    Some(i + m)
}

/// Parses one quoted string, from its opening quote on.
fn parse_qstr(x: &str, n: usize, i: usize) -> (r: Option<(String, usize)>)
    requires
        n == x@.len(),
        i <= n,
    ensures
        match r {
            Some(p) => p_qstr(x@, i as int) == Some((p.0@, p.1 as int)) && i < p.1 <= n,
            None => p_qstr(x@, i as int) is None,
        },
{
    if i >= n {
        return None;
    }
    if x.get_char(i) != '"' {
        return None;
    }
    parse_jstr(x, n, i + 1)
}

/// Parses an optional string: `null` or a quoted string.
fn parse_strnull(x: &str, n: usize, i: usize) -> (r: Option<(Option<String>, usize)>)
    requires
        n == x@.len(),
        i <= n,
    ensures
        match r {
            Some(p) => p_strnull(x@, i as int) == Some((p.0.deep_view(), p.1 as int)) && i < p.1
                <= n,
            None => p_strnull(x@, i as int) is None,
        },
{
    proof {
        reveal_strlit("null");
    }
    match match_lit(x, n, i, "null") {
        Some(j) => Some((None, j)),
        None => match parse_qstr(x, n, i) {
            Some((s, j)) => Some((Some(s), j)),
            None => None,
        },
    }
}

/// Parses the comma-separated items of a non-empty array, through the
/// closing bracket.
fn parse_items(x: &str, n: usize, i: usize) -> (r: Option<(Vec<String>, usize)>)
    requires
        n == x@.len(),
        i <= n,
    ensures
        match r {
            Some(p) => p_items(x@, i as int) == Some((p.0.deep_view(), p.1 as int)) && i < p.1
                <= n,
            None => p_items(x@, i as int) is None,
        },
{
    let mut out: Vec<String> = Vec::new();
    let mut cur = i;
    loop
        invariant
            n == x@.len(),
            i <= cur <= n,
            match p_items(x@, cur as int) {
                Some(q) => p_items(x@, i as int) == Some((out.deep_view() + q.0, q.1)),
                None => p_items(x@, i as int) is None,
            },
        decreases n - cur,
    {
        if cur >= n {
            return None;
        }
        if x.get_char(cur) != '"' {
            return None;
        }
        match parse_jstr(x, n, cur + 1) {
            None => {
                return None;
            },
            Some((s, j)) => {
                if j >= n {
                    return None;
                }
                let cj = x.get_char(j);
                if cj == ',' {
                    let ghost dv0 = out.deep_view();
                    out.push(s);
                    proof {
                        assert(out.deep_view() =~= dv0.push(s@));
                        if let Some(q) = p_items(x@, j + 1) {
                            assert(p_items(x@, cur as int) == Some((seq![s@] + q.0, q.1)));
                            assert(dv0 + (seq![s@] + q.0) =~= out.deep_view() + q.0);
                        }
                    }
                    cur = j + 1;
                } else if cj == ']' {
                    let ghost dv0 = out.deep_view();
                    out.push(s);
                    proof {
                        assert(out.deep_view() =~= dv0.push(s@));
                        assert(p_items(x@, cur as int) == Some((seq![s@], j + 1)));
                        assert(dv0 + seq![s@] =~= out.deep_view());
                    }
                    return Some((out, j + 1));
                } else {
                    return None;
                }
            },
        }
    }
}

/// Parses an optional string array: `null` or a bracketed array.
fn parse_arr(x: &str, n: usize, i: usize) -> (r: Option<(Option<Vec<String>>, usize)>)
    requires
        n == x@.len(),
        i <= n,
    ensures
        match r {
            Some(p) => p_arr(x@, i as int) == Some((p.0.deep_view(), p.1 as int)) && i < p.1 <= n,
            None => p_arr(x@, i as int) is None,
        },
{
    proof {
        reveal_strlit("null");
    }
    match match_lit(x, n, i, "null") {
        Some(j) => Some((None, j)),
        None => {
            if i < n && x.get_char(i) == '[' {
                if i + 1 < n && x.get_char(i + 1) == ']' {
                    let v: Vec<String> = Vec::new();
                    assert(v.deep_view() =~= Seq::<Seq<char>>::empty());
                    Some((Some(v), i + 2))
                } else {
                    match parse_items(x, n, i + 1) {
                        Some((items, j)) => Some((Some(items), j)),
                        None => None,
                    }
                }
            } else {
                None
            }
        },
    }
}

/// Parses the kind tag with the text up to the `dataArray` value.
fn parse_kind(x: &str, n: usize, i: usize) -> (r: Option<(MsgTypes, usize)>)
    requires
        n == x@.len(),
        i <= n,
    ensures
        match r {
            Some(p) => p_kind(x@, i as int) == Some((p.0, p.1 as int)) && i <= p.1 <= n,
            None => p_kind(x@, i as int) is None,
        },
{
    match match_lit(x, n, i, "users\",\"dataArray\":") {
        Some(j) => Some((MsgTypes::Users, j)),
        None => match match_lit(x, n, i, "register\",\"dataArray\":") {
            Some(j) => Some((MsgTypes::Register, j)),
            None => match match_lit(x, n, i, "message\",\"dataArray\":") {
                Some(j) => Some((MsgTypes::Message, j)),
                None => match match_lit(x, n, i, "typing\",\"dataArray\":") {
                    Some(j) => Some((MsgTypes::Typing, j)),
                    None => None,
                },
            },
        },
    }
}

/// Decodes one wire frame into an envelope. Succeeds exactly on the
/// canonical text of a well-formed envelope, which it returns.
pub fn decode_envelope(x: &str) -> (r: Result<WebSocketMessage, WireError>)
    ensures
        match r {
            Ok(m) => p_env(x@) == Some(m@) && m.wf(),
            Err(e) => p_env(x@) is None && e == WireError::MalformedEnvelope,
        },
{
    let n = x.unicode_len();
    let i1 = match match_lit(x, n, 0, "{\"messageType\":\"") {
        Some(j) => j,
        None => {
            return Err(WireError::MalformedEnvelope);
        },
    };
    let (k, i2) = match parse_kind(x, n, i1) {
        Some(p) => p,
        None => {
            return Err(WireError::MalformedEnvelope);
        },
    };
    let (arr, i3) = match parse_arr(x, n, i2) {
        Some(p) => p,
        None => {
            return Err(WireError::MalformedEnvelope);
        },
    };
    let i4 = match match_lit(x, n, i3, ",\"data\":") {
        Some(j) => j,
        None => {
            return Err(WireError::MalformedEnvelope);
        },
    };
    let (d, i5) = match parse_strnull(x, n, i4) {
        Some(p) => p,
        None => {
            return Err(WireError::MalformedEnvelope);
        },
    };
    let i6 = match match_lit(x, n, i5, "}") {
        Some(j) => j,
        None => {
            return Err(WireError::MalformedEnvelope);
        },
    };
    if i6 != n {
        return Err(WireError::MalformedEnvelope);
    }
    let m = WebSocketMessage { message_type: k, data_array: arr, data: d };
    let wf_ok = match m.message_type {
        MsgTypes::Users => m.data_array.is_some() && m.data.is_none(),
        _ => m.data_array.is_none() && m.data.is_some(),
    };
    if wf_ok {
        Ok(m)
    } else {
        Err(WireError::MalformedEnvelope)
    }
}

/// Decodes the inner payload of a `Message` envelope. Succeeds exactly on
/// the canonical text of a transcript entry, which it returns.
pub fn decode_message_data(x: &str) -> (r: Result<MessageData, WireError>)
    ensures
        match r {
            Ok(d) => p_msgdata(x@) == Some(d@),
            Err(e) => p_msgdata(x@) is None && e == WireError::MalformedPayload,
        },
{
    let n = x.unicode_len();
    let i1 = match match_lit(x, n, 0, "{\"from\":") {
        Some(j) => j,
        None => {
            return Err(WireError::MalformedPayload);
        },
    };
    let (from, i2) = match parse_qstr(x, n, i1) {
        Some(p) => p,
        None => {
            return Err(WireError::MalformedPayload);
        },
    };
    let i3 = match match_lit(x, n, i2, ",\"message\":") {
        Some(j) => j,
        None => {
            return Err(WireError::MalformedPayload);
        },
    };
    let (message, i4) = match parse_qstr(x, n, i3) {
        Some(p) => p,
        None => {
            return Err(WireError::MalformedPayload);
        },
    };
    let i5 = match match_lit(x, n, i4, ",\"timestamp\":") {
        Some(j) => j,
        None => {
            return Err(WireError::MalformedPayload);
        },
    };
    let (ts, i6) = match parse_strnull(x, n, i5) {
        Some(p) => p,
        None => {
            return Err(WireError::MalformedPayload);
        },
    };
    let i7 = match match_lit(x, n, i6, "}") {
        Some(j) => j,
        None => {
            return Err(WireError::MalformedPayload);
        },
    };
    if i7 != n {
        return Err(WireError::MalformedPayload);
    }
    Ok(MessageData { from, message, timestamp: ts })
}

/// Decodes the inner payload of a `Typing` envelope. Succeeds exactly on
/// the canonical text of a typing signal, which it returns.
pub fn decode_typing_status(x: &str) -> (r: Result<TypingStatus, WireError>)
    ensures
        match r {
            Ok(t) => p_typing(x@) == Some(t@),
            Err(e) => p_typing(x@) is None && e == WireError::MalformedPayload,
        },
{
    let n = x.unicode_len();
    let i1 = match match_lit(x, n, 0, "{\"username\":") {
        Some(j) => j,
        None => {
            return Err(WireError::MalformedPayload);
        },
    };
    let (username, i2) = match parse_qstr(x, n, i1) {
        Some(p) => p,
        None => {
            return Err(WireError::MalformedPayload);
        },
    };
    let i3 = match match_lit(x, n, i2, ",\"isTyping\":") {
        Some(j) => j,
        None => {
            return Err(WireError::MalformedPayload);
        },
    };
    let (b, i4) = match match_lit(x, n, i3, "true") {
        Some(j) => (true, j),
        None => match match_lit(x, n, i3, "false") {
            Some(j) => (false, j),
            None => {
                return Err(WireError::MalformedPayload);
            },
        },
    };
    let i5 = match match_lit(x, n, i4, "}") {
        Some(j) => j,
        None => {
            return Err(WireError::MalformedPayload);
        },
    };
    if i5 != n {
        return Err(WireError::MalformedPayload);
    }
    Ok(TypingStatus { username, is_typing: b })
}

/// Appends `null` or the quoted canonical encoding of a string.
fn push_jstropt(out: &mut String, o: &Option<String>)
    ensures
        final(out)@ == old(out)@ + enc_jstropt(o.deep_view()),
{
    match o {
        Option::None => {
            out.append("null");
        },
        Option::Some(s) => {
            push_jstr(out, s.as_str());
        },
    }
}

/// Appends the bracketed canonical encoding of a string array.
fn push_arr(out: &mut String, a: &Vec<String>)
    ensures
        final(out)@ == old(out)@ + enc_arr(a.deep_view()),
{
    let ghost out0 = old(out)@;
    let ghost dv = a.deep_view();
    proof {
        reveal_strlit("[");
        reveal_strlit("]");
        reveal_strlit(",");
    }
    assert("["@ =~= seq!['[']);
    assert("]"@ =~= seq![']']);
    assert(","@ =~= seq![',']);
    out.append("[");
    let mut i: usize = 0;
    while i < a.len()
        invariant
            dv == a.deep_view(),
            i <= a.len(),
            out@ == out0 + seq!['['] + enc_items(dv.take(i as int)),
            ","@ =~= seq![','],
        decreases a.len() - i,
    {
        if i > 0 {
            out.append(",");
        }
        push_jstr(out, a[i].as_str());
        proof {
            assert(dv[i as int] == a@[i as int].deep_view());
            assert(dv.take(i + 1) =~= dv.take(i as int).push(dv[i as int]));
            if i == 0 {
                assert(dv.take(1) =~= seq![dv[0]]);
                assert(enc_items(seq![dv[0]]) == jstr(dv[0]));
                assert(out@ =~= out0 + seq!['['] + enc_items(dv.take(1)));
            } else {
                lemma_enc_items_snoc(dv.take(i as int), dv[i as int]);
                assert(out@ =~= out0 + seq!['['] + enc_items(dv.take(i + 1)));
            }
        }
        i = i + 1;
    }
    assert(dv.take(a.len() as int) =~= dv);
    out.append("]");
    assert(out@ =~= out0 + enc_arr(dv));
}

/// Appends `null` or the bracketed canonical encoding of a string array.
fn push_arropt(out: &mut String, o: &Option<Vec<String>>)
    ensures
        final(out)@ == old(out)@ + enc_arropt(o.deep_view()),
{
    match o {
        Option::None => {
            out.append("null");
        },
        Option::Some(a) => {
            push_arr(out, a);
        },
    }
}

/// Encodes an envelope into its canonical wire text.
pub fn encode_envelope(m: &WebSocketMessage) -> (r: String)
    ensures
        r@ == enc_env(m@),
{
    let mut out = String::new();
    out.append("{\"messageType\":\"");
    match m.message_type {
        MsgTypes::Users => out.append("users\",\"dataArray\":"),
        MsgTypes::Register => out.append("register\",\"dataArray\":"),
        MsgTypes::Message => out.append("message\",\"dataArray\":"),
        MsgTypes::Typing => out.append("typing\",\"dataArray\":"),
    }
    push_arropt(&mut out, &m.data_array);
    out.append(",\"data\":");
    push_jstropt(&mut out, &m.data);
    out.append("}");
    assert(out@ =~= enc_env(m@));
    out
}

/// Encodes a typing signal into its canonical payload text.
pub fn encode_typing_status(t: &TypingStatus) -> (r: String)
    ensures
        r@ == enc_typing(t@),
{
    let mut out = String::new();
    out.append("{\"username\":");
    push_jstr(&mut out, t.username.as_str());
    out.append(",\"isTyping\":");
    if t.is_typing {
        out.append("true");
    } else {
        out.append("false");
    }
    out.append("}");
    assert(out@ =~= enc_typing(t@));
    out
}

} // verus!
