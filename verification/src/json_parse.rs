use vstd::prelude::*;

use crate::json_text::{
    digits_end, is_digit, is_num_char, is_ws, lemma_digits_end_runs_to, lemma_num_end_bounds,
    lemma_num_end_runs_to, lemma_skip_ws_bounds, lemma_skip_ws_runs_to, num_end, skip_ws, wf_num,
};
use crate::json_value::{pair_views_of, views_of, JsonValue, JsonView};

verus! {

// ---------------------------------------------------------------------------
// The reference parser, as specification functions.
//
// Every function takes the whole input and a start position and yields the
// parsed piece together with the position just past it, or `None` when the
// input does not match the grammar there.
// ---------------------------------------------------------------------------

/// Clamps a continuation position into `[lo, hi]`.
///
/// The parse functions below resume after a sub-parse at the position that
/// the sub-parse returned.  Those positions always lie in the interval (the
/// bounds lemmas prove it), but the definitions cannot rely on that while
/// they are being defined, so the clamp keeps the recursion well founded.
pub open spec fn step_pos(m: int, lo: int, hi: int) -> int {
    if lo > hi {
        hi
    } else if m < lo {
        lo
    } else if m > hi {
        hi
    } else {
        m
    }
}

pub open spec fn is_hex(c: char) -> bool {
    is_digit(c) || (97 <= (c as u32) && (c as u32) <= 102) || (65 <= (c as u32) && (c as u32)
        <= 70)
}

pub open spec fn hex_val(c: char) -> int {
    if is_digit(c) {
        (c as u32) - 48
    } else if 97 <= (c as u32) && (c as u32) <= 102 {
        (c as u32) - 87
    } else {
        (c as u32) - 55
    }
}

/// The code unit written by four hex digits at `i`.
pub open spec fn hex4(s: Seq<char>, i: int) -> int {
    hex_val(s[i]) * 4096 + hex_val(s[i + 1]) * 256 + hex_val(s[i + 2]) * 16 + hex_val(s[i + 3])
}

/// Reads the body of a string literal from `i` (just past the opening
/// quote) up to its closing quote, decoding escapes onto `acc`.
///
/// A high-surrogate escape must be followed by a low-surrogate escape; the
/// pair is combined into one character.  Lone or misordered surrogate
/// escapes are rejected.
pub open spec fn parse_strbody(s: Seq<char>, i: int, acc: Seq<char>) -> Option<(Seq<char>, int)>
    decreases s.len() - i when 0 <= i <= s.len()
{
    if i >= s.len() {
        None
    } else {
        let c = s[i];
        if c == '"' {
            Some((acc, i + 1))
        } else if c == '\\' {
            if i + 1 >= s.len() {
                None
            } else {
                let e = s[i + 1];
                if e == '"' {
                    parse_strbody(s, i + 2, acc.push('"'))
                } else if e == '\\' {
                    parse_strbody(s, i + 2, acc.push('\\'))
                } else if e == '/' {
                    parse_strbody(s, i + 2, acc.push('/'))
                } else if e == 'b' {
                    parse_strbody(s, i + 2, acc.push('\u{8}'))
                } else if e == 'f' {
                    parse_strbody(s, i + 2, acc.push('\u{c}'))
                } else if e == 'n' {
                    parse_strbody(s, i + 2, acc.push('\n'))
                } else if e == 'r' {
                    parse_strbody(s, i + 2, acc.push('\r'))
                } else if e == 't' {
                    parse_strbody(s, i + 2, acc.push('\t'))
                } else if e == 'u' {
                    if i + 6 <= s.len() && is_hex(s[i + 2]) && is_hex(s[i + 3]) && is_hex(
                        s[i + 4],
                    ) && is_hex(s[i + 5]) {
                        let u = hex4(s, i + 2);
                        if u < 0xD800 || u >= 0xE000 {
                            parse_strbody(s, i + 6, acc.push(((u as u32) as char)))
                        } else if u < 0xDC00 {
                            if i + 12 <= s.len() && s[i + 6] == '\\' && s[i + 7] == 'u' && is_hex(
                                s[i + 8],
                            ) && is_hex(s[i + 9]) && is_hex(s[i + 10]) && is_hex(s[i + 11]) {
                                let u2 = hex4(s, i + 8);
                                if 0xDC00 <= u2 < 0xE000 {
                                    let cp = 0x10000 + (u - 0xD800) * 0x400 + (u2 - 0xDC00);
                                    parse_strbody(s, i + 12, acc.push(((cp as u32) as char)))
                                } else {
                                    None
                                }
                            } else {
                                None
                            }
                        } else {
                            None
                        }
                    } else {
                        None
                    }
                } else {
                    None
                }
            }
        } else if (c as u32) < 32 {
            None
        } else {
            parse_strbody(s, i + 1, acc.push(c))
        }
    }
}

/// Reads a number token at `i`: the longest run of number characters,
/// accepted only when it matches the JSON number grammar.
pub open spec fn parse_num(s: Seq<char>, i: int) -> Option<(JsonView, int)> {
    let e = num_end(s, i);
    let tok = s.subrange(i, e);
    if wf_num(tok) {
        Some((JsonView::Num(tok), e))
    } else {
        None
    }
}

/// Reads one JSON value at `i`, after any leading whitespace.
pub open spec fn parse_value(s: Seq<char>, i: int) -> Option<(JsonView, int)>
    decreases s.len() - i, 0int when 0 <= i <= s.len()
{
    let j = {
        proof {
            lemma_skip_ws_bounds(s, i);
        }
        skip_ws(s, i)
    };
    if j >= s.len() {
        None
    } else {
        let c = s[j];
        if c == 'n' {
            if j + 4 <= s.len() && s[j + 1] == 'u' && s[j + 2] == 'l' && s[j + 3] == 'l' {
                Some((JsonView::Null, j + 4))
            } else {
                None
            }
        } else if c == 't' {
            if j + 4 <= s.len() && s[j + 1] == 'r' && s[j + 2] == 'u' && s[j + 3] == 'e' {
                Some((JsonView::Bool(true), j + 4))
            } else {
                None
            }
        } else if c == 'f' {
            if j + 5 <= s.len() && s[j + 1] == 'a' && s[j + 2] == 'l' && s[j + 3] == 's' && s[j
                + 4] == 'e' {
                Some((JsonView::Bool(false), j + 5))
            } else {
                None
            }
        } else if c == '"' {
            match parse_strbody(s, j + 1, Seq::empty()) {
                None => None,
                Some((t, e)) => Some((JsonView::Str(t), e)),
            }
        } else if c == '[' {
            match parse_elems(s, j + 1) {
                None => None,
                Some((es, e)) => Some((JsonView::Arr(es), e)),
            }
        } else if c == '{' {
            match parse_members(s, j + 1) {
                None => None,
                Some((ps, e)) => Some((JsonView::Obj(ps), e)),
            }
        } else if c == '-' || is_digit(c) {
            parse_num(s, j)
        } else {
            None
        }
    }
}

/// Reads the elements of an array from `i` (just past the `[`).
pub open spec fn parse_elems(s: Seq<char>, i: int) -> Option<(Seq<JsonView>, int)>
    decreases s.len() - i, 2int when 0 <= i <= s.len()
{
    let k = {
        proof {
            lemma_skip_ws_bounds(s, i);
        }
        skip_ws(s, i)
    };
    if k >= s.len() {
        None
    } else if s[k] == ']' {
        Some((Seq::empty(), k + 1))
    } else {
        match parse_value(s, k) {
            None => None,
            Some((v, m)) => parse_elems_rest(s, step_pos(m, k + 1, s.len() as int), seq![v]),
        }
    }
}

/// Reads `, element` groups and the closing `]` from `i` (just past an
/// element).
pub open spec fn parse_elems_rest(s: Seq<char>, i: int, acc: Seq<JsonView>) -> Option<
    (Seq<JsonView>, int),
>
    decreases s.len() - i, 2int when 0 <= i <= s.len()
{
    let t = {
        proof {
            lemma_skip_ws_bounds(s, i);
        }
        skip_ws(s, i)
    };
    if t >= s.len() {
        None
    } else if s[t] == ']' {
        Some((acc, t + 1))
    } else if s[t] == ',' {
        match parse_value(s, t + 1) {
            None => None,
            Some((v, m)) => parse_elems_rest(s, step_pos(m, t + 2, s.len() as int), acc.push(v)),
        }
    } else {
        None
    }
}

/// Reads one `"key": value` member whose opening quote stands at `i`.
pub open spec fn parse_member(s: Seq<char>, i: int) -> Option<((Seq<char>, JsonView), int)>
    decreases s.len() - i, 1int when 0 <= i <= s.len()
{
    match parse_strbody(s, i + 1, Seq::empty()) {
        None => None,
        Some((key, m)) => {
            let t = {
                proof {
                    lemma_skip_ws_bounds(s, step_pos(m, i + 2, s.len() as int));
                }
                skip_ws(s, step_pos(m, i + 2, s.len() as int))
            };
            if t >= s.len() {
                None
            } else if s[t] == ':' {
                match parse_value(s, t + 1) {
                    None => None,
                    Some((v, e)) => Some(((key, v), e)),
                }
            } else {
                None
            }
        },
    }
}

/// Reads the members of an object from `i` (just past the `{`).
pub open spec fn parse_members(s: Seq<char>, i: int) -> Option<(Seq<(Seq<char>, JsonView)>, int)>
    decreases s.len() - i, 2int when 0 <= i <= s.len()
{
    let k = {
        proof {
            lemma_skip_ws_bounds(s, i);
        }
        skip_ws(s, i)
    };
    if k >= s.len() {
        None
    } else if s[k] == '}' {
        Some((Seq::empty(), k + 1))
    } else if s[k] == '"' {
        match parse_member(s, k) {
            None => None,
            Some((p, e)) => parse_members_rest(s, step_pos(e, k + 1, s.len() as int), seq![p]),
        }
    } else {
        None
    }
}

/// Reads `, "key": value` groups and the closing `}` from `i` (just past a
/// member).
pub open spec fn parse_members_rest(s: Seq<char>, i: int, acc: Seq<(Seq<char>, JsonView)>) -> Option<
    (Seq<(Seq<char>, JsonView)>, int),
>
    decreases s.len() - i, 2int when 0 <= i <= s.len()
{
    let t = {
        proof {
            lemma_skip_ws_bounds(s, i);
        }
        skip_ws(s, i)
    };
    if t >= s.len() {
        None
    } else if s[t] == '}' {
        Some((acc, t + 1))
    } else if s[t] == ',' {
        let k2 = {
            proof {
                lemma_skip_ws_bounds(s, t + 1);
            }
            skip_ws(s, t + 1)
        };
        if k2 >= s.len() {
            None
        } else if s[k2] == '"' {
            match parse_member(s, k2) {
                None => None,
                Some((p, e)) => parse_members_rest(
                    s,
                    step_pos(e, k2 + 1, s.len() as int),
                    acc.push(p),
                ),
            }
        } else {
            None
        }
    } else {
        None
    }
}

/// Reads a whole document: one value with nothing but whitespace after it.
pub open spec fn parse_doc(s: Seq<char>) -> Option<JsonView> {
    match parse_value(s, 0) {
        None => None,
        Some((v, e)) => {
            if skip_ws(s, step_pos(e, 0, s.len() as int)) == s.len() {
                Some(v)
            } else {
                None
            }
        },
    }
}

// ---------------------------------------------------------------------------
// Bounds: a successful parse always advances and stays inside the input.
// ---------------------------------------------------------------------------

pub proof fn lemma_strbody_bounds(s: Seq<char>, i: int, acc: Seq<char>)
    requires
        0 <= i <= s.len(),
    ensures
        parse_strbody(s, i, acc) matches Some((t, j)) ==> i < j <= s.len(),
    decreases s.len() - i,
{
    if i < s.len() {
        let c = s[i];
        if c == '"' {
        } else if c == '\\' {
            if i + 1 < s.len() {
                let e = s[i + 1];
                if e == 'u' {
                    if i + 6 <= s.len() && is_hex(s[i + 2]) && is_hex(s[i + 3]) && is_hex(
                        s[i + 4],
                    ) && is_hex(s[i + 5]) {
                        let u = hex4(s, i + 2);
                        if u < 0xD800 || u >= 0xE000 {
                            lemma_strbody_bounds(s, i + 6, acc.push(((u as u32) as char)));
                        } else if u < 0xDC00 && i + 12 <= s.len() && s[i + 6] == '\\' && s[i + 7]
                            == 'u' && is_hex(s[i + 8]) && is_hex(s[i + 9]) && is_hex(s[i + 10])
                            && is_hex(s[i + 11]) {
                            let u2 = hex4(s, i + 8);
                            if 0xDC00 <= u2 < 0xE000 {
                                let cp = 0x10000 + (u - 0xD800) * 0x400 + (u2 - 0xDC00);
                                lemma_strbody_bounds(s, i + 12, acc.push(((cp as u32) as char)));
                            }
                        }
                    }
                } else {
                    lemma_strbody_bounds(s, i + 2, acc.push('"'));
                    lemma_strbody_bounds(s, i + 2, acc.push('\\'));
                    lemma_strbody_bounds(s, i + 2, acc.push('/'));
                    lemma_strbody_bounds(s, i + 2, acc.push('\u{8}'));
                    lemma_strbody_bounds(s, i + 2, acc.push('\u{c}'));
                    lemma_strbody_bounds(s, i + 2, acc.push('\n'));
                    lemma_strbody_bounds(s, i + 2, acc.push('\r'));
                    lemma_strbody_bounds(s, i + 2, acc.push('\t'));
                }
            }
        } else if (c as u32) >= 32 {
            lemma_strbody_bounds(s, i + 1, acc.push(c));
        }
    }
}

pub proof fn lemma_parse_num_bounds(s: Seq<char>, i: int)
    requires
        0 <= i <= s.len(),
        i < s.len() && (s[i] == '-' || is_digit(s[i])),
    ensures
        parse_num(s, i) matches Some((v, j)) ==> i < j <= s.len(),
{
    crate::json_text::lemma_num_end_bounds(s, i);
    let e = num_end(s, i);
    if wf_num(s.subrange(i, e)) {
        assert(s.subrange(i, e).len() > 0);
    }
}

pub proof fn lemma_parse_value_bounds(s: Seq<char>, i: int)
    requires
        0 <= i <= s.len(),
    ensures
        parse_value(s, i) matches Some((v, j)) ==> i < j <= s.len(),
    decreases s.len() - i, 0int,
{
    lemma_skip_ws_bounds(s, i);
    let j = skip_ws(s, i);
    if j < s.len() {
        let c = s[j];
        if c == '"' {
            lemma_strbody_bounds(s, j + 1, Seq::empty());
        } else if c == '[' {
            lemma_parse_elems_bounds(s, j + 1);
        } else if c == '{' {
            lemma_parse_members_bounds(s, j + 1);
        } else if c == '-' || is_digit(c) {
            lemma_parse_num_bounds(s, j);
        }
    }
}

pub proof fn lemma_parse_elems_bounds(s: Seq<char>, i: int)
    requires
        0 <= i <= s.len(),
    ensures
        parse_elems(s, i) matches Some((es, j)) ==> i < j <= s.len(),
    decreases s.len() - i, 2int,
{
    lemma_skip_ws_bounds(s, i);
    let k = skip_ws(s, i);
    if k < s.len() && s[k] != ']' {
        lemma_parse_value_bounds(s, k);
        if let Some((v, m)) = parse_value(s, k) {
            lemma_parse_elems_rest_bounds(s, step_pos(m, k + 1, s.len() as int), seq![v]);
        }
    }
}

pub proof fn lemma_parse_elems_rest_bounds(s: Seq<char>, i: int, acc: Seq<JsonView>)
    requires
        0 <= i <= s.len(),
    ensures
        parse_elems_rest(s, i, acc) matches Some((es, j)) ==> i < j <= s.len(),
    decreases s.len() - i, 2int,
{
    lemma_skip_ws_bounds(s, i);
    let t = skip_ws(s, i);
    if t < s.len() && s[t] == ',' {
        lemma_parse_value_bounds(s, t + 1);
        if let Some((v, m)) = parse_value(s, t + 1) {
            lemma_parse_elems_rest_bounds(s, step_pos(m, t + 2, s.len() as int), acc.push(v));
        }
    }
}

pub proof fn lemma_parse_member_bounds(s: Seq<char>, i: int)
    requires
        0 <= i < s.len(),
    ensures
        parse_member(s, i) matches Some((p, j)) ==> i < j <= s.len(),
    decreases s.len() - i, 1int,
{
    lemma_strbody_bounds(s, i + 1, Seq::empty());
    if let Some((key, m)) = parse_strbody(s, i + 1, Seq::empty()) {
        lemma_skip_ws_bounds(s, step_pos(m, i + 2, s.len() as int));
        let t = skip_ws(s, step_pos(m, i + 2, s.len() as int));
        if t < s.len() && s[t] == ':' {
            lemma_parse_value_bounds(s, t + 1);
        }
    }
}

pub proof fn lemma_parse_members_bounds(s: Seq<char>, i: int)
    requires
        0 <= i <= s.len(),
    ensures
        parse_members(s, i) matches Some((ps, j)) ==> i < j <= s.len(),
    decreases s.len() - i, 2int,
{
    lemma_skip_ws_bounds(s, i);
    let k = skip_ws(s, i);
    if k < s.len() && s[k] == '"' {
        lemma_parse_member_bounds(s, k);
        if let Some((p, e)) = parse_member(s, k) {
            lemma_parse_members_rest_bounds(s, step_pos(e, k + 1, s.len() as int), seq![p]);
        }
    }
}

pub proof fn lemma_parse_members_rest_bounds(s: Seq<char>, i: int, acc: Seq<(Seq<char>, JsonView)>)
    requires
        0 <= i <= s.len(),
    ensures
        parse_members_rest(s, i, acc) matches Some((ps, j)) ==> i < j <= s.len(),
    decreases s.len() - i, 2int,
{
    lemma_skip_ws_bounds(s, i);
    let t = skip_ws(s, i);
    if t < s.len() && s[t] == ',' {
        lemma_skip_ws_bounds(s, t + 1);
        let k2 = skip_ws(s, t + 1);
        if k2 < s.len() && s[k2] == '"' {
            lemma_parse_member_bounds(s, k2);
            if let Some((p, e)) = parse_member(s, k2) {
                lemma_parse_members_rest_bounds(s, step_pos(e, k2 + 1, s.len() as int), acc.push(p));
            }
        }
    }
}

// ---------------------------------------------------------------------------
// The parser
// ---------------------------------------------------------------------------

/// Position after the whitespace run at `i`.
fn ws_to(s: &Vec<char>, i: usize) -> (r: usize)
    requires
        i <= s@.len(),
    ensures
        r as int == skip_ws(s@, i as int),
        i <= r <= s@.len(),
{
    let mut k: usize = i;
    while k < s.len() && (s[k] == ' ' || s[k] == '\n' || s[k] == '\t' || s[k] == '\r')
        invariant
            i <= k <= s@.len(),
            forall|j: int| i <= j < k ==> is_ws(s@[j]),
        decreases s@.len() - k,
    {
        k = k + 1;
    }
    proof {
        lemma_skip_ws_runs_to(s@, i as int, k as int);
    }
    k
}

/// Position after the digit run at `i`.
fn digits_to(s: &Vec<char>, i: usize) -> (r: usize)
    requires
        i <= s@.len(),
    ensures
        r as int == digits_end(s@, i as int),
        i <= r <= s@.len(),
{
    let mut k: usize = i;
    while k < s.len() && 48 <= (s[k] as u32) && (s[k] as u32) <= 57
        invariant
            i <= k <= s@.len(),
            forall|j: int| i <= j < k ==> is_digit(s@[j]),
        decreases s@.len() - k,
    {
        k = k + 1;
    }
    proof {
        lemma_digits_end_runs_to(s@, i as int, k as int);
    }
    k
}

/// Position after the run of number characters at `i`.
fn num_to(s: &Vec<char>, i: usize) -> (r: usize)
    requires
        i <= s@.len(),
    ensures
        r as int == num_end(s@, i as int),
        i <= r <= s@.len(),
{
    let mut k: usize = i;
    while k < s.len() && ((48 <= (s[k] as u32) && (s[k] as u32) <= 57) || s[k] == '-' || s[k]
        == '+' || s[k] == '.' || s[k] == 'e' || s[k] == 'E')
        invariant
            i <= k <= s@.len(),
            forall|j: int| i <= j < k ==> is_num_char(s@[j]),
        decreases s@.len() - k,
    {
        k = k + 1;
    }
    proof {
        lemma_num_end_runs_to(s@, i as int, k as int);
    }
    k
}

/// Whether `t` matches the JSON number grammar.
fn check_num(t: &Vec<char>) -> (r: bool)
    ensures
        r == wf_num(t@),
{
    let n = t.len();
    if n == 0 {
        return false;
    }
    let i0: usize = if t[0] == '-' {
        1
    } else {
        0
    };
    let i1 = digits_to(t, i0);
    if i1 == i0 {
        return false;
    }
    if t[i0] == '0' && i1 != i0 + 1 {
        return false;
    }
    let i2: usize = if i1 < n && t[i1] == '.' {
        let j = digits_to(t, i1 + 1);
        if j == i1 + 1 {
            assert(crate::json_text::frac_end(t@, i1 as int) == -1);
            return false;
        }
        j
    } else {
        i1
    };
    assert(crate::json_text::frac_end(t@, i1 as int) == i2 as int);
    if i2 < n && (t[i2] == 'e' || t[i2] == 'E') {
        let k: usize = if i2 + 1 < n && (t[i2 + 1] == '+' || t[i2 + 1] == '-') {
            i2 + 2
        } else {
            i2 + 1
        };
        let j = digits_to(t, k);
        if j == k {
            assert(crate::json_text::exp_end(t@, i2 as int) == -1);
            return false;
        }
        assert(crate::json_text::exp_end(t@, i2 as int) == j as int);
        j == n
    } else {
        assert(crate::json_text::exp_end(t@, i2 as int) == i2 as int);
        i2 == n
    }
}

fn hex_test(c: char) -> (r: bool)
    ensures
        r == is_hex(c),
{
    let u = c as u32;
    (48 <= u && u <= 57) || (97 <= u && u <= 102) || (65 <= u && u <= 70)
}

fn hex_v(c: char) -> (r: u32)
    requires
        is_hex(c),
    ensures
        r as int == hex_val(c),
        r < 16,
{
    let u = c as u32;
    if 48 <= u && u <= 57 {
        u - 48
    } else if 97 <= u && u <= 102 {
        u - 87
    } else {
        u - 55
    }
}

/// Relies on char::from_u32: yields the character with this code point, and
/// None exactly when the code point is a surrogate or above the largest
/// scalar value.
#[verifier::external_body]
fn char_from_u32(u: u32) -> (r: Option<char>)
    ensures
        (u < 0xD800 || (0xE000 <= u && u <= 0x10FFFF)) <==> r is Some,
        r matches Some(c) ==> (c as u32) == u,
{
    char::from_u32(u)
}

/// Reads a string body from `i` (just past the opening quote), pushing the
/// decoded characters onto `acc`.
fn read_strbody(s: &Vec<char>, i: usize, acc: &mut Vec<char>) -> (r: Option<usize>)
    requires
        i <= s@.len(),
    ensures
        match r {
            Some(j) => parse_strbody(s@, i as int, old(acc)@) == Some((final(acc)@, j as int)) && i
                < j <= s@.len(),
            None => parse_strbody(s@, i as int, old(acc)@) is None,
        },
{
    let mut k: usize = i;
    while k < s.len()
        invariant
            i <= k <= s@.len(),
            parse_strbody(s@, i as int, old(acc)@) == parse_strbody(s@, k as int, acc@),
        decreases s@.len() - k,
    {
        let c = s[k];
        if c == '"' {
            proof {
                lemma_strbody_bounds(s@, i as int, old(acc)@);
            }
            return Some(k + 1);
        } else if c == '\\' {
            if k + 1 >= s.len() {
                return None;
            }
            let e = s[k + 1];
            if e == '"' {
                acc.push('"');
                k = k + 2;
            } else if e == '\\' {
                acc.push('\\');
                k = k + 2;
            } else if e == '/' {
                acc.push('/');
                k = k + 2;
            } else if e == 'b' {
                acc.push('\u{8}');
                k = k + 2;
            } else if e == 'f' {
                acc.push('\u{c}');
                k = k + 2;
            } else if e == 'n' {
                acc.push('\n');
                k = k + 2;
            } else if e == 'r' {
                acc.push('\r');
                k = k + 2;
            } else if e == 't' {
                acc.push('\t');
                k = k + 2;
            } else if e == 'u' {
                if !(s.len() - k >= 6 && hex_test(s[k + 2]) && hex_test(s[k + 3]) && hex_test(
                    s[k + 4],
                ) && hex_test(s[k + 5])) {
                    return None;
                }
                assert(k + 6 <= s@.len());
                let u = hex_v(s[k + 2]) * 4096 + hex_v(s[k + 3]) * 256 + hex_v(s[k + 4]) * 16
                    + hex_v(s[k + 5]);
                assert(u as int == hex4(s@, k as int + 2));
                if u < 0xD800 || u >= 0xE000 {
                    match char_from_u32(u) {
                        Some(c2) => {
                            proof {
                                vstd::utf8::char_u32_cast(c2, u);
                            }
                            acc.push(c2);
                            k = k + 6;
                        },
                        None => {
                            // unreachable: u is not a surrogate code unit
                            return None;
                        },
                    }
                } else if u < 0xDC00 {
                    // a high surrogate: a low-surrogate escape must follow
                    if !(s.len() - k >= 12 && s[k + 6] == '\\' && s[k + 7] == 'u' && hex_test(
                        s[k + 8],
                    ) && hex_test(s[k + 9]) && hex_test(s[k + 10]) && hex_test(s[k + 11])) {
                        return None;
                    }
                    assert(k + 12 <= s@.len());
                    let u2 = hex_v(s[k + 8]) * 4096 + hex_v(s[k + 9]) * 256 + hex_v(s[k + 10])
                        * 16 + hex_v(s[k + 11]);
                    assert(u2 as int == hex4(s@, k as int + 8));
                    if !(0xDC00 <= u2 && u2 < 0xE000) {
                        return None;
                    }
                    let cp = 0x10000 + (u - 0xD800) * 0x400 + (u2 - 0xDC00);
                    match char_from_u32(cp) {
                        Some(c2) => {
                            proof {
                                vstd::utf8::char_u32_cast(c2, cp);
                            }
                            acc.push(c2);
                            k = k + 12;
                        },
                        None => {
                            // unreachable: the combined code point is a scalar value
                            return None;
                        },
                    }
                } else {
                    // a lone low surrogate
                    return None;
                }
            } else {
                return None;
            }
        } else if (c as u32) < 32 {
            return None;
        } else {
            acc.push(c);
            k = k + 1;
        }
    }
    None
}

/// Reads one JSON value at `i`, after any leading whitespace.
pub fn read_value(s: &Vec<char>, i: usize) -> (r: Option<(JsonValue, usize)>)
    requires
        i <= s@.len(),
    ensures
        match r {
            Some((v, j)) => parse_value(s@, i as int) == Some((v@, j as int)) && i < j <= s@.len(),
            None => parse_value(s@, i as int) is None,
        },
    decreases s@.len() - i, 1int,
{
    proof {
        lemma_parse_value_bounds(s@, i as int);
    }
    let j = ws_to(s, i);
    if j >= s.len() {
        return None;
    }
    let c = s[j];
    if c == 'n' {
        if s.len() - j >= 4 && s[j + 1] == 'u' && s[j + 2] == 'l' && s[j + 3] == 'l' {
            Some((JsonValue::Null, j + 4))
        } else {
            None
        }
    } else if c == 't' {
        if s.len() - j >= 4 && s[j + 1] == 'r' && s[j + 2] == 'u' && s[j + 3] == 'e' {
            Some((JsonValue::Bool(true), j + 4))
        } else {
            None
        }
    } else if c == 'f' {
        if s.len() - j >= 5 && s[j + 1] == 'a' && s[j + 2] == 'l' && s[j + 3] == 's' && s[j + 4]
            == 'e' {
            Some((JsonValue::Bool(false), j + 5))
        } else {
            None
        }
    } else if c == '"' {
        let mut acc: Vec<char> = Vec::new();
        match read_strbody(s, j + 1, &mut acc) {
            None => None,
            Some(e) => Some((JsonValue::Str(acc), e)),
        }
    } else if c == '[' {
        read_arr(s, i, j)
    } else if c == '{' {
        read_obj(s, i, j)
    } else if c == '-' || (48 <= (c as u32) && (c as u32) <= 57) {
        let e = num_to(s, j);
        proof {
            assert(num_end(s@, j as int) == num_end(s@, j as int + 1));
            lemma_num_end_bounds(s@, j as int + 1);
        }
        let mut tokv: Vec<char> = Vec::new();
        let mut q: usize = j;
        assert(s@.subrange(j as int, j as int) =~= Seq::<char>::empty());
        while q < e
            invariant
                j <= q <= e <= s@.len(),
                tokv@ == s@.subrange(j as int, q as int),
            decreases e - q,
        {
            let cq = s[q];
            tokv.push(cq);
            assert(s@.subrange(j as int, q as int + 1) =~= s@.subrange(j as int, q as int).push(
                s@[q as int],
            ));
            q = q + 1;
        }
        if check_num(&tokv) {
            Some((JsonValue::Num(tokv), e))
        } else {
            None
        }
    } else {
        None
    }
}

/// Reads an array whose `[` stands at `j`; `i` is where the surrounding
/// value read began.
fn read_arr(s: &Vec<char>, i: usize, j: usize) -> (r: Option<(JsonValue, usize)>)
    requires
        i <= j < s@.len(),
        j as int == skip_ws(s@, i as int),
        s@[j as int] == '[',
    ensures
        match r {
            Some((v, e)) => parse_value(s@, i as int) == Some((v@, e as int)) && i < e <= s@.len(),
            None => parse_value(s@, i as int) is None,
        },
    decreases s@.len() - i, 0int,
{
    proof {
        lemma_parse_value_bounds(s@, i as int);
        lemma_parse_elems_bounds(s@, j as int + 1);
    }
    let n = s.len();
    let k = ws_to(s, j + 1);
    if k >= s.len() {
        return None;
    }
    if s[k] == ']' {
        let es: Vec<JsonValue> = Vec::new();
        assert(views_of(es@) =~= Seq::<JsonView>::empty());
        return Some((JsonValue::Arr(es), k + 1));
    }
    match read_value(s, k) {
        None => None,
        Some((v0, m0)) => {
            let mut es: Vec<JsonValue> = Vec::new();
            es.push(v0);
            assert(views_of(es@) =~= seq![v0@]);
            assert(step_pos(m0 as int, k as int + 1, s@.len() as int) == m0 as int);
            let mut pos: usize = m0;
            loop
                invariant
                    i < pos <= s@.len(),
                    k < s@.len(),
                    parse_value(s@, i as int) matches Some((vv, ee)) ==> i < ee <= s@.len(),
                    parse_elems(s@, j as int + 1) == parse_elems_rest(
                        s@,
                        pos as int,
                        views_of(es@),
                    ),
                    parse_value(s@, i as int) == (match parse_elems(s@, j as int + 1) {
                        None => None::<(JsonView, int)>,
                        Some((esv, e2)) => Some((JsonView::Arr(esv), e2)),
                    }),
                decreases s@.len() - pos,
            {
                proof {
                    lemma_parse_elems_rest_bounds(s@, pos as int, views_of(es@));
                }
                let t = ws_to(s, pos);
                if t >= s.len() {
                    return None;
                }
                if s[t] == ']' {
                    return Some((JsonValue::Arr(es), t + 1));
                }
                if s[t] != ',' {
                    return None;
                }
                match read_value(s, t + 1) {
                    None => {
                        return None;
                    },
                    Some((v, m)) => {
                        assert(step_pos(m as int, t as int + 2, s@.len() as int) == m as int);
                        let ghost old_es = es@;
                        es.push(v);
                        assert(views_of(es@) =~= views_of(old_es).push(v@));
                        pos = m;
                    },
                }
            }
        },
    }
}

/// Reads one `"key": value` member whose opening quote stands at `k`.
fn read_member(s: &Vec<char>, k: usize) -> (r: Option<((Vec<char>, JsonValue), usize)>)
    requires
        k < s@.len(),
        s@[k as int] == '"',
    ensures
        match r {
            Some((p, e)) => parse_member(s@, k as int) == Some(((p.0@, p.1@), e as int)) && k < e
                <= s@.len(),
            None => parse_member(s@, k as int) is None,
        },
    decreases s@.len() - k, 0int,
{
    proof {
        lemma_parse_member_bounds(s@, k as int);
        lemma_strbody_bounds(s@, k as int + 1, Seq::empty());
    }
    let n = s.len();
    let mut key: Vec<char> = Vec::new();
    match read_strbody(s, k + 1, &mut key) {
        None => None,
        Some(m) => {
            assert(step_pos(m as int, k as int + 2, s@.len() as int) == m as int);
            let t = ws_to(s, m);
            if t >= s.len() {
                return None;
            }
            if s[t] != ':' {
                return None;
            }
            match read_value(s, t + 1) {
                None => None,
                Some((v, e)) => Some(((key, v), e)),
            }
        },
    }
}

/// Reads an object whose `{` stands at `j`; `i` is where the surrounding
/// value read began.
fn read_obj(s: &Vec<char>, i: usize, j: usize) -> (r: Option<(JsonValue, usize)>)
    requires
        i <= j < s@.len(),
        j as int == skip_ws(s@, i as int),
        s@[j as int] == '{',
    ensures
        match r {
            Some((v, e)) => parse_value(s@, i as int) == Some((v@, e as int)) && i < e <= s@.len(),
            None => parse_value(s@, i as int) is None,
        },
    decreases s@.len() - i, 0int,
{
    proof {
        lemma_parse_value_bounds(s@, i as int);
        lemma_parse_members_bounds(s@, j as int + 1);
    }
    let n = s.len();
    let k = ws_to(s, j + 1);
    if k >= s.len() {
        return None;
    }
    if s[k] == '}' {
        let ps: Vec<(Vec<char>, JsonValue)> = Vec::new();
        assert(pair_views_of(ps@) =~= Seq::<(Seq<char>, JsonView)>::empty());
        return Some((JsonValue::Obj(ps), k + 1));
    }
    if s[k] != '"' {
        return None;
    }
    match read_member(s, k) {
        None => None,
        Some((p0, e0)) => {
            let mut ps: Vec<(Vec<char>, JsonValue)> = Vec::new();
            let ghost p0v = (p0.0@, p0.1@);
            ps.push(p0);
            assert(pair_views_of(ps@) =~= seq![p0v]);
            assert(step_pos(e0 as int, k as int + 1, s@.len() as int) == e0 as int);
            let mut pos: usize = e0;
            loop
                invariant
                    i < pos <= s@.len(),
                    k < s@.len(),
                    parse_members(s@, j as int + 1) == parse_members_rest(
                        s@,
                        pos as int,
                        pair_views_of(ps@),
                    ),
                    parse_value(s@, i as int) == (match parse_members(s@, j as int + 1) {
                        None => None::<(JsonView, int)>,
                        Some((psv, e2)) => Some((JsonView::Obj(psv), e2)),
                    }),
                decreases s@.len() - pos,
            {
                proof {
                    lemma_parse_members_rest_bounds(s@, pos as int, pair_views_of(ps@));
                }
                let t = ws_to(s, pos);
                if t >= s.len() {
                    return None;
                }
                if s[t] == '}' {
                    return Some((JsonValue::Obj(ps), t + 1));
                }
                if s[t] != ',' {
                    return None;
                }
                let k2 = ws_to(s, t + 1);
                if k2 >= s.len() {
                    return None;
                }
                if s[k2] != '"' {
                    return None;
                }
                match read_member(s, k2) {
                    None => {
                        return None;
                    },
                    Some((p, e)) => {
                        assert(step_pos(e as int, k2 as int + 1, s@.len() as int) == e as int);
                        let ghost old_ps = pair_views_of(ps@);
                        let ghost pv = (p.0@, p.1@);
                        ps.push(p);
                        assert(pair_views_of(ps@) =~= old_ps.push(pv));
                        pos = e;
                    },
                }
            }
        },
    }
}

/// Reads a whole document: one value with nothing but whitespace after it.
pub fn read_doc(s: &Vec<char>) -> (r: Option<JsonValue>)
    ensures
        match r {
            Some(v) => parse_doc(s@) == Some(v@),
            None => parse_doc(s@) is None,
        },
{
    match read_value(s, 0) {
        None => None,
        Some((v, e)) => {
            assert(step_pos(e as int, 0, s@.len() as int) == e as int);
            let t = ws_to(s, e);
            if t == s.len() {
                Some(v)
            } else {
                None
            }
        },
    }
}

// ---------------------------------------------------------------------------
// Well-formedness of what the parser returns: every number token it accepts
// matches the number grammar, so a parsed value can always be written back.
// ---------------------------------------------------------------------------

pub proof fn lemma_parse_value_wf(s: Seq<char>, i: int)
    requires
        0 <= i <= s.len(),
    ensures
        parse_value(s, i) matches Some((v, j)) ==> crate::json_value::wf_json(v),
    decreases s.len() - i, 0int,
{
    lemma_skip_ws_bounds(s, i);
    let j = skip_ws(s, i);
    if j < s.len() {
        let c = s[j];
        if c == '[' {
            lemma_parse_elems_wf(s, j + 1);
        } else if c == '{' {
            lemma_parse_members_wf(s, j + 1);
        }
    }
}

pub proof fn lemma_parse_elems_wf(s: Seq<char>, i: int)
    requires
        0 <= i <= s.len(),
    ensures
        parse_elems(s, i) matches Some((es, j)) ==> forall|k: int|
            0 <= k < es.len() ==> crate::json_value::wf_json(#[trigger] es[k]),
    decreases s.len() - i, 2int,
{
    lemma_skip_ws_bounds(s, i);
    let k = skip_ws(s, i);
    if k < s.len() && s[k] != ']' {
        lemma_parse_value_wf(s, k);
        if let Some((v, m)) = parse_value(s, k) {
            lemma_parse_elems_rest_wf(s, step_pos(m, k + 1, s.len() as int), seq![v]);
        }
    }
}

pub proof fn lemma_parse_elems_rest_wf(s: Seq<char>, i: int, acc: Seq<JsonView>)
    requires
        0 <= i <= s.len(),
    ensures
        parse_elems_rest(s, i, acc) matches Some((es, j)) ==> ((forall|k: int|
            0 <= k < acc.len() ==> crate::json_value::wf_json(#[trigger] acc[k])) ==> (forall|
            k: int,
        |
            0 <= k < es.len() ==> crate::json_value::wf_json(#[trigger] es[k]))),
    decreases s.len() - i, 2int,
{
    lemma_skip_ws_bounds(s, i);
    let t = skip_ws(s, i);
    if t < s.len() && s[t] == ',' {
        lemma_parse_value_wf(s, t + 1);
        if let Some((v, m)) = parse_value(s, t + 1) {
            lemma_parse_elems_rest_wf(s, step_pos(m, t + 2, s.len() as int), acc.push(v));
        }
    }
}

pub proof fn lemma_parse_member_wf(s: Seq<char>, i: int)
    requires
        0 <= i < s.len(),
    ensures
        parse_member(s, i) matches Some((p, j)) ==> crate::json_value::wf_json(p.1),
    decreases s.len() - i, 1int,
{
    if let Some((key, m)) = parse_strbody(s, i + 1, Seq::empty()) {
        lemma_skip_ws_bounds(s, step_pos(m, i + 2, s.len() as int));
        let t = skip_ws(s, step_pos(m, i + 2, s.len() as int));
        if t < s.len() && s[t] == ':' {
            lemma_parse_value_wf(s, t + 1);
        }
    }
}

pub proof fn lemma_parse_members_wf(s: Seq<char>, i: int)
    requires
        0 <= i <= s.len(),
    ensures
        parse_members(s, i) matches Some((ps, j)) ==> forall|k: int|
            0 <= k < ps.len() ==> crate::json_value::wf_json(#[trigger] ps[k].1),
    decreases s.len() - i, 2int,
{
    lemma_skip_ws_bounds(s, i);
    let k = skip_ws(s, i);
    if k < s.len() && s[k] == '"' {
        lemma_parse_member_wf(s, k);
        if let Some((p, e)) = parse_member(s, k) {
            lemma_parse_members_rest_wf(s, step_pos(e, k + 1, s.len() as int), seq![p]);
        }
    }
}

pub proof fn lemma_parse_members_rest_wf(s: Seq<char>, i: int, acc: Seq<(Seq<char>, JsonView)>)
    requires
        0 <= i <= s.len(),
    ensures
        parse_members_rest(s, i, acc) matches Some((ps, j)) ==> ((forall|k: int|
            0 <= k < acc.len() ==> crate::json_value::wf_json(#[trigger] acc[k].1)) ==> (forall|
            k: int,
        |
            0 <= k < ps.len() ==> crate::json_value::wf_json(#[trigger] ps[k].1))),
    decreases s.len() - i, 2int,
{
    lemma_skip_ws_bounds(s, i);
    let t = skip_ws(s, i);
    if t < s.len() && s[t] == ',' {
        lemma_skip_ws_bounds(s, t + 1);
        let k2 = skip_ws(s, t + 1);
        if k2 < s.len() && s[k2] == '"' {
            lemma_parse_member_wf(s, k2);
            if let Some((p, e)) = parse_member(s, k2) {
                lemma_parse_members_rest_wf(s, step_pos(e, k2 + 1, s.len() as int), acc.push(p));
            }
        }
    }
}

/// Whatever the parser reads from a document is well formed.
pub proof fn lemma_parse_doc_wf(s: Seq<char>)
    ensures
        parse_doc(s) matches Some(v) ==> crate::json_value::wf_json(v),
{
    lemma_parse_value_wf(s, 0);
}

} // verus!
