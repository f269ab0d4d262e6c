use vstd::prelude::*;

use crate::json_parse::{
    hex4, hex_val, is_hex, parse_doc, parse_elems, parse_elems_rest, parse_member, parse_members,
    parse_members_rest, parse_num, parse_strbody, parse_value, step_pos,
};
use crate::json_ser::{esc, esc_char, hex_char, next_indent, ser_elems, ser_json, ser_members, spaces};
use crate::json_text::{
    digits_end, is_digit, is_num_char, is_ws, lemma_digits_end_bounds, lemma_num_end_runs_to,
    lemma_skip_ws_runs_to, lemma_wf_num_chars, skip_ws, wf_num,
};
use crate::json_value::{wf_json, JsonView};

verus! {

// ---------------------------------------------------------------------------
// Reading canonical text back.  The theorem at the end of this file says
// that parsing the canonical text of any well-formed value yields exactly
// that value: serialization loses nothing.
// ---------------------------------------------------------------------------

/// The characters of `m` stand in `s` at position `i`.
pub open spec fn matches_at(s: Seq<char>, i: int, m: Seq<char>) -> bool {
    &&& 0 <= i
    &&& i + m.len() <= s.len()
    &&& s.subrange(i, i + m.len() as int) == m
}

pub proof fn lemma_matches_split(s: Seq<char>, i: int, a: Seq<char>, b: Seq<char>)
    requires
        matches_at(s, i, a + b),
    ensures
        matches_at(s, i, a),
        matches_at(s, i + a.len(), b),
{
    assert(s.subrange(i, i + a.len() as int) =~= (a + b).subrange(0, a.len() as int));
    assert((a + b).subrange(0, a.len() as int) =~= a);
    assert(s.subrange(i + a.len(), i + (a + b).len() as int) =~= (a + b).subrange(
        a.len() as int,
        (a + b).len() as int,
    ));
    assert((a + b).subrange(a.len() as int, (a + b).len() as int) =~= b);
}

pub proof fn lemma_matches_index(s: Seq<char>, i: int, m: Seq<char>)
    requires
        matches_at(s, i, m),
    ensures
        forall|k: int| 0 <= k < m.len() ==> s[i + k] == m[k],
        m.len() > 0 ==> s[i] == m[0],
{
    assert forall|k: int| 0 <= k < m.len() implies s[i + k] == m[k] by {
        assert(s.subrange(i, i + m.len() as int)[k] == s[i + k]);
    }
    if m.len() > 0 {
        assert(s.subrange(i, i + m.len() as int)[0] == s[i]);
    }
}

pub proof fn lemma_spaces_all(n: nat)
    ensures
        spaces(n).len() == n,
        forall|k: int| 0 <= k < n ==> spaces(n)[k] == ' ',
    decreases n,
{
    if n > 0 {
        lemma_spaces_all((n - 1) as nat);
    }
}

/// A newline and an indent at `i` are exactly what the parser skips, when a
/// non-blank character follows.
pub proof fn lemma_skip_indent(s: Seq<char>, i: int, n: nat, j: int)
    requires
        matches_at(s, i, seq!['\n'] + spaces(n)),
        j == i + 1 + n,
        j == s.len() || !is_ws(s[j]),
    ensures
        skip_ws(s, i) == j,
{
    lemma_spaces_all(n);
    lemma_matches_index(s, i, seq!['\n'] + spaces(n));
    assert forall|k: int| i <= k < j implies is_ws(s[k]) by {
        assert(s[k] == (seq!['\n'] + spaces(n))[k - i]);
    }
    lemma_skip_ws_runs_to(s, i, j);
}

/// The first character of canonical text: never blank, and never one of the
/// closing or separating characters.
pub proof fn lemma_ser_first(v: JsonView, ind: nat)
    requires
        wf_json(v),
    ensures
        ser_json(v, ind).len() > 0,
        !is_ws(ser_json(v, ind)[0]),
        ser_json(v, ind)[0] != ']',
        ser_json(v, ind)[0] != '}',
        ser_json(v, ind)[0] != ',',
        ser_json(v, ind)[0] != ':',
{
    match v {
        JsonView::Num(t) => {
            let i0: int = if t[0] == '-' {
                1
            } else {
                0
            };
            lemma_digits_end_bounds(t, i0);
            if t[0] != '-' {
                assert(digits_end(t, 0) > 0);
                assert(is_digit(t[0]));
            }
        },
        _ => {},
    }
}

pub proof fn lemma_hex_char_val(d: int)
    requires
        0 <= d < 16,
    ensures
        is_hex(hex_char(d)),
        hex_val(hex_char(d)) == d,
{
}

/// Reading the escaped form of `t` followed by a closing quote appends `t`.
pub proof fn lemma_strbody_esc(t: Seq<char>, s: Seq<char>, i: int, acc: Seq<char>)
    requires
        matches_at(s, i, esc(t) + seq!['"']),
    ensures
        parse_strbody(s, i, acc) == Some((acc + t, i + esc(t).len() + 1)),
    decreases t.len(),
{
    if t.len() == 0 {
        lemma_matches_index(s, i, esc(t) + seq!['"']);
        assert(s[i] == '"');
        assert(acc + t =~= acc);
    } else {
        let c = t[0];
        let rest = t.drop_first();
        assert(esc(t) == esc_char(c) + esc(rest));
        assert(esc(t) + seq!['"'] =~= esc_char(c) + (esc(rest) + seq!['"']));
        lemma_matches_split(s, i, esc_char(c), esc(rest) + seq!['"']);
        lemma_matches_index(s, i, esc_char(c));
        let i2 = i + esc_char(c).len();
        if c == '"' || c == '\\' || c == '\u{8}' || c == '\u{c}' || c == '\n' || c == '\r' || c
            == '\t' {
            assert(s[i] == '\\');
            lemma_strbody_esc(rest, s, i2, acc.push(c));
            assert(acc.push(c) + rest =~= acc + t);
        } else if (c as u32) < 32 {
            assert(s[i] == '\\');
            assert(s[i + 1] == 'u');
            assert(s[i + 2] == '0');
            assert(s[i + 3] == '0');
            let hi = (c as u32) as int / 16;
            let lo = (c as u32) as int % 16;
            assert(s[i + 4] == hex_char(hi));
            assert(s[i + 5] == hex_char(lo));
            lemma_hex_char_val(hi);
            lemma_hex_char_val(lo);
            assert(hex_val('0') == 0);
            assert(hex4(s, i + 2) == c as u32) by {
                assert(hex_val(s[i + 2]) == 0);
                assert(hex_val(s[i + 3]) == 0);
                assert(hex_val(s[i + 4]) == hi);
                assert(hex_val(s[i + 5]) == lo);
            }
            vstd::utf8::char_u32_cast(c, c as u32);
            assert((((c as u32) as int as u32) as char) == c);
            lemma_strbody_esc(rest, s, i2, acc.push(c));
            assert(acc.push(c) + rest =~= acc + t);
        } else {
            assert(s[i] == c);
            assert(c != '"' && c != '\\' && (c as u32) >= 32);
            lemma_strbody_esc(rest, s, i2, acc.push(c));
            assert(acc.push(c) + rest =~= acc + t);
        }
    }
}

/// A well-formed number token at `i`, not followed by a number character,
/// is read back exactly.
pub proof fn lemma_parse_num_ser(t: Seq<char>, s: Seq<char>, i: int)
    requires
        wf_num(t),
        matches_at(s, i, t),
        i + t.len() == s.len() || !is_num_char(s[i + t.len()]),
    ensures
        parse_num(s, i) == Some((JsonView::Num(t), i + t.len())),
{
    lemma_wf_num_chars(t);
    lemma_matches_index(s, i, t);
    assert forall|k: int| i <= k < i + t.len() implies is_num_char(s[k]) by {
        assert(s[k] == t[k - i]);
    }
    lemma_num_end_runs_to(s, i, i + t.len() as int);
    assert(s.subrange(i, i + t.len() as int) == t);
}

// ---------------------------------------------------------------------------
// The main induction: canonical text parses back to the value it came from.
// ---------------------------------------------------------------------------

/// The text of one object member.
pub open spec fn member_text(p: (Seq<char>, JsonView), ind: nat) -> Seq<char> {
    seq!['"'] + esc(p.0) + seq!['"', ':', ' '] + ser_json(p.1, ind)
}

/// The text that follows the `k`th element of an array: the remaining
/// elements at indent `ind_e` and the closing bracket at indent `ind_c`.
pub open spec fn elems_tail(es: Seq<JsonView>, k: int, ind_e: nat, ind_c: nat) -> Seq<char> {
    (if k < es.len() {
        seq![','] + ser_elems(es, k, ind_e)
    } else {
        Seq::empty()
    }) + seq!['\n'] + spaces(ind_c) + seq![']']
}

/// The text that follows the `k`th member of an object.
pub open spec fn members_tail(
    ps: Seq<(Seq<char>, JsonView)>,
    k: int,
    ind_e: nat,
    ind_c: nat,
) -> Seq<char> {
    (if k < ps.len() {
        seq![','] + ser_members(ps, k, ind_e)
    } else {
        Seq::empty()
    }) + seq!['\n'] + spaces(ind_c) + seq!['}']
}

/// Parsing at `i` reads exactly the canonical text of `v` standing at `iv`.
#[verifier::rlimit(100)]
pub proof fn lemma_parse_ser(v: JsonView, ind: nat, s: Seq<char>, i: int, iv: int)
    requires
        wf_json(v),
        0 <= i <= s.len(),
        skip_ws(s, i) == iv,
        matches_at(s, iv, ser_json(v, ind)),
        iv + ser_json(v, ind).len() == s.len() || !is_num_char(s[iv + ser_json(v, ind).len()]),
    ensures
        parse_value(s, i) == Some((v, iv + ser_json(v, ind).len())),
    decreases v, 0int,
{
    let st = ser_json(v, ind);
    lemma_ser_first(v, ind);
    lemma_matches_index(s, iv, st);
    match v {
        JsonView::Null => {
            assert(s[iv] == 'n' && s[iv + 1] == 'u' && s[iv + 2] == 'l' && s[iv + 3] == 'l');
        },
        JsonView::Bool(b) => {
            if b {
                assert(s[iv] == 't' && s[iv + 1] == 'r' && s[iv + 2] == 'u' && s[iv + 3] == 'e');
            } else {
                assert(s[iv] == 'f' && s[iv + 1] == 'a' && s[iv + 2] == 'l' && s[iv + 3] == 's'
                    && s[iv + 4] == 'e');
            }
        },
        JsonView::Num(t) => {
            lemma_parse_num_ser(t, s, iv);
            assert(s[iv] == t[0]);
            assert(t[0] == '-' || is_digit(t[0]));
        },
        JsonView::Str(t) => {
            assert(st =~= seq!['"'] + (esc(t) + seq!['"']));
            lemma_matches_split(s, iv, seq!['"'], esc(t) + seq!['"']);
            lemma_strbody_esc(t, s, iv + 1, Seq::empty());
            assert(Seq::empty() + t =~= t);
            assert(s[iv] == '"');
        },
        JsonView::Arr(es) => {
            assert(s[iv] == '[');
            if es.len() == 0 {
                assert(s[iv + 1] == ']');
                lemma_skip_ws_runs_to(s, iv + 1, iv + 1);
                assert(es =~= Seq::<JsonView>::empty());
                assert(parse_elems(s, iv + 1) == Some((es, iv + 2)));
            } else {
                lemma_parse_ser_arr(es, ind, s, i, iv);
            }
        },
        JsonView::Obj(ps) => {
            assert(s[iv] == '{');
            if ps.len() == 0 {
                assert(s[iv + 1] == '}');
                lemma_skip_ws_runs_to(s, iv + 1, iv + 1);
                assert(ps =~= Seq::<(Seq<char>, JsonView)>::empty());
                assert(parse_members(s, iv + 1) == Some((ps, iv + 2)));
            } else {
                lemma_parse_ser_obj(ps, ind, s, i, iv);
            }
        },
    }
}


/// Reading a non-empty array: the opening bracket, the first element, then
/// the rest.
#[verifier::rlimit(100)]
proof fn lemma_parse_ser_arr(es: Seq<JsonView>, ind: nat, s: Seq<char>, i: int, iv: int)
    requires
        wf_json(JsonView::Arr(es)),
        es.len() > 0,
        0 <= i <= s.len(),
        skip_ws(s, i) == iv,
        matches_at(s, iv, ser_json(JsonView::Arr(es), ind)),
        iv + ser_json(JsonView::Arr(es), ind).len() == s.len() || !is_num_char(
            s[iv + ser_json(JsonView::Arr(es), ind).len()],
        ),
        iv < s.len() && s[iv] == '[',
    ensures
        parse_value(s, i) == Some((JsonView::Arr(es), iv + ser_json(JsonView::Arr(es), ind).len())),
    decreases es, es.len() + 1,
{
    let v = JsonView::Arr(es);
    let st = ser_json(v, ind);
    let ind2 = next_indent(ind);
    let e0 = ser_json(es[0], ind2);
    let tail1 = elems_tail(es, 1, ind2, ind);
    assert(ser_elems(es, 0, ind2) =~= seq!['\n'] + spaces(ind2) + e0 + (if 1
        < es.len() {
        seq![','] + ser_elems(es, 1, ind2)
    } else {
        Seq::empty()
    }));
    assert(st =~= seq!['['] + ((seq!['\n'] + spaces(ind2)) + (e0 + tail1)));
    lemma_matches_split(s, iv, seq!['['], (seq!['\n'] + spaces(ind2)) + (e0 + tail1));
    lemma_matches_split(s, iv + 1, seq!['\n'] + spaces(ind2), e0 + tail1);
    lemma_spaces_all(ind2);
    let p0 = iv + 2 + ind2;
    lemma_matches_split(s, p0, e0, tail1);
    assert(wf_json(es[0]));
    lemma_ser_first(es[0], ind2);
    lemma_matches_index(s, p0, e0);
    lemma_skip_indent(s, iv + 1, ind2, p0);
    lemma_skip_ws_runs_to(s, p0, p0);
    let m0 = p0 + e0.len();
    lemma_matches_index(s, m0, tail1);
    lemma_spaces_all(ind);
    if 1 < es.len() {
        assert(tail1[0] == ',');
    } else {
        assert(tail1 =~= seq!['\n'] + spaces(ind) + seq![']']);
        assert(tail1[0] == '\n');
    }
    assert(!is_num_char(s[m0]));
    lemma_parse_ser(es[0], ind2, s, p0, p0);
    assert(parse_value(s, p0) == Some((es[0], m0)));
    assert(s[p0] != ']');
    assert(step_pos(m0, p0 + 1, s.len() as int) == m0);
    lemma_elems_rest_ser(es, 1, ind2, ind, s, m0, seq![es[0]]);
    assert(seq![es[0]] + es.subrange(1, es.len() as int) =~= es);
    assert(parse_elems(s, iv + 1) == Some((es, m0 + tail1.len())));
    assert(m0 + tail1.len() == iv + st.len());
}

/// Reading a non-empty object: the opening brace, the first member, then
/// the rest.
#[verifier::rlimit(100)]
proof fn lemma_parse_ser_obj(ps: Seq<(Seq<char>, JsonView)>, ind: nat, s: Seq<char>, i: int, iv: int)
    requires
        wf_json(JsonView::Obj(ps)),
        ps.len() > 0,
        0 <= i <= s.len(),
        skip_ws(s, i) == iv,
        matches_at(s, iv, ser_json(JsonView::Obj(ps), ind)),
        iv + ser_json(JsonView::Obj(ps), ind).len() == s.len() || !is_num_char(
            s[iv + ser_json(JsonView::Obj(ps), ind).len()],
        ),
        iv < s.len() && s[iv] == '{',
    ensures
        parse_value(s, i) == Some((JsonView::Obj(ps), iv + ser_json(JsonView::Obj(ps), ind).len())),
    decreases ps, ps.len() + 1,
{
    let v = JsonView::Obj(ps);
    let st = ser_json(v, ind);
    let ind2 = next_indent(ind);
    let m0txt = member_text(ps[0], ind2);
    let tail1 = members_tail(ps, 1, ind2, ind);
    assert(ser_members(ps, 0, ind2) =~= seq!['\n'] + spaces(ind2) + m0txt + (if 1
        < ps.len() {
        seq![','] + ser_members(ps, 1, ind2)
    } else {
        Seq::empty()
    }));
    assert(st =~= seq!['{'] + ((seq!['\n'] + spaces(ind2)) + (m0txt + tail1)));
    lemma_matches_split(s, iv, seq!['{'], (seq!['\n'] + spaces(ind2)) + (m0txt
        + tail1));
    lemma_matches_split(s, iv + 1, seq!['\n'] + spaces(ind2), m0txt + tail1);
    lemma_spaces_all(ind2);
    let p0 = iv + 2 + ind2;
    lemma_matches_split(s, p0, m0txt, tail1);
    lemma_matches_index(s, p0, m0txt);
    assert(m0txt[0] == '"');
    assert(s[p0] == '"');
    lemma_skip_indent(s, iv + 1, ind2, p0);
    let e0 = p0 + m0txt.len();
    lemma_matches_index(s, e0, tail1);
    lemma_spaces_all(ind);
    if 1 < ps.len() {
        assert(tail1[0] == ',');
    } else {
        assert(tail1 =~= seq!['\n'] + spaces(ind) + seq!['}']);
        assert(tail1[0] == '\n');
    }
    assert(!is_num_char(s[e0]));
    assert(wf_json(ps[0].1));
    lemma_member_ser(ps[0], ind2, s, p0);
    assert(parse_member(s, p0) == Some((ps[0], e0)));
    assert(step_pos(e0, p0 + 1, s.len() as int) == e0);
    lemma_members_rest_ser(ps, 1, ind2, ind, s, e0, seq![ps[0]]);
    assert(seq![ps[0]] + ps.subrange(1, ps.len() as int) =~= ps);
    assert(parse_members(s, iv + 1) == Some((ps, e0 + tail1.len())));
    assert(e0 + tail1.len() == iv + st.len());
}

/// Reading one member: its key, the separator, then its value.
pub proof fn lemma_member_ser(p: (Seq<char>, JsonView), ind: nat, s: Seq<char>, k: int)
    requires
        wf_json(p.1),
        matches_at(s, k, member_text(p, ind)),
        k + member_text(p, ind).len() == s.len() || !is_num_char(
            s[k + member_text(p, ind).len()],
        ),
    ensures
        parse_member(s, k) == Some((p, k + member_text(p, ind).len())),
    decreases p, 1int,
{
    let (key, val) = p;
    let mtxt = member_text(p, ind);
    let vtxt = ser_json(val, ind);
    assert(mtxt =~= seq!['"'] + ((esc(key) + seq!['"']) + (seq![':', ' '] + vtxt)));
    lemma_matches_split(s, k, seq!['"'], (esc(key) + seq!['"']) + (seq![':', ' '] + vtxt));
    lemma_matches_split(s, k + 1, esc(key) + seq!['"'], seq![':', ' '] + vtxt);
    let mk = k + 2 + esc(key).len();
    lemma_strbody_esc(key, s, k + 1, Seq::empty());
    assert(Seq::empty() + key =~= key);
    assert(parse_strbody(s, k + 1, Seq::empty()) == Some((key, mk)));
    assert(step_pos(mk, k + 2, s.len() as int) == mk);
    lemma_matches_split(s, mk, seq![':', ' '], vtxt);
    lemma_matches_index(s, mk, seq![':', ' ']);
    assert((seq![':', ' '])[0] == ':');
    assert((seq![':', ' '])[1] == ' ');
    assert(s[mk] == ':');
    assert(s[mk + 1] == ' ');
    lemma_skip_ws_runs_to(s, mk, mk);
    lemma_ser_first(val, ind);
    lemma_matches_index(s, mk + 2, vtxt);
    lemma_skip_ws_runs_to(s, mk + 1, mk + 2);
    lemma_parse_ser(val, ind, s, mk + 1, mk + 2);
    assert(parse_value(s, mk + 1) == Some((val, mk + 2 + vtxt.len())));
    assert(mk + 2 + vtxt.len() == k + mtxt.len());
}

/// Reading the elements that follow element `k - 1` of an array.
pub proof fn lemma_elems_rest_ser(
    es: Seq<JsonView>,
    k: int,
    ind_e: nat,
    ind_c: nat,
    s: Seq<char>,
    q: int,
    acc: Seq<JsonView>,
)
    requires
        forall|j: int| 0 <= j < es.len() ==> wf_json(#[trigger] es[j]),
        1 <= k <= es.len(),
        matches_at(s, q, elems_tail(es, k, ind_e, ind_c)),
    ensures
        parse_elems_rest(s, q, acc) == Some(
            (acc + es.subrange(k, es.len() as int), q + elems_tail(es, k, ind_e, ind_c).len()),
        ),
    decreases es, es.len() - k,
{
    let tail = elems_tail(es, k, ind_e, ind_c);
    lemma_spaces_all(ind_c);
    lemma_spaces_all(ind_e);
    if k == es.len() {
        assert(tail =~= (seq!['\n'] + spaces(ind_c)) + seq![']']);
        lemma_matches_split(s, q, seq!['\n'] + spaces(ind_c), seq![']']);
        let t = q + 1 + ind_c;
        lemma_matches_index(s, t, seq![']']);
        assert(s[t] == ']');
        lemma_skip_indent(s, q, ind_c, t);
        assert(es.subrange(k, es.len() as int) =~= Seq::<JsonView>::empty());
        assert(acc + es.subrange(k, es.len() as int) =~= acc);
        assert(parse_elems_rest(s, q, acc) == Some((acc, t + 1)));
    } else {
        let ek = ser_json(es[k], ind_e);
        let tail2 = elems_tail(es, k + 1, ind_e, ind_c);
        assert(ser_elems(es, k, ind_e) =~= seq!['\n'] + spaces(ind_e) + ek + (if k + 1
            < es.len() {
            seq![','] + ser_elems(es, k + 1, ind_e)
        } else {
            Seq::empty()
        }));
        assert(tail =~= seq![','] + ((seq!['\n'] + spaces(ind_e)) + (ek + tail2)));
        lemma_matches_split(s, q, seq![','], (seq!['\n'] + spaces(ind_e)) + (ek + tail2));
        lemma_matches_index(s, q, seq![',']);
        assert(s[q] == ',');
        lemma_skip_ws_runs_to(s, q, q);
        lemma_matches_split(s, q + 1, seq!['\n'] + spaces(ind_e), ek + tail2);
        let pk = q + 2 + ind_e;
        lemma_matches_split(s, pk, ek, tail2);
        assert(wf_json(es[k]));
        lemma_ser_first(es[k], ind_e);
        lemma_matches_index(s, pk, ek);
        lemma_skip_indent(s, q + 1, ind_e, pk);
        lemma_skip_ws_runs_to(s, pk, pk);
        let mk = pk + ek.len();
        lemma_matches_index(s, mk, tail2);
        if k + 1 < es.len() {
            assert(tail2[0] == ',');
        } else {
            assert(tail2 =~= seq!['\n'] + spaces(ind_c) + seq![']']);
            assert(tail2[0] == '\n');
        }
        assert(!is_num_char(s[mk]));
        lemma_parse_ser(es[k], ind_e, s, q + 1, pk);
        assert(parse_value(s, q + 1) == Some((es[k], mk)));
        assert(step_pos(mk, q + 2, s.len() as int) == mk);
        lemma_elems_rest_ser(es, k + 1, ind_e, ind_c, s, mk, acc.push(es[k]));
        assert(acc.push(es[k]) + es.subrange(k + 1, es.len() as int) =~= acc + es.subrange(
            k,
            es.len() as int,
        ));
        assert(parse_elems_rest(s, q, acc) == Some(
            (acc + es.subrange(k, es.len() as int), mk + tail2.len()),
        ));
        assert(mk + tail2.len() == q + tail.len());
    }
}

/// Reading the members that follow member `k - 1` of an object.
pub proof fn lemma_members_rest_ser(
    ps: Seq<(Seq<char>, JsonView)>,
    k: int,
    ind_e: nat,
    ind_c: nat,
    s: Seq<char>,
    q: int,
    acc: Seq<(Seq<char>, JsonView)>,
)
    requires
        forall|j: int| 0 <= j < ps.len() ==> wf_json(#[trigger] ps[j].1),
        1 <= k <= ps.len(),
        matches_at(s, q, members_tail(ps, k, ind_e, ind_c)),
    ensures
        parse_members_rest(s, q, acc) == Some(
            (acc + ps.subrange(k, ps.len() as int), q + members_tail(ps, k, ind_e, ind_c).len()),
        ),
    decreases ps, ps.len() - k,
{
    let tail = members_tail(ps, k, ind_e, ind_c);
    lemma_spaces_all(ind_c);
    lemma_spaces_all(ind_e);
    if k == ps.len() {
        assert(tail =~= (seq!['\n'] + spaces(ind_c)) + seq!['}']);
        lemma_matches_split(s, q, seq!['\n'] + spaces(ind_c), seq!['}']);
        let t = q + 1 + ind_c;
        lemma_matches_index(s, t, seq!['}']);
        assert(s[t] == '}');
        lemma_skip_indent(s, q, ind_c, t);
        assert(ps.subrange(k, ps.len() as int) =~= Seq::<(Seq<char>, JsonView)>::empty());
        assert(acc + ps.subrange(k, ps.len() as int) =~= acc);
        assert(parse_members_rest(s, q, acc) == Some((acc, t + 1)));
    } else {
        let mtxt = member_text(ps[k], ind_e);
        let tail2 = members_tail(ps, k + 1, ind_e, ind_c);
        assert(ser_members(ps, k, ind_e) =~= seq!['\n'] + spaces(ind_e) + mtxt + (if k + 1
            < ps.len() {
            seq![','] + ser_members(ps, k + 1, ind_e)
        } else {
            Seq::empty()
        }));
        assert(tail =~= seq![','] + ((seq!['\n'] + spaces(ind_e)) + (mtxt + tail2)));
        lemma_matches_split(s, q, seq![','], (seq!['\n'] + spaces(ind_e)) + (mtxt + tail2));
        lemma_matches_index(s, q, seq![',']);
        assert(s[q] == ',');
        lemma_skip_ws_runs_to(s, q, q);
        lemma_matches_split(s, q + 1, seq!['\n'] + spaces(ind_e), mtxt + tail2);
        let pk = q + 2 + ind_e;
        lemma_matches_split(s, pk, mtxt, tail2);
        lemma_matches_index(s, pk, mtxt);
        assert(mtxt[0] == '"');
        assert(s[pk] == '"');
        lemma_skip_indent(s, q + 1, ind_e, pk);
        let ek = pk + mtxt.len();
        lemma_matches_index(s, ek, tail2);
        if k + 1 < ps.len() {
            assert(tail2[0] == ',');
        } else {
            assert(tail2 =~= seq!['\n'] + spaces(ind_c) + seq!['}']);
            assert(tail2[0] == '\n');
        }
        assert(!is_num_char(s[ek]));
        assert(wf_json(ps[k].1));
        lemma_member_ser(ps[k], ind_e, s, pk);
        assert(parse_member(s, pk) == Some((ps[k], ek)));
        assert(step_pos(ek, pk + 1, s.len() as int) == ek);
        lemma_members_rest_ser(ps, k + 1, ind_e, ind_c, s, ek, acc.push(ps[k]));
        assert(acc.push(ps[k]) + ps.subrange(k + 1, ps.len() as int) =~= acc + ps.subrange(
            k,
            ps.len() as int,
        ));
        assert(parse_members_rest(s, q, acc) == Some(
            (acc + ps.subrange(k, ps.len() as int), ek + tail2.len()),
        ));
        assert(ek + tail2.len() == q + tail.len());
    }
}

/// The canonical text of any well-formed value parses back to that value.
pub proof fn lemma_json_roundtrip(v: JsonView)
    requires
        wf_json(v),
    ensures
        parse_doc(ser_json(v, 0)) == Some(v),
{
    let s = ser_json(v, 0);
    lemma_ser_first(v, 0);
    lemma_skip_ws_runs_to(s, 0, 0);
    assert(s.subrange(0, s.len() as int) =~= s);
    assert(matches_at(s, 0, s));
    lemma_parse_ser(v, 0, s, 0, 0);
    assert(parse_value(s, 0) == Some((v, s.len() as int)));
    assert(step_pos(s.len() as int, 0, s.len() as int) == s.len());
    assert(skip_ws(s, s.len() as int) == s.len());
}

} // verus!
