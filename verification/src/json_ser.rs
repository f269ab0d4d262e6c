use vstd::prelude::*;

use crate::json_value::{jview, pair_views_of, views_of, JsonValue, JsonView};

verus! {

// ---------------------------------------------------------------------------
// The canonical text of a value: pretty-printed, two-space indent, stable
// member order, minimal escapes.
// ---------------------------------------------------------------------------

/// `n` spaces.
pub open spec fn spaces(n: nat) -> Seq<char>
    decreases n,
{
    if n == 0 {
        Seq::empty()
    } else {
        spaces((n - 1) as nat).push(' ')
    }
}

/// The indent of the next nesting level; saturates at the machine limit,
/// which changes only how much whitespace is written.
pub open spec fn next_indent(ind: nat) -> nat {
    if ind + 2 <= usize::MAX {
        (ind + 2) as nat
    } else {
        ind
    }
}

pub open spec fn hex_char(d: int) -> char {
    if d == 0 {
        '0'
    } else if d == 1 {
        '1'
    } else if d == 2 {
        '2'
    } else if d == 3 {
        '3'
    } else if d == 4 {
        '4'
    } else if d == 5 {
        '5'
    } else if d == 6 {
        '6'
    } else if d == 7 {
        '7'
    } else if d == 8 {
        '8'
    } else if d == 9 {
        '9'
    } else if d == 10 {
        'a'
    } else if d == 11 {
        'b'
    } else if d == 12 {
        'c'
    } else if d == 13 {
        'd'
    } else if d == 14 {
        'e'
    } else {
        'f'
    }
}

/// The characters written for one string character.
pub open spec fn esc_char(c: char) -> Seq<char> {
    if c == '"' {
        seq!['\\', '"']
    } else if c == '\\' {
        seq!['\\', '\\']
    } else if c == '\u{8}' {
        seq!['\\', 'b']
    } else if c == '\u{c}' {
        seq!['\\', 'f']
    } else if c == '\n' {
        seq!['\\', 'n']
    } else if c == '\r' {
        seq!['\\', 'r']
    } else if c == '\t' {
        seq!['\\', 't']
    } else if (c as u32) < 32 {
        seq!['\\', 'u', '0', '0', hex_char((c as u32) as int / 16), hex_char((c as u32) as int % 16)]
    } else {
        seq![c]
    }
}

/// The escaped form of a string body.
pub open spec fn esc(s: Seq<char>) -> Seq<char>
    decreases s.len(),
{
    if s.len() == 0 {
        Seq::empty()
    } else {
        esc_char(s[0]) + esc(s.drop_first())
    }
}

/// Extending the string extends its escaped form.
pub proof fn lemma_esc_snoc(s: Seq<char>, c: char)
    ensures
        esc(s.push(c)) == esc(s) + esc_char(c),
    decreases s.len(),
{
    assert(esc(s.push(c)) == esc_char(s.push(c)[0]) + esc(s.push(c).drop_first()));
    if s.len() == 0 {
        assert(s.push(c).drop_first() =~= s);
        assert(s.push(c)[0] == c);
        assert(esc(s.push(c)) =~= esc(s) + esc_char(c));
    } else {
        assert(s.push(c).drop_first() =~= s.drop_first().push(c));
        assert(s.push(c)[0] == s[0]);
        lemma_esc_snoc(s.drop_first(), c);
        assert(esc(s.push(c)) =~= esc(s) + esc_char(c));
    }
}

/// The canonical text of `v` at indentation `ind`.
pub open spec fn ser_json(v: JsonView, ind: nat) -> Seq<char>
    decreases v, 0int,
{
    match v {
        JsonView::Null => seq!['n', 'u', 'l', 'l'],
        JsonView::Bool(b) => if b {
            seq!['t', 'r', 'u', 'e']
        } else {
            seq!['f', 'a', 'l', 's', 'e']
        },
        JsonView::Num(t) => t,
        JsonView::Str(t) => seq!['"'] + esc(t) + seq!['"'],
        JsonView::Arr(es) => if es.len() == 0 {
            seq!['[', ']']
        } else {
            seq!['['] + ser_elems(es, 0, next_indent(ind)) + seq!['\n'] + spaces(ind) + seq![']']
        },
        JsonView::Obj(ps) => if ps.len() == 0 {
            seq!['{', '}']
        } else {
            seq!['{'] + ser_members(ps, 0, next_indent(ind)) + seq!['\n'] + spaces(ind) + seq!['}']
        },
    }
}

/// The text of the elements from `k` on: each on its own indented line,
/// separated by commas.
pub open spec fn ser_elems(es: Seq<JsonView>, k: int, ind: nat) -> Seq<char>
    decreases es, es.len() - k when 0 <= k < es.len()
{
    seq!['\n'] + spaces(ind) + ser_json(es[k], ind) + (if k + 1 < es.len() {
        seq![','] + ser_elems(es, k + 1, ind)
    } else {
        Seq::empty()
    })
}

/// The text of the members from `k` on.
pub open spec fn ser_members(ps: Seq<(Seq<char>, JsonView)>, k: int, ind: nat) -> Seq<char>
    decreases ps, ps.len() - k when 0 <= k < ps.len()
{
    seq!['\n'] + spaces(ind) + seq!['"'] + esc(ps[k].0) + seq!['"', ':', ' '] + ser_json(
        ps[k].1,
        ind,
    ) + (if k + 1 < ps.len() {
        seq![','] + ser_members(ps, k + 1, ind)
    } else {
        Seq::empty()
    })
}

// ---------------------------------------------------------------------------
// The serializer
// ---------------------------------------------------------------------------

fn hex_of(d: u32) -> (c: char)
    requires
        d < 16,
    ensures
        c == hex_char(d as int),
{
    if d == 0 {
        '0'
    } else if d == 1 {
        '1'
    } else if d == 2 {
        '2'
    } else if d == 3 {
        '3'
    } else if d == 4 {
        '4'
    } else if d == 5 {
        '5'
    } else if d == 6 {
        '6'
    } else if d == 7 {
        '7'
    } else if d == 8 {
        '8'
    } else if d == 9 {
        '9'
    } else if d == 10 {
        'a'
    } else if d == 11 {
        'b'
    } else if d == 12 {
        'c'
    } else if d == 13 {
        'd'
    } else if d == 14 {
        'e'
    } else {
        'f'
    }
}

/// Writes the escaped form of one character.
fn write_esc_char(c: char, out: &mut Vec<char>)
    ensures
        final(out)@ == old(out)@ + esc_char(c),
{
    if c == '"' {
        out.push('\\');
        out.push('"');
    } else if c == '\\' {
        out.push('\\');
        out.push('\\');
    } else if c == '\u{8}' {
        out.push('\\');
        out.push('b');
    } else if c == '\u{c}' {
        out.push('\\');
        out.push('f');
    } else if c == '\n' {
        out.push('\\');
        out.push('n');
    } else if c == '\r' {
        out.push('\\');
        out.push('r');
    } else if c == '\t' {
        out.push('\\');
        out.push('t');
    } else if (c as u32) < 32 {
        let u = c as u32;
        out.push('\\');
        out.push('u');
        out.push('0');
        out.push('0');
        let h = hex_of(u / 16);
        out.push(h);
        let l = hex_of(u % 16);
        out.push(l);
        assert(out@ =~= old(out)@ + esc_char(c));
    } else {
        out.push(c);
    }
    assert(out@ =~= old(out)@ + esc_char(c));
}

/// Writes the escaped form of a string body.
fn write_escaped(t: &Vec<char>, out: &mut Vec<char>)
    ensures
        final(out)@ == old(out)@ + esc(t@),
{
    let mut k: usize = 0;
    assert(t@.subrange(0, 0) =~= Seq::<char>::empty());
    while k < t.len()
        invariant
            k <= t@.len(),
            out@ == old(out)@ + esc(t@.subrange(0, k as int)),
        decreases t@.len() - k,
    {
        let c = t[k];
        write_esc_char(c, out);
        proof {
            lemma_esc_snoc(t@.subrange(0, k as int), t@[k as int]);
            assert(t@.subrange(0, k as int + 1) =~= t@.subrange(0, k as int).push(t@[k as int]));
            assert(out@ =~= old(out)@ + esc(t@.subrange(0, k as int + 1)));
        }
        k = k + 1;
    }
    assert(t@.subrange(0, t@.len() as int) =~= t@);
}

/// Writes `n` spaces.
fn write_spaces(n: usize, out: &mut Vec<char>)
    ensures
        final(out)@ == old(out)@ + spaces(n as nat),
{
    let mut k: usize = 0;
    while k < n
        invariant
            k <= n,
            out@ == old(out)@ + spaces(k as nat),
        decreases n - k,
    {
        out.push(' ');
        k = k + 1;
    }
}

/// Appends the characters of `t`.
fn write_all(t: &Vec<char>, out: &mut Vec<char>)
    ensures
        final(out)@ == old(out)@ + t@,
{
    let mut k: usize = 0;
    assert(t@.subrange(0, 0) =~= Seq::<char>::empty());
    while k < t.len()
        invariant
            k <= t@.len(),
            out@ == old(out)@ + t@.subrange(0, k as int),
        decreases t@.len() - k,
    {
        let c = t[k];
        out.push(c);
        assert(t@.subrange(0, k as int + 1) =~= t@.subrange(0, k as int).push(t@[k as int]));
        k = k + 1;
    }
    assert(t@.subrange(0, t@.len() as int) =~= t@);
}

/// Writes the canonical text of `v` at indentation `ind`.
pub fn write_json(v: &JsonValue, ind: usize, out: &mut Vec<char>)
    ensures
        final(out)@ == old(out)@ + ser_json(v@, ind as nat),
    decreases v, 0int,
{
    match v {
        JsonValue::Null => {
            out.push('n');
            out.push('u');
            out.push('l');
            out.push('l');
            assert(out@ =~= old(out)@ + ser_json(v@, ind as nat));
        },
        JsonValue::Bool(b) => {
            if *b {
                out.push('t');
                out.push('r');
                out.push('u');
                out.push('e');
            } else {
                out.push('f');
                out.push('a');
                out.push('l');
                out.push('s');
                out.push('e');
            }
            assert(out@ =~= old(out)@ + ser_json(v@, ind as nat));
        },
        JsonValue::Num(t) => {
            write_all(t, out);
        },
        JsonValue::Str(t) => {
            out.push('"');
            write_escaped(t, out);
            out.push('"');
            assert(out@ =~= old(out)@ + ser_json(v@, ind as nat));
        },
        JsonValue::Arr(es) => {
            if es.len() == 0 {
                out.push('[');
                out.push(']');
                assert(views_of(es@) =~= Seq::<JsonView>::empty());
                assert(out@ =~= old(out)@ + ser_json(v@, ind as nat));
            } else {
                let ind2 = if ind <= usize::MAX - 2 {
                    ind + 2
                } else {
                    ind
                };
                out.push('[');
                write_elems(es, 0, ind2, out);
                out.push('\n');
                write_spaces(ind, out);
                out.push(']');
                assert(out@ =~= old(out)@ + ser_json(v@, ind as nat));
            }
        },
        JsonValue::Obj(ps) => {
            if ps.len() == 0 {
                out.push('{');
                out.push('}');
                assert(pair_views_of(ps@) =~= Seq::<(Seq<char>, JsonView)>::empty());
                assert(out@ =~= old(out)@ + ser_json(v@, ind as nat));
            } else {
                let ind2 = if ind <= usize::MAX - 2 {
                    ind + 2
                } else {
                    ind
                };
                out.push('{');
                write_members(ps, 0, ind2, out);
                out.push('\n');
                write_spaces(ind, out);
                out.push('}');
                assert(out@ =~= old(out)@ + ser_json(v@, ind as nat));
            }
        },
    }
}

/// Writes the elements of `es` from `k` on.
fn write_elems(es: &Vec<JsonValue>, k: usize, ind: usize, out: &mut Vec<char>)
    requires
        k < es@.len(),
    ensures
        final(out)@ == old(out)@ + ser_elems(views_of(es@), k as int, ind as nat),
    decreases es, es@.len() - k,
{
    out.push('\n');
    write_spaces(ind, out);
    write_json(&es[k], ind, out);
    assert(views_of(es@)[k as int] == es[k as int]@);
    if k < es.len() - 1 {
        out.push(',');
        write_elems(es, k + 1, ind, out);
    }
    assert(out@ =~= old(out)@ + ser_elems(views_of(es@), k as int, ind as nat));
}

/// Writes the members of `ps` from `k` on.
fn write_members(ps: &Vec<(Vec<char>, JsonValue)>, k: usize, ind: usize, out: &mut Vec<char>)
    requires
        k < ps@.len(),
    ensures
        final(out)@ == old(out)@ + ser_members(pair_views_of(ps@), k as int, ind as nat),
    decreases ps, ps@.len() - k,
{
    out.push('\n');
    write_spaces(ind, out);
    out.push('"');
    write_escaped(&ps[k].0, out);
    out.push('"');
    out.push(':');
    out.push(' ');
    write_json(&ps[k].1, ind, out);
    assert(pair_views_of(ps@)[k as int] == (ps[k as int].0@, ps[k as int].1@));
    if k < ps.len() - 1 {
        out.push(',');
        write_members(ps, k + 1, ind, out);
    }
    assert(out@ =~= old(out)@ + ser_members(pair_views_of(ps@), k as int, ind as nat));
}

/// The canonical text of a whole document.
pub fn json_to_text(v: &JsonValue) -> (r: Vec<char>)
    ensures
        r@ == ser_json(v@, 0),
{
    let mut out: Vec<char> = Vec::new();
    write_json(v, 0, &mut out);
    out
}

} // verus!
