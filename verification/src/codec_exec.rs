use vstd::prelude::*;

use crate::codec::{
    dec_cell, dec_cells_seq, dec_count, dec_kernelspec, dec_language_info, dec_lines,
    dec_lines_seq, dec_meta, dec_nb, dec_output, dec_outputs, dec_outputs_seq,
    dec_u32, dec_u8, enc_cell, enc_cells, enc_count, enc_kernelspec, enc_language_info, enc_lines,
    enc_meta, enc_nb, enc_output, enc_outputs, get_field, is_li_key, is_meta_key,
    spec_load, spec_save,
};
use crate::json_parse::{parse_doc, read_doc};
use crate::json_ser::json_to_text;
use crate::json_text::parse_dec_u32;
use crate::json_value::{pair_views_of, views_of, JsonValue, JsonView};
use crate::notebook::{
    lines_view, outputs_view, Cell, CellView, CodeCell, CodeCellView, Kernelspec, KernelspecView,
    LanguageInfo, LanguageInfoView, MarkdownCell, MarkdownCellView, MetadataView, Notebook,
    NotebookMetadata, NotebookView, Output, OutputView, RawCell, RawCellView,
};
use crate::text_util::{chars_eq_str, chars_of, string_from_chars};


verus! {

// ---------------------------------------------------------------------------
// Copying JSON values
// ---------------------------------------------------------------------------

fn clone_chars(v: &Vec<char>) -> (r: Vec<char>)
    ensures
        r@ == v@,
{
    let mut r: Vec<char> = Vec::new();
    let mut k: usize = 0;
    while k < v.len()
        invariant
            k <= v@.len(),
            r@ == v@.subrange(0, k as int),
        decreases v@.len() - k,
    {
        let c = v[k];
        r.push(c);
        assert(v@.subrange(0, k as int + 1) =~= v@.subrange(0, k as int).push(v@[k as int]));
        k = k + 1;
    }
    assert(v@.subrange(0, v@.len() as int) =~= v@);
    r
}

/// A structural copy of a JSON value.
#[verifier::loop_isolation(false)]
pub fn clone_json(v: &JsonValue) -> (r: JsonValue)
    ensures
        r@ == v@,
    decreases v,
{
    match v {
        JsonValue::Null => JsonValue::Null,
        JsonValue::Bool(b) => JsonValue::Bool(*b),
        JsonValue::Num(t) => JsonValue::Num(clone_chars(t)),
        JsonValue::Str(t) => JsonValue::Str(clone_chars(t)),
        JsonValue::Arr(es) => {
            let mut r: Vec<JsonValue> = Vec::new();
            let mut k: usize = 0;
            while k < es.len()
                invariant
                    k <= es@.len(),
                    r@.len() == k,
                    forall|i: int| 0 <= i < k ==> (#[trigger] r@[i])@ == es@[i]@,
                decreases es@.len() - k,
            {
                let e = clone_json(&es[k]);
                r.push(e);
                k = k + 1;
            }
            let out = JsonValue::Arr(r);
            assert(views_of(r@) =~= views_of(es@));
            out
        },
        JsonValue::Obj(ps) => {
            let mut r: Vec<(Vec<char>, JsonValue)> = Vec::new();
            let mut k: usize = 0;
            while k < ps.len()
                invariant
                    k <= ps@.len(),
                    r@.len() == k,
                    forall|i: int|
                        0 <= i < k ==> (#[trigger] r@[i]).0@ == ps@[i].0@ && r@[i].1@ == ps@[i].1@,
                decreases ps@.len() - k,
            {
                let key = clone_chars(&ps[k].0);
                let val = clone_json(&ps[k].1);
                r.push((key, val));
                k = k + 1;
            }
            let out = JsonValue::Obj(r);
            assert(pair_views_of(r@) =~~= pair_views_of(ps@));
            out
        },
    }
}

// ---------------------------------------------------------------------------
// Encoding a notebook as a JSON value
// ---------------------------------------------------------------------------

fn encode_lines(ls: &Vec<String>) -> (r: JsonValue)
    ensures
        r@ == enc_lines(lines_view(ls@)),
{
    let mut arr: Vec<JsonValue> = Vec::new();
    let mut k: usize = 0;
    while k < ls.len()
        invariant
            k <= ls@.len(),
            arr@.len() == k,
            forall|i: int| 0 <= i < k ==> (#[trigger] arr@[i])@ == JsonView::Str(ls@[i]@),
        decreases ls@.len() - k,
    {
        let cs = chars_of(ls[k].as_str());
        arr.push(JsonValue::Str(cs));
        k = k + 1;
    }
    let r = JsonValue::Arr(arr);
    proof {
        let tes = (match enc_lines(lines_view(ls@)) {
            JsonView::Arr(es) => es,
            _ => Seq::empty(),
        });
        assert(views_of(arr@) =~= tes);
    }
    r
}

fn encode_count(c: &Option<u32>) -> (r: JsonValue)
    ensures
        r@ == enc_count(*c),
{
    match c {
        None => JsonValue::Null,
        Some(n) => {
            let mut t: Vec<char> = Vec::new();
            crate::json_text::push_dec_u32(*n, &mut t);
            JsonValue::Num(t)
        },
    }
}

fn encode_u32(n: u32) -> (r: JsonValue)
    ensures
        r@ == JsonView::Num(crate::json_text::dec_digits(n as nat)),
{
    let mut t: Vec<char> = Vec::new();
    crate::json_text::push_dec_u32(n, &mut t);
    JsonValue::Num(t)
}

fn encode_output(o: &Output) -> (r: JsonValue)
    ensures
        r@ == enc_output(o@),
{
    let mut ps: Vec<(Vec<char>, JsonValue)> = Vec::new();
    match o {
        Output::Stream { name, text } => {
            ps.push((chars_of("output_type"), JsonValue::Str(chars_of("stream"))));
            ps.push((chars_of("name"), JsonValue::Str(chars_of(name.as_str()))));
            ps.push((chars_of("text"), encode_lines(text)));
        },
        Output::ExecuteResult { execution_count, data, metadata } => {
            ps.push((chars_of("output_type"), JsonValue::Str(chars_of("execute_result"))));
            ps.push((chars_of("execution_count"), encode_u32(*execution_count)));
            ps.push((chars_of("data"), clone_json(data)));
            ps.push((chars_of("metadata"), clone_json(metadata)));
        },
        Output::DisplayData { data, metadata } => {
            ps.push((chars_of("output_type"), JsonValue::Str(chars_of("display_data"))));
            ps.push((chars_of("data"), clone_json(data)));
            ps.push((chars_of("metadata"), clone_json(metadata)));
        },
        Output::Error { ename, evalue, traceback } => {
            ps.push((chars_of("output_type"), JsonValue::Str(chars_of("error"))));
            ps.push((chars_of("ename"), JsonValue::Str(chars_of(ename.as_str()))));
            ps.push((chars_of("evalue"), JsonValue::Str(chars_of(evalue.as_str()))));
            ps.push((chars_of("traceback"), encode_lines(traceback)));
        },
    }
    let r = JsonValue::Obj(ps);
    proof {
        let tps = (match enc_output(o@) {
            JsonView::Obj(q) => q,
            _ => Seq::empty(),
        });
        assert(pair_views_of(ps@) =~= tps);
    }
    r
}

fn encode_outputs(os: &Vec<Output>) -> (r: JsonValue)
    ensures
        r@ == enc_outputs(outputs_view(os@)),
{
    let mut arr: Vec<JsonValue> = Vec::new();
    let mut k: usize = 0;
    while k < os.len()
        invariant
            k <= os@.len(),
            arr@.len() == k,
            forall|i: int| 0 <= i < k ==> (#[trigger] arr@[i])@ == enc_output(os@[i]@),
        decreases os@.len() - k,
    {
        let e = encode_output(&os[k]);
        arr.push(e);
        k = k + 1;
    }
    let r = JsonValue::Arr(arr);
    proof {
        let tes = (match enc_outputs(outputs_view(os@)) {
            JsonView::Arr(q) => q,
            _ => Seq::empty(),
        });
        assert(views_of(arr@) =~= tes);
    }
    r
}

fn encode_cell(c: &Cell) -> (r: JsonValue)
    ensures
        r@ == enc_cell(c@),
{
    let mut ps: Vec<(Vec<char>, JsonValue)> = Vec::new();
    match c {
        Cell::Code(cc) => {
            ps.push((chars_of("cell_type"), JsonValue::Str(chars_of("code"))));
            ps.push((chars_of("source"), encode_lines(&cc.source)));
            ps.push((chars_of("metadata"), clone_json(&cc.metadata)));
            ps.push((chars_of("execution_count"), encode_count(&cc.execution_count)));
            ps.push((chars_of("outputs"), encode_outputs(&cc.outputs)));
        },
        Cell::Markdown(mc) => {
            ps.push((chars_of("cell_type"), JsonValue::Str(chars_of("markdown"))));
            ps.push((chars_of("source"), encode_lines(&mc.source)));
            ps.push((chars_of("metadata"), clone_json(&mc.metadata)));
        },
        Cell::Raw(rc) => {
            ps.push((chars_of("cell_type"), JsonValue::Str(chars_of("raw"))));
            ps.push((chars_of("source"), encode_lines(&rc.source)));
            ps.push((chars_of("metadata"), clone_json(&rc.metadata)));
        },
    }
    let r = JsonValue::Obj(ps);
    proof {
        let tps = (match enc_cell(c@) {
            JsonView::Obj(q) => q,
            _ => Seq::empty(),
        });
        assert(pair_views_of(ps@) =~= tps);
    }
    r
}

fn encode_kernelspec(k: &Kernelspec) -> (r: JsonValue)
    ensures
        r@ == enc_kernelspec(k@),
{
    let mut ps: Vec<(Vec<char>, JsonValue)> = Vec::new();
    ps.push((chars_of("name"), JsonValue::Str(chars_of(k.name.as_str()))));
    ps.push((chars_of("display_name"), JsonValue::Str(chars_of(k.display_name.as_str()))));
    let r = JsonValue::Obj(ps);
    proof {
        let tps = (match enc_kernelspec(k@) {
            JsonView::Obj(q) => q,
            _ => Seq::empty(),
        });
        assert(pair_views_of(ps@) =~= tps);
    }
    r
}

#[verifier::loop_isolation(false)]
fn encode_language_info(l: &LanguageInfo) -> (r: JsonValue)
    ensures
        r@ == enc_language_info(l@),
{
    let mut ps: Vec<(Vec<char>, JsonValue)> = Vec::new();
    ps.push((chars_of("name"), JsonValue::Str(chars_of(l.name.as_str()))));
    match &l.version {
        None => {},
        Some(t) => {
            ps.push((chars_of("version"), JsonValue::Str(chars_of(t.as_str()))));
        },
    }
    match &l.mimetype {
        None => {},
        Some(t) => {
            ps.push((chars_of("mimetype"), JsonValue::Str(chars_of(t.as_str()))));
        },
    }
    match &l.file_extension {
        None => {},
        Some(t) => {
            ps.push((chars_of("file_extension"), JsonValue::Str(chars_of(t.as_str()))));
        },
    }
    let mut k: usize = 0;
    let ghost snap = ps@;
    while k < l.other.len()
        invariant
            k <= l.other@.len(),
            ps@.len() == snap.len() + k,
            ps@.subrange(0, snap.len() as int) == snap,
            forall|j: int|
                snap.len() <= j < snap.len() + k ==> (#[trigger] ps@[j]).0@ == l.other@[j
                    - snap.len()].0@ && ps@[j].1@ == l.other@[j - snap.len()].1@,
        decreases l.other@.len() - k,
    {
        let key = clone_chars(&l.other[k].0);
        let val = clone_json(&l.other[k].1);
        ps.push((key, val));
        assert(ps@.subrange(0, snap.len() as int) =~= snap);
        k = k + 1;
    }
    proof {
        assert forall|i: int| 0 <= i < snap.len() implies ps@[i] == snap[i] by {
            assert(ps@.subrange(0, snap.len() as int)[i] == ps@[i]);
        }
        assert(pair_views_of(ps@) =~= pair_views_of(snap) + pair_views_of(l.other@));
    }
    let r = JsonValue::Obj(ps);
    proof {
        let tps = (match enc_language_info(l@) {
            JsonView::Obj(q) => q,
            _ => Seq::empty(),
        });
        assert(pair_views_of(ps@) =~= tps);
    }
    r
}

#[verifier::loop_isolation(false)]
fn encode_meta(m: &NotebookMetadata) -> (r: Vec<(Vec<char>, JsonValue)>)
    ensures
        pair_views_of(r@) == enc_meta(m@),
{
    let mut ps: Vec<(Vec<char>, JsonValue)> = Vec::new();
    match &m.kernelspec {
        None => {},
        Some(k) => {
            let kv = encode_kernelspec(k);
            ps.push((chars_of("kernelspec"), kv));
        },
    }
    match &m.language_info {
        None => {},
        Some(l) => {
            let lv = encode_language_info(l);
            ps.push((chars_of("language_info"), lv));
        },
    }
    let mut k: usize = 0;
    let ghost snap = ps@;
    while k < m.other.len()
        invariant
            k <= m.other@.len(),
            ps@.len() == snap.len() + k,
            ps@.subrange(0, snap.len() as int) == snap,
            forall|j: int|
                snap.len() <= j < snap.len() + k ==> (#[trigger] ps@[j]).0@ == m.other@[j
                    - snap.len()].0@ && ps@[j].1@ == m.other@[j - snap.len()].1@,
        decreases m.other@.len() - k,
    {
        let key = clone_chars(&m.other[k].0);
        let val = clone_json(&m.other[k].1);
        ps.push((key, val));
        assert(ps@.subrange(0, snap.len() as int) =~= snap);
        k = k + 1;
    }
    proof {
        assert forall|i: int| 0 <= i < snap.len() implies ps@[i] == snap[i] by {
            assert(ps@.subrange(0, snap.len() as int)[i] == ps@[i]);
        }
        assert(pair_views_of(ps@) =~= pair_views_of(snap) + pair_views_of(m.other@));
    }
    proof {
        assert(pair_views_of(ps@) =~= enc_meta(m@));
    }
    ps
}

/// The JSON value written for a notebook.
#[verifier::loop_isolation(false)]
pub fn encode_nb(n: &Notebook) -> (r: JsonValue)
    ensures
        r@ == enc_nb(n@),
{
    let mut arr: Vec<JsonValue> = Vec::new();
    let mut k: usize = 0;
    while k < n.cells.len()
        invariant
            k <= n.cells@.len(),
            arr@.len() == k,
            forall|i: int| 0 <= i < k ==> (#[trigger] arr@[i])@ == enc_cell(n.cells@[i]@),
        decreases n.cells@.len() - k,
    {
        let e = encode_cell(&n.cells[k]);
        arr.push(e);
        k = k + 1;
    }
    let mut ps: Vec<(Vec<char>, JsonValue)> = Vec::new();
    ps.push((chars_of("cells"), JsonValue::Arr(arr)));
    let mps = encode_meta(&n.metadata);
    ps.push((chars_of("metadata"), JsonValue::Obj(mps)));
    ps.push((chars_of("nbformat"), encode_u32(n.nbformat as u32)));
    ps.push((chars_of("nbformat_minor"), encode_u32(n.nbformat_minor as u32)));
    let r = JsonValue::Obj(ps);
    proof {
        let ces = (match enc_cells(n@.cells) {
            JsonView::Arr(q) => q,
            _ => Seq::empty(),
        });
        assert(views_of(arr@) =~= ces);
        let tps = (match enc_nb(n@) {
            JsonView::Obj(q) => q,
            _ => Seq::empty(),
        });
        assert(pair_views_of(ps@) =~= tps);
    }
    r
}

// ---------------------------------------------------------------------------
// Decoding a JSON value into a notebook
// ---------------------------------------------------------------------------

proof fn lemma_views_push(es: Seq<JsonValue>, e: JsonValue)
    ensures
        views_of(es.push(e)) == views_of(es).push(e@),
{
    assert(views_of(es.push(e)) =~= views_of(es).push(e@));
}

proof fn lemma_pair_views_push(ps: Seq<(Vec<char>, JsonValue)>, p: (Vec<char>, JsonValue))
    ensures
        pair_views_of(ps.push(p)) == pair_views_of(ps).push((p.0@, p.1@)),
{
    assert(pair_views_of(ps.push(p)) =~= pair_views_of(ps).push((p.0@, p.1@)));
}

proof fn lemma_lines_view_push(ls: Seq<String>, t: String)
    ensures
        lines_view(ls.push(t)) == lines_view(ls).push(t@),
{
    assert(lines_view(ls.push(t)) =~= lines_view(ls).push(t@));
}

proof fn lemma_outputs_view_push(os: Seq<Output>, o: Output)
    ensures
        outputs_view(os.push(o)) == outputs_view(os).push(o@),
{
    assert(outputs_view(os.push(o)) =~= outputs_view(os).push(o@));
}

proof fn lemma_cells_view_push(cs: Seq<Cell>, c: Cell)
    ensures
        crate::notebook::cells_view(cs.push(c)) == crate::notebook::cells_view(cs).push(c@),
{
    assert(crate::notebook::cells_view(cs.push(c)) =~= crate::notebook::cells_view(cs).push(c@));
}

proof fn lemma_dec_lines_prefix_none(es: Seq<JsonView>, k: int)
    requires
        0 <= k <= es.len(),
        dec_lines_seq(es.subrange(0, k)) is None,
    ensures
        dec_lines_seq(es) is None,
    decreases es.len() - k,
{
    if k < es.len() {
        assert(es.subrange(0, k + 1).drop_last() =~= es.subrange(0, k));
        lemma_dec_lines_prefix_none(es, k + 1);
    } else {
        assert(es.subrange(0, k) =~= es);
    }
}

proof fn lemma_dec_outputs_prefix_none(es: Seq<JsonView>, k: int)
    requires
        0 <= k <= es.len(),
        dec_outputs_seq(es.subrange(0, k)) is None,
    ensures
        dec_outputs_seq(es) is None,
    decreases es.len() - k,
{
    if k < es.len() {
        assert(es.subrange(0, k + 1).drop_last() =~= es.subrange(0, k));
        lemma_dec_outputs_prefix_none(es, k + 1);
    } else {
        assert(es.subrange(0, k) =~= es);
    }
}

proof fn lemma_dec_cells_prefix_none(es: Seq<JsonView>, k: int)
    requires
        0 <= k <= es.len(),
        dec_cells_seq(es.subrange(0, k)) is None,
    ensures
        dec_cells_seq(es) is None,
    decreases es.len() - k,
{
    if k < es.len() {
        assert(es.subrange(0, k + 1).drop_last() =~= es.subrange(0, k));
        lemma_dec_cells_prefix_none(es, k + 1);
    } else {
        assert(es.subrange(0, k) =~= es);
    }
}

/// The first field bound to `key`, if any.
fn get_field_exec<'a>(ps: &'a Vec<(Vec<char>, JsonValue)>, key: &str) -> (r: Option<
    &'a JsonValue,
>)
    ensures
        match r {
            Some(v) => get_field(pair_views_of(ps@), key@) == Some(v@),
            None => get_field(pair_views_of(ps@), key@) is None,
        },
{
    let ghost full = pair_views_of(ps@);
    let mut k: usize = 0;
    assert(full.subrange(0, full.len() as int) =~= full);
    while k < ps.len()
        invariant
            k <= ps@.len(),
            full == pair_views_of(ps@),
            get_field(full, key@) == get_field(full.subrange(k as int, full.len() as int), key@),
        decreases ps@.len() - k,
    {
        let ghost suffix = full.subrange(k as int, full.len() as int);
        assert(suffix[0] == (ps@[k as int].0@, ps@[k as int].1@));
        if chars_eq_str(&ps[k].0, key) {
            return Some(&ps[k].1);
        }
        assert(suffix.drop_first() =~= full.subrange(k as int + 1, full.len() as int));
        k = k + 1;
    }
    assert(full.subrange(ps@.len() as int, full.len() as int) =~= Seq::<(Seq<char>, JsonView)>::empty());
    None
}

fn decode_u32v(v: &JsonValue) -> (r: Option<u32>)
    ensures
        r == dec_u32(v@),
{
    match v {
        JsonValue::Num(t) => {
            let n = t.len();
            let res = parse_dec_u32(t, 0, n);
            assert(t@.subrange(0, t@.len() as int) =~= t@);
            res
        },
        _ => None,
    }
}

fn decode_count_v(v: &JsonValue) -> (r: Option<Option<u32>>)
    ensures
        r == dec_count(v@),
{
    match v {
        JsonValue::Null => Some(None),
        JsonValue::Num(t) => {
            let n = t.len();
            let res = parse_dec_u32(t, 0, n);
            assert(t@.subrange(0, t@.len() as int) =~= t@);
            match res {
                Some(c) => Some(Some(c)),
                None => None,
            }
        },
        _ => None,
    }
}

fn decode_u8v(v: &JsonValue) -> (r: Option<u8>)
    ensures
        r == dec_u8(v@),
{
    match decode_u32v(v) {
        Some(n) => if n <= 255 {
            Some(n as u8)
        } else {
            None
        },
        None => None,
    }
}

#[verifier::loop_isolation(false)]
fn decode_lines(v: &JsonValue) -> (r: Option<Vec<String>>)
    ensures
        match r {
            Some(ls) => dec_lines(v@) == Some(lines_view(ls@)),
            None => dec_lines(v@) is None,
        },
{
    match v {
        JsonValue::Arr(es) => {
            let ghost vs = views_of(es@);
            assert(v@ == JsonView::Arr(vs));
            let mut ls: Vec<String> = Vec::new();
            let mut k: usize = 0;
            assert(vs.subrange(0, 0) =~= Seq::<JsonView>::empty());
            assert(lines_view(ls@) =~= Seq::<Seq<char>>::empty());
            while k < es.len()
                invariant
                    k <= es@.len(),
                    vs == views_of(es@),
                    dec_lines_seq(vs.subrange(0, k as int)) == Some(lines_view(ls@)),
                decreases es@.len() - k,
            {
                assert(vs.subrange(0, k as int + 1).drop_last() =~= vs.subrange(0, k as int));
                assert(vs.subrange(0, k as int + 1).last() == es@[k as int]@);
                match &es[k] {
                    JsonValue::Str(t) => {
                        let line = string_from_chars(t);
                        proof {
                            lemma_lines_view_push(ls@, line);
                        }
                        ls.push(line);
                    },
                    _ => {
                        proof {
                            assert(!(es@[k as int]@ is Str));
                            assert(dec_lines_seq(vs.subrange(0, k as int + 1)) is None);
                            lemma_dec_lines_prefix_none(vs, k as int + 1);
                        }
                        return None;
                    },
                }
                k = k + 1;
            }
            assert(vs.subrange(0, es@.len() as int) =~= vs);
            Some(ls)
        },
        _ => None,
    }
}

fn decode_output(v: &JsonValue) -> (r: Option<Output>)
    ensures
        match r {
            Some(o) => dec_output(v@) == Some(o@),
            None => dec_output(v@) is None,
        },
{
    match v {
        JsonValue::Obj(ps) => {
            match get_field_exec(ps, "output_type") {
                Some(otv) => match otv {
                    JsonValue::Str(ot) => {
                        if chars_eq_str(ot, "stream") {
                            match (get_field_exec(ps, "name"), get_field_exec(ps, "text")) {
                                (Some(nmv), Some(tv)) => match nmv {
                                    JsonValue::Str(nm) => match decode_lines(tv) {
                                        Some(text) => {
                                            let name = string_from_chars(nm);
                                            Some(Output::Stream { name, text })
                                        },
                                        None => None,
                                    },
                                    _ => None,
                                },
                                _ => None,
                            }
                        } else if chars_eq_str(ot, "execute_result") {
                            match (
                                get_field_exec(ps, "execution_count"),
                                get_field_exec(ps, "data"),
                                get_field_exec(ps, "metadata"),
                            ) {
                                (Some(cv), Some(d), Some(m)) => match decode_u32v(cv) {
                                    Some(c) => Some(
                                        Output::ExecuteResult {
                                            execution_count: c,
                                            data: clone_json(d),
                                            metadata: clone_json(m),
                                        },
                                    ),
                                    None => None,
                                },
                                _ => None,
                            }
                        } else if chars_eq_str(ot, "display_data") {
                            match (get_field_exec(ps, "data"), get_field_exec(ps, "metadata")) {
                                (Some(d), Some(m)) => Some(
                                    Output::DisplayData {
                                        data: clone_json(d),
                                        metadata: clone_json(m),
                                    },
                                ),
                                _ => None,
                            }
                        } else if chars_eq_str(ot, "error") {
                            match (
                                get_field_exec(ps, "ename"),
                                get_field_exec(ps, "evalue"),
                                get_field_exec(ps, "traceback"),
                            ) {
                                (Some(env), Some(evv), Some(tb)) => match (env, evv) {
                                    (JsonValue::Str(en), JsonValue::Str(ev)) => match decode_lines(
                                        tb,
                                    ) {
                                        Some(t) => Some(
                                            Output::Error {
                                                ename: string_from_chars(en),
                                                evalue: string_from_chars(ev),
                                                traceback: t,
                                            },
                                        ),
                                        None => None,
                                    },
                                    _ => None,
                                },
                                _ => None,
                            }
                        } else {
                            None
                        }
                    },
                    _ => None,
                },
                None => None,
            }
        },
        _ => None,
    }
}

#[verifier::loop_isolation(false)]
fn decode_outputs(v: &JsonValue) -> (r: Option<Vec<Output>>)
    ensures
        match r {
            Some(os) => dec_outputs(v@) == Some(outputs_view(os@)),
            None => dec_outputs(v@) is None,
        },
{
    match v {
        JsonValue::Arr(es) => {
            let ghost vs = views_of(es@);
            assert(v@ == JsonView::Arr(vs));
            let mut os: Vec<Output> = Vec::new();
            let mut k: usize = 0;
            assert(vs.subrange(0, 0) =~= Seq::<JsonView>::empty());
            assert(outputs_view(os@) =~= Seq::<OutputView>::empty());
            while k < es.len()
                invariant
                    k <= es@.len(),
                    vs == views_of(es@),
                    dec_outputs_seq(vs.subrange(0, k as int)) == Some(outputs_view(os@)),
                decreases es@.len() - k,
            {
                assert(vs.subrange(0, k as int + 1).drop_last() =~= vs.subrange(0, k as int));
                assert(vs.subrange(0, k as int + 1).last() == es@[k as int]@);
                match decode_output(&es[k]) {
                    Some(o) => {
                        proof {
                            lemma_outputs_view_push(os@, o);
                        }
                        os.push(o);
                    },
                    None => {
                        proof {
                            assert(dec_outputs_seq(vs.subrange(0, k as int + 1)) is None);
                            lemma_dec_outputs_prefix_none(vs, k as int + 1);
                        }
                        return None;
                    },
                }
                k = k + 1;
            }
            assert(vs.subrange(0, es@.len() as int) =~= vs);
            Some(os)
        },
        _ => None,
    }
}

fn decode_cell(v: &JsonValue) -> (r: Option<Cell>)
    ensures
        match r {
            Some(c) => dec_cell(v@) == Some(c@),
            None => dec_cell(v@) is None,
        },
{
    match v {
        JsonValue::Obj(ps) => {
            match (
                get_field_exec(ps, "cell_type"),
                get_field_exec(ps, "source"),
                get_field_exec(ps, "metadata"),
            ) {
                (Some(ctv), Some(sv), Some(md)) => match ctv {
                    JsonValue::Str(ct) => match decode_lines(sv) {
                        Some(src) => {
                            if chars_eq_str(ct, "code") {
                                match (
                                    get_field_exec(ps, "execution_count"),
                                    get_field_exec(ps, "outputs"),
                                ) {
                                    (Some(cv), Some(ov)) => match (
                                        decode_count_v(cv),
                                        decode_outputs(ov),
                                    ) {
                                        (Some(c), Some(os)) => Some(
                                            Cell::Code(
                                                CodeCell {
                                                    source: src,
                                                    metadata: clone_json(md),
                                                    execution_count: c,
                                                    outputs: os,
                                                },
                                            ),
                                        ),
                                        _ => None,
                                    },
                                    _ => None,
                                }
                            } else if chars_eq_str(ct, "markdown") {
                                Some(
                                    Cell::Markdown(
                                        MarkdownCell { source: src, metadata: clone_json(md) },
                                    ),
                                )
                            } else if chars_eq_str(ct, "raw") {
                                Some(Cell::Raw(RawCell { source: src, metadata: clone_json(md) }))
                            } else {
                                None
                            }
                        },
                        None => None,
                    },
                    _ => None,
                },
                _ => None,
            }
        },
        _ => None,
    }
}

#[verifier::loop_isolation(false)]
fn decode_cells(es: &Vec<JsonValue>) -> (r: Option<Vec<Cell>>)
    ensures
        match r {
            Some(cs) => dec_cells_seq(views_of(es@)) == Some(crate::notebook::cells_view(cs@)),
            None => dec_cells_seq(views_of(es@)) is None,
        },
{
    let ghost vs = views_of(es@);
    let mut cs: Vec<Cell> = Vec::new();
    let mut k: usize = 0;
    assert(vs.subrange(0, 0) =~= Seq::<JsonView>::empty());
    assert(crate::notebook::cells_view(cs@) =~= Seq::<CellView>::empty());
    while k < es.len()
        invariant
            k <= es@.len(),
            vs == views_of(es@),
            dec_cells_seq(vs.subrange(0, k as int)) == Some(crate::notebook::cells_view(cs@)),
        decreases es@.len() - k,
    {
        assert(vs.subrange(0, k as int + 1).drop_last() =~= vs.subrange(0, k as int));
        assert(vs.subrange(0, k as int + 1).last() == es@[k as int]@);
        match decode_cell(&es[k]) {
            Some(c) => {
                proof {
                    lemma_cells_view_push(cs@, c);
                }
                cs.push(c);
            },
            None => {
                proof {
                    assert(dec_cells_seq(vs.subrange(0, k as int + 1)) is None);
                    lemma_dec_cells_prefix_none(vs, k as int + 1);
                }
                return None;
            },
        }
        k = k + 1;
    }
    assert(vs.subrange(0, es@.len() as int) =~= vs);
    Some(cs)
}

fn decode_kernelspec(v: &JsonValue) -> (r: Option<Kernelspec>)
    ensures
        match r {
            Some(k) => dec_kernelspec(v@) == Some(k@),
            None => dec_kernelspec(v@) is None,
        },
{
    match v {
        JsonValue::Obj(ps) => match (get_field_exec(ps, "name"), get_field_exec(
            ps,
            "display_name",
        )) {
            (Some(nv), Some(dv)) => match (nv, dv) {
                (JsonValue::Str(n), JsonValue::Str(d)) => Some(
                    Kernelspec {
                        name: string_from_chars(n),
                        display_name: string_from_chars(d),
                    },
                ),
                _ => None,
            },
            _ => None,
        },
        _ => None,
    }
}

/// Whether `k` spells one of the `language_info` fields the model reads.
fn li_key_test(k: &Vec<char>) -> (r: bool)
    ensures
        r == is_li_key(k@),
{
    chars_eq_str(k, "name") || chars_eq_str(k, "version") || chars_eq_str(k, "mimetype")
        || chars_eq_str(k, "file_extension")
}

#[verifier::loop_isolation(false)]
fn decode_language_info(v: &JsonValue) -> (r: Option<LanguageInfo>)
    ensures
        match r {
            Some(l) => dec_language_info(v@) == Some(l@),
            None => dec_language_info(v@) is None,
        },
{
    match v {
        JsonValue::Obj(ps) => {
            let name = (match get_field_exec(ps, "name") {
                Some(nv) => match nv {
                    JsonValue::Str(n) => string_from_chars(n),
                    _ => {
                        return None;
                    },
                },
                None => {
                    return None;
                },
            });
            let version = (match get_field_exec(ps, "version") {
                None => None,
                Some(fv) => match fv {
                    JsonValue::Null => None,
                    JsonValue::Str(t) => Some(string_from_chars(t)),
                    _ => {
                        return None;
                    },
                },
            });
            let mimetype = (match get_field_exec(ps, "mimetype") {
                None => None,
                Some(fv) => match fv {
                    JsonValue::Null => None,
                    JsonValue::Str(t) => Some(string_from_chars(t)),
                    _ => {
                        return None;
                    },
                },
            });
            let file_extension = (match get_field_exec(ps, "file_extension") {
                None => None,
                Some(fv) => match fv {
                    JsonValue::Null => None,
                    JsonValue::Str(t) => Some(string_from_chars(t)),
                    _ => {
                        return None;
                    },
                },
            });
            let ghost pred = |p: (Seq<char>, JsonView)| !is_li_key(p.0);
            let mut other: Vec<(Vec<char>, JsonValue)> = Vec::new();
            let mut k: usize = 0;
            proof {
                reveal(Seq::filter);
                assert(pair_views_of(ps@).subrange(0, 0) =~= Seq::<(Seq<char>, JsonView)>::empty());
                assert(pair_views_of(other@) =~= Seq::<(Seq<char>, JsonView)>::empty());
            }
            while k < ps.len()
                invariant
                    k <= ps@.len(),
                    pair_views_of(other@) == pair_views_of(ps@).subrange(0, k as int).filter(pred),
                decreases ps@.len() - k,
            {
                proof {
                    reveal(Seq::filter);
                    assert(pair_views_of(ps@).subrange(0, k as int + 1).drop_last()
                        =~= pair_views_of(ps@).subrange(0, k as int));
                    assert(pair_views_of(ps@).subrange(0, k as int + 1).last() == (
                        ps@[k as int].0@,
                        ps@[k as int].1@,
                    ));
                }
                if !li_key_test(&ps[k].0) {
                    let key = clone_chars(&ps[k].0);
                    let val = clone_json(&ps[k].1);
                    proof {
                        lemma_pair_views_push(other@, (key, val));
                    }
                    other.push((key, val));
                }
                k = k + 1;
            }
            assert(pair_views_of(ps@).subrange(0, ps@.len() as int) =~= pair_views_of(ps@));
            let li = LanguageInfo { name, version, mimetype, file_extension, other };
            proof {
                assert(li@ =~~= (match dec_language_info(v@) {
                    Some(l) => l,
                    None => li@,
                }));
            }
            Some(li)
        },
        _ => None,
    }
}

/// Whether `k` spells one of the metadata fields the model reads.
fn meta_key_test(k: &Vec<char>) -> (r: bool)
    ensures
        r == is_meta_key(k@),
{
    chars_eq_str(k, "kernelspec") || chars_eq_str(k, "language_info")
}

#[verifier::loop_isolation(false)]
fn decode_meta(ps: &Vec<(Vec<char>, JsonValue)>) -> (r: Option<NotebookMetadata>)
    ensures
        match r {
            Some(m) => dec_meta(pair_views_of(ps@)) == Some(m@),
            None => dec_meta(pair_views_of(ps@)) is None,
        },
{
    let kernelspec = (match get_field_exec(ps, "kernelspec") {
        None => None,
        Some(fv) => match fv {
            JsonValue::Null => None,
            _ => match decode_kernelspec(fv) {
                Some(k) => Some(k),
                None => {
                    return None;
                },
            },
        },
    });
    let language_info = (match get_field_exec(ps, "language_info") {
        None => None,
        Some(fv) => match fv {
            JsonValue::Null => None,
            _ => match decode_language_info(fv) {
                Some(l) => Some(l),
                None => {
                    return None;
                },
            },
        },
    });
    let ghost pred = |p: (Seq<char>, JsonView)| !is_meta_key(p.0);
    let mut other: Vec<(Vec<char>, JsonValue)> = Vec::new();
    let mut k: usize = 0;
    proof {
        reveal(Seq::filter);
        assert(pair_views_of(ps@).subrange(0, 0) =~= Seq::<(Seq<char>, JsonView)>::empty());
        assert(pair_views_of(other@) =~= Seq::<(Seq<char>, JsonView)>::empty());
    }
    while k < ps.len()
        invariant
            k <= ps@.len(),
            pair_views_of(other@) == pair_views_of(ps@).subrange(0, k as int).filter(pred),
        decreases ps@.len() - k,
    {
        proof {
            reveal(Seq::filter);
            assert(pair_views_of(ps@).subrange(0, k as int + 1).drop_last() == pair_views_of(
                ps@,
            ).subrange(0, k as int)) by {
                assert(pair_views_of(ps@).subrange(0, k as int + 1).drop_last() =~= pair_views_of(
                    ps@,
                ).subrange(0, k as int));
            }
            assert(pair_views_of(ps@).subrange(0, k as int + 1).last() == (
                ps@[k as int].0@,
                ps@[k as int].1@,
            ));
        }
        if !meta_key_test(&ps[k].0) {
            let key = clone_chars(&ps[k].0);
            let val = clone_json(&ps[k].1);
            proof {
                lemma_pair_views_push(other@, (key, val));
            }
            other.push((key, val));
        }
        k = k + 1;
    }
    assert(pair_views_of(ps@).subrange(0, ps@.len() as int) =~= pair_views_of(ps@));
    let m = NotebookMetadata { kernelspec, language_info, other };
    proof {
        assert(m@ =~~= (match dec_meta(pair_views_of(ps@)) {
            Some(mm) => mm,
            None => m@,
        }));
    }
    Some(m)
}

/// The notebook a JSON value describes, if it matches the schema.
pub fn decode_nb(v: &JsonValue) -> (r: Option<Notebook>)
    ensures
        match r {
            Some(nb) => dec_nb(v@) == Some(nb@),
            None => dec_nb(v@) is None,
        },
{
    match v {
        JsonValue::Obj(ps) => match (
            get_field_exec(ps, "cells"),
            get_field_exec(ps, "metadata"),
            get_field_exec(ps, "nbformat"),
            get_field_exec(ps, "nbformat_minor"),
        ) {
            (Some(cv), Some(mv), Some(fv), Some(minv)) => match (cv, mv) {
                (JsonValue::Arr(cs), JsonValue::Obj(mps)) => match (
                    decode_cells(cs),
                    decode_meta(mps),
                    decode_u8v(fv),
                    decode_u8v(minv),
                ) {
                    (Some(cells), Some(metadata), Some(f), Some(m)) => {
                        let nb = Notebook { cells, metadata, nbformat: f, nbformat_minor: m };
                        proof {
                            assert(nb@ =~~= (match dec_nb(v@) {
                                Some(x) => x,
                                None => nb@,
                            }));
                        }
                        Some(nb)
                    },
                    _ => None,
                },
                _ => None,
            },
            _ => None,
        },
        _ => None,
    }
}

// ---------------------------------------------------------------------------
// The document boundary
// ---------------------------------------------------------------------------

/// Why a document could not be read.
#[derive(Debug, PartialEq, Eq, Structural)]
pub enum ParseError {
    /// The text is not well-formed JSON.
    Syntax,
    /// The JSON does not have the shape of a notebook.
    Schema,
}

impl ParseError {
    /// A short description of the failure.
    pub fn message(&self) -> (m: &'static str)
        ensures
            *self is Syntax ==> m@ == "the document is not well-formed JSON"@,
            *self is Schema ==> m@ == "the document does not match the notebook schema"@,
    {
        match self {
            ParseError::Syntax => "the document is not well-formed JSON",
            ParseError::Schema => "the document does not match the notebook schema",
        }
    }
}

impl Notebook {
    /// Reads a notebook from document text.  Succeeds exactly on well-formed
    /// JSON that matches the notebook schema; says which of the two failed
    /// otherwise.
    pub fn from_str(s: &str) -> (r: Result<Notebook, ParseError>)
        ensures
            match r {
                Ok(nb) => spec_load(s@) == Some(nb@),
                Err(ParseError::Syntax) => parse_doc(s@) is None,
                Err(ParseError::Schema) => parse_doc(s@) is Some && spec_load(s@) is None,
            },
    {
        let cs = chars_of(s);
        match read_doc(&cs) {
            None => Err(ParseError::Syntax),
            Some(v) => match decode_nb(&v) {
                Some(nb) => Ok(nb),
                None => Err(ParseError::Schema),
            },
        }
    }

    /// Writes the canonical document text of this notebook.  It always
    /// succeeds; the fallible shape leaves room for callers that treat
    /// serialization as an error path.
    pub fn save_to_str(&self) -> (r: Result<String, ParseError>)
        ensures
            r matches Ok(out) && out@ == spec_save(self@),
    {
        let v = encode_nb(self);
        let txt = json_to_text(&v);
        Ok(string_from_chars(&txt))
    }
}


} // verus!
