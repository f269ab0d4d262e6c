use vstd::prelude::*;

use crate::codec::{
    dec_cell, dec_cells_seq, dec_count, dec_kernelspec, dec_language_info, dec_lines,
    dec_lines_seq, dec_meta, dec_nb, dec_output, dec_outputs, dec_outputs_seq,
    dec_u32, dec_u8, enc_cell, enc_cells, enc_count, enc_kernelspec, enc_language_info, enc_lines,
    enc_meta, enc_nb, enc_opt_text, enc_output, enc_outputs, get_field, is_li_key, is_meta_key,
    spec_load, spec_save, wf_cell, wf_language_info, wf_meta, wf_nb, wf_output,
};
use crate::json_text::{dec_digits, lemma_dec_digits_wf, lemma_dec_roundtrip};
use crate::json_value::{wf_json, JsonView};
use crate::notebook::{
    CellView, KernelspecView, LanguageInfoView, MetadataView, NotebookView, OutputView,
};

verus! {

// ---------------------------------------------------------------------------
// The document round trip: what the codec writes, the codec reads back.
// Together with the text-level theorem this gives the central contract of
// the document model: saving and re-loading any representable notebook
// yields an equal notebook.
// ---------------------------------------------------------------------------

type Pairs = Seq<(Seq<char>, JsonView)>;

// --- field lookup ---

proof fn lemma_get_field_at(ps: Pairs, k: Seq<char>, i: int)
    requires
        0 <= i < ps.len(),
        ps[i].0 == k,
        forall|j: int| 0 <= j < i ==> ps[j].0 != k,
    ensures
        get_field(ps, k) == Some(ps[i].1),
    decreases i,
{
    if i > 0 {
        assert(ps[0].0 != k);
        assert(forall|j: int| 0 <= j < i - 1 ==> ps.drop_first()[j] == ps[j + 1]);
        lemma_get_field_at(ps.drop_first(), k, i - 1);
    }
}

proof fn lemma_get_field_none(ps: Pairs, k: Seq<char>)
    requires
        forall|j: int| 0 <= j < ps.len() ==> ps[j].0 != k,
    ensures
        get_field(ps, k) is None,
    decreases ps.len(),
{
    if ps.len() > 0 {
        assert(forall|j: int| 0 <= j < ps.len() - 1 ==> ps.drop_first()[j] == ps[j + 1]);
        lemma_get_field_none(ps.drop_first(), k);
    }
}

proof fn lemma_get_field_concat(a: Pairs, b: Pairs, k: Seq<char>)
    ensures
        get_field(a + b, k) == (match get_field(a, k) {
            Some(v) => Some(v),
            None => get_field(b, k),
        }),
    decreases a.len(),
{
    if a.len() == 0 {
        assert(a + b =~= b);
    } else {
        assert((a + b).len() > 0);
        assert((a + b)[0] == a[0]);
        assert((a + b).drop_first() =~= a.drop_first() + b);
        lemma_get_field_concat(a.drop_first(), b, k);
    }
}

/// Looking up in the field written for an optional text value.
proof fn lemma_opt_text_field(o: Option<Seq<char>>, key: Seq<char>, k: Seq<char>)
    ensures
        get_field(enc_opt_text(o, key), k) == (match o {
            Some(t) => if key == k {
                Some(JsonView::Str(t))
            } else {
                None::<JsonView>
            },
            None => None::<JsonView>,
        }),
{
    match o {
        None => {},
        Some(t) => {
            let ps = enc_opt_text(o, key);
            if key == k {
            } else {
                assert(ps.drop_first() =~= Seq::<(Seq<char>, JsonView)>::empty());
                assert(get_field(Seq::<(Seq<char>, JsonView)>::empty(), k) is None);
            }
        },
    }
}

// --- filters ---

proof fn lemma_filter_keep_all(s: Pairs, pred: spec_fn((Seq<char>, JsonView)) -> bool)
    requires
        forall|i: int| 0 <= i < s.len() ==> pred(#[trigger] s[i]),
    ensures
        s.filter(pred) == s,
    decreases s.len(),
{
    reveal(Seq::filter);
    if s.len() > 0 {
        assert(forall|i: int| 0 <= i < s.len() - 1 ==> s.drop_last()[i] == s[i]);
        lemma_filter_keep_all(s.drop_last(), pred);
        assert(pred(s.last()));
        assert(s.drop_last().push(s.last()) =~= s);
    }
}

proof fn lemma_filter_drop_all(s: Pairs, pred: spec_fn((Seq<char>, JsonView)) -> bool)
    requires
        forall|i: int| 0 <= i < s.len() ==> !pred(#[trigger] s[i]),
    ensures
        s.filter(pred) == Seq::<(Seq<char>, JsonView)>::empty(),
    decreases s.len(),
{
    reveal(Seq::filter);
    if s.len() > 0 {
        assert(forall|i: int| 0 <= i < s.len() - 1 ==> s.drop_last()[i] == s[i]);
        lemma_filter_drop_all(s.drop_last(), pred);
    }
}

// --- numbers ---

proof fn lemma_dec_enc_u32(n: u32)
    ensures
        dec_u32(JsonView::Num(dec_digits(n as nat))) == Some(n),
{
    lemma_dec_digits_wf(n);
    lemma_dec_roundtrip(n as nat);
}

proof fn lemma_dec_enc_count(c: Option<u32>)
    ensures
        dec_count(enc_count(c)) == Some(c),
{
    match c {
        None => {},
        Some(n) => {
            lemma_dec_digits_wf(n);
            lemma_dec_roundtrip(n as nat);
        },
    }
}

proof fn lemma_dec_enc_u8(b: u8)
    ensures
        dec_u8(JsonView::Num(dec_digits(b as nat))) == Some(b),
{
    lemma_dec_enc_u32(b as u32);
    assert(dec_digits(b as nat) == dec_digits((b as u32) as nat));
}

// --- lines ---

proof fn lemma_dec_enc_lines(ls: Seq<Seq<char>>)
    ensures
        dec_lines(enc_lines(ls)) == Some(ls),
    decreases ls.len(),
{
    let arr = (match enc_lines(ls) {
        JsonView::Arr(es) => es,
        _ => Seq::empty(),
    });
    if ls.len() == 0 {
        assert(dec_lines_seq(arr) == Some(Seq::<Seq<char>>::empty()));
        assert(Seq::<Seq<char>>::empty() =~= ls);
    } else {
        let prev = ls.drop_last();
        let parr = (match enc_lines(prev) {
            JsonView::Arr(es) => es,
            _ => Seq::empty(),
        });
        assert(arr.drop_last() =~= parr);
        lemma_dec_enc_lines(prev);
        assert(arr.last() == JsonView::Str(ls.last()));
        assert(prev.push(ls.last()) =~= ls);
    }
}

// --- outputs ---

proof fn lemma_dec_enc_output(o: OutputView)
    ensures
        dec_output(enc_output(o)) == Some(o),
{
    reveal_strlit("output_type");
    reveal_strlit("stream");
    reveal_strlit("execute_result");
    reveal_strlit("display_data");
    reveal_strlit("error");
    reveal_strlit("name");
    reveal_strlit("text");
    reveal_strlit("execution_count");
    reveal_strlit("data");
    reveal_strlit("metadata");
    reveal_strlit("ename");
    reveal_strlit("evalue");
    reveal_strlit("traceback");
    assert("output_type"@.len() == 11);
    assert("stream"@.len() == 6);
    assert("execute_result"@.len() == 14);
    assert("display_data"@.len() == 12);
    assert("error"@.len() == 5);
    assert("name"@.len() == 4);
    assert("text"@.len() == 4);
    assert("execution_count"@.len() == 15);
    assert("data"@.len() == 4);
    assert("metadata"@.len() == 8);
    assert("ename"@.len() == 5);
    assert("evalue"@.len() == 6);
    assert("traceback"@.len() == 9);
    assert("name"@[0] == 'n' && "text"@[0] == 't' && "data"@[0] == 'd');
    assert("name"@ != "text"@ && "name"@ != "data"@ && "text"@ != "data"@);
    let ps = (match enc_output(o) {
        JsonView::Obj(ps) => ps,
        _ => Seq::empty(),
    });
    match o {
        OutputView::Stream { name, text } => {
            assert(ps.len() == 3);
            assert(ps[0].0 == "output_type"@ && ps[0].1 == JsonView::Str("stream"@));
            assert(ps[1].0 == "name"@);
            assert(ps[2].0 == "text"@);
            lemma_get_field_at(ps, "output_type"@, 0);
            lemma_get_field_at(ps, "name"@, 1);
            lemma_get_field_at(ps, "text"@, 2);
            lemma_dec_enc_lines(text);
        },
        OutputView::ExecuteResult { execution_count, data, metadata } => {
            assert(ps.len() == 4);
            assert(ps[0].0 == "output_type"@ && ps[0].1 == JsonView::Str("execute_result"@));
            assert(ps[1].0 == "execution_count"@);
            assert(ps[2].0 == "data"@);
            assert(ps[3].0 == "metadata"@);
            lemma_get_field_at(ps, "output_type"@, 0);
            lemma_get_field_at(ps, "execution_count"@, 1);
            lemma_get_field_at(ps, "data"@, 2);
            lemma_get_field_at(ps, "metadata"@, 3);
            lemma_dec_enc_u32(execution_count);
        },
        OutputView::DisplayData { data, metadata } => {
            assert(ps.len() == 3);
            assert(ps[0].0 == "output_type"@ && ps[0].1 == JsonView::Str("display_data"@));
            assert(ps[1].0 == "data"@);
            assert(ps[2].0 == "metadata"@);
            lemma_get_field_at(ps, "output_type"@, 0);
            lemma_get_field_at(ps, "data"@, 1);
            lemma_get_field_at(ps, "metadata"@, 2);
        },
        OutputView::Error { ename, evalue, traceback } => {
            assert(ps.len() == 4);
            assert(ps[0].0 == "output_type"@ && ps[0].1 == JsonView::Str("error"@));
            assert(ps[1].0 == "ename"@);
            assert(ps[2].0 == "evalue"@);
            assert(ps[3].0 == "traceback"@);
            lemma_get_field_at(ps, "output_type"@, 0);
            lemma_get_field_at(ps, "ename"@, 1);
            lemma_get_field_at(ps, "evalue"@, 2);
            lemma_get_field_at(ps, "traceback"@, 3);
            lemma_dec_enc_lines(traceback);
        },
    }
}

proof fn lemma_dec_enc_outputs(os: Seq<OutputView>)
    ensures
        dec_outputs(enc_outputs(os)) == Some(os),
    decreases os.len(),
{
    let arr = (match enc_outputs(os) {
        JsonView::Arr(es) => es,
        _ => Seq::empty(),
    });
    if os.len() == 0 {
        assert(dec_outputs_seq(arr) == Some(Seq::<OutputView>::empty()));
        assert(Seq::<OutputView>::empty() =~= os);
    } else {
        let prev = os.drop_last();
        let parr = (match enc_outputs(prev) {
            JsonView::Arr(es) => es,
            _ => Seq::empty(),
        });
        assert(arr.drop_last() =~= parr);
        lemma_dec_enc_outputs(prev);
        assert(arr.last() == enc_output(os.last()));
        lemma_dec_enc_output(os.last());
        assert(prev.push(os.last()) =~= os);
    }
}

// --- cells ---

proof fn lemma_dec_enc_cell(c: CellView)
    ensures
        dec_cell(enc_cell(c)) == Some(c),
{
    reveal_strlit("cell_type");
    reveal_strlit("source");
    reveal_strlit("metadata");
    reveal_strlit("execution_count");
    reveal_strlit("outputs");
    reveal_strlit("code");
    reveal_strlit("markdown");
    reveal_strlit("raw");
    assert("cell_type"@.len() == 9);
    assert("source"@.len() == 6);
    assert("metadata"@.len() == 8);
    assert("execution_count"@.len() == 15);
    assert("outputs"@.len() == 7);
    assert("code"@.len() == 4);
    assert("markdown"@.len() == 8);
    assert("raw"@.len() == 3);
    let ps = (match enc_cell(c) {
        JsonView::Obj(ps) => ps,
        _ => Seq::empty(),
    });
    match c {
        CellView::Code(cc) => {
            assert(ps.len() == 5);
            assert(ps[0].0 == "cell_type"@ && ps[0].1 == JsonView::Str("code"@));
            assert(ps[1].0 == "source"@);
            assert(ps[2].0 == "metadata"@);
            assert(ps[3].0 == "execution_count"@);
            assert(ps[4].0 == "outputs"@);
            lemma_get_field_at(ps, "cell_type"@, 0);
            lemma_get_field_at(ps, "source"@, 1);
            lemma_get_field_at(ps, "metadata"@, 2);
            lemma_get_field_at(ps, "execution_count"@, 3);
            lemma_get_field_at(ps, "outputs"@, 4);
            lemma_dec_enc_lines(cc.source);
            lemma_dec_enc_count(cc.execution_count);
            lemma_dec_enc_outputs(cc.outputs);
        },
        CellView::Markdown(mc) => {
            assert(ps.len() == 3);
            assert(ps[0].0 == "cell_type"@ && ps[0].1 == JsonView::Str("markdown"@));
            assert(ps[1].0 == "source"@);
            assert(ps[2].0 == "metadata"@);
            lemma_get_field_at(ps, "cell_type"@, 0);
            lemma_get_field_at(ps, "source"@, 1);
            lemma_get_field_at(ps, "metadata"@, 2);
            lemma_dec_enc_lines(mc.source);
        },
        CellView::Raw(rc) => {
            assert(ps.len() == 3);
            assert(ps[0].0 == "cell_type"@ && ps[0].1 == JsonView::Str("raw"@));
            assert(ps[1].0 == "source"@);
            assert(ps[2].0 == "metadata"@);
            lemma_get_field_at(ps, "cell_type"@, 0);
            lemma_get_field_at(ps, "source"@, 1);
            lemma_get_field_at(ps, "metadata"@, 2);
            lemma_dec_enc_lines(rc.source);
        },
    }
}

proof fn lemma_dec_enc_cells(cs: Seq<CellView>)
    ensures
        dec_cells_seq(
            match enc_cells(cs) {
                JsonView::Arr(es) => es,
                _ => Seq::empty(),
            },
        ) == Some(cs),
    decreases cs.len(),
{
    let arr = (match enc_cells(cs) {
        JsonView::Arr(es) => es,
        _ => Seq::empty(),
    });
    if cs.len() == 0 {
        assert(Seq::<CellView>::empty() =~= cs);
    } else {
        let prev = cs.drop_last();
        let parr = (match enc_cells(prev) {
            JsonView::Arr(es) => es,
            _ => Seq::empty(),
        });
        assert(arr.drop_last() =~= parr);
        lemma_dec_enc_cells(prev);
        assert(arr.last() == enc_cell(cs.last()));
        lemma_dec_enc_cell(cs.last());
        assert(prev.push(cs.last()) =~= cs);
    }
}

// --- metadata ---

proof fn lemma_dec_enc_kernelspec(k: KernelspecView)
    ensures
        dec_kernelspec(enc_kernelspec(k)) == Some(k),
{
    reveal_strlit("name");
    reveal_strlit("display_name");
    assert("name"@.len() == 4);
    assert("display_name"@.len() == 12);
    let ps = (match enc_kernelspec(k) {
        JsonView::Obj(ps) => ps,
        _ => Seq::empty(),
    });
    assert(ps.len() == 2);
    assert(ps[0].0 == "name"@);
    assert(ps[1].0 == "display_name"@);
    lemma_get_field_at(ps, "name"@, 0);
    lemma_get_field_at(ps, "display_name"@, 1);
}

#[verifier::rlimit(100)]
proof fn lemma_dec_enc_language_info(l: LanguageInfoView)
    requires
        wf_language_info(l),
    ensures
        dec_language_info(enc_language_info(l)) == Some(l),
{
    reveal_strlit("name");
    reveal_strlit("version");
    reveal_strlit("mimetype");
    reveal_strlit("file_extension");
    assert("name"@.len() == 4);
    assert("version"@.len() == 7);
    assert("mimetype"@.len() == 8);
    assert("file_extension"@.len() == 14);
    let head: Pairs = seq![("name"@, JsonView::Str(l.name))];
    let pv = enc_opt_text(l.version, "version"@);
    let pm = enc_opt_text(l.mimetype, "mimetype"@);
    let pf = enc_opt_text(l.file_extension, "file_extension"@);
    let ps = head + (pv + (pm + (pf + l.other)));
    // the four known keys resolve to the parts that wrote them
    assert forall|j: int| 0 <= j < l.other.len() implies !is_li_key(#[trigger] l.other[j].0) by {}
    let keys: Seq<Seq<char>> = seq!["name"@, "version"@, "mimetype"@, "file_extension"@];
    assert forall|q: int| 0 <= q < 4 implies get_field(ps, #[trigger] keys[q]) == (if q == 0 {
        Some(JsonView::Str(l.name))
    } else if q == 1 {
        match l.version {
            Some(t) => Some(JsonView::Str(t)),
            None => None,
        }
    } else if q == 2 {
        match l.mimetype {
            Some(t) => Some(JsonView::Str(t)),
            None => None,
        }
    } else {
        match l.file_extension {
            Some(t) => Some(JsonView::Str(t)),
            None => None,
        }
    }) by {
        let k = keys[q];
        lemma_get_field_concat(head, pv + (pm + (pf + l.other)), k);
        lemma_get_field_concat(pv, pm + (pf + l.other), k);
        lemma_get_field_concat(pm, pf + l.other, k);
        lemma_get_field_concat(pf, l.other, k);
        lemma_opt_text_field(l.version, "version"@, k);
        lemma_opt_text_field(l.mimetype, "mimetype"@, k);
        lemma_opt_text_field(l.file_extension, "file_extension"@, k);
        if head[0].0 != k {
            assert(head.drop_first() =~= Seq::<(Seq<char>, JsonView)>::empty());
            assert(get_field(Seq::<(Seq<char>, JsonView)>::empty(), k) is None);
        }
        assert(is_li_key(k));
        lemma_get_field_none(l.other, k);
    }
    assert(get_field(ps, "name"@) == Some(JsonView::Str(l.name)));
    // the uninterpreted fields are exactly those with other keys
    let pred = |p: (Seq<char>, JsonView)| !is_li_key(p.0);
    Seq::filter_distributes_over_add(head, pv + (pm + (pf + l.other)), pred);
    Seq::filter_distributes_over_add(pv, pm + (pf + l.other), pred);
    Seq::filter_distributes_over_add(pm, pf + l.other, pred);
    Seq::filter_distributes_over_add(pf, l.other, pred);
    lemma_filter_drop_all(head, pred);
    lemma_filter_drop_all(pv, pred);
    lemma_filter_drop_all(pm, pred);
    lemma_filter_drop_all(pf, pred);
    lemma_filter_keep_all(l.other, pred);
    assert(ps.filter(pred) =~= l.other);
    assert(dec_language_info(enc_language_info(l)) == Some(
        LanguageInfoView {
            name: l.name,
            version: l.version,
            mimetype: l.mimetype,
            file_extension: l.file_extension,
            other: l.other,
        },
    ));
    assert(LanguageInfoView {
        name: l.name,
        version: l.version,
        mimetype: l.mimetype,
        file_extension: l.file_extension,
        other: l.other,
    } =~= l);
}

#[verifier::rlimit(100)]
proof fn lemma_dec_enc_meta(m: MetadataView)
    requires
        wf_meta(m),
    ensures
        dec_meta(enc_meta(m)) == Some(m),
{
    reveal_strlit("kernelspec");
    reveal_strlit("language_info");
    assert("kernelspec"@.len() == 10);
    assert("language_info"@.len() == 13);
    let pk: Pairs = (match m.kernelspec {
        None => Seq::empty(),
        Some(k) => seq![("kernelspec"@, enc_kernelspec(k))],
    });
    let pl: Pairs = (match m.language_info {
        None => Seq::empty(),
        Some(l) => seq![("language_info"@, enc_language_info(l))],
    });
    let ps = pk + (pl + m.other);
    assert(enc_meta(m) =~= ps);
    lemma_get_field_concat(pk, pl + m.other, "kernelspec"@);
    lemma_get_field_concat(pl, m.other, "kernelspec"@);
    lemma_get_field_concat(pk, pl + m.other, "language_info"@);
    lemma_get_field_concat(pl, m.other, "language_info"@);
    assert forall|j: int| 0 <= j < m.other.len() implies m.other[j].0 != "kernelspec"@
        && m.other[j].0 != "language_info"@ by {
        assert(!is_meta_key(m.other[j].0));
    }
    lemma_get_field_none(m.other, "kernelspec"@);
    lemma_get_field_none(m.other, "language_info"@);
    match m.kernelspec {
        None => {},
        Some(k) => {
            lemma_dec_enc_kernelspec(k);
        },
    }
    match m.language_info {
        None => {
            if pl.len() > 0 {
            }
            assert(get_field(pl, "kernelspec"@) is None);
        },
        Some(l) => {
            assert(pl[0].0 != "kernelspec"@);
            assert(pl.drop_first() =~= Seq::<(Seq<char>, JsonView)>::empty());
            assert(get_field(Seq::<(Seq<char>, JsonView)>::empty(), "kernelspec"@) is None);
            lemma_dec_enc_language_info(l);
        },
    }
    match m.kernelspec {
        None => {},
        Some(k) => {
            assert(pk[0].0 != "language_info"@);
            assert(pk.drop_first() =~= Seq::<(Seq<char>, JsonView)>::empty());
            assert(get_field(Seq::<(Seq<char>, JsonView)>::empty(), "language_info"@) is None);
        },
    }
    let pred = |p: (Seq<char>, JsonView)| !is_meta_key(p.0);
    Seq::filter_distributes_over_add(pk, pl + m.other, pred);
    Seq::filter_distributes_over_add(pl, m.other, pred);
    lemma_filter_drop_all(pk, pred);
    lemma_filter_drop_all(pl, pred);
    lemma_filter_keep_all(m.other, pred);
    assert(ps.filter(pred) =~= m.other);
    assert(dec_meta(ps) matches Some(mm) && mm =~= m);
}

// --- the whole notebook ---

proof fn lemma_dec_enc_nb(n: NotebookView)
    requires
        wf_nb(n),
    ensures
        dec_nb(enc_nb(n)) == Some(n),
{
    reveal_strlit("cells");
    reveal_strlit("metadata");
    reveal_strlit("nbformat");
    reveal_strlit("nbformat_minor");
    assert("cells"@.len() == 5);
    assert("metadata"@.len() == 8);
    assert("nbformat"@.len() == 8);
    assert("nbformat_minor"@.len() == 14);
    assert("metadata"@[0] == 'm' && "nbformat"@[0] == 'n');
    assert("metadata"@ != "nbformat"@);
    let ps = (match enc_nb(n) {
        JsonView::Obj(ps) => ps,
        _ => Seq::empty(),
    });
    assert(ps.len() == 4);
    assert(ps[0].0 == "cells"@);
    assert(ps[1].0 == "metadata"@);
    assert(ps[2].0 == "nbformat"@);
    assert(ps[3].0 == "nbformat_minor"@);
    lemma_get_field_at(ps, "cells"@, 0);
    lemma_get_field_at(ps, "metadata"@, 1);
    lemma_get_field_at(ps, "nbformat"@, 2);
    lemma_get_field_at(ps, "nbformat_minor"@, 3);
    lemma_dec_enc_cells(n.cells);
    lemma_dec_enc_meta(n.metadata);
    lemma_dec_enc_u8(n.nbformat);
    lemma_dec_enc_u8(n.nbformat_minor);
    assert(dec_nb(enc_nb(n)) matches Some(m) && m =~= n);
}

// --- well-formedness of what the codec writes ---

proof fn lemma_wf_enc_lines(ls: Seq<Seq<char>>)
    ensures
        wf_json(enc_lines(ls)),
{
    let arr = (match enc_lines(ls) {
        JsonView::Arr(es) => es,
        _ => Seq::empty(),
    });
    assert forall|i: int| 0 <= i < arr.len() implies wf_json(#[trigger] arr[i]) by {
        assert(arr[i] == JsonView::Str(ls[i]));
    }
}

proof fn lemma_wf_enc_output(o: OutputView)
    requires
        wf_output(o),
    ensures
        wf_json(enc_output(o)),
{
    let ps = (match enc_output(o) {
        JsonView::Obj(ps) => ps,
        _ => Seq::empty(),
    });
    match o {
        OutputView::Stream { name, text } => {
            lemma_wf_enc_lines(text);
        },
        OutputView::ExecuteResult { execution_count, data, metadata } => {
            lemma_dec_digits_wf(execution_count);
        },
        OutputView::DisplayData { data, metadata } => {},
        OutputView::Error { ename, evalue, traceback } => {
            lemma_wf_enc_lines(traceback);
        },
    }
    assert forall|i: int| 0 <= i < ps.len() implies wf_json(#[trigger] ps[i].1) by {}
}

proof fn lemma_wf_enc_cell(c: CellView)
    requires
        wf_cell(c),
    ensures
        wf_json(enc_cell(c)),
{
    let ps = (match enc_cell(c) {
        JsonView::Obj(ps) => ps,
        _ => Seq::empty(),
    });
    match c {
        CellView::Code(cc) => {
            lemma_wf_enc_lines(cc.source);
            match cc.execution_count {
                None => {},
                Some(nn) => {
                    lemma_dec_digits_wf(nn);
                },
            }
            let arr = (match enc_outputs(cc.outputs) {
                JsonView::Arr(es) => es,
                _ => Seq::empty(),
            });
            assert forall|i: int| 0 <= i < arr.len() implies wf_json(#[trigger] arr[i]) by {
                assert(arr[i] == enc_output(cc.outputs[i]));
                assert(wf_output(cc.outputs[i]));
                lemma_wf_enc_output(cc.outputs[i]);
            }
        },
        CellView::Markdown(mc) => {
            lemma_wf_enc_lines(mc.source);
        },
        CellView::Raw(rc) => {
            lemma_wf_enc_lines(rc.source);
        },
    }
    assert forall|i: int| 0 <= i < ps.len() implies wf_json(#[trigger] ps[i].1) by {}
}

proof fn lemma_wf_enc_li(l: LanguageInfoView)
    requires
        wf_language_info(l),
    ensures
        wf_json(enc_language_info(l)),
{
    let head: Pairs = seq![("name"@, JsonView::Str(l.name))];
    let pv = enc_opt_text(l.version, "version"@);
    let pm = enc_opt_text(l.mimetype, "mimetype"@);
    let pf = enc_opt_text(l.file_extension, "file_extension"@);
    let lps = head + (pv + (pm + (pf + l.other)));
    assert forall|j: int| 0 <= j < lps.len() implies wf_json(#[trigger] lps[j].1) by {
        let n0 = head.len();
        let n1 = n0 + pv.len();
        let n2 = n1 + pm.len();
        let n3 = n2 + pf.len();
        if j < n0 {
            assert(lps[j] == head[j]);
        } else {
            assert(lps[j] == (pv + (pm + (pf + l.other)))[j - n0]);
            if j < n1 {
                assert(lps[j] == pv[j - n0]);
            } else {
                assert(lps[j] == (pm + (pf + l.other))[j - n1]);
                if j < n2 {
                    assert(lps[j] == pm[j - n1]);
                } else {
                    assert(lps[j] == (pf + l.other)[j - n2]);
                    if j < n3 {
                        assert(lps[j] == pf[j - n2]);
                    } else {
                        assert(lps[j] == l.other[j - n3]);
                        assert(!is_li_key(l.other[j - n3].0));
                        assert(wf_json(l.other[j - n3].1));
                    }
                }
            }
        }
    }
}

proof fn lemma_wf_enc_meta(m: MetadataView)
    requires
        wf_meta(m),
    ensures
        wf_json(JsonView::Obj(enc_meta(m))),
{
    let pk: Pairs = (match m.kernelspec {
        None => Seq::empty(),
        Some(k) => seq![("kernelspec"@, enc_kernelspec(k))],
    });
    let pl: Pairs = (match m.language_info {
        None => Seq::empty(),
        Some(l) => seq![("language_info"@, enc_language_info(l))],
    });
    let ps = enc_meta(m);
    assert(ps == pk + (pl + m.other));
    assert forall|i: int| 0 <= i < ps.len() implies wf_json(#[trigger] ps[i].1) by {
        assert(ps[i] == (pk + (pl + m.other))[i]);
        if i < pk.len() {
            assert(ps[i] == pk[i]);
            match m.kernelspec {
                None => {},
                Some(k) => {
                    assert(ps[i].1 == enc_kernelspec(k));
                    let kps = (match enc_kernelspec(k) {
                        JsonView::Obj(q) => q,
                        _ => Seq::empty(),
                    });
                    assert forall|j: int| 0 <= j < kps.len() implies wf_json(
                        #[trigger] kps[j].1,
                    ) by {}
                },
            }
        } else {
            assert(ps[i] == (pl + m.other)[i - pk.len()]);
            if i - pk.len() < pl.len() {
                assert(ps[i] == pl[i - pk.len()]);
                match m.language_info {
                    None => {},
                    Some(l) => {
                        assert(ps[i].1 == enc_language_info(l));
                        lemma_wf_enc_li(l);
                    },
                }
            } else {
                let oi = i - pk.len() - pl.len();
                assert(ps[i] == m.other[oi]);
                assert(!is_meta_key(m.other[oi].0));
                assert(wf_json(m.other[oi].1));
            }
        }
    }
}

proof fn lemma_wf_enc_nb(n: NotebookView)
    requires
        wf_nb(n),
    ensures
        wf_json(enc_nb(n)),
{
    let ps = (match enc_nb(n) {
        JsonView::Obj(ps) => ps,
        _ => Seq::empty(),
    });
    let arr = (match enc_cells(n.cells) {
        JsonView::Arr(es) => es,
        _ => Seq::empty(),
    });
    assert forall|i: int| 0 <= i < arr.len() implies wf_json(#[trigger] arr[i]) by {
        assert(arr[i] == enc_cell(n.cells[i]));
        assert(wf_cell(n.cells[i]));
        lemma_wf_enc_cell(n.cells[i]);
    }
    lemma_wf_enc_meta(n.metadata);
    lemma_dec_digits_wf(n.nbformat as u32);
    lemma_dec_digits_wf(n.nbformat_minor as u32);
    assert forall|i: int| 0 <= i < ps.len() implies wf_json(#[trigger] ps[i].1) by {}
}

// --- the round trip ---

/// Re-parsing the canonical text of any representable notebook yields an
/// equal notebook: saving loses nothing.
pub proof fn lemma_notebook_roundtrip(n: NotebookView)
    requires
        wf_nb(n),
    ensures
        spec_load(spec_save(n)) == Some(n),
{
    lemma_wf_enc_nb(n);
    crate::json_round::lemma_json_roundtrip(enc_nb(n));
    lemma_dec_enc_nb(n);
}

/// An uninterpreted top-level metadata field survives a save and re-load
/// with its key and value unchanged.
pub proof fn lemma_unknown_field_preserved(n: NotebookView, i: int)
    requires
        wf_nb(n),
        0 <= i < n.metadata.other.len(),
    ensures
        spec_load(spec_save(n)) matches Some(m) && m.metadata.other[i] == n.metadata.other[i],
{
    lemma_notebook_roundtrip(n);
}

// ---------------------------------------------------------------------------
// Well-formedness of what the codec reads: a decoded notebook is always
// representable, so any document that loads can be saved and re-loaded.
// ---------------------------------------------------------------------------

proof fn lemma_get_field_wf(ps: Pairs, k: Seq<char>)
    requires
        forall|i: int| 0 <= i < ps.len() ==> wf_json(#[trigger] ps[i].1),
    ensures
        get_field(ps, k) matches Some(x) ==> wf_json(x),
    decreases ps.len(),
{
    if ps.len() > 0 && ps[0].0 != k {
        assert(forall|i: int| 0 <= i < ps.len() - 1 ==> ps.drop_first()[i] == ps[i + 1]);
        lemma_get_field_wf(ps.drop_first(), k);
    }
}

proof fn lemma_filter_pairs_wf(s: Pairs, pred: spec_fn((Seq<char>, JsonView)) -> bool)
    requires
        forall|i: int| 0 <= i < s.len() ==> wf_json(#[trigger] s[i].1),
    ensures
        forall|i: int| 0 <= i < s.filter(pred).len() ==> wf_json(#[trigger] s.filter(pred)[i].1),
        forall|i: int| 0 <= i < s.filter(pred).len() ==> pred(#[trigger] s.filter(pred)[i]),
    decreases s.len(),
{
    reveal(Seq::filter);
    if s.len() > 0 {
        assert(forall|i: int| 0 <= i < s.len() - 1 ==> s.drop_last()[i] == s[i]);
        lemma_filter_pairs_wf(s.drop_last(), pred);
        let sub = s.drop_last().filter(pred);
        assert forall|i: int| 0 <= i < s.filter(pred).len() implies wf_json(
            #[trigger] s.filter(pred)[i].1,
        ) && pred(s.filter(pred)[i]) by {
            if pred(s.last()) {
                assert(s.filter(pred) == sub.push(s.last()));
                if i < sub.len() {
                    assert(s.filter(pred)[i] == sub[i]);
                } else {
                    assert(s.filter(pred)[i] == s.last());
                    assert(wf_json(s.last().1));
                }
            } else {
                assert(s.filter(pred) == sub);
                assert(s.filter(pred)[i] == sub[i]);
            }
        }
    }
}

proof fn lemma_dec_output_wf(v: JsonView)
    requires
        wf_json(v),
    ensures
        dec_output(v) matches Some(o) ==> wf_output(o),
{
    match v {
        JsonView::Obj(ps) => {
            lemma_get_field_wf(ps, "data"@);
            lemma_get_field_wf(ps, "metadata"@);
        },
        _ => {},
    }
}

proof fn lemma_dec_outputs_seq_wf(es: Seq<JsonView>)
    requires
        forall|i: int| 0 <= i < es.len() ==> wf_json(#[trigger] es[i]),
    ensures
        dec_outputs_seq(es) matches Some(os) ==> forall|i: int|
            0 <= i < os.len() ==> wf_output(#[trigger] os[i]),
    decreases es.len(),
{
    if es.len() > 0 {
        assert(forall|i: int| 0 <= i < es.len() - 1 ==> es.drop_last()[i] == es[i]);
        lemma_dec_outputs_seq_wf(es.drop_last());
        assert(wf_json(es.last()));
        lemma_dec_output_wf(es.last());
    }
}

proof fn lemma_dec_cell_wf(v: JsonView)
    requires
        wf_json(v),
    ensures
        dec_cell(v) matches Some(c) ==> wf_cell(c),
{
    match v {
        JsonView::Obj(ps) => {
            lemma_get_field_wf(ps, "metadata"@);
            lemma_get_field_wf(ps, "outputs"@);
            match get_field(ps, "outputs"@) {
                Some(JsonView::Arr(oes)) => {
                    lemma_dec_outputs_seq_wf(oes);
                },
                _ => {},
            }
        },
        _ => {},
    }
}

proof fn lemma_dec_cells_seq_wf(es: Seq<JsonView>)
    requires
        forall|i: int| 0 <= i < es.len() ==> wf_json(#[trigger] es[i]),
    ensures
        dec_cells_seq(es) matches Some(cs) ==> forall|i: int|
            0 <= i < cs.len() ==> wf_cell(#[trigger] cs[i]),
    decreases es.len(),
{
    if es.len() > 0 {
        assert(forall|i: int| 0 <= i < es.len() - 1 ==> es.drop_last()[i] == es[i]);
        lemma_dec_cells_seq_wf(es.drop_last());
        assert(wf_json(es.last()));
        lemma_dec_cell_wf(es.last());
    }
}

proof fn lemma_dec_language_info_wf(v: JsonView)
    requires
        wf_json(v),
    ensures
        dec_language_info(v) matches Some(l) ==> wf_language_info(l),
{
    match v {
        JsonView::Obj(ps) => {
            lemma_filter_pairs_wf(ps, |p: (Seq<char>, JsonView)| !is_li_key(p.0));
        },
        _ => {},
    }
}

proof fn lemma_dec_meta_wf(ps: Pairs)
    requires
        forall|i: int| 0 <= i < ps.len() ==> wf_json(#[trigger] ps[i].1),
    ensures
        dec_meta(ps) matches Some(m) ==> wf_meta(m),
{
    lemma_get_field_wf(ps, "language_info"@);
    match get_field(ps, "language_info"@) {
        Some(lv) => {
            lemma_dec_language_info_wf(lv);
        },
        None => {},
    }
    lemma_filter_pairs_wf(ps, |p: (Seq<char>, JsonView)| !is_meta_key(p.0));
}

proof fn lemma_dec_nb_wf(v: JsonView)
    requires
        wf_json(v),
    ensures
        dec_nb(v) matches Some(n) ==> wf_nb(n),
{
    match v {
        JsonView::Obj(ps) => {
            lemma_get_field_wf(ps, "cells"@);
            lemma_get_field_wf(ps, "metadata"@);
            match get_field(ps, "cells"@) {
                Some(JsonView::Arr(cs)) => {
                    lemma_dec_cells_seq_wf(cs);
                },
                _ => {},
            }
            match get_field(ps, "metadata"@) {
                Some(JsonView::Obj(mps)) => {
                    lemma_dec_meta_wf(mps);
                },
                _ => {},
            }
        },
        _ => {},
    }
}

/// A document that loads is representable, and saving what it loaded to
/// re-loads equal: the text-side direction of the round trip.
pub proof fn lemma_load_then_save(s: Seq<char>, n: NotebookView)
    requires
        spec_load(s) == Some(n),
    ensures
        wf_nb(n),
        spec_load(spec_save(n)) == Some(n),
{
    crate::json_parse::lemma_parse_doc_wf(s);
    match crate::json_parse::parse_doc(s) {
        Some(v) => {
            lemma_dec_nb_wf(v);
        },
        None => {},
    }
    lemma_notebook_roundtrip(n);
}

} // verus!
