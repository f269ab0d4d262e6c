use vstd::prelude::*;

use crate::json_text::{dec_digits, dec_val, is_dec_u32};
use crate::json_value::{wf_json, JsonView};
use crate::notebook::{
    CellView, CodeCellView, KernelspecView, LanguageInfoView, MarkdownCellView, MetadataView,
    NotebookView, OutputView, RawCellView,
};

verus! {

// ---------------------------------------------------------------------------
// The wire shape of a notebook, as a mapping between the document model and
// JSON values.  `enc_*` gives the JSON written for a model value; `dec_*`
// reads a JSON value back, failing on anything that does not match the
// schema.  Object fields are looked up by first occurrence; fields the model
// does not interpret are carried through in order.
// ---------------------------------------------------------------------------

/// The first value bound to `k`, if any.
pub open spec fn get_field(ps: Seq<(Seq<char>, JsonView)>, k: Seq<char>) -> Option<JsonView>
    decreases ps.len(),
{
    if ps.len() == 0 {
        None
    } else if ps[0].0 == k {
        Some(ps[0].1)
    } else {
        get_field(ps.drop_first(), k)
    }
}

// --- encoding ---

pub open spec fn enc_lines(ls: Seq<Seq<char>>) -> JsonView {
    JsonView::Arr(
        Seq::new(
            ls.len(),
            |i: int|
                if 0 <= i < ls.len() {
                    JsonView::Str(ls[i])
                } else {
                    JsonView::Null
                },
        ),
    )
}

/// An optional execution count: a number, or null.
pub open spec fn enc_count(c: Option<u32>) -> JsonView {
    match c {
        None => JsonView::Null,
        Some(n) => JsonView::Num(dec_digits(n as nat)),
    }
}

pub open spec fn enc_output(o: OutputView) -> JsonView {
    match o {
        OutputView::Stream { name, text } => JsonView::Obj(
            seq![
                ("output_type"@, JsonView::Str("stream"@)),
                ("name"@, JsonView::Str(name)),
                ("text"@, enc_lines(text)),
            ],
        ),
        OutputView::ExecuteResult { execution_count, data, metadata } => JsonView::Obj(
            seq![
                ("output_type"@, JsonView::Str("execute_result"@)),
                ("execution_count"@, JsonView::Num(dec_digits(execution_count as nat))),
                ("data"@, data),
                ("metadata"@, metadata),
            ],
        ),
        OutputView::DisplayData { data, metadata } => JsonView::Obj(
            seq![
                ("output_type"@, JsonView::Str("display_data"@)),
                ("data"@, data),
                ("metadata"@, metadata),
            ],
        ),
        OutputView::Error { ename, evalue, traceback } => JsonView::Obj(
            seq![
                ("output_type"@, JsonView::Str("error"@)),
                ("ename"@, JsonView::Str(ename)),
                ("evalue"@, JsonView::Str(evalue)),
                ("traceback"@, enc_lines(traceback)),
            ],
        ),
    }
}

pub open spec fn enc_outputs(os: Seq<OutputView>) -> JsonView {
    JsonView::Arr(
        Seq::new(
            os.len(),
            |i: int|
                if 0 <= i < os.len() {
                    enc_output(os[i])
                } else {
                    JsonView::Null
                },
        ),
    )
}

pub open spec fn enc_cell(c: CellView) -> JsonView {
    match c {
        CellView::Code(cc) => JsonView::Obj(
            seq![
                ("cell_type"@, JsonView::Str("code"@)),
                ("source"@, enc_lines(cc.source)),
                ("metadata"@, cc.metadata),
                ("execution_count"@, enc_count(cc.execution_count)),
                ("outputs"@, enc_outputs(cc.outputs)),
            ],
        ),
        CellView::Markdown(mc) => JsonView::Obj(
            seq![
                ("cell_type"@, JsonView::Str("markdown"@)),
                ("source"@, enc_lines(mc.source)),
                ("metadata"@, mc.metadata),
            ],
        ),
        CellView::Raw(rc) => JsonView::Obj(
            seq![
                ("cell_type"@, JsonView::Str("raw"@)),
                ("source"@, enc_lines(rc.source)),
                ("metadata"@, rc.metadata),
            ],
        ),
    }
}

pub open spec fn enc_cells(cs: Seq<CellView>) -> JsonView {
    JsonView::Arr(
        Seq::new(
            cs.len(),
            |i: int|
                if 0 <= i < cs.len() {
                    enc_cell(cs[i])
                } else {
                    JsonView::Null
                },
        ),
    )
}

pub open spec fn enc_kernelspec(k: KernelspecView) -> JsonView {
    JsonView::Obj(
        seq![("name"@, JsonView::Str(k.name)), ("display_name"@, JsonView::Str(k.display_name))],
    )
}

/// The field written for an optional text value: nothing when absent.
pub open spec fn enc_opt_text(o: Option<Seq<char>>, key: Seq<char>) -> Seq<(Seq<char>, JsonView)> {
    match o {
        None => Seq::empty(),
        Some(t) => seq![(key, JsonView::Str(t))],
    }
}

pub open spec fn enc_language_info(l: LanguageInfoView) -> JsonView {
    JsonView::Obj(
        seq![("name"@, JsonView::Str(l.name))] + (enc_opt_text(l.version, "version"@) + (
        enc_opt_text(l.mimetype, "mimetype"@) + (enc_opt_text(l.file_extension, "file_extension"@)
            + l.other))),
    )
}

pub open spec fn enc_meta(m: MetadataView) -> Seq<(Seq<char>, JsonView)> {
    (match m.kernelspec {
        None => Seq::<(Seq<char>, JsonView)>::empty(),
        Some(k) => seq![("kernelspec"@, enc_kernelspec(k))],
    }) + ((match m.language_info {
        None => Seq::<(Seq<char>, JsonView)>::empty(),
        Some(l) => seq![("language_info"@, enc_language_info(l))],
    }) + m.other)
}

pub open spec fn enc_nb(n: NotebookView) -> JsonView {
    JsonView::Obj(
        seq![
            ("cells"@, enc_cells(n.cells)),
            ("metadata"@, JsonView::Obj(enc_meta(n.metadata))),
            ("nbformat"@, JsonView::Num(dec_digits(n.nbformat as nat))),
            ("nbformat_minor"@, JsonView::Num(dec_digits(n.nbformat_minor as nat))),
        ],
    )
}

// --- decoding ---

pub open spec fn dec_lines_seq(es: Seq<JsonView>) -> Option<Seq<Seq<char>>>
    decreases es.len(),
{
    if es.len() == 0 {
        Some(Seq::empty())
    } else {
        match (dec_lines_seq(es.drop_last()), es.last()) {
            (Some(r), JsonView::Str(t)) => Some(r.push(t)),
            _ => None,
        }
    }
}

/// An array of strings, as the source and text fields require.
pub open spec fn dec_lines(v: JsonView) -> Option<Seq<Seq<char>>> {
    match v {
        JsonView::Arr(es) => dec_lines_seq(es),
        _ => None,
    }
}

/// A required unsigned integer in `u32` range.
pub open spec fn dec_u32(v: JsonView) -> Option<u32> {
    match v {
        JsonView::Num(t) => if is_dec_u32(t) {
            Some(dec_val(t) as u32)
        } else {
            None
        },
        _ => None,
    }
}

/// An execution count: an unsigned integer, or null for none.
pub open spec fn dec_count(v: JsonView) -> Option<Option<u32>> {
    match v {
        JsonView::Null => Some(None),
        JsonView::Num(t) => if is_dec_u32(t) {
            Some(Some(dec_val(t) as u32))
        } else {
            None
        },
        _ => None,
    }
}

pub open spec fn dec_output(v: JsonView) -> Option<OutputView> {
    match v {
        JsonView::Obj(ps) => match get_field(ps, "output_type"@) {
            Some(JsonView::Str(ot)) => if ot == "stream"@ {
                match (get_field(ps, "name"@), get_field(ps, "text"@)) {
                    (Some(JsonView::Str(nm)), Some(tv)) => match dec_lines(tv) {
                        Some(text) => Some(OutputView::Stream { name: nm, text }),
                        None => None,
                    },
                    _ => None,
                }
            } else if ot == "execute_result"@ {
                match (
                    get_field(ps, "execution_count"@),
                    get_field(ps, "data"@),
                    get_field(ps, "metadata"@),
                ) {
                    (Some(cv), Some(d), Some(m)) => match dec_u32(cv) {
                        Some(c) => Some(
                            OutputView::ExecuteResult { execution_count: c, data: d, metadata: m },
                        ),
                        None => None,
                    },
                    _ => None,
                }
            } else if ot == "display_data"@ {
                match (get_field(ps, "data"@), get_field(ps, "metadata"@)) {
                    (Some(d), Some(m)) => Some(OutputView::DisplayData { data: d, metadata: m }),
                    _ => None,
                }
            } else if ot == "error"@ {
                match (
                    get_field(ps, "ename"@),
                    get_field(ps, "evalue"@),
                    get_field(ps, "traceback"@),
                ) {
                    (Some(JsonView::Str(en)), Some(JsonView::Str(ev)), Some(tb)) => match dec_lines(
                        tb,
                    ) {
                        Some(t) => Some(OutputView::Error { ename: en, evalue: ev, traceback: t }),
                        None => None,
                    },
                    _ => None,
                }
            } else {
                None
            },
            _ => None,
        },
        _ => None,
    }
}

pub open spec fn dec_outputs_seq(es: Seq<JsonView>) -> Option<Seq<OutputView>>
    decreases es.len(),
{
    if es.len() == 0 {
        Some(Seq::empty())
    } else {
        match (dec_outputs_seq(es.drop_last()), dec_output(es.last())) {
            (Some(r), Some(o)) => Some(r.push(o)),
            _ => None,
        }
    }
}

pub open spec fn dec_outputs(v: JsonView) -> Option<Seq<OutputView>> {
    match v {
        JsonView::Arr(es) => dec_outputs_seq(es),
        _ => None,
    }
}

pub open spec fn dec_cell(v: JsonView) -> Option<CellView> {
    match v {
        JsonView::Obj(ps) => match (
            get_field(ps, "cell_type"@),
            get_field(ps, "source"@),
            get_field(ps, "metadata"@),
        ) {
            (Some(JsonView::Str(ct)), Some(sv), Some(md)) => match dec_lines(sv) {
                Some(src) => if ct == "code"@ {
                    match (get_field(ps, "execution_count"@), get_field(ps, "outputs"@)) {
                        (Some(cv), Some(ov)) => match (dec_count(cv), dec_outputs(ov)) {
                            (Some(c), Some(os)) => Some(
                                CellView::Code(
                                    CodeCellView {
                                        source: src,
                                        metadata: md,
                                        execution_count: c,
                                        outputs: os,
                                    },
                                ),
                            ),
                            _ => None,
                        },
                        _ => None,
                    }
                } else if ct == "markdown"@ {
                    Some(CellView::Markdown(MarkdownCellView { source: src, metadata: md }))
                } else if ct == "raw"@ {
                    Some(CellView::Raw(RawCellView { source: src, metadata: md }))
                } else {
                    None
                },
                None => None,
            },
            _ => None,
        },
        _ => None,
    }
}

pub open spec fn dec_cells_seq(es: Seq<JsonView>) -> Option<Seq<CellView>>
    decreases es.len(),
{
    if es.len() == 0 {
        Some(Seq::empty())
    } else {
        match (dec_cells_seq(es.drop_last()), dec_cell(es.last())) {
            (Some(r), Some(c)) => Some(r.push(c)),
            _ => None,
        }
    }
}

pub open spec fn dec_kernelspec(v: JsonView) -> Option<KernelspecView> {
    match v {
        JsonView::Obj(ps) => match (get_field(ps, "name"@), get_field(ps, "display_name"@)) {
            (Some(JsonView::Str(n)), Some(JsonView::Str(d))) => Some(
                KernelspecView { name: n, display_name: d },
            ),
            _ => None,
        },
        _ => None,
    }
}

/// An optional text field: absent or null for none.
pub open spec fn dec_opt_text(o: Option<JsonView>) -> Option<Option<Seq<char>>> {
    match o {
        None => Some(None),
        Some(JsonView::Null) => Some(None),
        Some(JsonView::Str(t)) => Some(Some(t)),
        _ => None,
    }
}

pub open spec fn is_li_key(k: Seq<char>) -> bool {
    k == "name"@ || k == "version"@ || k == "mimetype"@ || k == "file_extension"@
}

pub open spec fn dec_language_info(v: JsonView) -> Option<LanguageInfoView> {
    match v {
        JsonView::Obj(ps) => match get_field(ps, "name"@) {
            Some(JsonView::Str(nm)) => match (
                dec_opt_text(get_field(ps, "version"@)),
                dec_opt_text(get_field(ps, "mimetype"@)),
                dec_opt_text(get_field(ps, "file_extension"@)),
            ) {
                (Some(ver), Some(mt), Some(fe)) => Some(
                    LanguageInfoView {
                        name: nm,
                        version: ver,
                        mimetype: mt,
                        file_extension: fe,
                        other: ps.filter(|p: (Seq<char>, JsonView)| !is_li_key(p.0)),
                    },
                ),
                _ => None,
            },
            _ => None,
        },
        _ => None,
    }
}

pub open spec fn is_meta_key(k: Seq<char>) -> bool {
    k == "kernelspec"@ || k == "language_info"@
}

pub open spec fn dec_meta(ps: Seq<(Seq<char>, JsonView)>) -> Option<MetadataView> {
    let ks = match get_field(ps, "kernelspec"@) {
        None => Some(None),
        Some(JsonView::Null) => Some(None),
        Some(kv) => match dec_kernelspec(kv) {
            Some(k) => Some(Some(k)),
            None => None,
        },
    };
    let li = match get_field(ps, "language_info"@) {
        None => Some(None),
        Some(JsonView::Null) => Some(None),
        Some(lv) => match dec_language_info(lv) {
            Some(l) => Some(Some(l)),
            None => None,
        },
    };
    match (ks, li) {
        (Some(k), Some(l)) => Some(
            MetadataView {
                kernelspec: k,
                language_info: l,
                other: ps.filter(|p: (Seq<char>, JsonView)| !is_meta_key(p.0)),
            },
        ),
        _ => None,
    }
}

/// A format version component: an unsigned integer that fits in a `u8`.
pub open spec fn dec_u8(v: JsonView) -> Option<u8> {
    match dec_u32(v) {
        Some(n) => if n <= 255 {
            Some(n as u8)
        } else {
            None
        },
        None => None,
    }
}

pub open spec fn dec_nb(v: JsonView) -> Option<NotebookView> {
    match v {
        JsonView::Obj(ps) => match (
            get_field(ps, "cells"@),
            get_field(ps, "metadata"@),
            get_field(ps, "nbformat"@),
            get_field(ps, "nbformat_minor"@),
        ) {
            (Some(JsonView::Arr(cs)), Some(JsonView::Obj(mps)), Some(fv), Some(mv)) => match (
                dec_cells_seq(cs),
                dec_meta(mps),
                dec_u8(fv),
                dec_u8(mv),
            ) {
                (Some(cells), Some(meta), Some(f), Some(m)) => Some(
                    NotebookView { cells, metadata: meta, nbformat: f, nbformat_minor: m },
                ),
                _ => None,
            },
            _ => None,
        },
        _ => None,
    }
}

// --- well-formedness of a model value ---

pub open spec fn wf_output(o: OutputView) -> bool {
    match o {
        OutputView::Stream { name, text } => true,
        OutputView::ExecuteResult { execution_count, data, metadata } => wf_json(data) && wf_json(
            metadata,
        ),
        OutputView::DisplayData { data, metadata } => wf_json(data) && wf_json(metadata),
        OutputView::Error { ename, evalue, traceback } => true,
    }
}

pub open spec fn wf_cell(c: CellView) -> bool {
    match c {
        CellView::Code(cc) => wf_json(cc.metadata) && forall|i: int|
            0 <= i < cc.outputs.len() ==> wf_output(#[trigger] cc.outputs[i]),
        CellView::Markdown(mc) => wf_json(mc.metadata),
        CellView::Raw(rc) => wf_json(rc.metadata),
    }
}

pub open spec fn wf_language_info(l: LanguageInfoView) -> bool {
    forall|i: int|
        0 <= i < l.other.len() ==> !is_li_key(#[trigger] l.other[i].0) && wf_json(l.other[i].1)
}

pub open spec fn wf_meta(m: MetadataView) -> bool {
    &&& match m.language_info {
        None => true,
        Some(l) => wf_language_info(l),
    }
    &&& forall|i: int|
        0 <= i < m.other.len() ==> !is_meta_key(#[trigger] m.other[i].0) && wf_json(m.other[i].1)
}

/// A notebook the wire format can represent losslessly: its opaque JSON
/// values are well formed, and its uninterpreted metadata fields do not
/// collide with the fields the model interprets.
pub open spec fn wf_nb(n: NotebookView) -> bool {
    &&& forall|i: int| 0 <= i < n.cells.len() ==> wf_cell(#[trigger] n.cells[i])
    &&& wf_meta(n.metadata)
}

// --- the document text of a notebook ---

/// The canonical text written for a notebook.
pub open spec fn spec_save(n: NotebookView) -> Seq<char> {
    crate::json_ser::ser_json(enc_nb(n), 0)
}

/// The notebook read from a document, if the text is well-formed JSON that
/// matches the schema.
pub open spec fn spec_load(s: Seq<char>) -> Option<NotebookView> {
    match crate::json_parse::parse_doc(s) {
        None => None,
        Some(v) => dec_nb(v),
    }
}

} // verus!
