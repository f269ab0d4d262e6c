use vstd::prelude::*;

use crate::json_value::{pair_views_of, JsonValue, JsonView};

verus! {

// ---------------------------------------------------------------------------
// The document model: a notebook is an ordered sequence of typed cells plus
// metadata and a format version pair.  Metadata that the model does not
// interpret is carried as JSON values so that a document round-trips without
// loss.
// ---------------------------------------------------------------------------

#[derive(Debug, PartialEq)]
pub struct Kernelspec {
    pub name: String,
    pub display_name: String,
}

#[derive(Debug, PartialEq)]
pub struct LanguageInfo {
    pub name: String,
    pub version: Option<String>,
    pub mimetype: Option<String>,
    pub file_extension: Option<String>,
    /// Fields of `language_info` that the model does not interpret, in
    /// document order.
    pub other: Vec<(Vec<char>, JsonValue)>,
}

#[derive(Debug, PartialEq)]
pub struct NotebookMetadata {
    pub kernelspec: Option<Kernelspec>,
    pub language_info: Option<LanguageInfo>,
    /// Top-level metadata fields that the model does not interpret, in
    /// document order.
    pub other: Vec<(Vec<char>, JsonValue)>,
}

/// One execution artifact of a code cell.
#[derive(Debug, PartialEq)]
pub enum Output {
    Stream { name: String, text: Vec<String> },
    ExecuteResult { execution_count: u32, data: JsonValue, metadata: JsonValue },
    DisplayData { data: JsonValue, metadata: JsonValue },
    Error { ename: String, evalue: String, traceback: Vec<String> },
}

#[derive(Debug, PartialEq)]
pub struct CodeCell {
    pub source: Vec<String>,
    pub metadata: JsonValue,
    pub execution_count: Option<u32>,
    pub outputs: Vec<Output>,
}

#[derive(Debug, PartialEq)]
pub struct MarkdownCell {
    pub source: Vec<String>,
    pub metadata: JsonValue,
}

#[derive(Debug, PartialEq)]
pub struct RawCell {
    pub source: Vec<String>,
    pub metadata: JsonValue,
}

/// One unit of notebook content; exactly one of code, markdown or raw.
#[derive(Debug, PartialEq)]
pub enum Cell {
    Code(CodeCell),
    Markdown(MarkdownCell),
    Raw(RawCell),
}

#[derive(Debug, PartialEq)]
pub struct Notebook {
    pub cells: Vec<Cell>,
    pub metadata: NotebookMetadata,
    pub nbformat: u8,
    pub nbformat_minor: u8,
}

// ---------------------------------------------------------------------------
// Abstractions
// ---------------------------------------------------------------------------

#[verifier::ext_equal]
pub struct KernelspecView {
    pub name: Seq<char>,
    pub display_name: Seq<char>,
}

#[verifier::ext_equal]
pub struct LanguageInfoView {
    pub name: Seq<char>,
    pub version: Option<Seq<char>>,
    pub mimetype: Option<Seq<char>>,
    pub file_extension: Option<Seq<char>>,
    pub other: Seq<(Seq<char>, JsonView)>,
}

#[verifier::ext_equal]
pub struct MetadataView {
    pub kernelspec: Option<KernelspecView>,
    pub language_info: Option<LanguageInfoView>,
    pub other: Seq<(Seq<char>, JsonView)>,
}

#[verifier::ext_equal]
pub enum OutputView {
    Stream { name: Seq<char>, text: Seq<Seq<char>> },
    ExecuteResult { execution_count: u32, data: JsonView, metadata: JsonView },
    DisplayData { data: JsonView, metadata: JsonView },
    Error { ename: Seq<char>, evalue: Seq<char>, traceback: Seq<Seq<char>> },
}

#[verifier::ext_equal]
pub struct CodeCellView {
    pub source: Seq<Seq<char>>,
    pub metadata: JsonView,
    pub execution_count: Option<u32>,
    pub outputs: Seq<OutputView>,
}

#[verifier::ext_equal]
pub struct MarkdownCellView {
    pub source: Seq<Seq<char>>,
    pub metadata: JsonView,
}

#[verifier::ext_equal]
pub struct RawCellView {
    pub source: Seq<Seq<char>>,
    pub metadata: JsonView,
}

#[verifier::ext_equal]
pub enum CellView {
    Code(CodeCellView),
    Markdown(MarkdownCellView),
    Raw(RawCellView),
}

#[verifier::ext_equal]
pub struct NotebookView {
    pub cells: Seq<CellView>,
    pub metadata: MetadataView,
    pub nbformat: u8,
    pub nbformat_minor: u8,
}

/// The text of each line, in order.
pub open spec fn lines_view(ss: Seq<String>) -> Seq<Seq<char>> {
    Seq::new(
        ss.len(),
        |i: int|
            if 0 <= i < ss.len() {
                ss[i]@
            } else {
                Seq::<char>::empty()
            },
    )
}

impl View for Kernelspec {
    type V = KernelspecView;

    open spec fn view(&self) -> KernelspecView {
        KernelspecView { name: self.name@, display_name: self.display_name@ }
    }
}

pub open spec fn opt_text_view(o: Option<String>) -> Option<Seq<char>> {
    match o {
        None => None,
        Some(s) => Some(s@),
    }
}

impl View for LanguageInfo {
    type V = LanguageInfoView;

    open spec fn view(&self) -> LanguageInfoView {
        LanguageInfoView {
            name: self.name@,
            version: opt_text_view(self.version),
            mimetype: opt_text_view(self.mimetype),
            file_extension: opt_text_view(self.file_extension),
            other: pair_views_of(self.other@),
        }
    }
}

impl View for NotebookMetadata {
    type V = MetadataView;

    open spec fn view(&self) -> MetadataView {
        MetadataView {
            kernelspec: match self.kernelspec {
                None => None,
                Some(k) => Some(k@),
            },
            language_info: match self.language_info {
                None => None,
                Some(l) => Some(l@),
            },
            other: pair_views_of(self.other@),
        }
    }
}

impl View for Output {
    type V = OutputView;

    open spec fn view(&self) -> OutputView {
        match self {
            Output::Stream { name, text } => OutputView::Stream {
                name: name@,
                text: lines_view(text@),
            },
            Output::ExecuteResult { execution_count, data, metadata } => OutputView::ExecuteResult {
                execution_count: *execution_count,
                data: data@,
                metadata: metadata@,
            },
            Output::DisplayData { data, metadata } => OutputView::DisplayData {
                data: data@,
                metadata: metadata@,
            },
            Output::Error { ename, evalue, traceback } => OutputView::Error {
                ename: ename@,
                evalue: evalue@,
                traceback: lines_view(traceback@),
            },
        }
    }
}

pub open spec fn outputs_view(os: Seq<Output>) -> Seq<OutputView> {
    Seq::new(
        os.len(),
        |i: int|
            if 0 <= i < os.len() {
                os[i]@
            } else {
                OutputView::DisplayData { data: JsonView::Null, metadata: JsonView::Null }
            },
    )
}

impl View for CodeCell {
    type V = CodeCellView;

    open spec fn view(&self) -> CodeCellView {
        CodeCellView {
            source: lines_view(self.source@),
            metadata: self.metadata@,
            execution_count: self.execution_count,
            outputs: outputs_view(self.outputs@),
        }
    }
}

impl View for MarkdownCell {
    type V = MarkdownCellView;

    open spec fn view(&self) -> MarkdownCellView {
        MarkdownCellView { source: lines_view(self.source@), metadata: self.metadata@ }
    }
}

impl View for RawCell {
    type V = RawCellView;

    open spec fn view(&self) -> RawCellView {
        RawCellView { source: lines_view(self.source@), metadata: self.metadata@ }
    }
}

impl View for Cell {
    type V = CellView;

    open spec fn view(&self) -> CellView {
        match self {
            Cell::Code(c) => CellView::Code(c@),
            Cell::Markdown(c) => CellView::Markdown(c@),
            Cell::Raw(c) => CellView::Raw(c@),
        }
    }
}

pub open spec fn cells_view(cs: Seq<Cell>) -> Seq<CellView> {
    Seq::new(
        cs.len(),
        |i: int|
            if 0 <= i < cs.len() {
                cs[i]@
            } else {
                CellView::Raw(RawCellView { source: Seq::empty(), metadata: JsonView::Null })
            },
    )
}

impl View for Notebook {
    type V = NotebookView;

    open spec fn view(&self) -> NotebookView {
        NotebookView {
            cells: cells_view(self.cells@),
            metadata: self.metadata@,
            nbformat: self.nbformat,
            nbformat_minor: self.nbformat_minor,
        }
    }
}

// ---------------------------------------------------------------------------
// Filtered views of the cell sequence
// ---------------------------------------------------------------------------

/// The code cells of `cells`, in order.
pub open spec fn spec_code_cells(cells: Seq<CellView>) -> Seq<CellView> {
    cells.filter(|c: CellView| c is Code)
}

/// The markdown cells of `cells`, in order.
pub open spec fn spec_markdown_cells(cells: Seq<CellView>) -> Seq<CellView> {
    cells.filter(|c: CellView| c is Markdown)
}

// ---------------------------------------------------------------------------
// Construction and mutation
// ---------------------------------------------------------------------------

/// The metadata value a fresh cell carries: an empty object.
pub open spec fn empty_obj_view() -> JsonView {
    JsonView::Obj(Seq::empty())
}

fn empty_obj() -> (r: JsonValue)
    ensures
        r@ == empty_obj_view(),
{
    let ps: Vec<(Vec<char>, JsonValue)> = Vec::new();
    let r = JsonValue::Obj(ps);
    assert(pair_views_of(ps@) =~= Seq::<(Seq<char>, JsonView)>::empty());
    r
}

impl Notebook {
    /// The empty notebook: no cells, empty metadata, format 4.5.
    pub fn new() -> (r: Notebook)
        ensures
            r@.cells.len() == 0,
            r@.metadata.kernelspec is None,
            r@.metadata.language_info is None,
            r@.metadata.other.len() == 0,
            r@.nbformat == 4,
            r@.nbformat_minor == 5,
    {
        let r = Notebook {
            cells: Vec::new(),
            metadata: NotebookMetadata { kernelspec: None, language_info: None, other: Vec::new() },
            nbformat: 4,
            nbformat_minor: 5,
        };
        r
    }

    /// The number of cells.
    pub fn len(&self) -> (n: usize)
        ensures
            n == self@.cells.len(),
    {
        self.cells.len()
    }

    /// Whether the notebook has no cells.
    pub fn is_empty(&self) -> (r: bool)
        ensures
            r == (self@.cells.len() == 0),
    {
        self.cells.len() == 0
    }

    /// The cell at `i`, in document order.
    pub fn cell(&self, i: usize) -> (c: &Cell)
        requires
            i < self@.cells.len(),
        ensures
            c@ == self@.cells[i as int],
    {
        &self.cells[i]
    }

    /// Replaces the cell at `index` when `index < len()`, keeping cell count
    /// and order; returns whether it did.  An out-of-range index changes
    /// nothing.
    pub fn set_cell(&mut self, index: usize, cell: Cell) -> (ok: bool)
        ensures
            ok == (index < old(self)@.cells.len()),
            ok ==> final(self)@.cells == old(self)@.cells.update(index as int, cell@),
            !ok ==> final(self)@.cells == old(self)@.cells,
            final(self)@.metadata == old(self)@.metadata,
            final(self)@.nbformat == old(self)@.nbformat,
            final(self)@.nbformat_minor == old(self)@.nbformat_minor,
    {
        if index < self.cells.len() {
            let ghost oldcells = self.cells@;
            self.cells[index] = cell;
            assert(cells_view(self.cells@) =~= cells_view(oldcells).update(
                index as int,
                self.cells@[index as int]@,
            ));
            true
        } else {
            false
        }
    }

    /// Inserts `cell` at `index` when `index <= len()`, shifting the cells
    /// at or after `index` one position later; returns whether it did.  An
    /// out-of-range index changes nothing.
    pub fn insert_cell(&mut self, index: usize, cell: Cell) -> (ok: bool)
        ensures
            ok == (index <= old(self)@.cells.len()),
            ok ==> final(self)@.cells == old(self)@.cells.insert(index as int, cell@),
            !ok ==> final(self)@.cells == old(self)@.cells,
            final(self)@.metadata == old(self)@.metadata,
            final(self)@.nbformat == old(self)@.nbformat,
            final(self)@.nbformat_minor == old(self)@.nbformat_minor,
    {
        if index <= self.cells.len() {
            let ghost oldcells = self.cells@;
            self.cells.insert(index, cell);
            assert(cells_view(self.cells@) =~= cells_view(oldcells).insert(
                index as int,
                self.cells@[index as int]@,
            ));
            true
        } else {
            false
        }
    }

    /// Appends `cell`; always succeeds.
    pub fn push_cell(&mut self, cell: Cell)
        ensures
            final(self)@.cells == old(self)@.cells.push(cell@),
            final(self)@.metadata == old(self)@.metadata,
            final(self)@.nbformat == old(self)@.nbformat,
            final(self)@.nbformat_minor == old(self)@.nbformat_minor,
    {
        let ghost oldcells = self.cells@;
        self.cells.push(cell);
        assert(cells_view(self.cells@) =~= cells_view(oldcells).push(
            self.cells@[self.cells@.len() - 1]@,
        ));
    }

    /// Inserts a markdown cell built from `source` at `index`; returns
    /// whether the index was in range.
    pub fn insert_markdown_cell(&mut self, index: usize, source: Vec<String>) -> (ok: bool)
        ensures
            ok == (index <= old(self)@.cells.len()),
            ok ==> final(self)@.cells == old(self)@.cells.insert(
                index as int,
                CellView::Markdown(
                    MarkdownCellView { source: lines_view(source@), metadata: empty_obj_view() },
                ),
            ),
            !ok ==> final(self)@.cells == old(self)@.cells,
            final(self)@.metadata == old(self)@.metadata,
            final(self)@.nbformat == old(self)@.nbformat,
            final(self)@.nbformat_minor == old(self)@.nbformat_minor,
    {
        let cell = Cell::Markdown(MarkdownCell { source, metadata: empty_obj() });
        self.insert_cell(index, cell)
    }

    /// Inserts a raw cell built from `source` at `index`; returns whether
    /// the index was in range.
    pub fn insert_raw_cell(&mut self, index: usize, source: Vec<String>) -> (ok: bool)
        ensures
            ok == (index <= old(self)@.cells.len()),
            ok ==> final(self)@.cells == old(self)@.cells.insert(
                index as int,
                CellView::Raw(
                    RawCellView { source: lines_view(source@), metadata: empty_obj_view() },
                ),
            ),
            !ok ==> final(self)@.cells == old(self)@.cells,
            final(self)@.metadata == old(self)@.metadata,
            final(self)@.nbformat == old(self)@.nbformat,
            final(self)@.nbformat_minor == old(self)@.nbformat_minor,
    {
        let cell = Cell::Raw(RawCell { source, metadata: empty_obj() });
        self.insert_cell(index, cell)
    }

    /// Appends a markdown cell built from `source`.
    pub fn push_markdown_cell(&mut self, source: Vec<String>)
        ensures
            final(self)@.cells == old(self)@.cells.push(
                CellView::Markdown(
                    MarkdownCellView { source: lines_view(source@), metadata: empty_obj_view() },
                ),
            ),
            final(self)@.metadata == old(self)@.metadata,
            final(self)@.nbformat == old(self)@.nbformat,
            final(self)@.nbformat_minor == old(self)@.nbformat_minor,
    {
        let cell = Cell::Markdown(MarkdownCell { source, metadata: empty_obj() });
        self.push_cell(cell);
    }

    /// Appends a raw cell built from `source`.
    pub fn push_raw_cell(&mut self, source: Vec<String>)
        ensures
            final(self)@.cells == old(self)@.cells.push(
                CellView::Raw(
                    RawCellView { source: lines_view(source@), metadata: empty_obj_view() },
                ),
            ),
            final(self)@.metadata == old(self)@.metadata,
            final(self)@.nbformat == old(self)@.nbformat,
            final(self)@.nbformat_minor == old(self)@.nbformat_minor,
    {
        let cell = Cell::Raw(RawCell { source, metadata: empty_obj() });
        self.push_cell(cell);
    }

    /// Inserts a code cell built from the given parts at `index`; returns
    /// whether the index was in range.
    pub fn insert_code_cell(
        &mut self,
        index: usize,
        source: Vec<String>,
        execution_count: Option<u32>,
        outputs: Vec<Output>,
    ) -> (ok: bool)
        ensures
            ok == (index <= old(self)@.cells.len()),
            ok ==> final(self)@.cells == old(self)@.cells.insert(
                index as int,
                CellView::Code(
                    CodeCellView {
                        source: lines_view(source@),
                        metadata: empty_obj_view(),
                        execution_count: execution_count,
                        outputs: outputs_view(outputs@),
                    },
                ),
            ),
            !ok ==> final(self)@.cells == old(self)@.cells,
            final(self)@.metadata == old(self)@.metadata,
            final(self)@.nbformat == old(self)@.nbformat,
            final(self)@.nbformat_minor == old(self)@.nbformat_minor,
    {
        let cell = Cell::Code(
            CodeCell { source, metadata: empty_obj(), execution_count, outputs },
        );
        self.insert_cell(index, cell)
    }

    /// Appends a code cell built from the given parts.
    pub fn push_code_cell(
        &mut self,
        source: Vec<String>,
        execution_count: Option<u32>,
        outputs: Vec<Output>,
    )
        ensures
            final(self)@.cells == old(self)@.cells.push(
                CellView::Code(
                    CodeCellView {
                        source: lines_view(source@),
                        metadata: empty_obj_view(),
                        execution_count: execution_count,
                        outputs: outputs_view(outputs@),
                    },
                ),
            ),
            final(self)@.metadata == old(self)@.metadata,
            final(self)@.nbformat == old(self)@.nbformat,
            final(self)@.nbformat_minor == old(self)@.nbformat_minor,
    {
        let cell = Cell::Code(
            CodeCell { source, metadata: empty_obj(), execution_count, outputs },
        );
        self.push_cell(cell);
    }

    /// The code cells, in document order: a view by reference, not a copy.
    pub fn code_cells(&self) -> (r: Vec<&CodeCell>)
        ensures
            r@.len() == spec_code_cells(self@.cells).len(),
            forall|i: int|
                0 <= i < r@.len() ==> CellView::Code(#[trigger] r@[i]@) == spec_code_cells(
                    self@.cells,
                )[i],
    {
        let mut r: Vec<&CodeCell> = Vec::new();
        let mut k: usize = 0;
        proof {
            assert(cells_view(self.cells@).subrange(0, 0) =~= Seq::<CellView>::empty());
            reveal(Seq::filter);
        }
        while k < self.cells.len()
            invariant
                k <= self.cells@.len(),
                r@.len() == spec_code_cells(self@.cells.subrange(0, k as int)).len(),
                forall|i: int|
                    0 <= i < r@.len() ==> CellView::Code(#[trigger] r@[i]@) == spec_code_cells(
                        self@.cells.subrange(0, k as int),
                    )[i],
            decreases self.cells@.len() - k,
        {
            let ghost pre = self@.cells.subrange(0, k as int);
            proof {
                reveal(Seq::filter);
                assert(self@.cells.subrange(0, k as int + 1) =~= pre.push(self@.cells[k as int]));
                assert(self@.cells.subrange(0, k as int + 1).drop_last() =~= pre);
            }
            match &self.cells[k] {
                Cell::Code(c) => {
                    r.push(c);
                },
                _ => {},
            }
            k = k + 1;
        }
        proof {
            assert(self@.cells.subrange(0, self.cells@.len() as int) =~= self@.cells);
        }
        r
    }

    /// The markdown cells, in document order: a view by reference, not a
    /// copy.
    pub fn markdown_cells(&self) -> (r: Vec<&MarkdownCell>)
        ensures
            r@.len() == spec_markdown_cells(self@.cells).len(),
            forall|i: int|
                0 <= i < r@.len() ==> CellView::Markdown(#[trigger] r@[i]@) == spec_markdown_cells(
                    self@.cells,
                )[i],
    {
        let mut r: Vec<&MarkdownCell> = Vec::new();
        let mut k: usize = 0;
        proof {
            assert(cells_view(self.cells@).subrange(0, 0) =~= Seq::<CellView>::empty());
            reveal(Seq::filter);
        }
        while k < self.cells.len()
            invariant
                k <= self.cells@.len(),
                r@.len() == spec_markdown_cells(self@.cells.subrange(0, k as int)).len(),
                forall|i: int|
                    0 <= i < r@.len() ==> CellView::Markdown(#[trigger] r@[i]@)
                        == spec_markdown_cells(self@.cells.subrange(0, k as int))[i],
            decreases self.cells@.len() - k,
        {
            let ghost pre = self@.cells.subrange(0, k as int);
            proof {
                reveal(Seq::filter);
                assert(self@.cells.subrange(0, k as int + 1) =~= pre.push(self@.cells[k as int]));
                assert(self@.cells.subrange(0, k as int + 1).drop_last() =~= pre);
            }
            match &self.cells[k] {
                Cell::Markdown(c) => {
                    r.push(c);
                },
                _ => {},
            }
            k = k + 1;
        }
        proof {
            assert(self@.cells.subrange(0, self.cells@.len() as int) =~= self@.cells);
        }
        r
    }
}

impl Output {
    /// A stream output on standard output holding one line.
    pub fn stream_stdout(text: String) -> (r: Output)
        ensures
            r@ == (OutputView::Stream { name: "stdout"@, text: seq![text@] }),
    {
        let mut lines: Vec<String> = Vec::new();
        let ghost t = text@;
        lines.push(text);
        let r = Output::Stream { name: "stdout".to_owned(), text: lines };
        assert(lines_view(lines@) =~= seq![t]);
        r
    }

    /// A stream output on standard error holding one line.
    pub fn stream_stderr(text: String) -> (r: Output)
        ensures
            r@ == (OutputView::Stream { name: "stderr"@, text: seq![text@] }),
    {
        let mut lines: Vec<String> = Vec::new();
        let ghost t = text@;
        lines.push(text);
        let r = Output::Stream { name: "stderr".to_owned(), text: lines };
        assert(lines_view(lines@) =~= seq![t]);
        r
    }

    /// An execute-result output whose data is the plain text `result`.
    pub fn execute_result(execution_count: u32, result: String) -> (r: Output)
        ensures
            r@ == (OutputView::ExecuteResult {
                execution_count: execution_count,
                data: JsonView::Obj(seq![("text/plain"@, JsonView::Str(result@))]),
                metadata: JsonView::Obj(Seq::empty()),
            }),
    {
        let key = crate::text_util::chars_of("text/plain");
        let ghost resv = result@;
        let mut data_pairs: Vec<(Vec<char>, JsonValue)> = Vec::new();
        data_pairs.push((key, JsonValue::Str(crate::text_util::chars_of(result.as_str()))));
        let data = JsonValue::Obj(data_pairs);
        assert(pair_views_of(data_pairs@) =~~= seq![("text/plain"@, JsonView::Str(resv))]);
        let r = Output::ExecuteResult { execution_count, data, metadata: empty_obj() };
        r
    }

    /// An error output from a name, a message and a traceback.
    pub fn error(ename: String, evalue: String, traceback: Vec<String>) -> (r: Output)
        ensures
            r@ == (OutputView::Error {
                ename: ename@,
                evalue: evalue@,
                traceback: lines_view(traceback@),
            }),
    {
        Output::Error { ename, evalue, traceback }
    }
}

impl Default for NotebookMetadata {
    /// Empty metadata: no kernel spec, no language info, no extra fields.
    fn default() -> (r: Self)
        ensures
            r@.kernelspec is None,
            r@.language_info is None,
            r@.other.len() == 0,
    {
        let r = NotebookMetadata { kernelspec: None, language_info: None, other: Vec::new() };
        assert(pair_views_of(r.other@) =~= Seq::<(Seq<char>, JsonView)>::empty());
        r
    }
}

impl Default for Notebook {
    /// The empty notebook, as `new` builds it.
    fn default() -> (r: Self)
        ensures
            r@.cells.len() == 0,
            r@.metadata.kernelspec is None,
            r@.metadata.language_info is None,
            r@.metadata.other.len() == 0,
            r@.nbformat == 4,
            r@.nbformat_minor == 5,
    {
        Notebook::new()
    }
}

// ---------------------------------------------------------------------------
// Laws about the filtered views
// ---------------------------------------------------------------------------

/// Appending a code cell extends the code-cell view by that cell and leaves
/// the markdown-cell view unchanged.
pub proof fn lemma_code_cell_filters(cells: Seq<CellView>, c: CodeCellView)
    ensures
        spec_code_cells(cells.push(CellView::Code(c))) == spec_code_cells(cells).push(
            CellView::Code(c),
        ),
        spec_markdown_cells(cells.push(CellView::Code(c))) == spec_markdown_cells(cells),
{
    reveal(Seq::filter);
    assert(cells.push(CellView::Code(c)).drop_last() =~= cells);
}

/// Appending a markdown cell extends the markdown-cell view by that cell and
/// leaves the code-cell view unchanged.
pub proof fn lemma_markdown_cell_filters(cells: Seq<CellView>, c: MarkdownCellView)
    ensures
        spec_markdown_cells(cells.push(CellView::Markdown(c))) == spec_markdown_cells(cells).push(
            CellView::Markdown(c),
        ),
        spec_code_cells(cells.push(CellView::Markdown(c))) == spec_code_cells(cells),
{
    reveal(Seq::filter);
    assert(cells.push(CellView::Markdown(c)).drop_last() =~= cells);
}

} // verus!
