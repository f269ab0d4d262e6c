use nbterm::codec_exec::ParseError;
use nbterm::notebook::{Cell, Notebook, Output};

fn json(template: &str) -> String {
    template.replace('\'', "\"")
}

fn lines(xs: &[&str]) -> Vec<String> {
    xs.iter().map(|s| s.to_string()).collect()
}

fn chars(s: &str) -> Vec<char> {
    s.chars().collect()
}

#[test]
fn empty_notebook_round_trips() {
    let nb = Notebook::new();
    let text = nb.save_to_str().unwrap();
    let back = Notebook::from_str(&text).unwrap();
    assert_eq!(nb, back);
}

#[test]
fn built_notebook_round_trips() {
    let mut nb = Notebook::new();
    nb.push_markdown_cell(lines(&["# Title", "Some description"]));
    nb.push_code_cell(
        lines(&["x = 1", "x"]),
        Some(1),
        vec![Output::execute_result(1, "1".to_string())],
    );
    nb.push_raw_cell(lines(&["raw text"]));
    nb.push_code_cell(
        lines(&["print('hi')"]),
        Some(2),
        vec![
            Output::stream_stdout("hi\n".to_string()),
            Output::stream_stderr("warning\n".to_string()),
            Output::error(
                "ValueError".to_string(),
                "bad value".to_string(),
                lines(&["Traceback", "  line 1"]),
            ),
        ],
    );
    let text = nb.save_to_str().unwrap();
    let back = Notebook::from_str(&text).unwrap();
    assert_eq!(nb, back);
}

#[test]
fn serialize_then_parse_is_stable() {
    let mut nb = Notebook::new();
    nb.push_markdown_cell(lines(&["hello"]));
    let s1 = nb.save_to_str().unwrap();
    let nb2 = Notebook::from_str(&s1).unwrap();
    let s2 = nb2.save_to_str().unwrap();
    assert_eq!(s1, s2);
}

#[test]
fn parse_of_document_text_round_trips() {
    let doc = json(&"{ 'cells': [ {'cell_type': 'markdown', 'source': ['# Heading'], 'metadata': {}}, {'cell_type': 'code', 'source': ['1 + 1'], 'metadata': {'collapsed': false}, 'execution_count': 3, 'outputs': []} ], 'metadata': { 'kernelspec': {'name': 'python3', 'display_name': 'Python 3'}, 'language_info': {'name': 'python', 'version': '3.11.4'} }, 'nbformat': 4, 'nbformat_minor': 5 }");
    let nb = Notebook::from_str(&doc).unwrap();
    assert_eq!(nb.len(), 2);
    let text = nb.save_to_str().unwrap();
    let back = Notebook::from_str(&text).unwrap();
    assert_eq!(nb, back);
    let ks = nb.metadata.kernelspec.as_ref().unwrap();
    assert_eq!(ks.name, "python3");
    assert_eq!(ks.display_name, "Python 3");
    let li = nb.metadata.language_info.as_ref().unwrap();
    assert_eq!(li.name, "python");
    assert_eq!(li.version.as_deref(), Some("3.11.4"));
    assert_eq!(li.mimetype, None);
}

#[test]
fn unknown_metadata_fields_survive() {
    let doc = json(&"{\n  'cells': [],\n  'metadata': {\n    'custom_field': {'nested': [1, 2, 3]},\n    'authors': ['ada', 'grace']\n  },\n  'nbformat': 4,\n  'nbformat_minor': 5\n}");
    let nb = Notebook::from_str(&doc).unwrap();
    assert_eq!(nb.metadata.other.len(), 2);
    assert_eq!(nb.metadata.other[0].0, chars("custom_field"));
    assert_eq!(nb.metadata.other[1].0, chars("authors"));
    let text = nb.save_to_str().unwrap();
    assert!(text.contains("\"custom_field\""));
    assert!(text.contains("\"authors\""));
    let back = Notebook::from_str(&text).unwrap();
    assert_eq!(nb, back);
    assert_eq!(back.metadata.other[0].0, chars("custom_field"));
}

#[test]
fn unknown_language_info_fields_survive() {
    let doc = json(&"{\n  'cells': [],\n  'metadata': {\n    'language_info': {\n      'name': 'python',\n      'codemirror_mode': {'name': 'ipython', 'version': 3}\n    }\n  },\n  'nbformat': 4,\n  'nbformat_minor': 5\n}");
    let nb = Notebook::from_str(&doc).unwrap();
    let li = nb.metadata.language_info.as_ref().unwrap();
    assert_eq!(li.other.len(), 1);
    assert_eq!(li.other[0].0, chars("codemirror_mode"));
    let text = nb.save_to_str().unwrap();
    let back = Notebook::from_str(&text).unwrap();
    assert_eq!(nb, back);
}

#[test]
fn insert_bounds_are_checked() {
    let mut nb = Notebook::new();
    assert!(nb.insert_markdown_cell(0, lines(&["a"])));
    assert_eq!(nb.len(), 1);
    assert!(nb.insert_markdown_cell(1, lines(&["b"])));
    assert_eq!(nb.len(), 2);
    assert!(nb.insert_raw_cell(1, lines(&["c"])));
    assert_eq!(nb.len(), 3);
    // one past the end is invalid and changes nothing
    assert!(!nb.insert_markdown_cell(4, lines(&["d"])));
    assert_eq!(nb.len(), 3);
    assert!(!nb.insert_code_cell(100, lines(&["e"]), None, vec![]));
    assert_eq!(nb.len(), 3);
    match nb.cell(1) {
        Cell::Raw(rc) => assert_eq!(rc.source, lines(&["c"])),
        _ => panic!("unexpected cell kind"),
    }
}

#[test]
fn filter_views_track_pushes() {
    let mut nb = Notebook::new();
    nb.push_markdown_cell(lines(&["m1"]));
    nb.push_code_cell(lines(&["c1"]), None, vec![]);
    let code_before = nb.code_cells().len();
    let md_before = nb.markdown_cells().len();
    nb.push_code_cell(lines(&["c2"]), None, vec![]);
    assert_eq!(nb.code_cells().len(), code_before + 1);
    assert_eq!(nb.markdown_cells().len(), md_before);
    nb.push_markdown_cell(lines(&["m2"]));
    assert_eq!(nb.code_cells().len(), code_before + 1);
    assert_eq!(nb.markdown_cells().len(), md_before + 1);
    assert_eq!(nb.code_cells()[1].source, lines(&["c2"]));
}

#[test]
fn end_to_end_document_scenario() {
    let doc = json(&"{ 'cells': [ {'cell_type': 'markdown', 'source': ['# Title'], 'metadata': {}}, {'cell_type': 'code', 'source': ['x=1'], 'metadata': {}, 'execution_count': 1, 'outputs': [ {'output_type': 'execute_result', 'execution_count': 1, 'data': {'text/plain': '1'}, 'metadata': {}} ]} ], 'metadata': {}, 'nbformat': 4, 'nbformat_minor': 5 }");
    let nb = Notebook::from_str(&doc).unwrap();
    assert_eq!(nb.len(), 2);
    assert_eq!(nb.code_cells().len(), 1);
    assert_eq!(nb.markdown_cells().len(), 1);
    // the same notebook built through the mutation api is equal
    let mut built = Notebook::new();
    built.push_markdown_cell(lines(&["# Title"]));
    built.push_code_cell(
        lines(&["x=1"]),
        Some(1),
        vec![Output::execute_result(1, "1".to_string())],
    );
    assert_eq!(nb, built);
    let text = nb.save_to_str().unwrap();
    let reloaded = Notebook::from_str(&text).unwrap();
    assert_eq!(nb, reloaded);
}

#[test]
fn malformed_json_is_a_syntax_error() {
    assert_eq!(Notebook::from_str("not json at all"), Err(ParseError::Syntax));
    assert_eq!(Notebook::from_str("{\"cells\": ["), Err(ParseError::Syntax));
    assert_eq!(Notebook::from_str(""), Err(ParseError::Syntax));
    assert_eq!(Notebook::from_str("{} trailing"), Err(ParseError::Syntax));
}

#[test]
fn wrong_shape_is_a_schema_error() {
    assert_eq!(Notebook::from_str("[]"), Err(ParseError::Schema));
    assert_eq!(Notebook::from_str("{}"), Err(ParseError::Schema));
    let missing_cells = json(&"{'metadata': {}, 'nbformat': 4, 'nbformat_minor': 5}");
    assert_eq!(Notebook::from_str(&missing_cells), Err(ParseError::Schema));
    let missing_count = json(&"{\n  'cells': [{'cell_type': 'code', 'source': [], 'metadata': {}, 'outputs': []}],\n  'metadata': {}, 'nbformat': 4, 'nbformat_minor': 5\n}");
    assert_eq!(Notebook::from_str(&missing_count), Err(ParseError::Schema));
}

#[test]
fn unknown_discriminators_are_rejected() {
    let bad_cell = json(&"{\n  'cells': [{'cell_type': 'mystery', 'source': [], 'metadata': {}}],\n  'metadata': {}, 'nbformat': 4, 'nbformat_minor': 5\n}");
    assert_eq!(Notebook::from_str(&bad_cell), Err(ParseError::Schema));
    let bad_output = json(&"{\n  'cells': [\n    {\n      'cell_type': 'code', 'source': [], 'metadata': {},\n      'execution_count': null,\n      'outputs': [{'output_type': 'mystery'}]\n    }\n  ],\n  'metadata': {}, 'nbformat': 4, 'nbformat_minor': 5\n}");
    assert_eq!(Notebook::from_str(&bad_output), Err(ParseError::Schema));
}

#[test]
fn execution_count_null_means_none() {
    let doc = json(&"{\n  'cells': [\n    {'cell_type': 'code', 'source': [], 'metadata': {}, 'execution_count': null, 'outputs': []}\n  ],\n  'metadata': {}, 'nbformat': 4, 'nbformat_minor': 5\n}");
    let nb = Notebook::from_str(&doc).unwrap();
    match nb.cell(0) {
        Cell::Code(cc) => assert_eq!(cc.execution_count, None),
        _ => panic!("expected a code cell"),
    }
}

#[test]
fn out_of_range_versions_are_rejected() {
    let doc = json(&"{'cells': [], 'metadata': {}, 'nbformat': 300, 'nbformat_minor': 5}");
    assert_eq!(Notebook::from_str(&doc), Err(ParseError::Schema));
    let doc2 = json(&"{'cells': [], 'metadata': {}, 'nbformat': -4, 'nbformat_minor': 5}");
    assert_eq!(Notebook::from_str(&doc2), Err(ParseError::Schema));
}

#[test]
fn surrogate_pair_escapes_are_decoded() {
    // a character beyond the basic plane written as an escaped pair
    let doc = json(&"{'cells': [{'cell_type': 'raw', 'source': ['a\\ud83d\\ude00b'], 'metadata': {}}], 'metadata': {}, 'nbformat': 4, 'nbformat_minor': 5}");
    let nb = Notebook::from_str(&doc).unwrap();
    match nb.cell(0) {
        Cell::Raw(rc) => assert_eq!(rc.source, lines(&["a\u{1F600}b"])),
        _ => panic!("expected a raw cell"),
    }
    let text = nb.save_to_str().unwrap();
    let back = Notebook::from_str(&text).unwrap();
    assert_eq!(nb, back);
}

#[test]
fn lone_surrogate_escapes_are_rejected() {
    let lone_high = json(&"{'cells': [{'cell_type': 'raw', 'source': ['\\ud83d'], 'metadata': {}}], 'metadata': {}, 'nbformat': 4, 'nbformat_minor': 5}");
    assert_eq!(Notebook::from_str(&lone_high), Err(ParseError::Syntax));
    let lone_low = json(&"{'cells': [{'cell_type': 'raw', 'source': ['\\ude00'], 'metadata': {}}], 'metadata': {}, 'nbformat': 4, 'nbformat_minor': 5}");
    assert_eq!(Notebook::from_str(&lone_low), Err(ParseError::Syntax));
    let misordered = json(&"{'cells': [{'cell_type': 'raw', 'source': ['\\ude00\\ud83d'], 'metadata': {}}], 'metadata': {}, 'nbformat': 4, 'nbformat_minor': 5}");
    assert_eq!(Notebook::from_str(&misordered), Err(ParseError::Syntax));
}

#[test]
fn set_cell_replaces_in_place() {
    let mut nb = Notebook::new();
    nb.push_markdown_cell(lines(&["a"]));
    nb.push_markdown_cell(lines(&["b"]));
    let replacement = Cell::Raw(nbterm::notebook::RawCell {
        source: lines(&["r"]),
        metadata: nbterm::json_value::JsonValue::Null,
    });
    assert!(nb.set_cell(1, replacement));
    assert_eq!(nb.len(), 2);
    match nb.cell(1) {
        Cell::Raw(rc) => assert_eq!(rc.source, lines(&["r"])),
        _ => panic!("expected the replacement"),
    }
    let out_of_range = Cell::Markdown(nbterm::notebook::MarkdownCell {
        source: lines(&["z"]),
        metadata: nbterm::json_value::JsonValue::Null,
    });
    assert!(!nb.set_cell(2, out_of_range));
    assert_eq!(nb.len(), 2);
}

#[test]
fn string_escapes_round_trip() {
    let mut nb = Notebook::new();
    nb.push_markdown_cell(lines(&[
        "quote \" backslash \\ tab \t newline \n return \r",
        "bell \u{7} form-feed \u{c} backspace \u{8}",
        "accents \u{e9}\u{e8} beyond the basic plane \u{1F600}",
    ]));
    let text = nb.save_to_str().unwrap();
    let back = Notebook::from_str(&text).unwrap();
    assert_eq!(nb, back);
}

#[test]
fn escape_sequences_in_input_are_decoded() {
    let doc = "{\"cells\": [{\"cell_type\": \"raw\", \"source\": [\"a\\tb\\n\\u0041\\\\\"], \"metadata\": {}}], \"metadata\": {}, \"nbformat\": 4, \"nbformat_minor\": 5}";
    let nb = Notebook::from_str(&doc).unwrap();
    match nb.cell(0) {
        Cell::Raw(rc) => assert_eq!(rc.source, lines(&["a\tb\nA\\"])),
        _ => panic!("expected a raw cell"),
    }
}

#[test]
fn numeric_metadata_is_preserved_verbatim() {
    let doc = json(&"{\n  'cells': [],\n  'metadata': {'height': 1.5, 'scale': 1e3, 'offset': -0.25},\n  'nbformat': 4,\n  'nbformat_minor': 5\n}");
    let nb = Notebook::from_str(&doc).unwrap();
    let text = nb.save_to_str().unwrap();
    assert!(text.contains("1.5"));
    assert!(text.contains("1e3"));
    assert!(text.contains("-0.25"));
    let back = Notebook::from_str(&text).unwrap();
    assert_eq!(nb, back);
}

#[test]
fn bad_numbers_are_rejected() {
    let doc = json(&"{'cells': [], 'metadata': {'x': 01}, 'nbformat': 4, 'nbformat_minor': 5}");
    assert_eq!(Notebook::from_str(&doc), Err(ParseError::Syntax));
    let doc2 = json(&"{'cells': [], 'metadata': {'x': 1.}, 'nbformat': 4, 'nbformat_minor': 5}");
    assert_eq!(Notebook::from_str(&doc2), Err(ParseError::Syntax));
}

#[test]
fn saved_text_is_json_for_other_readers() {
    let mut nb = Notebook::new();
    nb.push_markdown_cell(lines(&["# T\u{e9}st \"quoted\""]));
    nb.push_code_cell(lines(&["x"]), Some(7), vec![]);
    let text = nb.save_to_str().unwrap();
    let v: serde_json::Value = serde_json::from_str(&text).expect("canonical text is valid JSON");
    assert_eq!(v["nbformat"], serde_json::Value::from(4u8));
    assert_eq!(v["cells"][0]["cell_type"], serde_json::Value::from("markdown"));
    assert_eq!(v["cells"][1]["execution_count"], serde_json::Value::from(7u32));
    assert_eq!(
        v["cells"][0]["source"][0],
        serde_json::Value::from("# T\u{e9}st \"quoted\"")
    );
}

#[test]
fn error_messages_name_the_failure() {
    assert!(ParseError::Syntax.message().contains("JSON"));
    assert!(ParseError::Schema.message().contains("schema"));
}
