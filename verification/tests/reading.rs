use arduino_report_size_deltas::report_structs::{
    Board, BoardSize, Report, ReportOld, SizeValue, Sketch,
};
use arduino_report_size_deltas::reports::{resolve, visit, Visit};
use arduino_report_size_deltas::vectors::reversed;
use arduino_report_size_deltas::{parse_artifacts, parse_json, CommentAssemblyError, JsonError};
use serde::de::Error;
use serde_json::Value;

fn text_field(document: &Value, name: &'static str) -> Result<String, serde_json::Error> {
    match document.get(name) {
        Some(Value::String(text)) => Ok(text.clone()),
        Some(_) => Err(serde_json::Error::custom("invalid type: expected a string")),
        None => Err(serde_json::Error::missing_field(name)),
    }
}

fn limits(document: &Value) -> Result<Option<Vec<BoardSize>>, serde_json::Error> {
    let entries = match document.get("sizes") {
        None | Some(Value::Null) => return Ok(None),
        Some(Value::Array(entries)) => entries,
        Some(_) => return Err(serde_json::Error::custom("invalid type: expected a sequence")),
    };
    let mut sizes = vec![];
    for entry in entries {
        let maximum = match entry.get("maximum") {
            None | Some(Value::Null) => None,
            Some(Value::String(text)) => Some(SizeValue::NotApplicable(text.clone())),
            Some(value) => match value.as_u64() {
                Some(number) => Some(SizeValue::Known(number)),
                None => return Err(serde_json::Error::custom("data did not match any variant")),
            },
        };
        match text_field(entry, "name")?.as_str() {
            "flash" => sizes.push(BoardSize::Flash { maximum }),
            "RAM for global variables" => sizes.push(BoardSize::Ram { maximum }),
            _ => return Err(serde_json::Error::custom("unknown variant")),
        }
    }
    Ok(Some(sizes))
}

fn sketches(document: &Value) -> Result<Vec<Sketch>, serde_json::Error> {
    let entries = match document.get("sketches") {
        Some(Value::Array(entries)) => entries,
        Some(_) => return Err(serde_json::Error::custom("invalid type: expected a sequence")),
        None => return Err(serde_json::Error::missing_field("sketches")),
    };
    let mut sketches = vec![];
    for entry in entries {
        sketches.push(Sketch {
            name: text_field(entry, "name")?,
            compilation_success: entry
                .get("compilation_success")
                .and_then(Value::as_bool)
                .ok_or_else(|| serde_json::Error::missing_field("compilation_success"))?,
            sizes: vec![],
            warnings: None,
        });
    }
    Ok(sketches)
}

/// Reads a text in the current layout, as far as these tests need it.
fn canonical(text: &str) -> Result<Report, serde_json::Error> {
    let document: Value = serde_json::from_str(text)?;
    let entries = match document.get("boards") {
        Some(Value::Array(entries)) => entries,
        Some(_) => return Err(serde_json::Error::custom("invalid type: expected a sequence")),
        None => return Err(serde_json::Error::missing_field("boards")),
    };
    let mut boards = vec![];
    for entry in entries {
        boards.push(Board {
            board: text_field(entry, "board")?,
            sketches: sketches(entry)?,
            sizes: limits(entry)?,
        });
    }
    Ok(Report {
        boards,
        commit_hash: text_field(&document, "commit_hash")?,
        commit_url: text_field(&document, "commit_url")?,
    })
}

/// Reads a text in the older layout, as far as these tests need it.
fn legacy(text: &str) -> Result<ReportOld, serde_json::Error> {
    let document: Value = serde_json::from_str(text)?;
    Ok(ReportOld {
        board: text_field(&document, "board")?,
        commit_hash: text_field(&document, "commit_hash")?,
        commit_url: text_field(&document, "commit_url")?,
        sketches: sketches(&document)?,
        sizes: limits(&document)?,
    })
}

fn read(text: &str) -> Result<Report, JsonError> {
    parse_json(canonical(text), || legacy(text))
}

const NEW_REPORT: &str = r#"{
    "commit_hash": "d8fd302",
    "commit_url": "https://example.com/commit/d8fd302",
    "boards": [
        {
            "board": "arduino:avr:nano",
            "sketches": [{"name": "examples/Blink", "compilation_success": true, "sizes": []}],
            "sizes": [
                {"name": "flash", "maximum": 30720},
                {"name": "RAM for global variables", "maximum": 2048}
            ]
        }
    ]
}"#;

const OLD_REPORT: &str = r#"{
    "board": "arduino:avr:leonardo",
    "commit_hash": "54815a7",
    "commit_url": "https://example.com/commit/54815a7",
    "sketches": [{"name": "examples/Foo", "compilation_success": true, "sizes": []}]
}"#;

const OLD_REPORT_WITH_LIMITS: &str = r#"{
    "board": "arduino:avr:leonardo",
    "commit_hash": "54815a7",
    "commit_url": "https://example.com/commit/54815a7",
    "sketches": [],
    "sizes": [{"name": "flash", "maximum": 28672}]
}"#;

#[test]
fn parse_new() {
    let report = read(NEW_REPORT).unwrap();
    assert!(!report.boards.is_empty());
    assert!(report.is_valid());
    assert_eq!(report.boards[0].board, "arduino:avr:nano");
    assert_eq!(report.commit_hash, "d8fd302");
}

#[test]
fn parse_old() {
    let report = read(OLD_REPORT).unwrap();
    assert!(!report.boards.is_empty());
    assert!(!report.is_valid());
    assert_eq!(report.boards.len(), 1);
    assert_eq!(report.boards[0].board, "arduino:avr:leonardo");
    assert_eq!(report.boards[0].sketches.len(), 1);
    assert_eq!(report.commit_hash, "54815a7");
    assert_eq!(report.commit_url, "https://example.com/commit/54815a7");
}

#[test]
fn parse_old_with_limits() {
    let report = read(OLD_REPORT_WITH_LIMITS).unwrap();
    assert_eq!(report.boards.len(), 1);
    assert!(report.is_valid());
}

#[test]
fn bad_json() {
    let result = read("");
    assert!(result.is_err_and(|e| matches!(e, JsonError::Serde(_))));
}

#[test]
fn bad_report() {
    let result = read("{}");
    assert!(result.is_err_and(|e| matches!(e, JsonError::Serde(_))));
}

#[test]
fn first_failure_is_the_one_reported() {
    let first = canonical("{}").unwrap_err().to_string();
    let second = legacy("{}").unwrap_err().to_string();
    assert_ne!(first, second);
    match read("{}") {
        Err(JsonError::Serde(fault)) => assert_eq!(fault.to_string(), first),
        other => panic!("unexpected outcome: {other:?}"),
    }
}

#[test]
fn malformed_text_is_not_tried_in_the_older_layout() {
    let broken = canonical("{\"board\": ").unwrap_err();
    assert!(!broken.is_data());
    let shown = broken.to_string();
    let mut tried = false;
    let outcome = parse_json(Err(broken), || {
        tried = true;
        legacy(OLD_REPORT)
    });
    assert!(!tried);
    match outcome {
        Err(JsonError::Serde(fault)) => assert_eq!(fault.to_string(), shown),
        other => panic!("unexpected outcome: {other:?}"),
    }
}

#[test]
fn structural_failure_falls_back_to_the_older_layout() {
    let mismatch = canonical(OLD_REPORT).unwrap_err();
    assert!(mismatch.is_data());
    let report = parse_json(Err(mismatch), || legacy(OLD_REPORT)).unwrap();
    assert_eq!(report.boards.len(), 1);
    assert_eq!(report.boards[0].board, "arduino:avr:leonardo");
}

#[test]
fn current_layout_wins_over_the_older_one() {
    let mut tried = false;
    let report = parse_json(canonical(NEW_REPORT), || {
        tried = true;
        legacy(OLD_REPORT)
    })
    .unwrap();
    assert!(!tried);
    assert_eq!(report.boards[0].board, "arduino:avr:nano");
    assert_eq!(report.commit_hash, "d8fd302");
}

#[test]
fn resolve_follows_the_kind_of_the_first_failure() {
    let fault = || canonical("{}").unwrap_err();
    let shown = fault().to_string();

    let report = resolve(Err(fault()), true, || legacy(OLD_REPORT)).unwrap();
    assert_eq!(report.boards[0].board, "arduino:avr:leonardo");

    match resolve(Err(fault()), false, || legacy(OLD_REPORT)) {
        Err(JsonError::Serde(fault)) => assert_eq!(fault.to_string(), shown),
        other => panic!("unexpected outcome: {other:?}"),
    }
    match resolve(Err(fault()), true, || legacy("[]")) {
        Err(JsonError::Serde(fault)) => assert_eq!(fault.to_string(), shown),
        other => panic!("unexpected outcome: {other:?}"),
    }
    for structural in [true, false] {
        let report = resolve(canonical(NEW_REPORT), structural, || legacy(OLD_REPORT)).unwrap();
        assert_eq!(report.boards[0].board, "arduino:avr:nano");
    }
}

fn valid_report(name: &str) -> Report {
    Report {
        boards: vec![Board {
            board: name.to_string(),
            sketches: vec![],
            sizes: Some(vec![BoardSize::Flash { maximum: Some(SizeValue::Known(1024)) }]),
        }],
        commit_hash: String::new(),
        commit_url: String::new(),
    }
}

fn names(reports: &[Report]) -> Vec<&str> {
    reports.iter().map(|report| report.boards[0].board.as_str()).collect()
}

#[test]
fn artifacts_keep_their_order_and_drop_what_is_not_valid() {
    let outcomes = vec![
        Ok(valid_report("c")),
        read(OLD_REPORT),
        Ok(valid_report("a")),
        Ok(Report::default()),
        Ok(valid_report("b")),
    ];
    let reports = parse_artifacts(outcomes).unwrap();
    assert_eq!(names(&reports), ["c", "a", "b"]);
}

#[test]
fn artifacts_of_nothing_are_nothing() {
    assert!(parse_artifacts(vec![]).unwrap().is_empty());
    assert!(parse_artifacts(vec![read(OLD_REPORT)]).unwrap().is_empty());
}

#[test]
fn first_unreadable_file_fails_the_whole() {
    let missing = || std::io::Error::new(std::io::ErrorKind::NotFound, "not-a-file.json");
    let outcomes = vec![
        Ok(valid_report("a")),
        Err(JsonError::FileReadFail(missing())),
        read("{}"),
        Ok(valid_report("b")),
    ];
    assert!(matches!(
        parse_artifacts(outcomes),
        Err(CommentAssemblyError::Json(JsonError::FileReadFail(_)))
    ));
    let outcomes = vec![read("{}"), Err(JsonError::FileReadFail(missing()))];
    assert!(matches!(
        parse_artifacts(outcomes),
        Err(CommentAssemblyError::Json(JsonError::Serde(_)))
    ));
}

#[test]
fn errors_convert_as_they_are_wrapped() {
    let missing = || std::io::Error::new(std::io::ErrorKind::NotFound, "gone");
    assert!(matches!(JsonError::from(missing()), JsonError::FileReadFail(_)));
    assert!(matches!(JsonError::from(canonical("").unwrap_err()), JsonError::Serde(_)));
    assert!(matches!(CommentAssemblyError::from(missing()), CommentAssemblyError::Io(_)));
    assert!(matches!(
        CommentAssemblyError::from(JsonError::from(missing())),
        CommentAssemblyError::Json(JsonError::FileReadFail(_))
    ));
}

#[test]
fn entries_are_sorted_into_three_kinds() {
    assert_eq!(visit(true, None), Visit::Descend);
    assert_eq!(visit(true, Some("json")), Visit::Descend);
    assert_eq!(visit(false, Some("json")), Visit::Parse);
    assert_eq!(visit(false, Some("md")), Visit::Ignore);
    assert_eq!(visit(false, Some("JSON")), Visit::Ignore);
    assert_eq!(visit(false, Some("json5")), Visit::Ignore);
    assert_eq!(visit(false, Some("jso")), Visit::Ignore);
    assert_eq!(visit(false, Some("")), Visit::Ignore);
    assert_eq!(visit(false, None), Visit::Ignore);
}

#[test]
fn reversed_turns_the_order_round() {
    assert_eq!(reversed(vec![1, 2, 3]), [3, 2, 1]);
    assert!(reversed(Vec::<u8>::new()).is_empty());
    assert_eq!(reversed(vec!["a"]), ["a"]);
}
