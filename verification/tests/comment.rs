use arduino_report_size_deltas::report_structs::{
    Board, BoardSize, Relative, Report, ReportOld, SizeValue, Sketch, SketchDeltaSize, SketchSize,
    SketchSizeKind,
};
use arduino_report_size_deltas::summarize::helpers::{
    append_board, append_to_comment, board_heading_text, detail_row_text, general_row_text,
    generate_detailed_table, generate_general_table, remaining_capacity, table_header, table_row,
    END_DETAILS, MAX_COMMENT_LEN, START_DETAILS, TABLE_DIVIDER,
};
use arduino_report_size_deltas::summarize::order::sort_reports;
use arduino_report_size_deltas::summarize::rows::summarize_boards;
use arduino_report_size_deltas::{
    generate_comment, parse_artifacts, CommentAssemblyError, COMMENT_MARKER,
};

const GENERAL_HEADER: [&str; 5] = ["Board", "Flash", "%", "RAM for global variables", "%"];

const GENERAL_HEAD: &str =
    "| Board | Flash | % | RAM for global variables | % |\n|---|---|---|---|---|\n";

const DETAIL_HEAD: &str =
    "| Sketch | Flash | % | RAM for global variables | % |\n|---|---|---|---|---|\n";

fn relative(value: f32) -> Relative {
    Relative { bits: value.to_bits(), text: value.to_string() }
}

fn figure(absolute: i64, share: f32) -> SketchDeltaSize {
    SketchDeltaSize {
        absolute: SizeValue::Known(absolute),
        relative: Some(SizeValue::Known(relative(share))),
    }
}

fn not_applicable() -> SketchDeltaSize {
    SketchDeltaSize {
        absolute: SizeValue::NotApplicable("N/A".to_string()),
        relative: Some(SizeValue::NotApplicable("N/A".to_string())),
    }
}

fn record(current: SketchDeltaSize, delta: Option<SketchDeltaSize>) -> SketchSize {
    SketchSize { maximum: None, current, previous: None, delta }
}

fn sketch(name: &str, flash: SketchDeltaSize, ram: SketchDeltaSize) -> Sketch {
    Sketch {
        name: name.to_string(),
        compilation_success: true,
        sizes: vec![
            SketchSizeKind::Flash { size: record(figure(1000, 3.1), Some(flash)) },
            SketchSizeKind::Ram { size: record(figure(9, 0.44), Some(ram)) },
        ],
        warnings: None,
    }
}

fn board(name: &str, sketches: Vec<Sketch>) -> Board {
    Board {
        board: name.to_string(),
        sketches,
        sizes: Some(vec![
            BoardSize::Flash { maximum: Some(SizeValue::Known(30720)) },
            BoardSize::Ram { maximum: Some(SizeValue::Known(2048)) },
        ]),
    }
}

fn report(hash: &str, boards: Vec<Board>) -> Report {
    Report {
        boards,
        commit_hash: hash.to_string(),
        commit_url: format!("https://example.com/commit/{hash}"),
    }
}

fn uno_report() -> Report {
    report(
        "d8fd302",
        vec![board(
            "arduino:avr:uno",
            vec![
                sketch("examples/Blink", figure(10, 0.03), figure(0, 0.0)),
                sketch("examples/Fade", figure(-4, -0.01), figure(2, 0.1)),
            ],
        )],
    )
}

fn nano_report() -> Report {
    report(
        "54815a7",
        vec![board(
            "arduino:avr:nano",
            vec![sketch("examples/Blink", not_applicable(), not_applicable())],
        )],
    )
}

/// A report like those that a compilation of one sketch for one board gives.
fn get_report() -> Report {
    report(
        "d8fd302",
        vec![board(
            "arduino:avr:nano",
            vec![sketch("examples/Blink", figure(-12, -0.04), figure(0, 0.0))],
        )],
    )
}

const EXPECTED: &str = "<!-- 2bndy5/arduino-report-size-deltas -->
### Memory usage change @ 54815a7

| Board | Flash | % | RAM for global variables | % |
|---|---|---|---|---|
| arduino:avr:nano | N/A | N/A | N/A | N/A |
| arduino:avr:uno | :grey_question: -4 - +10 | -0.01 - +0.03 | :small_red_triangle: 0 - +2 | 0 - +0.1 |

<details><summary>Click for full report per board</summary>

### `arduino:avr:nano`

| Sketch | Flash | % | RAM for global variables | % |
|---|---|---|---|---|
| examples/Blink | N/A | N/A | N/A | N/A |

### `arduino:avr:uno`

| Sketch | Flash | % | RAM for global variables | % |
|---|---|---|---|---|
| examples/Blink | +10 | +0.03 | 0 | 0 |
| examples/Fade | -4 | -0.01 | +2 | +0.1 |

</details>
";

#[test]
fn comment_of_two_reports() {
    let comment = generate_comment(vec![uno_report(), nano_report()]).unwrap();
    assert_eq!(comment, EXPECTED);
    assert!(comment.starts_with(COMMENT_MARKER));
}

#[test]
fn comment_does_not_depend_on_the_order_of_the_reports() {
    let comment = generate_comment(vec![nano_report(), uno_report()]).unwrap();
    assert_eq!(comment, EXPECTED);
}

#[test]
fn use_new_test_assets() {
    let reports = parse_artifacts(vec![Ok(get_report())]).unwrap();
    let comment = generate_comment(reports).unwrap();
    let expected = format!(
        "{COMMENT_MARKER}### Memory usage change @ d8fd302\n\n{GENERAL_HEAD}\
         | arduino:avr:nano | :green_heart: -12 - -12 | -0.04 - -0.04 |  0 - 0 | 0 - 0 |\n\
         {START_DETAILS}\n### `arduino:avr:nano`\n\n{DETAIL_HEAD}\
         | examples/Blink | -12 | -0.04 | 0 | 0 |\n{END_DETAILS}"
    );
    assert_eq!(comment, expected);
}

#[test]
fn use_old_test_assets() {
    let old = ReportOld {
        board: "arduino:avr:leonardo".to_string(),
        commit_hash: "54815a7".to_string(),
        commit_url: "https://example.com/commit/54815a7".to_string(),
        sketches: vec![sketch("examples/Foo", figure(1, 0.1), figure(1, 0.1))],
        sizes: None,
    };
    let reports = parse_artifacts(vec![Ok(old.upgrade())]).unwrap();
    assert!(matches!(
        generate_comment(reports),
        Err(CommentAssemblyError::NotFound)
    ));
}

#[test]
fn no_reports_no_comment() {
    assert!(matches!(generate_comment(vec![]), Err(CommentAssemblyError::NotFound)));
}

#[test]
fn reports_are_ordered_by_their_first_board() {
    let named = |name: &str, hash: &str| report(hash, vec![board(name, vec![])]);
    let reports = vec![
        named("esp32:esp32:esp32", "1"),
        named("arduino:avr:uno", "2"),
        named("arduino:samd:mkr1000", "3"),
        named("arduino:avr:uno", "4"),
        named("arduino:avr:nano", "5"),
        named("arduino:avr:uno", "6"),
    ];
    let sorted = sort_reports(reports);
    let order: Vec<(&str, &str)> = sorted
        .iter()
        .map(|report| (report.boards[0].board.as_str(), report.commit_hash.as_str()))
        .collect();
    assert_eq!(
        order,
        [
            ("arduino:avr:nano", "5"),
            ("arduino:avr:uno", "2"),
            ("arduino:avr:uno", "4"),
            ("arduino:avr:uno", "6"),
            ("arduino:samd:mkr1000", "3"),
            ("esp32:esp32:esp32", "1"),
        ]
    );
    assert!(sort_reports(vec![]).is_empty());
}

#[test]
fn only_the_first_board_orders_a_report() {
    let first = report("1", vec![board("b", vec![]), board("a", vec![])]);
    let second = report("2", vec![board("a", vec![]), board("z", vec![])]);
    let comment = generate_comment(vec![first, second]).unwrap();
    assert!(comment.starts_with(&format!("{COMMENT_MARKER}### Memory usage change @ 2\n\n")));
    let places: Vec<usize> =
        ["### `a`\n", "### `z`\n", "### `b`\n"].iter().map(|h| comment.find(h).unwrap()).collect();
    assert!(places[0] < places[1] && places[1] < places[2]);
    assert_eq!(comment.matches("### `a`\n").count(), 2);
}

#[test]
fn boards_of_one_name_share_a_row() {
    let first = report(
        "1",
        vec![board("same", vec![sketch("one", figure(5, 0.5), figure(-1, -0.1))])],
    );
    let second = report(
        "2",
        vec![board("same", vec![sketch("two", figure(-3, -0.3), figure(4, 0.4))])],
    );
    let rows = summarize_boards(&vec![first, second]);
    assert_eq!(rows.len(), 1);
    assert_eq!(
        general_row_text(&rows[0]),
        "| same | :grey_question: -3 - +5 | -0.3 - +0.5 | :grey_question: -1 - +4 | -0.1 - +0.4 |\n"
    );
}

#[test]
fn missing_bounds_of_a_row_keep_the_usual_text() {
    let reports = vec![report(
        "1",
        vec![board(
            "a",
            vec![Sketch {
                name: "flash only".to_string(),
                compilation_success: true,
                sizes: vec![SketchSizeKind::Flash {
                    size: record(
                        SketchDeltaSize { absolute: SizeValue::Known(3), relative: None },
                        None,
                    ),
                }],
                warnings: None,
            }],
        )],
    )];
    let rows = summarize_boards(&reports);
    let usual = |value: &SizeValue<i64>| matches!(value, SizeValue::NotApplicable(t) if t == "N/A");
    let usual_relative =
        |value: &SizeValue<Relative>| matches!(value, SizeValue::NotApplicable(t) if t == "N/A");
    assert!(matches!(rows[0].summary.flash.minimum.absolute, SizeValue::Known(3)));
    assert!(matches!(rows[0].summary.flash.maximum.absolute, SizeValue::Known(3)));
    assert!(usual_relative(&rows[0].summary.flash.minimum.relative));
    assert!(usual_relative(&rows[0].summary.flash.maximum.relative));
    assert!(usual(&rows[0].summary.ram.minimum.absolute));
    assert!(usual(&rows[0].summary.ram.maximum.absolute));
    assert!(usual_relative(&rows[0].summary.ram.minimum.relative));
    assert!(usual_relative(&rows[0].summary.ram.maximum.relative));
}

#[test]
fn rows_of_the_general_table_stand_by_name() {
    let reports = vec![report(
        "1",
        vec![board("c", vec![]), board("a", vec![]), board("b", vec![]), board("a", vec![])],
    )];
    let rows = summarize_boards(&reports);
    let names: Vec<&str> = rows.iter().map(|row| row.board.as_str()).collect();
    assert_eq!(names, ["a", "b", "c"]);
}

#[test]
fn detail_row_shows_the_figures_of_the_sketch() {
    let row = detail_row_text(&sketch("examples/Blink", figure(10, 0.03), figure(0, 0.0)));
    assert_eq!(row, "| examples/Blink | +10 | +0.03 | 0 | 0 |\n");

    let bare = Sketch { name: "bare".to_string(), ..Sketch::default() };
    assert_eq!(detail_row_text(&bare), "| bare |  |  |  |  |\n");

    let current_only = Sketch {
        name: "first/build".to_string(),
        compilation_success: true,
        sizes: vec![
            SketchSizeKind::Ram {
                size: record(
                    SketchDeltaSize { absolute: SizeValue::Known(184), relative: None },
                    None,
                ),
            },
            SketchSizeKind::Flash { size: record(figure(1444, 4.48), None) },
        ],
        warnings: None,
    };
    assert_eq!(detail_row_text(&current_only), "| first/build | +1444 | +4.48 | +184 |  |\n");
}

#[test]
fn later_record_of_a_kind_replaces_the_earlier() {
    let twice = Sketch {
        name: "twice".to_string(),
        compilation_success: true,
        sizes: vec![
            SketchSizeKind::Flash { size: record(figure(1, 0.5), None) },
            SketchSizeKind::Flash {
                size: record(
                    SketchDeltaSize { absolute: SizeValue::Known(-2), relative: None },
                    None,
                ),
            },
        ],
        warnings: None,
    };
    assert_eq!(detail_row_text(&twice), "| twice | -2 | +0.5 |  |  |\n");
}

#[test]
fn table_parts_are_written_as_markdown() {
    assert_eq!(table_row("a", "b", "c", "d", "e"), "| a | b | c | d | e |\n");
    assert_eq!(table_row("", "", "", "", ""), "|  |  |  |  |  |\n");
    assert_eq!(table_header("Board"), GENERAL_HEAD);
    assert_eq!(table_header("Sketch"), DETAIL_HEAD);
    assert_eq!(
        table_header("Board"),
        format!("| {} |\n{TABLE_DIVIDER}", GENERAL_HEADER.join(" | "))
    );
    assert_eq!(board_heading_text("arduino:avr:uno"), "\n### `arduino:avr:uno`\n\n");
}

#[test]
fn append_adds_what_fits() {
    let mut comment = String::from("abc");
    assert_eq!(append_to_comment(&mut comment, "defg", 10), 6);
    assert_eq!(comment, "abcdefg");
    assert_eq!(append_to_comment(&mut comment, "hi", 2), 0);
    assert_eq!(comment, "abcdefghi");
    assert_eq!(append_to_comment(&mut comment, "", 0), 0);
    assert_eq!(comment, "abcdefghi");
}

#[test]
fn append_leaves_out_what_does_not_fit() {
    let mut comment = String::from("abc");
    assert_eq!(append_to_comment(&mut comment, "defg", 3), 3);
    assert_eq!(comment, "abc");
    assert_eq!(append_to_comment(&mut comment, "d", 0), 0);
    assert_eq!(comment, "abc");
}

#[test]
fn append_counts_bytes() {
    let mut comment = String::new();
    assert_eq!(append_to_comment(&mut comment, "\u{e9}\u{e9}", 3), 3);
    assert_eq!(comment, "");
    assert_eq!(append_to_comment(&mut comment, "\u{e9}\u{e9}", 4), 0);
    assert_eq!(comment, "\u{e9}\u{e9}");
}

#[test]
fn capacity_is_what_the_greatest_length_leaves() {
    assert_eq!(MAX_COMMENT_LEN, 65536);
    assert_eq!(remaining_capacity(&String::new()), 65536);
    assert_eq!(remaining_capacity(&"x".repeat(65535)), 1);
    assert_eq!(remaining_capacity(&"x".repeat(65536)), 0);
    assert_eq!(remaining_capacity(&"x".repeat(70000)), 0);
}

#[test]
fn max_len_general() {
    let mut comment = String::new();
    for _ in 0..MAX_COMMENT_LEN {
        comment.push('.');
    }
    let reports = vec![get_report()];
    generate_general_table(&reports, &mut comment);
    assert_eq!(comment, ".".repeat(MAX_COMMENT_LEN));
}

fn detail_comment_maxed(already_full: bool) -> String {
    let mut comment = String::new();
    let test_max = if already_full {
        MAX_COMMENT_LEN
    } else {
        let empty_space = format!("| {} |", GENERAL_HEADER.join(" | ")).len() * 2;
        MAX_COMMENT_LEN - END_DETAILS.len() - START_DETAILS.len() - empty_space
    };
    for _ in 0..test_max {
        comment.push('.');
    }
    let reports = vec![get_report()];
    generate_detailed_table(&reports, &mut comment);
    comment
}

#[test]
fn max_detail_len() {
    let full = detail_comment_maxed(true);
    assert_eq!(full, ".".repeat(MAX_COMMENT_LEN));

    let partial = detail_comment_maxed(false);
    assert!(partial.len() <= MAX_COMMENT_LEN);
    let added = &partial[partial.find('\n').unwrap()..];
    assert_eq!(
        added,
        format!("{START_DETAILS}\n### `arduino:avr:nano`\n\n{DETAIL_HEAD}{END_DETAILS}")
    );
}

fn filled(room: usize) -> String {
    ".".repeat(MAX_COMMENT_LEN - room)
}

#[test]
fn general_table_stops_at_the_row_that_does_not_fit() {
    let reports = vec![uno_report(), nano_report()];
    let first = "| arduino:avr:nano | N/A | N/A | N/A | N/A |\n";
    let second = "| arduino:avr:uno | :grey_question: -4 - +10 | -0.01 - +0.03 | \
                  :small_red_triangle: 0 - +2 | 0 - +0.1 |\n";

    let table = |room: usize| {
        let mut comment = filled(room);
        generate_general_table(&reports, &mut comment);
        assert!(comment.len() <= MAX_COMMENT_LEN);
        comment[MAX_COMMENT_LEN - room..].to_string()
    };
    assert_eq!(table(0), "");
    assert_eq!(table(GENERAL_HEAD.len() - 1), "");
    assert_eq!(table(GENERAL_HEAD.len()), GENERAL_HEAD);
    assert_eq!(table(GENERAL_HEAD.len() + first.len() - 1), GENERAL_HEAD);
    assert_eq!(table(GENERAL_HEAD.len() + first.len()), format!("{GENERAL_HEAD}{first}"));
    assert_eq!(
        table(GENERAL_HEAD.len() + first.len() + second.len() - 1),
        format!("{GENERAL_HEAD}{first}")
    );
    assert_eq!(
        table(GENERAL_HEAD.len() + first.len() + second.len()),
        format!("{GENERAL_HEAD}{first}{second}")
    );
}

#[test]
fn row_that_does_not_fit_ends_its_table() {
    let reports = vec![report(
        "1",
        vec![board("a", vec![]), board(&"b".repeat(100), vec![]), board("c", vec![])],
    )];
    let short = "| a | N/A | N/A | N/A | N/A |\n";
    let mut comment = filled(GENERAL_HEAD.len() + 2 * short.len());
    generate_general_table(&reports, &mut comment);
    assert_eq!(comment, format!("{}{GENERAL_HEAD}{short}", filled(GENERAL_HEAD.len() + 2 * short.len())));
}

#[test]
fn folded_part_needs_room_for_its_frame() {
    let reports = vec![get_report()];
    let frame = START_DETAILS.len() + END_DETAILS.len();

    let mut comment = filled(frame - 1);
    generate_detailed_table(&reports, &mut comment);
    assert_eq!(comment, filled(frame - 1));

    let mut comment = filled(frame);
    generate_detailed_table(&reports, &mut comment);
    assert_eq!(comment, format!("{}{START_DETAILS}{END_DETAILS}", filled(frame)));
    assert_eq!(comment.len(), MAX_COMMENT_LEN);
}

#[test]
fn folded_part_moves_on_to_the_next_board() {
    let long = "x".repeat(200);
    let reports = vec![report(
        "1",
        vec![
            board(&long, vec![sketch("one", figure(1, 0.1), figure(1, 0.1))]),
            board("b", vec![sketch(&long, figure(1, 0.1), figure(1, 0.1)), sketch("s", figure(1, 0.1), figure(1, 0.1))]),
            board("c", vec![sketch("two", figure(2, 0.2), figure(2, 0.2))]),
        ],
    )];
    let heading_b = "\n### `b`\n\n";
    let heading_c = "\n### `c`\n\n";
    let row = "| two | +2 | +0.2 | +2 | +0.2 |\n";
    let room = START_DETAILS.len()
        + END_DETAILS.len()
        + heading_b.len()
        + heading_c.len()
        + 2 * DETAIL_HEAD.len()
        + row.len();
    let mut comment = filled(room);
    generate_detailed_table(&reports, &mut comment);
    assert_eq!(
        comment,
        format!(
            "{}{START_DETAILS}{heading_b}{DETAIL_HEAD}{heading_c}{DETAIL_HEAD}{row}{END_DETAILS}",
            filled(room)
        )
    );
    assert_eq!(comment.len(), MAX_COMMENT_LEN);
}

#[test]
fn board_part_stops_at_the_unit_that_does_not_fit() {
    let uno = board(
        "u",
        vec![
            sketch("one", figure(1, 0.1), figure(1, 0.1)),
            sketch("two", figure(2, 0.2), figure(2, 0.2)),
        ],
    );
    let heading = "\n### `u`\n\n";
    let one = "| one | +1 | +0.1 | +1 | +0.1 |\n";
    let two = "| two | +2 | +0.2 | +2 | +0.2 |\n";
    let part = |limit: usize| {
        let mut comment = String::from("start");
        let left = append_board(&mut comment, &uno, limit);
        assert_eq!(left, limit - (comment.len() - 5));
        comment[5..].to_string()
    };
    assert_eq!(part(0), "");
    assert_eq!(part(heading.len() - 1), "");
    assert_eq!(part(heading.len()), heading);
    assert_eq!(part(heading.len() + DETAIL_HEAD.len() - 1), heading);
    assert_eq!(part(heading.len() + DETAIL_HEAD.len()), format!("{heading}{DETAIL_HEAD}"));
    assert_eq!(
        part(heading.len() + DETAIL_HEAD.len() + one.len() + two.len() - 1),
        format!("{heading}{DETAIL_HEAD}{one}")
    );
    assert_eq!(part(1000), format!("{heading}{DETAIL_HEAD}{one}{two}"));
}

#[test]
fn long_comment_stays_within_the_greatest_length() {
    let sketches = |count: usize| -> Vec<Sketch> {
        (0..count)
            .map(|i| sketch(&format!("examples/Sketch{i:04}"), figure(i as i64, 0.5), figure(-1, -0.5)))
            .collect()
    };
    let reports: Vec<Report> = (0..40)
        .map(|i| report("abc", vec![board(&format!("vendor:arch:board{i:02}"), sketches(60))]))
        .collect();
    let comment = generate_comment(reports).unwrap();
    assert!(comment.len() <= MAX_COMMENT_LEN);
    assert!(comment.len() > MAX_COMMENT_LEN - 100);
    assert!(comment.ends_with(END_DETAILS));
    assert!(comment.contains("| vendor:arch:board39 | "));
}

#[test]
fn heading_longer_than_the_greatest_length_stands_alone() {
    let hash = "f".repeat(MAX_COMMENT_LEN);
    let comment = generate_comment(vec![report(&hash, vec![board("a", vec![])])]).unwrap();
    assert_eq!(comment, format!("{COMMENT_MARKER}### Memory usage change @ {hash}\n\n"));
}
