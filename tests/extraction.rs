use std::str::FromStr;

use data4mysql::audit::{log_line, stamped_log_line};
use data4mysql::config::{DELIMITER, LEDGER_CHUNK_ROWS};
use data4mysql::dispatch::{column_type_of, remove_char, render_cell, sanitizes_column, CellValue, ColumnType};
use data4mysql::naming::{
    chunk_file_name, display_name, join_path, ledger_file_names, plan_chunk_files, plan_ledger_files, table_file_name,
    UNRESOLVED_LOG,
};
use data4mysql::planner::{plan_windows, ChunkWindow};
use data4mysql::queries::{count_query, lookup_query, select_query};
use data4mysql::records::{encode_chunk, render_row, sanitized_columns, CsvFormat};
use data4mysql::run::{completion_message, EntityResult, Lookup, Report, Run};
use data4mysql::text::{i64_text, join_lines, u64_text};

fn strings(items: &[&str]) -> Vec<String> {
    items.iter().map(|s| s.to_string()).collect()
}

fn lookups(names: &[&str], codes: Vec<Option<&str>>) -> Vec<Lookup> {
    names
        .iter()
        .zip(codes)
        .map(|(name, code)| Lookup { name: name.to_string(), code: code.map(|c| c.to_string()) })
        .collect()
}

fn pipe_format() -> CsvFormat {
    CsvFormat { delimiter: DELIMITER, always_quote: false }
}

#[test]
fn display_name_takes_third_segment() {
    assert_eq!(display_name("proj_a_Acme"), "Acme");
    assert_eq!(display_name("proj_b_Globex"), "Globex");
    assert_eq!(display_name("a_b_c_d"), "c");
    assert_eq!(display_name("a_b_"), "");
}

#[test]
fn display_name_falls_back_to_whole_name() {
    assert_eq!(display_name("Acme"), "Acme");
    assert_eq!(display_name("proj_Acme"), "proj_Acme");
    assert_eq!(display_name(""), "");
}

#[test]
fn integers_render_in_decimal() {
    assert_eq!(u64_text(0), "0");
    assert_eq!(u64_text(907), "907");
    assert_eq!(u64_text(u64::MAX), "18446744073709551615");
    assert_eq!(i64_text(-42), "-42");
    assert_eq!(i64_text(i64::MIN), "-9223372036854775808");
    assert_eq!(i64_text(7), "7");
}

#[test]
fn windows_cover_large_table() {
    let w = plan_windows(3_500_000, 2_000_000);
    assert_eq!(
        w,
        vec![
            ChunkWindow { offset: 0, size: 2_000_000, sequence: 1 },
            ChunkWindow { offset: 2_000_000, size: 1_500_000, sequence: 2 },
        ]
    );
}

#[test]
fn windows_of_empty_table() {
    assert_eq!(plan_windows(0, 5), vec![ChunkWindow { offset: 0, size: 0, sequence: 1 }]);
}

#[test]
fn windows_count_is_ceiling() {
    for (total, chunk) in [(10u64, 5u64), (11, 5), (1, 5), (5, 1), (99, 10), (100, 10)] {
        let w = plan_windows(total, chunk);
        let expected = if total == 0 { 1 } else { (total + chunk - 1) / chunk };
        assert_eq!(w.len() as u64, expected);
        let mut covered = 0;
        for (i, win) in w.iter().enumerate() {
            assert!(win.size <= chunk);
            assert_eq!(win.offset, i as u64 * chunk);
            assert_eq!(win.sequence, i as u64 + 1);
            covered += win.size;
        }
        assert_eq!(covered, total);
    }
    let w = plan_windows(11, 5);
    assert_eq!(w[2], ChunkWindow { offset: 10, size: 1, sequence: 3 });
}

#[test]
fn windows_of_largest_table() {
    let w = plan_windows(u64::MAX, u64::MAX - 1);
    assert_eq!(w.len(), 2);
    assert_eq!(w[1], ChunkWindow { offset: u64::MAX - 1, size: 1, sequence: 2 });
}

#[test]
fn chunk_names_for_split_table() {
    assert_eq!(
        ledger_file_names("Acme", "GL", 3_500_000, 2_000_000),
        strings(&["Acme_GL_1.csv", "Acme_GL_2.csv"])
    );
    assert_eq!(
        ledger_file_names("Acme", "GL", 10, 3),
        strings(&["Acme_GL_1.csv", "Acme_GL_2.csv", "Acme_GL_3.csv", "Acme_GL_4.csv"])
    );
}

#[test]
fn chunk_names_for_small_table() {
    assert_eq!(ledger_file_names("Acme", "GL", 100, 2_000_000), strings(&["Acme_GL.csv"]));
    assert_eq!(ledger_file_names("Acme", "GL", 2_000_000, 2_000_000), strings(&["Acme_GL.csv"]));
    assert_eq!(ledger_file_names("Acme", "GL", 0, 2_000_000), strings(&["Acme_GL.csv"]));
}

#[test]
fn ledger_split_scenario() {
    let files = plan_chunk_files("Acme", "GL", 3_500_000, LEDGER_CHUNK_ROWS);
    assert_eq!(files.len(), 2);
    assert_eq!(files[0].name, "Acme_GL_1.csv");
    assert_eq!(files[0].window.size, 2_000_000);
    assert_eq!(files[1].name, "Acme_GL_2.csv");
    assert_eq!(files[1].window.offset, 2_000_000);
    assert_eq!(files[1].window.size, 1_500_000);
    let header = strings(&["id", "amount"]);
    let first = encode_chunk(&header, &vec![strings(&["1", "2.50"])], pipe_format());
    let second = encode_chunk(&header, &vec![strings(&["2", "3.00"])], pipe_format());
    assert!(first.starts_with(b"id|amount\n"));
    assert!(second.starts_with(b"id|amount\n"));
}

#[test]
fn file_names_and_paths() {
    assert_eq!(table_file_name("Acme", "TB"), "Acme_TB.csv");
    assert_eq!(chunk_file_name("Acme", "GL", 12), "Acme_GL_12.csv");
    assert_eq!(join_path("/out", "Acme"), "/out/Acme");
    assert_eq!(join_path("/out", UNRESOLVED_LOG), "/out/0_error_project.log");
}

#[test]
fn column_types_from_tags() {
    assert_eq!(column_type_of("DECIMAL"), ColumnType::Decimal);
    assert_eq!(column_type_of("SMALLINT"), ColumnType::SmallInt);
    assert_eq!(column_type_of("TINYINT"), ColumnType::SmallInt);
    assert_eq!(column_type_of("INT"), ColumnType::Int);
    assert_eq!(column_type_of("INT UNSIGNED"), ColumnType::UnsignedInt);
    assert_eq!(column_type_of("VARCHAR"), ColumnType::Text);
    assert_eq!(column_type_of("BIGINT"), ColumnType::Text);
    assert_eq!(column_type_of(""), ColumnType::Text);
}

#[test]
fn decimals_render_at_full_precision() {
    let cases: [(i128, u32, &str); 7] = [
        (12345, 2, "123.45"),
        (-5, 2, "-0.05"),
        (0, 2, "0.00"),
        (0, 0, "0"),
        (1000, 0, "1000"),
        (1, 28, "0.0000000000000000000000000001"),
        (79228162514264337593543950335, 0, "79228162514264337593543950335"),
    ];
    for (mantissa, scale, text) in cases {
        assert_eq!(render_cell(&CellValue::Decimal { mantissa, scale }, false, '|'), text);
    }
}

#[test]
fn decimal_text_parses_back() {
    for (mantissa, scale) in [(12345i128, 2u32), (-5, 2), (0, 4), (-123456789012345678901234567, 9), (42, 0)] {
        let text = render_cell(&CellValue::Decimal { mantissa, scale }, false, '|');
        let parsed = rust_decimal::Decimal::from_str(&text).unwrap();
        assert_eq!(parsed, rust_decimal::Decimal::from_i128_with_scale(mantissa, scale));
        assert_eq!(parsed.scale(), scale);
    }
}

#[test]
fn integers_and_text_render() {
    assert_eq!(render_cell(&CellValue::Signed(-17), false, '|'), "-17");
    assert_eq!(render_cell(&CellValue::Unsigned(4_000_000_000), false, '|'), "4000000000");
    assert_eq!(render_cell(&CellValue::Text("a|b|c".to_string()), false, '|'), "a|b|c");
    assert_eq!(render_cell(&CellValue::Text("a|b|c".to_string()), true, '|'), "abc");
    assert_eq!(render_cell(&CellValue::Signed(5), true, '|'), "5");
}

#[test]
fn delimiter_removed_from_text() {
    assert_eq!(remove_char("||x|", '|'), "x");
    assert_eq!(remove_char("", '|'), "");
    assert_eq!(remove_char("凭证|摘要", '|'), "凭证摘要");
}

#[test]
fn sanitizing_only_in_ledger_table() {
    let designated = Some("summary".to_string());
    assert!(sanitizes_column(&designated, "summary", true));
    assert!(!sanitizes_column(&designated, "summary", false));
    assert!(!sanitizes_column(&designated, "amount", true));
    assert!(!sanitizes_column(&None, "summary", true));
    assert_eq!(
        sanitized_columns(&designated, &strings(&["id", "summary"]), true),
        vec![false, true]
    );
    assert_eq!(sanitized_columns(&None, &strings(&["id", "summary"]), true), vec![false, false]);
}

#[test]
fn rows_render_cell_by_cell() {
    let cells = vec![
        CellValue::Decimal { mantissa: 250, scale: 2 },
        CellValue::Text("x|y".to_string()),
        CellValue::Text("x|y".to_string()),
    ];
    assert_eq!(
        render_row(&cells, &vec![false, true, false], '|'),
        strings(&["2.50", "xy", "x|y"])
    );
}

#[test]
fn records_are_delimited() {
    let header = strings(&["a", "b"]);
    let rows = vec![strings(&["1", "x|y"]), strings(&["2", ""])];
    let bytes = encode_chunk(&header, &rows, pipe_format());
    assert_eq!(String::from_utf8(bytes).unwrap(), "a|b\n1|\"x|y\"\n2|\n");
    let quoted = encode_chunk(&header, &vec![], CsvFormat { delimiter: b',', always_quote: true });
    assert_eq!(String::from_utf8(quoted).unwrap(), "\"a\",\"b\"\n");
}

#[test]
fn encoding_is_repeatable() {
    let header = strings(&["id", "text"]);
    let rows = vec![strings(&["1", "alpha"]), strings(&["2", "beta"])];
    let first = encode_chunk(&header, &rows, pipe_format());
    let second = encode_chunk(&header, &rows, pipe_format());
    assert_eq!(first, second);
}

#[test]
fn queries_name_schema_and_table() {
    assert_eq!(
        lookup_query("proj_a_Acme"),
        "SELECT DbName FROM deloitte.b_projectlist WHERE ProjectName = 'proj_a_Acme'"
    );
    assert_eq!(
        lookup_query("O'Brien\\x"),
        "SELECT DbName FROM deloitte.b_projectlist WHERE ProjectName = 'O''Brien\\\\x'"
    );
    assert_eq!(count_query("db1", "GL"), "SELECT COUNT(*) FROM db1.GL");
    assert_eq!(select_query("db1", "TB"), "SELECT * FROM db1.TB");
}

#[test]
fn audit_lines() {
    assert_eq!(log_line("2024-01-31 08:00:00", "done"), "2024-01-31 08:00:00 => done\n");
    let line = stamped_log_line("hello");
    assert!(line.ends_with(" => hello\n"));
    assert_eq!(line.len(), "2024-01-31 08:00:00 => hello\n".len());
}

#[test]
fn lines_are_joined() {
    assert_eq!(join_lines(&strings(&["a", "b"])), "a\nb\n");
    assert_eq!(join_lines(&vec![]), "");
}

#[test]
fn unresolved_entity_is_reported() {
    let run = Run::new(&lookups(&["proj_a_Acme", "proj_b_Globex"], vec![Some("db_acme"), None]));
    let current = run.current().unwrap();
    assert_eq!(current.name, "proj_a_Acme");
    assert_eq!(current.code, "db_acme");
    assert_eq!(current.display, "Acme");
    assert_eq!(run.unresolved_log(), Some("proj_b_Globex\n".to_string()));
}

#[test]
fn resolved_entities_keep_order() {
    let mut run = Run::new(&lookups(
        &["x_y_One", "x_y_Two", "x_y_Three", "x_y_One"],
        vec![Some("c1"), None, Some("c3"), Some("c1")],
    ));
    let mut codes = Vec::new();
    while let Some(e) = run.current() {
        codes.push(e.code.clone());
        run.record(EntityResult::Extracted { rows: 1 });
    }
    assert_eq!(codes, strings(&["c1", "c3", "c1"]));
    assert_eq!(run.success_log(), "One\nThree\nOne\n");
    assert_eq!(run.unresolved_log(), Some("x_y_Two\n".to_string()));
}

#[test]
fn no_unresolved_artifact_when_all_resolve() {
    let run = Run::new(&lookups(&["a_b_C"], vec![Some("c")]));
    assert_eq!(run.unresolved_log(), None);
    assert_eq!(run.check_message(), "Checking C, please wait...");
}

#[test]
fn failed_entity_is_skipped() {
    let mut run = Run::new(&lookups(
        &["proj_a_Acme", "proj_b_Globex"],
        vec![Some("db_acme"), Some("db_globex")],
    ));
    match run.record(EntityResult::QueryFailed { message: "table missing".to_string() }) {
        Report::Failed { error } => assert_eq!(error, "Error with company Acme: table missing"),
        Report::Done { .. } => panic!("a failed query is reported as an error"),
    }
    assert!(!run.is_finished());
    assert_eq!(run.current().unwrap().display, "Globex");
    match run.record(EntityResult::Extracted { rows: 42 }) {
        Report::Done { done, total, message } => {
            assert_eq!((done, total), (2, 2));
            assert_eq!(message, "(1) Globex: 42 rows");
        }
        Report::Failed { .. } => panic!("an extracted entity is reported as done"),
    }
    assert!(run.is_finished());
    assert_eq!(run.success_log(), "Globex\n");
    assert_eq!(run.unresolved_log(), None);
}

#[test]
fn ledgers_account_for_every_name() {
    let names = strings(&["a_b_P", "a_b_Q", "a_b_R", "a_b_P"]);
    let mut run = Run::new(&lookups(
        &["a_b_P", "a_b_Q", "a_b_R", "a_b_P"],
        vec![Some("p"), None, Some("r"), Some("p")],
    ));
    let mut failed = 0;
    let mut done = 0;
    let mut step = 0;
    while run.current().is_some() {
        let result = if step == 1 {
            EntityResult::QueryFailed { message: "boom".to_string() }
        } else {
            EntityResult::Extracted { rows: 3 }
        };
        match run.record(result) {
            Report::Failed { .. } => failed += 1,
            Report::Done { .. } => done += 1,
        }
        step += 1;
    }
    assert_eq!(done, 2);
    assert_eq!(failed, 1);
    assert_eq!(run.success_log(), "P\nP\n");
    assert_eq!(run.unresolved_log(), Some("a_b_Q\n".to_string()));
    assert_eq!(done + failed + 1, names.len());
}

#[test]
fn progress_advances_by_entity() {
    let mut run = Run::new(&lookups(
        &["a_b_X", "a_b_Y", "a_b_Z"],
        vec![Some("x"), Some("y"), Some("z")],
    ));
    let mut seen = Vec::new();
    while run.current().is_some() {
        if let Report::Done { done, total, .. } = run.record(EntityResult::Extracted { rows: 0 }) {
            seen.push((done, total));
        }
    }
    assert_eq!(seen, vec![(1, 3), (2, 3), (3, 3)]);
}

#[test]
fn empty_run_is_finished() {
    let run = Run::new(&vec![]);
    assert!(run.is_finished());
    assert!(run.current().is_none());
    assert_eq!(run.success_log(), "");
    assert_eq!(run.unresolved_log(), None);
    assert_eq!(completion_message(), "Congratulations! 数据下载成功!");
}

#[test]
fn rerun_writes_identical_files() {
    let header = strings(&["id", "summary", "amount"]);
    let sanitized = sanitized_columns(&Some("summary".to_string()), &header, true);
    let produce = || {
        let rows = vec![
            vec![
                CellValue::Unsigned(1),
                CellValue::Text("rent|March".to_string()),
                CellValue::Decimal { mantissa: -120050, scale: 2 },
            ],
            vec![
                CellValue::Unsigned(2),
                CellValue::Text("fees".to_string()),
                CellValue::Decimal { mantissa: 7, scale: 0 },
            ],
        ];
        let rendered: Vec<Vec<String>> =
            rows.iter().map(|r| render_row(r, &sanitized, DELIMITER as char)).collect();
        encode_chunk(&header, &rendered, pipe_format())
    };
    let first = produce();
    assert_eq!(first, produce());
    assert_eq!(
        String::from_utf8(first).unwrap(),
        "id|summary|amount\n1|rentMarch|-1200.50\n2|fees|7\n"
    );
}

#[test]
fn ledger_files_use_the_chunk_threshold() {
    let files = plan_ledger_files("Acme", "GL", 3_500_000);
    let names: Vec<&str> = files.iter().map(|f| f.name.as_str()).collect();
    assert_eq!(names, vec!["Acme_GL_1.csv", "Acme_GL_2.csv"]);
    assert_eq!(files[1].window, ChunkWindow { offset: 2_000_000, size: 1_500_000, sequence: 2 });
    let empty = plan_ledger_files("Acme", "GL", 0);
    assert_eq!(empty.len(), 1);
    assert_eq!(empty[0].name, "Acme_GL.csv");
    assert_eq!(empty[0].window, ChunkWindow { offset: 0, size: 0, sequence: 1 });
    let exact = plan_ledger_files("Acme", "GL", LEDGER_CHUNK_ROWS);
    assert_eq!(exact.len(), 1);
    assert_eq!(exact[0].name, "Acme_GL.csv");
}
