use matrix_engine::report::abbreviation;
use matrix_engine::report::csv_header;
use matrix_engine::report::TestMetrics;
use matrix_engine::text::render_table;

#[test]
fn new_record_is_blank() {
    let record = TestMetrics::new();
    assert_eq!(record.name, "");
    assert_eq!(record.abbreviated_name, "");
    assert_eq!(record.task_clock, "");
    assert_eq!(record.time_var_percent, "");
}

#[test]
fn known_names_map_to_fixed_abbreviations() {
    let cases = [
        ("naive_fragmented", "NF"),
        ("contiguous_strided", "CS"),
        ("contiguous_parallel_strided", "CPS"),
        ("contiguous_tiled", "CT"),
        ("contiguous_parallel_tiled", "CPT"),
    ];
    for (name, short) in cases {
        assert_eq!(abbreviation(&name.to_string()), short);
        let record = TestMetrics::with_name(name.to_string());
        assert_eq!(record.name, name);
        assert_eq!(record.abbreviated_name, short);
    }
}

#[test]
fn unknown_name_abbreviates_to_itself() {
    assert_eq!(abbreviation(&"custom_run".to_string()), "custom_run");
    let record = TestMetrics::with_name("custom_run".to_string());
    assert_eq!(record.abbreviated_name, "custom_run");
    assert_eq!(record.cache_misses, "");
}

#[test]
fn csv_header_lists_fields_in_order() {
    assert_eq!(
        csv_header(),
        "Test Name;Abbreviated Name;Task Clock (msec);CPUs Utilized;Task Clock CV(%);\
         Core Cache Misses;Cache Miss CV(%);Core Branch Misses;Branch Miss CV(%);\
         Core Instructions;Instructions CV(%);Time Elapsed (s);Time Var Nominal (+-);\
         Time Var Percent (+-%)"
    );
}

#[test]
fn csv_row_joins_fields_with_semicolons() {
    let mut record = TestMetrics::with_name("contiguous_tiled".to_string());
    record.task_clock = "123,45".to_string();
    record.cpus_utilized = "3,9".to_string();
    record.task_clock_cv = "1,2".to_string();
    record.cache_misses = "1000".to_string();
    record.cache_misses_cv = "2,5".to_string();
    record.branch_misses = "50".to_string();
    record.branch_misses_cv = "0,8".to_string();
    record.instructions = "99999".to_string();
    record.instructions_cv = "0,1".to_string();
    record.time_elapsed = "0,5".to_string();
    record.time_var_nominal = "0,0219".to_string();
    record.time_var_percent = "1,63".to_string();
    assert_eq!(
        record.csv_row(),
        "contiguous_tiled;CT;123,45;3,9;1,2;1000;2,5;50;0,8;99999;0,1;0,5;0,0219;1,63"
    );
}

#[test]
fn csv_row_of_blank_record_is_all_separators() {
    let record = TestMetrics::new();
    assert_eq!(record.csv_row(), ";;;;;;;;;;;;;");
}

#[test]
fn table_centers_cells_to_widest() {
    let cells = vec![
        "1".to_string(),
        "22".to_string(),
        "333".to_string(),
        "4".to_string(),
    ];
    let rendered = render_table(&cells, 2, 2);
    assert_eq!(rendered, "| 1   22 |\n|333   4 |\n");
}

#[test]
fn table_of_uniform_cells_has_no_padding() {
    let cells = vec!["7".to_string(), "8".to_string()];
    assert_eq!(render_table(&cells, 1, 2), "|7  8|\n");
    assert_eq!(render_table(&cells, 2, 1), "|7|\n|8|\n");
}
