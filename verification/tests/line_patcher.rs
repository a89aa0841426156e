use fps_enhancer::error::AppError;
use fps_enhancer::utils::{insert_line_at, replace_multiple_parallel, replace_single_parallel};
use std::collections::HashMap;

#[test]
fn replace_single_middle_line() {
    let r = replace_single_parallel("A\nB\nC".to_string(), 2, "X".to_string());
    assert_eq!(r.unwrap(), "A\nX\nC");
}

#[test]
fn replace_single_first_and_last_line() {
    let r = replace_single_parallel("A\nB\nC".to_string(), 1, "X".to_string());
    assert_eq!(r.unwrap(), "X\nB\nC");
    let r = replace_single_parallel("A\nB\nC".to_string(), 3, "X".to_string());
    assert_eq!(r.unwrap(), "A\nB\nX");
}

#[test]
fn replace_single_changes_only_target_line() {
    let content = "k1=a\nk2=b\nk3=c\nk4=d".to_string();
    let r = replace_single_parallel(content, 3, "k3=z".to_string()).unwrap();
    assert_eq!(r, "k1=a\nk2=b\nk3=z\nk4=d");
    let lines: Vec<&str> = r.split('\n').collect();
    assert_eq!(lines.len(), 4);
    assert_eq!(lines[0], "k1=a");
    assert_eq!(lines[1], "k2=b");
    assert_eq!(lines[2], "k3=z");
    assert_eq!(lines[3], "k4=d");
}

#[test]
fn replace_single_keeps_trailing_empty_line() {
    let r = replace_single_parallel("A\nB\n".to_string(), 2, "X".to_string());
    assert_eq!(r.unwrap(), "A\nX\n");
}

#[test]
fn replace_single_out_of_bounds() {
    let r = replace_single_parallel("A\nB\nC".to_string(), 4, "X".to_string());
    assert_eq!(r.unwrap_err(), AppError::OutOfBounds(4));
}

#[test]
fn replace_single_on_single_line_content() {
    let r = replace_single_parallel("only".to_string(), 1, "new".to_string());
    assert_eq!(r.unwrap(), "new");
    let r = replace_single_parallel("only".to_string(), 2, "new".to_string());
    assert_eq!(r.unwrap_err(), AppError::OutOfBounds(2));
}

#[test]
fn replace_multiple_scenario_batch_at_two() {
    let mut batch: HashMap<usize, String> = HashMap::new();
    batch.insert(2, "X".to_string());
    let r = replace_multiple_parallel("A\nB\nC".to_string(), &batch);
    assert_eq!(r.unwrap(), "A\nX\nC");
}

#[test]
fn replace_multiple_scenario_batch_out_of_bounds() {
    let mut batch: HashMap<usize, String> = HashMap::new();
    batch.insert(4, "X".to_string());
    let r = replace_multiple_parallel("A\nB\nC".to_string(), &batch);
    assert_eq!(r.unwrap_err(), AppError::OutOfBounds(4));
}

#[test]
fn replace_multiple_several_entries() {
    let mut batch: HashMap<usize, String> = HashMap::new();
    batch.insert(1, "P".to_string());
    batch.insert(3, "Q".to_string());
    let r = replace_multiple_parallel("A\nB\nC".to_string(), &batch);
    assert_eq!(r.unwrap(), "P\nB\nQ");
}

#[test]
fn replace_multiple_empty_batch_keeps_content() {
    let batch: HashMap<usize, String> = HashMap::new();
    let r = replace_multiple_parallel("A\nB\nC".to_string(), &batch);
    assert_eq!(r.unwrap(), "A\nB\nC");
}

#[test]
fn replace_multiple_reports_lowest_offending_line() {
    let mut batch: HashMap<usize, String> = HashMap::new();
    batch.insert(9, "X".to_string());
    batch.insert(5, "Y".to_string());
    batch.insert(2, "Z".to_string());
    let r = replace_multiple_parallel("A\nB\nC".to_string(), &batch);
    assert_eq!(r.unwrap_err(), AppError::OutOfBounds(5));
}

#[test]
fn insert_line_before() {
    let r = insert_line_at("A\nB\nC".to_string(), 2, 0, "X".to_string());
    assert_eq!(r.unwrap(), "A\nX\nB\nC");
}

#[test]
fn insert_line_after() {
    let r = insert_line_at("A\nB\nC".to_string(), 1, 1, "X".to_string());
    assert_eq!(r.unwrap(), "A\nX\nB\nC");
}

#[test]
fn insert_line_after_last_line_appends() {
    let r = insert_line_at("A\nB\nC".to_string(), 3, 1, "X".to_string());
    assert_eq!(r.unwrap(), "A\nB\nC\nX");
}

#[test]
fn insert_line_out_of_bounds() {
    let r = insert_line_at("A\nB\nC".to_string(), 4, 1, "X".to_string());
    assert_eq!(r.unwrap_err(), AppError::OutOfBounds(4));
}

#[test]
fn insert_line_unknown_mode_keeps_lines() {
    let r = insert_line_at("A\nB\nC".to_string(), 2, 7, "X".to_string());
    assert_eq!(r.unwrap(), "A\nB\nC");
}

#[test]
fn insert_before_then_after_same_line_number() {
    let first = insert_line_at("A\nB\nC".to_string(), 2, 0, "X".to_string()).unwrap();
    assert_eq!(first, "A\nX\nB\nC");
    let second = insert_line_at(first, 2, 1, "Y".to_string()).unwrap();
    assert_eq!(second, "A\nX\nY\nB\nC");
    let lines: Vec<&str> = second.split('\n').collect();
    assert_eq!(lines[1], "X");
    assert_eq!(lines[2], "Y");
    assert_eq!(lines[3], "B");
}

#[test]
fn patcher_error_message_carries_line_number() {
    let e = AppError::OutOfBounds(42);
    assert_eq!(e.message(), "Line number 42 out of bounds");
    assert_eq!(AppError::NotFound.message(), "Not found");
    assert_eq!(AppError::IoFailure.message(), "IO failure");
    assert_eq!(
        AppError::MissingConfiguration.message(),
        "Missing configuration"
    );
}

#[test]
fn decimal_rendering_exact_values() {
    assert_eq!(fps_enhancer::utils::decimal_string(0), "0");
    assert_eq!(fps_enhancer::utils::decimal_string(7), "7");
    assert_eq!(fps_enhancer::utils::decimal_string(1920), "1920");
    assert_eq!(fps_enhancer::utils::decimal_string(u32::MAX), "4294967295");
    assert_eq!(fps_enhancer::utils::decimal_string_usize(123456789), "123456789");
}

#[test]
fn replace_single_keeps_crlf_terminator() {
    let r = replace_single_parallel("A\r\nB".to_string(), 1, "X".to_string());
    assert_eq!(r.unwrap(), "X\r\nB");
}

#[test]
fn replace_single_keeps_mixed_separators() {
    let r = replace_single_parallel("A\r\nB\nC".to_string(), 1, "X".to_string());
    assert_eq!(r.unwrap(), "X\r\nB\nC");
    let r = replace_single_parallel("A\r\nB\nC".to_string(), 2, "Y".to_string());
    assert_eq!(r.unwrap(), "A\r\nY\nC");
}

#[test]
fn replace_single_keeps_crlf_trailing_terminator() {
    let r = replace_single_parallel("A\r\nB\r\n".to_string(), 2, "X".to_string());
    assert_eq!(r.unwrap(), "A\r\nX\r\n");
}

#[test]
fn replace_multiple_keeps_crlf_terminators() {
    let mut batch: HashMap<usize, String> = HashMap::new();
    batch.insert(1, "X".to_string());
    batch.insert(2, "Y".to_string());
    let r = replace_multiple_parallel("A\r\nB\r\nC".to_string(), &batch);
    assert_eq!(r.unwrap(), "X\r\nY\r\nC");
}

#[test]
fn insert_line_adopts_crlf_convention() {
    let r = insert_line_at("A\r\nB".to_string(), 1, 1, "X".to_string());
    assert_eq!(r.unwrap(), "A\r\nX\r\nB");
    let r = insert_line_at("A\r\nB".to_string(), 1, 0, "X".to_string());
    assert_eq!(r.unwrap(), "X\r\nA\r\nB");
}

#[test]
fn insert_after_last_line_adopts_crlf_convention() {
    let r = insert_line_at("A\r\nB".to_string(), 2, 1, "X".to_string());
    assert_eq!(r.unwrap(), "A\r\nB\r\nX");
}

#[test]
fn insert_into_single_line_content_defaults_to_lf() {
    let r = insert_line_at("A".to_string(), 1, 1, "X".to_string());
    assert_eq!(r.unwrap(), "A\nX");
    let r = insert_line_at("A".to_string(), 1, 0, "X".to_string());
    assert_eq!(r.unwrap(), "X\nA");
}
