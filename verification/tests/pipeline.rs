use dlt_reader::dlt::filter::{Filter, FilterId, FilterType, Pattern};
use dlt_reader::dlt::run_dlt;
use dlt_reader::{Output, OutputField, OutputType, Stdout};

/// One verbose log record: storage ecu `ECU1`, HTYP `0x35` (extended
/// header, ECU id, timestamp), timestamp 100, MSIN `0x41` (verbose,
/// Log/Info), app `APP1`, ctx `CON1`, and one string argument.
fn verbose_record(payload_text: &[u8]) -> Vec<u8> {
    let mut v: Vec<u8> = vec![0x44, 0x4C, 0x54, 0x01];
    v.extend_from_slice(&0u32.to_be_bytes());
    v.extend_from_slice(&0u32.to_be_bytes());
    v.extend_from_slice(b"ECU1");

    let payload_len = 4 + 2 + payload_text.len();
    let msg_length = 12 + 10 + payload_len;
    v.push(0x35);
    v.push(0x00);
    v.extend_from_slice(&(msg_length as u16).to_be_bytes());
    v.extend_from_slice(b"ECU1");
    v.extend_from_slice(&100u32.to_be_bytes());

    v.push(0x41);
    v.push(0x01);
    v.extend_from_slice(b"APP1");
    v.extend_from_slice(b"CON1");

    // HTYP 0x35 selects the little-endian payload byte order.
    v.extend_from_slice(&0x00008200u32.to_le_bytes());
    v.extend_from_slice(&(payload_text.len() as u16).to_le_bytes());
    v.extend_from_slice(payload_text);
    v
}

fn stdout_output(fields: Vec<OutputField>) -> Output {
    Output { out_type: OutputType::Stdout(Stdout { delimiter: ',' }), fields }
}

#[test]
fn empty_buffer_yields_no_lines() {
    let data: Vec<u8> = Vec::new();
    let filters = Filter::new();
    let output = Some(stdout_output(vec![OutputField::Payload]));
    let lines = run_dlt(&data, &filters, &output);
    assert!(lines.is_empty());
}

#[test]
fn single_verbose_message_renders_all_fields() {
    let data = verbose_record(b"hello\0");
    let filters = Filter::new();
    let output = Some(stdout_output(vec![
        OutputField::Ecu,
        OutputField::App,
        OutputField::Ctx,
        OutputField::Payload,
    ]));
    let lines = run_dlt(&data, &filters, &output);
    assert_eq!(lines, vec![String::from("ECU1,APP1,CON1,hello")]);
}

#[test]
fn ecu_filter_rejects_other_identifier() {
    let data = verbose_record(b"hello\0");
    let mut filters = Filter::new();
    filters.add(FilterId::EcuId, FilterType::EcuId(String::from("ECU2")));
    let output = Some(stdout_output(vec![
        OutputField::Ecu,
        OutputField::App,
        OutputField::Ctx,
        OutputField::Payload,
    ]));
    let lines = run_dlt(&data, &filters, &output);
    assert!(lines.is_empty());
}

#[test]
fn ecu_filter_accepts_matching_identifier() {
    let data = verbose_record(b"hello\0");
    let mut filters = Filter::new();
    filters.add(FilterId::EcuId, FilterType::EcuId(String::from("ECU1")));
    let output = Some(stdout_output(vec![OutputField::Ecu]));
    let lines = run_dlt(&data, &filters, &output);
    assert_eq!(lines, vec![String::from("ECU1")]);
}

#[test]
fn pattern_match_projects_named_capture() {
    let data = verbose_record(b"id=42\0");
    let mut filters = Filter::new();
    let patterns = Pattern::from(vec![String::from(r"id=(?P<n>\d+)")]).unwrap();
    filters.add(FilterId::Patterns, FilterType::Patterns(patterns));
    let output = Some(stdout_output(vec![OutputField::Capture(String::from("n"))]));
    let lines = run_dlt(&data, &filters, &output);
    assert_eq!(lines, vec![String::from("42")]);
}

#[test]
fn pattern_without_match_drops_the_message() {
    let data = verbose_record(b"hello\0");
    let mut filters = Filter::new();
    let patterns = Pattern::from(vec![String::from(r"id=(?P<n>\d+)")]).unwrap();
    filters.add(FilterId::Patterns, FilterType::Patterns(patterns));
    let output = Some(stdout_output(vec![OutputField::Payload]));
    let lines = run_dlt(&data, &filters, &output);
    assert!(lines.is_empty());
}

#[test]
fn truncated_trailing_bytes_terminate_cleanly() {
    let mut data = verbose_record(b"hello\0");
    data.extend_from_slice(&[0x13, 0x57, 0x9B, 0xDF, 0x24, 0x68, 0xAC]);
    let filters = Filter::new();
    let output = Some(stdout_output(vec![
        OutputField::Ecu,
        OutputField::App,
        OutputField::Ctx,
        OutputField::Payload,
    ]));
    let lines = run_dlt(&data, &filters, &output);
    assert_eq!(lines, vec![String::from("ECU1,APP1,CON1,hello")]);
}

#[test]
fn app_filter_drops_record_without_extended_header() {
    let mut data = verbose_record(b"hello\0");
    // Second record: no extended header, non-verbose payload of 8 bytes.
    data.extend_from_slice(&[0x44, 0x4C, 0x54, 0x01]);
    data.extend_from_slice(&0u32.to_be_bytes());
    data.extend_from_slice(&0u32.to_be_bytes());
    data.extend_from_slice(b"ECU1");
    data.push(0x20);
    data.push(0x01);
    data.extend_from_slice(&12u16.to_be_bytes());
    data.extend_from_slice(&7u32.to_be_bytes());
    data.extend_from_slice(&[1, 2, 3, 4]);

    let mut filters = Filter::new();
    filters.add(FilterId::AppId, FilterType::AppId(String::from("APP1")));
    let output = Some(stdout_output(vec![
        OutputField::Ecu,
        OutputField::App,
        OutputField::Ctx,
        OutputField::Payload,
    ]));
    let lines = run_dlt(&data, &filters, &output);
    assert_eq!(lines, vec![String::from("ECU1,APP1,CON1,hello")]);
}

#[test]
fn time_and_timestamp_fields_render_decimal_values() {
    let data = verbose_record(b"hello\0");
    let filters = Filter::new();
    let output = Some(stdout_output(vec![OutputField::Time, OutputField::Timestamp]));
    let lines = run_dlt(&data, &filters, &output);
    assert_eq!(lines, vec![String::from("0.0,100")]);
}

#[test]
fn line_has_one_delimiter_between_fields() {
    let data = verbose_record(b"hello\0");
    let filters = Filter::new();
    let output = Some(stdout_output(vec![
        OutputField::Ecu,
        OutputField::App,
        OutputField::Ctx,
        OutputField::Timestamp,
    ]));
    let lines = run_dlt(&data, &filters, &output);
    assert_eq!(lines.len(), 1);
    let delimiters = lines[0].chars().filter(|c| *c == ',').count();
    assert_eq!(delimiters, 3);
}

#[test]
fn pipeline_runs_identically_twice() {
    let data = verbose_record(b"id=42\0");
    let output = Some(stdout_output(vec![
        OutputField::Ecu,
        OutputField::Payload,
    ]));
    let filters = Filter::new();
    let first = run_dlt(&data, &filters, &output);
    let second = run_dlt(&data, &filters, &output);
    assert_eq!(first, second);
}

#[test]
fn bad_regex_is_a_configuration_error() {
    match Pattern::from(vec![String::from("(")]) {
        Err(err) => assert_eq!(err, dlt_reader::dlt::DltError::ConfigError),
        Ok(_) => panic!("an unbalanced pattern must not compile"),
    }
}

#[test]
fn ecu_field_falls_back_to_the_storage_header() {
    // HTYP 0x31: extended header and timestamp, but no ECU id field.
    let mut data: Vec<u8> = vec![0x44, 0x4C, 0x54, 0x01];
    data.extend_from_slice(&0u32.to_be_bytes());
    data.extend_from_slice(&0u32.to_be_bytes());
    data.extend_from_slice(b"ECU1");
    data.push(0x31);
    data.push(0x00);
    data.extend_from_slice(&30u16.to_be_bytes()); // 8 + 10 + 12
    data.extend_from_slice(&100u32.to_be_bytes());
    data.push(0x41);
    data.push(0x01);
    data.extend_from_slice(b"APP1");
    data.extend_from_slice(b"CON1");
    data.extend_from_slice(&0x00008200u32.to_le_bytes());
    data.extend_from_slice(&6u16.to_le_bytes());
    data.extend_from_slice(b"hello\0");

    let filters = Filter::new();
    let output = Some(stdout_output(vec![OutputField::Ecu]));
    let lines = run_dlt(&data, &filters, &output);
    assert_eq!(lines, vec![String::from("ECU1")]);
}

#[test]
fn non_verbose_message_renders_an_empty_payload_field() {
    let mut data: Vec<u8> = vec![0x44, 0x4C, 0x54, 0x01];
    data.extend_from_slice(&0u32.to_be_bytes());
    data.extend_from_slice(&0u32.to_be_bytes());
    data.extend_from_slice(b"ECU1");
    data.push(0x20); // no extended header
    data.push(0x00);
    data.extend_from_slice(&12u16.to_be_bytes()); // 4 + 8 payload bytes
    data.extend_from_slice(&7u32.to_be_bytes());
    data.extend_from_slice(&[1, 2, 3, 4]);

    let filters = Filter::new();
    let output = Some(stdout_output(vec![OutputField::Ecu, OutputField::Payload]));
    let lines = run_dlt(&data, &filters, &output);
    assert_eq!(lines, vec![String::from("ECU1,")]);
}
