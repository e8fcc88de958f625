use dlt_reader::config::{Config, Csv, Filter, Output, Stdout};
use dlt_reader::dlt::filter::Pattern;
use dlt_reader::dlt::DltError;
use dlt_reader::{u32_to_string, OutputField};

fn block(patterns: Option<Vec<String>>, output: Option<Output>) -> Filter {
    Filter {
        name: String::from("block"),
        ecu_id: None,
        app_id: None,
        context_id: None,
        patterns,
        output,
    }
}

fn enabled_stdout(format: &str) -> Output {
    Output {
        csv: None,
        stdout: Some(Stdout { enabled: true, delimiter: ',', format: String::from(format) }),
    }
}

#[test]
fn identifiers_longer_than_four_characters_are_rejected() {
    let f = block(None, None);
    assert!(f.is_valid());
    let mut g = block(None, None);
    g.ecu_id = Some(String::from("TOOLONG"));
    assert!(!g.is_valid());
    let mut h = block(None, None);
    h.app_id = Some(String::from("AB12"));
    assert!(h.is_valid());
}

#[test]
fn delimiters_outside_the_accepted_set_are_rejected() {
    let good = Csv { file_path: String::from("out.csv"), delimiter: '|', format: None };
    assert!(good.is_valid());
    let bad = Csv { file_path: String::from("out.csv"), delimiter: 'x', format: None };
    assert!(!bad.is_valid());
    assert_eq!(Csv::default_delimiter(), ',');
    assert!(!Stdout::default_enabled());
}

#[test]
fn config_validation_checks_every_block() {
    let ok = Config { filters: Some(vec![block(None, None)]) };
    assert!(ok.is_valid().is_ok());
    let mut bad_block = block(None, None);
    bad_block.context_id = Some(String::from("LONGID"));
    let bad = Config { filters: Some(vec![block(None, None), bad_block]) };
    assert!(bad.is_valid().is_err());
    let none = Config { filters: None };
    assert!(none.is_valid().is_ok());
}

#[test]
fn capture_names_are_scanned_from_pattern_sources() {
    let patterns = vec![String::from(r"id=(?P<n>\d+)"), String::from(r"(?P<word>\w+)!")];
    let names = Pattern::capture_names(&patterns).unwrap();
    assert_eq!(names, vec![String::from("n"), String::from("word")]);
    let plain = vec![String::from("no captures here")];
    assert!(Pattern::capture_names(&plain).is_none());
}

#[test]
fn format_components_name_output_fields() {
    assert!(matches!(OutputField::from("ecu"), Some(OutputField::Ecu)));
    assert!(matches!(OutputField::from("app"), Some(OutputField::App)));
    assert!(matches!(OutputField::from("ctx"), Some(OutputField::Ctx)));
    assert!(matches!(OutputField::from("time"), Some(OutputField::Time)));
    assert!(matches!(OutputField::from("timestamp"), Some(OutputField::Timestamp)));
    assert!(matches!(OutputField::from("payload"), Some(OutputField::Payload)));
    match OutputField::from("<n>") {
        Some(OutputField::Capture(name)) => assert_eq!(name, "n"),
        other => panic!("expected capture field, got {:?}", other),
    }
    assert!(OutputField::from("bogus").is_none());
}

#[test]
fn from_filter_builds_the_enabled_stdout_descriptor() {
    let f = block(
        Some(vec![String::from(r"id=(?P<n>\d+)")]),
        Some(enabled_stdout("ecu,<n>")),
    );
    let out = dlt_reader::Output::from_filter(&f).unwrap().unwrap();
    assert_eq!(out.fields().len(), 2);
    assert!(matches!(out.output_type(), dlt_reader::OutputType::Stdout(s) if s.delimiter == ','));
}

#[test]
fn from_filter_rejects_undeclared_capture_names() {
    let f = block(
        Some(vec![String::from(r"id=(?P<n>\d+)")]),
        Some(enabled_stdout("<other>")),
    );
    assert_eq!(dlt_reader::Output::from_filter(&f).unwrap_err(), DltError::ConfigError);
    let g = block(None, Some(enabled_stdout("<n>")));
    assert_eq!(dlt_reader::Output::from_filter(&g).unwrap_err(), DltError::ConfigError);
}

#[test]
fn disabled_or_missing_stdout_yields_no_descriptor() {
    let f = block(None, None);
    assert!(dlt_reader::Output::from_filter(&f).unwrap().is_none());
    let mut out = enabled_stdout("ecu");
    out.stdout.as_mut().unwrap().enabled = false;
    let g = block(None, Some(out));
    assert!(dlt_reader::Output::from_filter(&g).unwrap().is_none());
}

#[test]
fn decimal_rendering_is_exact() {
    assert_eq!(u32_to_string(0), "0");
    assert_eq!(u32_to_string(7), "7");
    assert_eq!(u32_to_string(1234567890), "1234567890");
    assert_eq!(u32_to_string(u32::MAX), "4294967295");
}

#[test]
fn cli_accessors_hand_back_the_parsed_values() {
    let cli = dlt_reader::cli::Cli {
        config: Some(String::from("filters.toml")),
        input: vec![String::from("trace.dlt")],
        ecu_id: None,
        app_id: None,
        context_id: None,
        patterns: Vec::new(),
    };
    assert_eq!(cli.config().as_deref(), Some("filters.toml"));
    assert_eq!(cli.input().len(), 1);
    assert_eq!(cli.input()[0], "trace.dlt");
}
