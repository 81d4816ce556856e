use template_compiler::{compile, parse_file, within_limits, CompileError, Config, ParseError};

fn config(name: &str) -> Config {
    Config { export_func_name: name.to_string() }
}

const COMPONENT_HEADER: [u8; 8] = [0x00, 0x61, 0x73, 0x6d, 0x0d, 0x00, 0x01, 0x00];

#[test]
fn compile_produces_a_component() {
    let bytes = compile(&config("apply"), b"Hello, {{ name }}!{% if shout %}!!{% endif %}").unwrap();
    assert_eq!(&bytes[0..8], &COMPONENT_HEADER);
    // the export name is written into the component
    let custom = compile(&config("render_page"), b"Hello").unwrap();
    assert!(custom.windows(11).any(|w| w == b"render_page"));
}

#[test]
fn compile_reports_parse_errors() {
    assert!(matches!(compile(&config("apply"), b"{% if x %}"), Err(CompileError::Parse(ParseError::UnexpectedEnd))));
}

#[test]
fn shared_name_is_rejected() {
    assert!(matches!(parse_file(b"{{ x }}{% if x %}y{% endif %}"), Err(ParseError::SharedName)));
}

#[test]
fn parsed_templates_are_within_limits() {
    let file_data = parse_file(b"a{{ b }}{% if c %}d{% endif %}").unwrap();
    assert!(within_limits(&file_data.contents));
}

#[test]
fn record_field_names_are_kebab_case_in_the_component() {
    let bytes = compile(&config("apply"), b"{{ first_name }}{% if is_admin %}!{% endif %}").unwrap();
    assert!(bytes.windows(10).any(|w| w == b"first-name"));
    assert!(bytes.windows(8).any(|w| w == b"is-admin"));
    assert!(!bytes.windows(10).any(|w| w == b"first_name"));
}
