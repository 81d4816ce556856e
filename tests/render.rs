//! Runs the generated function body on a small stack machine with a bump allocator, the
//! way a component host would, and checks the rendered strings.
use template_compiler::{
    gen_allocator, gen_component, gen_component_with, gen_module, parse_file, snake_to_kebab, Config, FileData,
    Instr, Node, ParseError, Params, Span, TemplateGenerator, M,
};

const LOREM_IPSUM: &str = "Lorem ipsum dolor sit amet, consectetur adipiscing elit. In egestas dapibus diam, vitae commodo diam rhoncus ut. Donec at urna in nisl aliquet mattis. Sed semper nisi sed blandit egestas. In rutrum libero vel accumsan euismod. Phasellus ante leo, gravida ac consequat at, mattis tincidunt lorem. Suspendisse tincidunt ligula nulla, sed laoreet quam vehicula ac. Etiam sodales augue ut nisi mollis, ac dictum urna consequat.";

/// A parameter value: a string for a text parameter, a bool for a condition.
#[derive(Clone, Copy)]
enum Value<'a> {
    Text(&'a str),
    Flag(bool),
}

struct Machine {
    memory: Vec<u8>,
    next: usize,
    first_alloc_len: Option<i32>,
}

impl Machine {
    fn new() -> Self {
        Machine { memory: vec![0; 1 << 16], next: 8, first_alloc_len: None }
    }

    fn allocate(&mut self, align: usize, len: usize) -> usize {
        let ptr = (self.next + align - 1) / align * align;
        self.next = ptr + len;
        assert!(self.next <= self.memory.len());
        ptr
    }

    fn load(&self, addr: usize) -> i32 {
        i32::from_le_bytes([self.memory[addr], self.memory[addr + 1], self.memory[addr + 2], self.memory[addr + 3]])
    }

    fn store(&mut self, addr: usize, v: i32) {
        self.memory[addr..addr + 4].copy_from_slice(&v.to_le_bytes());
    }
}

/// For each `if` and `else`, the position of its `else` (if any) and its `end`.
fn block_targets(code: &[Instr]) -> Vec<(Option<usize>, usize)> {
    let mut targets = vec![(None, 0); code.len()];
    let mut open: Vec<usize> = Vec::new();
    for (i, ins) in code.iter().enumerate() {
        match ins {
            Instr::IfI32 | Instr::IfEmpty => open.push(i),
            Instr::Else => {
                let start = *open.last().unwrap();
                targets[start].0 = Some(i);
            }
            Instr::End => {
                if let Some(start) = open.pop() {
                    targets[start].1 = i;
                    if let Some(e) = targets[start].0 {
                        targets[e].1 = i;
                    }
                }
            }
            _ => {}
        }
    }
    targets
}

/// Runs the generated function with the record `args` (fields in record order) and returns
/// the rendered bytes, and the length passed to the first allocation.
fn run(template: &TemplateGenerator, args: &[Value]) -> (Vec<u8>, i32) {
    let code = template.gen_core_code();
    let segments = template.data_segments();
    let mut m = Machine::new();
    // flatten the record as the canonical ABI does
    let mut flat: Vec<i32> = Vec::new();
    for a in args {
        match a {
            Value::Text(s) => {
                let ptr = m.allocate(1, s.len());
                m.memory[ptr..ptr + s.len()].copy_from_slice(s.as_bytes());
                flat.push(ptr as i32);
                flat.push(s.len() as i32);
            }
            Value::Flag(b) => flat.push(*b as i32),
        }
    }
    let mut locals: Vec<i32> = if template.params().must_spill() {
        let texts = args.iter().filter(|a| matches!(a, Value::Text(_))).count();
        let rec = m.allocate(4, 8 * texts + args.len());
        let mut k = 0;
        for (i, a) in args.iter().enumerate() {
            match a {
                Value::Text(_) => {
                    m.store(rec + 8 * i, flat[k]);
                    m.store(rec + 8 * i + 4, flat[k + 1]);
                    k += 2;
                }
                Value::Flag(b) => {
                    m.memory[rec + 8 * texts + (i - texts)] = *b as u8;
                    k += 1;
                }
            }
        }
        vec![rec as i32]
    } else {
        flat
    };
    locals.extend([0; 4]);

    let targets = block_targets(&code);
    let mut stack: Vec<i32> = Vec::new();
    let mut pc = 0;
    loop {
        match code[pc] {
            Instr::LocalGet(i) => stack.push(locals[i as usize]),
            Instr::LocalSet(i) => locals[i as usize] = stack.pop().unwrap(),
            Instr::I32Const(v) => stack.push(v),
            Instr::I32Add => {
                let b = stack.pop().unwrap();
                let a = stack.pop().unwrap();
                stack.push(a.wrapping_add(b));
            }
            Instr::I32Mul => {
                let b = stack.pop().unwrap();
                let a = stack.pop().unwrap();
                stack.push(a.wrapping_mul(b));
            }
            Instr::I32Load { align } => {
                assert_eq!(align, 2);
                let addr = stack.pop().unwrap() as usize;
                stack.push(m.load(addr));
            }
            Instr::I32Load8U { align } => {
                assert_eq!(align, 0);
                let addr = stack.pop().unwrap() as usize;
                stack.push(m.memory[addr] as i32);
            }
            Instr::I32Store { align } => {
                assert_eq!(align, 2);
                let v = stack.pop().unwrap();
                let addr = stack.pop().unwrap() as usize;
                m.store(addr, v);
            }
            Instr::Call(f) => {
                assert_eq!(f, 0);
                let len = stack.pop().unwrap();
                let align = stack.pop().unwrap();
                let old_size = stack.pop().unwrap();
                let old_ptr = stack.pop().unwrap();
                assert_eq!((old_ptr, old_size), (0, 0));
                if m.first_alloc_len.is_none() {
                    m.first_alloc_len = Some(len);
                }
                let ptr = m.allocate(align as usize, len as usize);
                stack.push(ptr as i32);
            }
            Instr::IfI32 | Instr::IfEmpty => {
                let c = stack.pop().unwrap();
                if c == 0 {
                    pc = match targets[pc].0 {
                        Some(e) => e,
                        None => targets[pc].1,
                    };
                }
            }
            Instr::Else => pc = targets[pc].1,
            Instr::End => {
                if pc == code.len() - 1 {
                    break;
                }
            }
            Instr::MemoryInit { data_index } => {
                let len = stack.pop().unwrap() as usize;
                let src = stack.pop().unwrap() as usize;
                let dst = stack.pop().unwrap() as usize;
                let seg = &segments[data_index as usize];
                m.memory[dst..dst + len].copy_from_slice(&seg[src..src + len]);
            }
            Instr::MemoryCopy => {
                let len = stack.pop().unwrap() as usize;
                let src = stack.pop().unwrap() as usize;
                let dst = stack.pop().unwrap() as usize;
                m.memory.copy_within(src..src + len, dst);
            }
        }
        pc += 1;
    }
    let area = stack.pop().unwrap() as usize;
    assert!(stack.is_empty());
    let ptr = m.load(area) as usize;
    let len = m.load(area + 4) as usize;
    (m.memory[ptr..ptr + len].to_vec(), m.first_alloc_len.unwrap())
}

fn render_file(file_data: &FileData, args: &[Value]) -> String {
    let params = Params::new(&file_data.contents);
    let template = TemplateGenerator::new(params, file_data);
    let (bytes, allocated) = run(&template, args);
    assert_eq!(allocated as usize, bytes.len());
    String::from_utf8(bytes).unwrap()
}

fn render(source: &str, args: &[Value]) -> String {
    let file_data = parse_file(source.as_bytes()).unwrap();
    render_file(&file_data, args)
}

fn config() -> Config {
    Config { export_func_name: "apply".to_string() }
}

#[test]
fn test_lorem_ipsum() {
    let span = Span::new(0, LOREM_IPSUM.len());
    let text = M::new(LOREM_IPSUM.as_bytes().to_vec(), span);
    let file_data = FileData { contents: vec![Node::Text { index: 0, text }] };
    assert_eq!(render_file(&file_data, &[]), LOREM_IPSUM);
    let params = Params::new(&file_data.contents);
    let template = TemplateGenerator::new(params, &file_data);
    let component = gen_component(&config(), &template).unwrap();
    assert_eq!(&component.finish()[0..8], &[0x00, 0x61, 0x73, 0x6d, 0x0d, 0x00, 0x01, 0x00]);
}

const WEBSITE: &str = "
<!DOCTYPE html>
<html>
<head>
    <title>{{ title }}</title>
</head>
<body>
    <h1>{{title}}</h1>
    {{ content }}
</body>
</html>
";

const WEBSITE_COND: &str = "
<!DOCTYPE html>
<html>
<head>
    <title>{{ title }}</title>
</head>
<body>
    <h1>{{title }}</h1>
    {{ content }}

    {% if include_footer %}
    Thanks!!
    {% endif %}
</body>
</html>
";

const TITLE: &str = "What is WebAssembly (Wasm)?";
const CONTENT: &str = "WebAssembly, commonly abreviated as Wasm, is a secure, portable, and fast compile target";

#[test]
fn website_test_website() {
    let expected = format!(
        "
<!DOCTYPE html>
<html>
<head>
    <title>{}</title>
</head>
<body>
    <h1>{}</h1>
    {}
</body>
</html>
",
        TITLE, TITLE, CONTENT
    );
    // record fields in sorted order: content, title
    let result = render(WEBSITE, &[Value::Text(CONTENT), Value::Text(TITLE)]);
    assert_eq!(result, expected);
}

#[test]
fn website_cond_test_website() {
    let expected = format!(
        "
<!DOCTYPE html>
<html>
<head>
    <title>{}</title>
</head>
<body>
    <h1>{}</h1>
    {}

    
    Thanks!!
    
</body>
</html>
",
        TITLE, TITLE, CONTENT
    );
    let file_data = parse_file(WEBSITE_COND.as_bytes()).unwrap();
    let params = Params::new(&file_data.contents);
    let (texts, conds) = params.record_fields();
    assert_eq!(texts, vec![b"content".to_vec(), b"title".to_vec()]);
    assert_eq!(conds, vec![b"include-footer".to_vec()]);
    let result = render(WEBSITE_COND, &[Value::Text(CONTENT), Value::Text(TITLE), Value::Flag(true)]);
    assert_eq!(result, expected);
}

#[test]
fn pure_text_renders_unchanged() {
    assert_eq!(render("Hello, world!", &[]), "Hello, world!");
}

#[test]
fn two_parameters_are_spliced() {
    assert_eq!(render("A{{p0}}B{{p1}}C", &[Value::Text("x"), Value::Text("yz")]), "AxByzC");
}

#[test]
fn repeated_parameter_is_spliced_everywhere() {
    let source = "<title>{{ title }}</title><h1>{{ title }}</h1><p>{{ content }}</p>";
    let result = render(source, &[Value::Text("C"), Value::Text("T")]);
    assert_eq!(result, "<title>T</title><h1>T</h1><p>C</p>");
}

#[test]
fn conditional_true_keeps_block() {
    assert_eq!(render("X{% if ok %}Y{% endif %}Z", &[Value::Flag(true)]), "XYZ");
}

#[test]
fn conditional_false_drops_block() {
    assert_eq!(render("X{% if ok %}Y{% endif %}Z", &[Value::Flag(false)]), "XZ");
}

#[test]
fn nested_conditionals_compose() {
    let source = "a{% if x %}b{{ p }}{% if y %}c{% endif %}d{% endif %}e";
    let run = |x, y| render(source, &[Value::Text("P"), Value::Flag(x), Value::Flag(y)]);
    assert_eq!(run(true, true), "abPcde");
    assert_eq!(run(true, false), "abPde");
    assert_eq!(run(false, true), "ae");
    assert_eq!(run(false, false), "ae");
}

#[test]
fn empty_parameter_value_contributes_nothing() {
    assert_eq!(render("[{{ v }}]", &[Value::Text("")]), "[]");
}

fn many_params(n: usize) -> String {
    (0..n).map(|i| format!("<{{{{ p{} }}}}>", i)).collect()
}

#[test]
fn spill_threshold() {
    let source = many_params(9);
    let file_data = parse_file(source.as_bytes()).unwrap();
    let params = Params::new(&file_data.contents);
    assert_eq!(params.stack_len(), 18);
    assert!(params.must_spill());
    let values = ["a", "bb", "ccc", "d", "ee", "f", "gg", "h", "iii"];
    let args: Vec<Value> = values.iter().map(|v| Value::Text(v)).collect();
    let expected: String = values.iter().map(|v| format!("<{}>", v)).collect();
    assert_eq!(render(&source, &args), expected);
}

#[test]
fn flat_and_spilled_render_alike() {
    let values = ["a", "bb", "ccc", "d", "ee", "f", "gg", "h", "iii"];
    for n in [8, 9] {
        let source = many_params(n);
        let file_data = parse_file(source.as_bytes()).unwrap();
        assert_eq!(Params::new(&file_data.contents).must_spill(), n > 8);
        let args: Vec<Value> = values[..n].iter().map(|v| Value::Text(v)).collect();
        let expected: String = values[..n].iter().map(|v| format!("<{}>", v)).collect();
        assert_eq!(render(&source, &args), expected);
    }
}

#[test]
fn spilled_conditions_are_read_from_memory() {
    let mut source = many_params(8);
    source.push_str("{% if flag %}!{% endif %}");
    let file_data = parse_file(source.as_bytes()).unwrap();
    assert!(Params::new(&file_data.contents).must_spill());
    let values = ["a", "b", "c", "d", "e", "f", "g", "h"];
    let mut args: Vec<Value> = values.iter().map(|v| Value::Text(v)).collect();
    args.insert(0, Value::Flag(true));
    // record order: text parameters first, then conditions
    args.remove(0);
    args.push(Value::Flag(true));
    assert_eq!(render(&source, &args), "<a><b><c><d><e><f><g><h>!");
    args.pop();
    args.push(Value::Flag(false));
    assert_eq!(render(&source, &args), "<a><b><c><d><e><f><g><h>");
}

#[test]
fn data_segments_follow_text_indices() {
    let file_data = parse_file(b"one{% if c %}two{{ p }}three{% endif %}four").unwrap();
    let params = Params::new(&file_data.contents);
    let template = TemplateGenerator::new(params, &file_data);
    let segments = template.data_segments();
    assert_eq!(segments, vec![b"one".to_vec(), b"two".to_vec(), b"three".to_vec(), b"four".to_vec()]);
}

#[test]
fn length_code_matches_layout() {
    let file_data = parse_file(b"ab{{ p }}{{ p }}").unwrap();
    let params = Params::new(&file_data.contents);
    let template = TemplateGenerator::new(params, &file_data);
    let code = template.gen_core_code();
    assert_eq!(
        &code[0..7],
        &[
            Instr::I32Const(2),
            Instr::LocalGet(1),
            Instr::I32Const(2),
            Instr::I32Mul,
            Instr::I32Add,
            Instr::LocalSet(2),
            Instr::I32Const(0),
        ]
    );
    assert_eq!(code.last(), Some(&Instr::End));
}

#[test]
fn params_are_sorted_and_unique() {
    let file_data = parse_file(b"{{ b }}{{ a }}{{ b }}{% if z %}{{ c }}{% endif %}{% if y %}{% endif %}{% if z %}{% endif %}").unwrap();
    let params = Params::new(&file_data.contents);
    assert_eq!(params.text_params_len(), 3);
    assert_eq!(params.text_param_index(b"a"), 0);
    assert_eq!(params.text_param_index(b"b"), 1);
    assert_eq!(params.text_param_index(b"c"), 2);
    assert_eq!(params.cond_param_index(b"y"), 0);
    assert_eq!(params.cond_param_index(b"z"), 1);
    assert_eq!(params.stack_len(), 8);
    assert!(!params.must_spill());
}

#[test]
fn kebab_case_field_names() {
    assert_eq!(snake_to_kebab(b"include_footer_text"), b"include-footer-text".to_vec());
    assert_eq!(snake_to_kebab(b"plain"), b"plain".to_vec());
}

#[test]
fn allocator_assembles_to_a_module() {
    let bytes = gen_allocator().unwrap();
    assert_eq!(&bytes[0..8], &[0x00, 0x61, 0x73, 0x6d, 0x01, 0x00, 0x00, 0x00]);
}

#[test]
fn module_and_component_are_encoded() {
    let file_data = parse_file(b"Hi {{ name }}!").unwrap();
    let params = Params::new(&file_data.contents);
    let template = TemplateGenerator::new(params, &file_data);
    let module = gen_module(&config(), &template).unwrap().finish();
    assert_eq!(&module[0..8], &[0x00, 0x61, 0x73, 0x6d, 0x01, 0x00, 0x00, 0x00]);
    // type section first
    assert_eq!(module[8], 1);
    let component = gen_component_with(&config(), &template, &gen_allocator().unwrap()).unwrap().finish();
    assert_eq!(&component[0..8], &[0x00, 0x61, 0x73, 0x6d, 0x0d, 0x00, 0x01, 0x00]);
    // the allocator module comes first
    assert_eq!(component[8], 1);
}

#[test]
fn stray_endif_is_a_parse_error() {
    assert!(matches!(parse_file(b"a{% endif %}"), Err(ParseError::Unexpected { .. })));
}

#[test]
fn missing_endif_is_a_parse_error() {
    assert!(matches!(parse_file(b"a{% if x %}b"), Err(ParseError::UnexpectedEnd)));
}

#[test]
fn if_without_identifier_is_a_lexical_error() {
    match parse_file(b"{% if %}x{% endif %}") {
        Err(ParseError::Token(e)) => assert_eq!(e.expected, template_compiler::Expected::Identifier),
        _ => panic!("expected a lexical error"),
    }
}

#[test]
fn extra_endif_is_a_parse_error() {
    assert!(matches!(parse_file(b"{% if x %}a{% endif %}{% endif %}"), Err(ParseError::Unexpected { .. })));
}

#[test]
fn lexical_error_is_reported_by_the_parser() {
    assert!(matches!(parse_file(b"{{ x"), Err(ParseError::Token(_))));
}
