use cortex::models::SymbolKind;
use cortex::parser::rust_parser::RustParser;
use cortex::parser::Parser;

#[test]
fn test_parse_simple_function() {
    let code = "fn hello_world() {\n    println!(\"Hello\");\n}\n";
    let parser = RustParser;
    let result = parser.parse(code, "test.rs");
    let symbols = &result.symbols;
    assert_eq!(symbols.len(), 1);
    assert_eq!(symbols[0].name, "hello_world");
    assert_eq!(symbols[0].kind, SymbolKind::Function);
}

#[test]
fn test_parse_struct() {
    let code = "struct User {\n    name: String,\n    age: u32,\n}\n";
    let parser = RustParser;
    let result = parser.parse(code, "test.rs");
    let symbols = &result.symbols;
    assert_eq!(symbols.len(), 1);
    assert_eq!(symbols[0].name, "User");
    assert_eq!(symbols[0].kind, SymbolKind::Struct);
}

#[test]
fn rust_parser_test_parse_enum() {
    let code = "enum Color {\n    Red,\n    Green,\n    Blue,\n}\n";
    let parser = RustParser;
    let result = parser.parse(code, "test.rs");
    let symbols = &result.symbols;
    assert_eq!(symbols.len(), 1);
    assert_eq!(symbols[0].name, "Color");
    assert_eq!(symbols[0].kind, SymbolKind::Enum);
}

#[test]
fn test_parse_impl_with_methods() {
    let code = "impl User {\n    fn new(name: String) -> Self {\n        Self { name, age: 0 }\n    }\n\n    fn greet(&self) -> String {\n        format!(\"Hi, I'm {}\", self.name)\n    }\n}\n";
    let parser = RustParser;
    let result = parser.parse(code, "test.rs");
    let symbols = &result.symbols;
    assert!(symbols.len() >= 3, "Expected >= 3 symbols, got {}", symbols.len());
    let impl_sym = symbols.iter().find(|s| s.kind == SymbolKind::Impl).unwrap();
    assert_eq!(impl_sym.name, "User");
    let methods: Vec<_> = symbols.iter().filter(|s| s.kind == SymbolKind::Method).collect();
    assert_eq!(methods.len(), 2);
}

#[test]
fn test_parse_trait() {
    let code = "trait Drawable {\n    fn draw(&self);\n}\n";
    let parser = RustParser;
    let result = parser.parse(code, "test.rs");
    let symbols = &result.symbols;
    assert!(symbols.iter().any(|s| s.name == "Drawable" && s.kind == SymbolKind::Trait));
}

#[test]
fn rust_parser_test_parse_constant() {
    let code = "const MAX_SIZE: usize = 1024;\n";
    let parser = RustParser;
    let result = parser.parse(code, "test.rs");
    let symbols = &result.symbols;
    assert!(symbols.iter().any(|s| s.name == "MAX_SIZE" && s.kind == SymbolKind::Constant));
}

#[test]
fn test_function_signature() {
    let code = "fn add(a: i32, b: i32) -> i32 {\n    a + b\n}\n";
    let parser = RustParser;
    let result = parser.parse(code, "test.rs");
    let symbols = &result.symbols;
    assert_eq!(symbols.len(), 1);
    let sig = symbols[0].signature.as_ref().unwrap();
    assert!(sig.contains("fn add"), "Signature: {sig}");
    assert!(sig.contains("-> i32"), "Signature: {sig}");
}

#[test]
fn test_parse_mixed() {
    let code = "mod my_module;\n\nconst VERSION: &str = \"1.0\";\n\nstruct Config {\n    debug: bool,\n}\n\nimpl Config {\n    fn new() -> Self {\n        Self { debug: false }\n    }\n}\n\nfn main() {\n    let cfg = Config::new();\n}\n\nenum Status {\n    Active,\n    Inactive,\n}\n";
    let parser = RustParser;
    let result = parser.parse(code, "test.rs");
    let symbols = &result.symbols;
    let kinds: Vec<_> = symbols.iter().map(|s| s.kind).collect();
    assert!(kinds.contains(&SymbolKind::Module), "Missing Module in {:?}", kinds);
    assert!(kinds.contains(&SymbolKind::Constant), "Missing Constant in {:?}", kinds);
    assert!(kinds.contains(&SymbolKind::Struct), "Missing Struct in {:?}", kinds);
    assert!(kinds.contains(&SymbolKind::Impl), "Missing Impl in {:?}", kinds);
    assert!(kinds.contains(&SymbolKind::Method), "Missing Method in {:?}", kinds);
    assert!(kinds.contains(&SymbolKind::Function), "Missing Function in {:?}", kinds);
    assert!(kinds.contains(&SymbolKind::Enum), "Missing Enum in {:?}", kinds);
}
