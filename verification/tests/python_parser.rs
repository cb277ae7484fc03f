use cortex::models::SymbolKind;
use cortex::parser::python_parser::PythonParser;
use cortex::parser::Parser;

#[test]
fn python_parser_test_parse_function() {
    let code = r#"
def hello(name):
    print(f"Hello {name}")
"#;
    let parser = PythonParser;
    let result = parser.parse(code, "test.py");
    let symbols = &result.symbols;
    assert_eq!(symbols.len(), 1);
    assert_eq!(symbols[0].name, "hello");
    assert_eq!(symbols[0].kind, SymbolKind::Function);
}

#[test]
fn python_parser_test_parse_class_with_methods() {
    let code = r#"
class Dog:
    def __init__(self, name):
        self.name = name

    def bark(self):
        return f"{self.name} says woof!"
"#;
    let parser = PythonParser;
    let result = parser.parse(code, "test.py");
    let symbols = &result.symbols;
    assert!(symbols
        .iter()
        .any(|s| s.name == "Dog" && s.kind == SymbolKind::Class));
    assert!(symbols
        .iter()
        .any(|s| s.name == "__init__" && s.kind == SymbolKind::Method));
    assert!(symbols
        .iter()
        .any(|s| s.name == "bark" && s.kind == SymbolKind::Method));
}

#[test]
fn test_parse_class_with_inheritance() {
    let code = r#"
class Animal(Base):
    pass
"#;
    let parser = PythonParser;
    let result = parser.parse(code, "test.py");
    let symbols = &result.symbols;
    let class = symbols
        .iter()
        .find(|s| s.kind == SymbolKind::Class)
        .unwrap();
    assert!(class.signature.as_ref().unwrap().contains("Base"));
}

#[test]
fn test_parse_docstring() {
    let code = r#"
def greet(name):
    """Say hello to someone."""
    return f"Hello {name}"
"#;
    let parser = PythonParser;
    let result = parser.parse(code, "test.py");
    let symbols = &result.symbols;
    assert_eq!(
        symbols[0].documentation.as_deref(),
        Some("Say hello to someone.")
    );
}
