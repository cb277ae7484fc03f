use cortex::models::SymbolKind;
use cortex::parser::js_parser::JsParser;
use cortex::parser::Parser;

#[test]
fn js_parser_test_parse_function() {
    let code = "function greet(name) {\n    return `Hello ${name}`;\n}\n";
    let parser = JsParser;
    let result = parser.parse(code, "test.js");
    let symbols = &result.symbols;
    assert!(symbols
        .iter()
        .any(|s| s.name == "greet" && s.kind == SymbolKind::Function));
}

#[test]
fn test_parse_class() {
    let code = "class Animal {\n    constructor(name) {\n        this.name = name;\n    }\n\n    speak() {\n        return `${this.name} makes a noise`;\n    }\n}\n";
    let parser = JsParser;
    let result = parser.parse(code, "test.js");
    let symbols = &result.symbols;
    assert!(symbols
        .iter()
        .any(|s| s.name == "Animal" && s.kind == SymbolKind::Class));
    assert!(symbols
        .iter()
        .any(|s| s.name == "constructor" && s.kind == SymbolKind::Method));
    assert!(symbols
        .iter()
        .any(|s| s.name == "speak" && s.kind == SymbolKind::Method));
}

#[test]
fn test_parse_arrow_function() {
    let code = "const add = (a, b) => a + b;\n";
    let parser = JsParser;
    let result = parser.parse(code, "test.js");
    let symbols = &result.symbols;
    assert!(symbols
        .iter()
        .any(|s| s.name == "add" && s.kind == SymbolKind::Function));
}

#[test]
fn test_parse_export() {
    let code = "export function handler(req, res) {\n    res.send(\"ok\");\n}\n\nexport class Controller {\n    index() {}\n}\n";
    let parser = JsParser;
    let result = parser.parse(code, "test.js");
    let symbols = &result.symbols;
    assert!(symbols
        .iter()
        .any(|s| s.name == "handler" && s.kind == SymbolKind::Function));
    assert!(symbols
        .iter()
        .any(|s| s.name == "Controller" && s.kind == SymbolKind::Class));
}

#[test]
fn test_parse_extends() {
    let code = "class Dog extends Animal {\n    bark() {}\n}\n";
    let parser = JsParser;
    let result = parser.parse(code, "test.js");
    let symbols = &result.symbols;
    let class = symbols
        .iter()
        .find(|s| s.kind == SymbolKind::Class)
        .unwrap();
    assert!(class.signature.as_ref().unwrap().contains("extends"));
}

#[test]
fn test_parse_export_all() {
    let code = "export * from './helpers';\n";
    let parser = JsParser;
    let result = parser.parse(code, "index.js");
    assert!(result
        .symbols
        .iter()
        .any(|s| s.kind == SymbolKind::Module && s.name.contains("* from ./helpers")));
}

#[test]
fn test_parse_named_re_export() {
    let code = "export { processRequest } from './handler';\n";
    let parser = JsParser;
    let result = parser.parse(code, "index.js");
    assert!(result
        .symbols
        .iter()
        .any(|s| s.kind == SymbolKind::Module && s.name.contains("processRequest")));
}
