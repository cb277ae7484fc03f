use cortex::models::{ImportType, SymbolKind};
use cortex::parser::java_parser::JavaParser;
use cortex::parser::Parser;

#[test]
fn java_parser_test_parse_class_with_methods() {
    let code = r#"
public class UserService {
    private String name;

    public String getName() {
        return name;
    }

    public void setName(String name) {
        this.name = name;
    }
}
"#;
    let parser = JavaParser;
    let result = parser.parse(code, "UserService.java");
    assert!(result
        .symbols
        .iter()
        .any(|s| s.name == "UserService" && s.kind == SymbolKind::Class));
    assert!(result
        .symbols
        .iter()
        .any(|s| s.name == "getName" && s.kind == SymbolKind::Method));
    assert!(result
        .symbols
        .iter()
        .any(|s| s.name == "setName" && s.kind == SymbolKind::Method));
}

#[test]
fn test_parse_interface() {
    let code = r#"
public interface Repository {
    void save(Object entity);
    Object findById(long id);
}
"#;
    let parser = JavaParser;
    let result = parser.parse(code, "Repository.java");
    assert!(result
        .symbols
        .iter()
        .any(|s| s.name == "Repository" && s.kind == SymbolKind::Interface));
    assert!(result
        .symbols
        .iter()
        .any(|s| s.name == "save" && s.kind == SymbolKind::Method));
    assert!(result
        .symbols
        .iter()
        .any(|s| s.name == "findById" && s.kind == SymbolKind::Method));
}

#[test]
fn java_parser_test_parse_enum() {
    let code = r#"
public enum Status {
    ACTIVE,
    INACTIVE,
    PENDING;

    public boolean isActive() {
        return this == ACTIVE;
    }
}
"#;
    let parser = JavaParser;
    let result = parser.parse(code, "Status.java");
    assert!(result
        .symbols
        .iter()
        .any(|s| s.name == "Status" && s.kind == SymbolKind::Enum));
    assert!(result
        .symbols
        .iter()
        .any(|s| s.name == "isActive" && s.kind == SymbolKind::Method));
}

#[test]
fn test_parse_imports() {
    let code = r#"
import java.util.List;
import java.util.*;
import static java.util.Collections.emptyList;
"#;
    let parser = JavaParser;
    let result = parser.parse(code, "Test.java");
    assert!(result
        .imports
        .iter()
        .any(|i| i.imported_symbol == "List" && i.import_type == ImportType::Import));
    assert!(result
        .imports
        .iter()
        .any(|i| i.imported_symbol == "java.util.*"));
    assert!(result.imports.len() == 3);
}

#[test]
fn test_parse_extends_implements() {
    let code = r#"
public class Dog extends Animal implements Comparable<Dog> {
    @Override
    public int compareTo(Dog other) {
        return 0;
    }
}
"#;
    let parser = JavaParser;
    let result = parser.parse(code, "Dog.java");
    let class = result
        .symbols
        .iter()
        .find(|s| s.kind == SymbolKind::Class)
        .unwrap();
    assert!(class.signature.as_ref().unwrap().contains("extends Animal"));
    assert!(class
        .signature
        .as_ref()
        .unwrap()
        .contains("implements Comparable"));
}

#[test]
fn test_parse_constructor() {
    let code = r#"
public class User {
    private String name;

    public User(String name) {
        this.name = name;
    }
}
"#;
    let parser = JavaParser;
    let result = parser.parse(code, "User.java");
    assert!(result.symbols.iter().any(|s| s.name == "User"
        && s.kind == SymbolKind::Method
        && s.signature.as_ref().unwrap().contains("(String name)")));
}

#[test]
fn java_parser_test_parse_constant() {
    let code = r#"
public class Config {
    public static final int MAX_RETRIES = 3;
    private String name;
}
"#;
    let parser = JavaParser;
    let result = parser.parse(code, "Config.java");
    assert!(result
        .symbols
        .iter()
        .any(|s| s.name == "MAX_RETRIES" && s.kind == SymbolKind::Constant));
    // Regular field should not appear
    assert!(!result
        .symbols
        .iter()
        .any(|s| s.name == "name" && s.kind == SymbolKind::Constant));
}

#[test]
fn test_parse_javadoc() {
    let code = r#"
/**
 * A service for managing users.
 * Handles CRUD operations.
 */
public class UserService {
}
"#;
    let parser = JavaParser;
    let result = parser.parse(code, "UserService.java");
    let class = result
        .symbols
        .iter()
        .find(|s| s.name == "UserService")
        .unwrap();
    let doc = class.documentation.as_ref().unwrap();
    assert!(doc.contains("service for managing users"));
    assert!(doc.contains("Handles CRUD operations"));
}

#[test]
fn test_parse_inner_class() {
    let code = r#"
public class Outer {
    public class Inner {
        void doStuff() {}
    }
}
"#;
    let parser = JavaParser;
    let result = parser.parse(code, "Outer.java");
    assert!(result
        .symbols
        .iter()
        .any(|s| s.name == "Outer" && s.kind == SymbolKind::Class));
    assert!(result
        .symbols
        .iter()
        .any(|s| s.name == "Inner" && s.kind == SymbolKind::Class));
    assert!(result
        .symbols
        .iter()
        .any(|s| s.name == "doStuff" && s.kind == SymbolKind::Method));
}
