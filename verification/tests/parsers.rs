use houndlens::edge::{CallCondition, UsirEdge};
use houndlens::frontend::LanguageFrontend;
use houndlens::frontends::{PythonFrontend, RustFrontend, TypeScriptFrontend};
use houndlens::ir::Visibility;
use houndlens::node::{DataTypeKind, UsirNode};
use houndlens::pyparse;
use houndlens::rustlang::RustParser;
use houndlens::syntax::{build_tree, parse_syntax, Grammar, SyntaxEvent};
use houndlens::tsparse;

fn python(src: &[u8]) -> houndlens::frontend::ParseResult {
    let mut next = 200_000u64;
    pyparse::parse("test.py", src, &mut next).unwrap()
}

fn rust(src: &[u8]) -> houndlens::frontend::ParseResult {
    let mut next = 1u64;
    RustParser::new().parse("test.rs", src, &mut next).unwrap()
}

fn typescript(src: &[u8]) -> houndlens::frontend::ParseResult {
    let mut next = 100_000u64;
    tsparse::parse("test.ts", src, false, &mut next).unwrap()
}

fn calls(r: &houndlens::frontend::ParseResult) -> usize {
    r.edges.iter().filter(|e| matches!(e, UsirEdge::Calls(_))).count()
}

// ─── Python ────────────────────────────────────────────────────

#[test]
fn test_parse_function() {
    let src = br#"
def greet(name: str) -> str:
    return f"Hello {name}"
"#;
    let result = python(src);
    let fns: Vec<_> = result
        .nodes
        .iter()
        .filter(|n| matches!(n, UsirNode::Function(f) if f.complexity.is_some()))
        .collect();
    assert!(!fns.is_empty());
    match &fns[0] {
        UsirNode::Function(f) => {
            assert_eq!(f.name.display(), "greet");
            assert_eq!(f.params.len(), 1);
            assert_eq!(f.params[0].name, "name");
        }
        _ => unreachable!(),
    }
}

#[test]
fn test_parse_class() {
    let src = br#"
class UserService:
    def __init__(self, db):
        self.db = db

    async def get_user(self, user_id: int) -> User:
        return await self.db.find_one(user_id)

    def _private_method(self):
        pass
"#;
    let result = python(src);
    let classes: Vec<_> = result.nodes.iter().filter(|n| matches!(n, UsirNode::DataType(_))).collect();
    assert_eq!(classes.len(), 1);
    let methods: Vec<_> = result
        .nodes
        .iter()
        .filter(|n| matches!(n, UsirNode::Function(f) if f.complexity.is_some()))
        .collect();
    assert!(methods.len() >= 3);
    let private: Vec<_> = result
        .nodes
        .iter()
        .filter(|n| matches!(n, UsirNode::Function(f) if f.visibility == Visibility::Private && f.complexity.is_some()))
        .collect();
    assert!(!private.is_empty());
}

#[test]
fn test_parse_calls() {
    let src = br#"
def process():
    data = fetch_data()
    result = transform(data)
    print(result)
"#;
    let result = python(src);
    assert!(calls(&result) >= 3);
}

#[test]
fn python_methods_are_scoped_and_contained() {
    let src = br#"
class Repo(Base, Mixin):
    def save(self, item: str, retries: int = 3):
        if item:
            store(item)
"#;
    let result = python(src);
    let class_id = match &result.nodes[0] {
        UsirNode::DataType(d) => {
            assert_eq!(d.name.display(), "Repo");
            assert_eq!(d.kind, DataTypeKind::Class);
            assert_eq!(d.implements.len(), 2);
            d.id
        }
        _ => panic!("expected the class first"),
    };
    match &result.nodes[1] {
        UsirNode::Function(f) => {
            assert_eq!(f.name.display(), "Repo::save");
            assert_eq!(f.params.len(), 2);
            assert_eq!(f.params[0].name, "item");
            assert!(f.params[1].has_default);
            // one for the function, one for the `if`
            assert_eq!(f.complexity, Some(2));
            assert_eq!(f.visibility, Visibility::Public);
        }
        _ => panic!("expected the method second"),
    }
    assert!(result.edges.iter().any(|e| matches!(e, UsirEdge::Contains(c) if c.parent == class_id)));
    let conditional = result.edges.iter().any(|e| {
        matches!(e, UsirEdge::Calls(c) if matches!(&c.condition, Some(CallCondition::Conditional(k)) if k == "if_statement"))
    });
    assert!(conditional);
}

#[test]
fn python_ids_come_from_the_counter() {
    let mut next = 7u64;
    let result = pyparse::parse("m.py", b"def f():\n    pass\n", &mut next).unwrap();
    assert_eq!(result.nodes.len(), 1);
    assert_eq!(result.nodes[0].id().0, 7);
    assert_eq!(next, 8);
}

#[test]
fn python_spans_count_lines_from_one() {
    let result = python(b"\n\ndef late():\n    pass\n");
    match &result.nodes[0] {
        UsirNode::Function(f) => {
            assert_eq!(f.span.start_line, 3);
            assert_eq!(f.span.start_col, 0);
            assert_eq!(f.span.file, "test.py");
        }
        _ => panic!("expected a function"),
    }
}

// ─── Rust ──────────────────────────────────────────────────────

#[test]
fn test_parse_simple_function() {
    let source = br#"
pub fn add(a: i32, b: i32) -> i32 {
    a + b
}
"#;
    let result = rust(source);
    assert_eq!(result.nodes.len(), 1);
    match &result.nodes[0] {
        UsirNode::Function(f) => {
            assert_eq!(f.name.display(), "add");
            assert_eq!(f.params.len(), 2);
            assert_eq!(f.params[0].name, "a");
            assert_eq!(f.visibility, Visibility::Public);
            assert!(!f.is_async);
        }
        _ => panic!("Expected Function node"),
    }
}

#[test]
fn test_parse_struct_with_fields() {
    let source = br#"
pub struct Config {
    pub name: String,
    value: i32,
}
"#;
    let result = rust(source);
    assert_eq!(result.nodes.len(), 1);
    match &result.nodes[0] {
        UsirNode::DataType(dt) => {
            assert_eq!(dt.name.display(), "Config");
            assert_eq!(dt.fields.len(), 2);
            assert_eq!(dt.fields[0].name, "name");
            assert_eq!(dt.fields[0].visibility, Visibility::Public);
            assert_eq!(dt.fields[1].name, "value");
            assert_eq!(dt.fields[1].visibility, Visibility::Private);
        }
        _ => panic!("Expected DataType node"),
    }
}

#[test]
fn test_parse_function_with_calls() {
    let source = br#"
fn process() {
    let x = compute();
    let y = transform(x);
}
"#;
    let result = rust(source);
    let func_count = result.nodes.iter().filter(|n| matches!(n, UsirNode::Function(_))).count();
    assert!(func_count >= 1);
    assert_eq!(calls(&result), 2);
}

#[test]
fn test_complexity_count() {
    let source = br#"
fn complex(x: i32) -> i32 {
    if x > 0 {
        if x > 10 {
            return x * 2;
        }
        x + 1
    } else {
        match x {
            -1 => 0,
            -2 => -1,
            _ => x,
        }
    }
}
"#;
    let result = rust(source);
    match &result.nodes[0] {
        UsirNode::Function(f) => {
            let c = f.complexity.unwrap();
            assert!(c >= 4, "Expected complexity >= 4, got {}", c);
        }
        _ => panic!("Expected Function"),
    }
}

#[test]
fn rust_modules_impls_and_bindings() {
    let source = br#"
mod store {
    pub struct Item;
    trait Named { fn name(&self) -> String; }
    impl Named for Item {
        fn name(&self) -> String { label() }
    }
}
const LIMIT: u32 = 3;
static mut COUNT: u32 = 0;
"#;
    let result = rust(source);
    let module_id = result.nodes[0].id();
    assert!(matches!(&result.nodes[0], UsirNode::Module(m) if m.name.display() == "store"));
    assert!(result.nodes.iter().any(|n| matches!(n, UsirNode::Function(f) if f.name.display() == "store::Item::name")));
    assert!(result.edges.iter().any(|e| matches!(e, UsirEdge::Implements(_))));
    assert!(result.edges.iter().any(|e| matches!(e, UsirEdge::Contains(c) if c.parent == module_id)));
    let constant = result.nodes.iter().any(|n| matches!(n, UsirNode::Binding(b) if b.is_constant && !b.is_mutable));
    let mutable = result.nodes.iter().any(|n| matches!(n, UsirNode::Binding(b) if !b.is_constant && b.is_mutable));
    assert!(constant && mutable);
    // the call to `label` gets a placeholder without complexity
    assert!(result.nodes.iter().any(|n| matches!(n, UsirNode::Function(f) if f.name.display() == "label" && f.complexity.is_none())));
}

#[test]
fn rust_visibility_modifiers() {
    let result = rust(b"pub(crate) fn a() {}\npub(super) fn b() {}\nfn c() {}\n");
    let vis: Vec<Visibility> = result
        .nodes
        .iter()
        .filter_map(|n| match n {
            UsirNode::Function(f) => Some(f.visibility),
            _ => None,
        })
        .collect();
    assert_eq!(vis, vec![Visibility::Internal, Visibility::Protected, Visibility::Private]);
}

// ─── TypeScript ────────────────────────────────────────────────

#[test]
fn parser_test_parse_function() {
    let src = b"export function greet(name: string): string { return `Hello ${name}`; }";
    let result = typescript(src);
    let fns: Vec<_> = result.nodes.iter().filter(|n| matches!(n, UsirNode::Function(_))).collect();
    assert!(!fns.is_empty());
    match &fns[0] {
        UsirNode::Function(f) => {
            assert_eq!(f.name.display(), "greet");
            assert_eq!(f.params.len(), 1);
            assert_eq!(f.params[0].name, "name");
            assert_eq!(f.visibility, Visibility::Public);
        }
        _ => unreachable!(),
    }
}

#[test]
fn test_parse_arrow_function() {
    let src = b"const add = (a: number, b: number): number => a + b;";
    let result = typescript(src);
    let fns: Vec<_> = result
        .nodes
        .iter()
        .filter(|n| matches!(n, UsirNode::Function(f) if f.complexity.is_some()))
        .collect();
    assert!(!fns.is_empty(), "Should find arrow function as Function node");
    match &fns[0] {
        UsirNode::Function(f) => {
            assert_eq!(f.name.display(), "add");
            assert_eq!(f.params.len(), 2);
        }
        _ => unreachable!(),
    }
}

#[test]
fn parser_test_parse_class() {
    let src = br#"
class UserService {
    private db: Database;

    async getUser(id: string): Promise<User> {
        return this.db.findOne(id);
    }

    deleteUser(id: string): void {
        this.db.delete(id);
    }
}
"#;
    let result = typescript(src);
    let classes: Vec<_> = result.nodes.iter().filter(|n| matches!(n, UsirNode::DataType(_))).collect();
    assert_eq!(classes.len(), 1);
    let methods: Vec<_> = result
        .nodes
        .iter()
        .filter(|n| matches!(n, UsirNode::Function(f) if f.complexity.is_some()))
        .collect();
    assert!(methods.len() >= 2, "Should find at least 2 methods");
}

#[test]
fn test_parse_interface() {
    let src = br#"
interface Config {
    host: string;
    port: number;
    debug?: boolean;
}
"#;
    let result = typescript(src);
    let ifaces: Vec<_> = result
        .nodes
        .iter()
        .filter(|n| matches!(n, UsirNode::DataType(dt) if dt.kind == DataTypeKind::Interface))
        .collect();
    assert_eq!(ifaces.len(), 1);
    match &ifaces[0] {
        UsirNode::DataType(dt) => {
            assert_eq!(dt.name.display(), "Config");
            assert!(dt.fields.len() >= 2);
        }
        _ => unreachable!(),
    }
}

#[test]
fn parser_test_parse_calls() {
    let src = br#"
function process() {
    const data = fetchData();
    const result = transform(data);
    console.log(result);
}
"#;
    let result = typescript(src);
    assert!(calls(&result) >= 3, "Should find 3 calls: fetchData, transform, console.log");
}

#[test]
fn typescript_bindings_and_heritage() {
    let src = br#"
let counter: number = 0;
const limit = 10;
export class Store implements Cache, Source {
    private secret(): void {}
}
"#;
    let result = typescript(src);
    let bindings: Vec<(bool, String)> = result
        .nodes
        .iter()
        .filter_map(|n| match n {
            UsirNode::Binding(b) => Some((b.is_constant, b.name.display())),
            _ => None,
        })
        .collect();
    assert_eq!(bindings, vec![(false, "counter".to_string()), (true, "limit".to_string())]);
    match result.nodes.iter().find(|n| matches!(n, UsirNode::DataType(_))) {
        Some(UsirNode::DataType(d)) => {
            assert_eq!(d.visibility, Visibility::Public);
            assert_eq!(d.implements.len(), 2);
        }
        _ => panic!("expected the class"),
    }
    assert!(result.nodes.iter().any(|n| matches!(n, UsirNode::Function(f) if f.visibility == Visibility::Private && f.name.display() == "Store::secret")));
}

#[test]
fn frontends_parse_through_the_trait() {
    let mut next = 1u64;
    assert!(PythonFrontend::new().parse_file("a.py", b"def f(): pass\n", &mut next).is_ok());
    assert!(RustFrontend::new().parse_file("a.rs", b"fn f() {}\n", &mut next).is_ok());
    let tsx = TypeScriptFrontend::new().parse_file("a.tsx", b"const x = <div/>;\n", &mut next).unwrap();
    assert_eq!(tsx.nodes.len(), 1);
    assert_eq!(next, 4);
}

// ─── Syntax trees ──────────────────────────────────────────────

#[test]
fn syntax_tree_of_a_small_module() {
    let t = parse_syntax(Grammar::Python, b"x = 1\n").unwrap();
    assert_eq!(t.kind, "module");
    assert_eq!(t.children.len(), 1);
    assert_eq!(t.start_row, 0);
}

#[test]
fn walks_that_are_not_trees_are_refused() {
    let enter = |k: &str| SyntaxEvent::Enter(k.to_string(), None, 0, 0, 0, 0, 0, 0);
    assert!(build_tree(&vec![SyntaxEvent::Leave]).is_none());
    assert!(build_tree(&vec![enter("a"), SyntaxEvent::Leave, enter("b"), SyntaxEvent::Leave]).is_none());
    assert!(build_tree(&vec![enter("a"), enter("b")]).is_none());
    let t = build_tree(&vec![enter("a"), enter("b"), SyntaxEvent::Leave, enter("c"), SyntaxEvent::Leave, SyntaxEvent::Leave]).unwrap();
    assert_eq!(t.kind, "a");
    assert_eq!(t.children.len(), 2);
    assert_eq!(t.children[1].kind, "c");
}
