use ferro::error::{Pos, Span};
use ferro::modules::{
    import_not_found, import_unreadable, parse_imported, parse_module, unresolvable_path, ImportResolver,
};

fn names(p: &ferro::ast::Program) -> Vec<String> {
    p.functions.iter().map(|f| f.name.clone()).collect()
}

#[test]
fn imported_items_come_first_and_are_recorded() {
    let main = parse_module("import \"a.ferro\";\nfn main() { api(); }").unwrap();
    let mut r = ImportResolver::start("/p/main.ferro", "/p", main);
    let q = r.next_import().unwrap();
    assert_eq!(q.path, "a.ferro");
    assert_eq!(q.dir, "/p");
    assert!(r.enter("/p/a.ferro"));
    let a = parse_imported("a.ferro", "priv fn helper() {}\nfn api() { helper(); }\nenum Color { Red }").unwrap();
    r.add_module("/p", a);
    assert!(r.next_import().is_none());
    let (program, privates) = r.finish();
    assert!(program.imports.is_empty());
    assert_eq!(names(&program), vec!["helper", "api", "main"]);
    assert_eq!(program.enums.len(), 1);
    assert_eq!(
        privates,
        vec![("helper".to_string(), true), ("api".to_string(), false), ("Color".to_string(), false)]
    );
}

#[test]
fn nested_imports_are_merged_depth_first() {
    let main = parse_module("import \"b.ferro\";\nimport \"c.ferro\";\nfn main() {}").unwrap();
    let mut r = ImportResolver::start("/p/main.ferro", "/p", main);
    let q = r.next_import().unwrap();
    assert_eq!(q.path, "b.ferro");
    assert!(r.enter("/p/b.ferro"));
    r.add_module("/p", parse_imported("b.ferro", "import \"lib/d.ferro\";\nfn b() {}").unwrap());
    let q = r.next_import().unwrap();
    assert_eq!(q.path, "lib/d.ferro");
    assert!(r.enter("/p/lib/d.ferro"));
    r.add_module("/p/lib", parse_imported("lib/d.ferro", "fn d() {}").unwrap());
    let q = r.next_import().unwrap();
    assert_eq!(q.path, "c.ferro");
    assert_eq!(q.dir, "/p");
    assert!(r.enter("/p/c.ferro"));
    r.add_module("/p", parse_imported("c.ferro", "fn c() {}").unwrap());
    assert!(r.next_import().is_none());
    let (program, privates) = r.finish();
    assert_eq!(names(&program), vec!["d", "b", "c", "main"]);
    assert_eq!(privates.len(), 3);
}

#[test]
fn a_file_imported_twice_is_read_once() {
    let main = parse_module("import \"a.ferro\";\nfn main() {}").unwrap();
    let mut r = ImportResolver::start("/p/main.ferro", "/p", main);
    let _ = r.next_import().unwrap();
    assert!(r.enter("/p/a.ferro"));
    r.add_module("/p", parse_imported("a.ferro", "import \"main.ferro\";\nimport \"a.ferro\";\nfn a() {}").unwrap());
    let q = r.next_import().unwrap();
    assert_eq!(q.path, "main.ferro");
    assert!(!r.enter("/p/main.ferro"));
    let q = r.next_import().unwrap();
    assert_eq!(q.path, "a.ferro");
    assert!(!r.enter("/p/a.ferro"));
    assert!(r.next_import().is_none());
    let (program, _) = r.finish();
    assert_eq!(names(&program), vec!["a", "main"]);
}

#[test]
fn an_error_in_an_imported_file_names_it() {
    match parse_imported("b.ferro", "fn main() { @ }") {
        Err(e) => assert_eq!(e.message, "in b.ferro: unexpected character '@'"),
        Ok(_) => panic!("expected an error"),
    }
}

#[test]
fn file_errors_say_what_failed() {
    let s = Span::new(Pos { offset: 0, line: 1, column: 1 }, Pos { offset: 17, line: 1, column: 18 });
    assert_eq!(import_not_found("x.ferro", s).message, "could not find imported file 'x.ferro'");
    let e = import_unreadable("x.ferro", "permission denied", s);
    assert_eq!(e.message, "could not read 'x.ferro': permission denied");
    assert_eq!(e.span, Some(s));
    let e = unresolvable_path("main.ferro", "not found");
    assert_eq!(e.message, "could not resolve path 'main.ferro': not found");
    assert!(e.span.is_none());
}
