use std::io::Read;
use wasm_bridge::transform::{
    add_original_file, js_transformer, modify_js, strip_async, transform_all, version_file,
    version_transformer, wrap_instantiate, TransformError, Transformer, ZippableFile,
};

fn file(name: &str, content: &str) -> ZippableFile {
    ZippableFile { name: name.to_string(), content: content.as_bytes().to_vec() }
}

fn names(files: &[ZippableFile]) -> Vec<&str> {
    files.iter().map(|f| f.name.as_str()).collect()
}

#[test]
fn modify_js_makes_module_synchronous() {
    let text = "export async function instantiate(x) {\n  await Promise.all([a, b]);\n  const y = await x();\n  return y;\n}";
    let out = modify_js(text);
    assert_eq!(
        out,
        "(() => {\nfunction instantiate(x) {\n\n  const y = x();\n  return y;\n}\nreturn instantiate;\n})()\n"
    );
}

#[test]
fn modify_js_replaces_without_overlap() {
    let out = modify_js("await await x");
    assert_eq!(out, "(() => {\nx\nreturn instantiate;\n})()\n");
    let out = modify_js("");
    assert_eq!(out, "(() => {\n\nreturn instantiate;\n})()\n");
}

#[test]
fn modify_js_blanks_every_line_holding_promise_all() {
    let text = "a\r\n  x = Promise.all(y); z\nPromise.allSettled\nb";
    let out = modify_js(text);
    assert_eq!(out, "(() => {\na\r\n\n\nb\nreturn instantiate;\n})()\n");
    assert_eq!(out.matches('\n').count(), text.matches('\n').count() + 4);
    assert!(out.lines().all(|line| !line.contains("Promise.all")));
}

#[test]
fn js_transformer_replaces_generated_module() {
    let mut files = vec![
        file("component.d.ts", "types"),
        file("component.core.wasm", "wasm"),
        file("component.js", "export async function instantiate() {}"),
        file("interfaces/x.d.ts", "more types"),
        file("other.js", "ignored"),
    ];
    transform_all(&mut files, &[js_transformer(false)]).unwrap();
    assert_eq!(names(&files), vec!["component.core.wasm", "other.js", "sync_component.js"]);
    assert_eq!(
        files[2].content,
        b"(() => {\nfunction instantiate() {}\nreturn instantiate;\n})()\n".to_vec()
    );
}

#[test]
fn js_transformer_can_keep_the_original() {
    let mut files = vec![file("a.d.ts", "t"), file("a.js", "x")];
    transform_all(&mut files, &[js_transformer(true)]).unwrap();
    assert_eq!(names(&files), vec!["a.d.ts", "a.js", "sync_component.js"]);
}

#[test]
fn js_transformer_needs_a_js_file() {
    let mut files = vec![file("a.wasm", "x")];
    assert_eq!(transform_all(&mut files, &[js_transformer(false)]), Err(TransformError::MissingJsFile));
    assert_eq!(names(&files), vec!["a.wasm"]);
}

#[test]
fn js_transformer_needs_utf8() {
    let mut files = vec![ZippableFile { name: "a.js".to_string(), content: vec![0xff, 0xfe] }];
    assert_eq!(transform_all(&mut files, &[js_transformer(false)]), Err(TransformError::InvalidUtf8));
    assert_eq!(files.len(), 1);
}

#[test]
fn version_and_original_files_are_added() {
    let v = version_file("0.5.0");
    assert_eq!(v.name, "version.txt");
    assert_eq!(v.content, b"0.5.0".to_vec());
    let mut files = vec![file("a.js", "")];
    let transformers = vec![
        js_transformer(false),
        version_transformer("1.2.3"),
        add_original_file(vec![0, 97, 115, 109]),
    ];
    transform_all(&mut files, &transformers).unwrap();
    assert_eq!(names(&files), vec!["sync_component.js", "version.txt", "original_component.wasm"]);
    assert_eq!(files[1].content, b"1.2.3".to_vec());
    assert_eq!(files[2].content, vec![0, 97, 115, 109]);
}

#[test]
fn transform_all_stops_at_first_error() {
    let mut files = vec![file("a.wasm", "")];
    let transformers = vec![version_transformer("1"), js_transformer(false), version_transformer("2")];
    assert_eq!(transform_all(&mut files, &transformers), Err(TransformError::MissingJsFile));
    assert_eq!(names(&files), vec!["a.wasm", "version.txt"]);
}

#[test]
fn apply_single_transformer() {
    let mut files = Vec::new();
    Transformer::Version { version: "9".to_string() }.apply(&mut files).unwrap();
    assert_eq!(files[0].content, b"9".to_vec());
}

#[test]
fn create_zip_holds_the_files() {
    let files = vec![file("a.txt", "hello"), file("b.js", "")];
    let bytes = wasm_bridge::archive::create_zip(&files).unwrap();
    let mut archive = zip::ZipArchive::new(std::io::Cursor::new(bytes)).unwrap();
    assert_eq!(archive.len(), 2);
    let mut first = archive.by_index(0).unwrap();
    assert_eq!(first.name(), "a.txt");
    let mut text = String::new();
    first.read_to_string(&mut text).unwrap();
    assert_eq!(text, "hello");
    drop(first);
    assert_eq!(archive.by_index(1).unwrap().name(), "b.js");
}

#[test]
fn create_zip_of_nothing() {
    let bytes = wasm_bridge::archive::create_zip(&[]).unwrap();
    let archive = zip::ZipArchive::new(std::io::Cursor::new(bytes)).unwrap();
    assert_eq!(archive.len(), 0);
}

#[test]
fn strip_async_drops_async_and_await() {
    assert_eq!(
        strip_async("export async function f() { await g(); }"),
        "function f() { g(); }"
    );
    assert_eq!(strip_async("async function f() {}"), "async function f() {}");
    assert_eq!(strip_async("awaitawait x"), "awaitx");
    assert_eq!(strip_async(""), "");
}

#[test]
fn wrap_instantiate_wraps_the_body() {
    assert_eq!(wrap_instantiate("let a = 1;"), "(() => {\nlet a = 1;\nreturn instantiate;\n})()\n");
}
