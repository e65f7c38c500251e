use wasm_bridge::loader::{select_core_files, ComponentLoader, LoadError};

fn file(name: &str, bytes: &[u8]) -> (String, Vec<u8>) {
    (name.to_string(), bytes.to_vec())
}

#[test]
fn main_core_is_picked() {
    let files = vec![file("component.js", b"js"), file("component.core.wasm", b"main")];
    let picked = select_core_files(&files).unwrap();
    assert_eq!(picked.main_core, b"main".to_vec());
    assert_eq!(picked.wasi_core, None);
}

#[test]
fn wasi_core_needs_the_marker() {
    let files = vec![
        file("component.core.wasm", b"main"),
        file("component.core2.wasm", b"wasi"),
        file("component.core3.wasm", b"other"),
    ];
    assert_eq!(select_core_files(&files).unwrap().wasi_core, None);
    let mut with_marker = files.clone();
    with_marker.push(file("component.core4.wasm", b"marker"));
    let picked = select_core_files(&with_marker).unwrap();
    assert_eq!(picked.main_core, b"main".to_vec());
    assert_eq!(picked.wasi_core, Some(b"wasi".to_vec()));
}

#[test]
fn last_main_core_wins() {
    let files = vec![file("a.core.wasm", b"first"), file("b.core.wasm", b"second")];
    assert_eq!(select_core_files(&files).unwrap().main_core, b"second".to_vec());
}

#[test]
fn missing_main_core_is_an_error() {
    let files = vec![file("component.core2.wasm", b"wasi"), file("component.js", b"js")];
    assert_eq!(select_core_files(&files).err(), Some(LoadError::MissingMainCore));
    assert_eq!(select_core_files(&[]).err(), Some(LoadError::MissingMainCore));
}

#[test]
fn bytes_that_are_no_component_do_not_load() {
    match ComponentLoader::generate_files(b"not wasm") {
        Err(LoadError::Transpile(message)) => assert!(!message.is_empty()),
        _ => panic!("bytes that are no component should not transpile"),
    }
}

#[test]
fn component_with_one_core_module_loads() {
    let core = [0x00u8, 0x61, 0x73, 0x6d, 0x01, 0x00, 0x00, 0x00];
    let mut component = vec![0x00u8, 0x61, 0x73, 0x6d, 0x0d, 0x00, 0x01, 0x00, 0x01, 0x08];
    component.extend_from_slice(&core);
    let files = ComponentLoader::generate_files(&component).unwrap();
    assert_eq!(files.main_core, core.to_vec());
    assert_eq!(files.wasi_core, None);
}
