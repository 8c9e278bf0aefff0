use host_plugins::reader_plugin::{greet, read_file};

#[test]
fn greets_by_name() {
    assert_eq!(greet("World"), "Hello from Rust, World!");
    assert_eq!(greet(""), "Hello from Rust, !");
}

#[test]
fn reads_the_known_file() {
    assert_eq!(
        read_file("test.txt"),
        Ok("This is the content of test.txt, read via a Wasm plugin!".to_string())
    );
}

#[test]
fn other_paths_are_not_found() {
    assert_eq!(read_file("other.txt"), Err("File not found".to_string()));
    assert_eq!(read_file("test.txt "), Err("File not found".to_string()));
}
