//! The sample plugin: a greeting and a reader that knows one fixed file.
use crate::text::str_equals;
use vstd::prelude::*;
use vstd::string::*;

verus! {

/// The greeting for `name`.
pub open spec fn greeting(name: Seq<char>) -> Seq<char> {
    "Hello from Rust, "@ + name + "!"@
}

/// The contents of the one file that the sample reader knows.
pub open spec fn sample_contents() -> Seq<char> {
    "This is the content of test.txt, read via a Wasm plugin!"@
}

/// Greets `name`: `Hello from Rust, <name>!`.
pub fn greet(name: &str) -> (r: String)
    ensures
        r@ == greeting(name@),
{
    let mut out = String::from_str("Hello from Rust, ");
    out.append(name);
    out.append("!");
    out
}

/// Reads a file from the sample plugin's fixed set: `test.txt` has fixed
/// contents, and every other path is reported as not found.
pub fn read_file(path: &str) -> (r: Result<String, String>)
    ensures
        path@ == "test.txt"@ ==> r is Ok && r->Ok_0@ == sample_contents(),
        path@ != "test.txt"@ ==> r is Err && r->Err_0@ == "File not found"@,
{
    if str_equals(path, "test.txt") {
        Ok(String::from_str("This is the content of test.txt, read via a Wasm plugin!"))
    } else {
        Err(String::from_str("File not found"))
    }
}

} // verus!
