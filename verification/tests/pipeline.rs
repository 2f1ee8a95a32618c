//! The run pipeline: argument parsing, entry lookup, whole-run output.

use replace::files::FileTable;
use replace::{parse_arguments, run, Error, RunArguments};

fn argv(words: &[&str]) -> Vec<Vec<u8>> {
    words.iter().map(|w| w.as_bytes().to_vec()).collect()
}

#[test]
fn defaults_are_src_index_build() {
    let a = RunArguments::default();
    assert_eq!(a.input_dir, b"src".to_vec());
    assert_eq!(a.input_file_name, b"index.html".to_vec());
    assert_eq!(a.output_dir, b"build".to_vec());
}

#[test]
fn parse_arguments_uses_defaults_when_absent() {
    let a = parse_arguments(&argv(&["prog"]));
    assert_eq!(a.input_dir, b"src".to_vec());
    assert_eq!(a.input_file_name, b"index.html".to_vec());
    assert_eq!(a.output_dir, b"build".to_vec());
}

#[test]
fn parse_arguments_takes_positional_overrides() {
    let a = parse_arguments(&argv(&["prog", "pages", "main.html", "dist"]));
    assert_eq!(a.input_dir, b"pages".to_vec());
    assert_eq!(a.input_file_name, b"main.html".to_vec());
    assert_eq!(a.output_dir, b"dist".to_vec());
}

#[test]
fn parse_arguments_ignores_extras() {
    let a = parse_arguments(&argv(&["prog", "pages", "main.html", "dist", "junk"]));
    assert_eq!(a.output_dir, b"dist".to_vec());
}

#[test]
fn run_resolves_the_entry_document() {
    let mut files = FileTable::new();
    files.add(b"pages/main.html\0".to_vec(), b"<Hello who=\"world\" />\n".to_vec());
    files.add(b"pages/Hello.html\0".to_vec(), b"hi $who".to_vec());
    let args = parse_arguments(&argv(&["prog", "pages", "main.html"]));
    let res = run(&args, &files, 4096, 256, 32).unwrap();
    assert_eq!(res.output, b"hi world\n".to_vec());
    assert_eq!(res.reads, vec![b"pages/Hello.html\0".to_vec()]);
}

#[test]
fn run_without_entry_document_is_io_error() {
    let files = FileTable::new();
    let args = RunArguments::default();
    assert_eq!(run(&args, &files, 4096, 256, 32).unwrap_err(), Error::IOError);
}

#[test]
fn run_with_tiny_path_buffer_is_capacity_error() {
    let mut files = FileTable::new();
    files.add(b"src/index.html\0".to_vec(), b"x".to_vec());
    let args = RunArguments::default();
    assert_eq!(run(&args, &files, 4096, 3, 32).unwrap_err(), Error::CapacityExceeded);
}
