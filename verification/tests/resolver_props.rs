//! End-to-end behaviour of the resolver on whole documents.

use replace::files::FileTable;
use replace::resolver::resolve_document;
use replace::Error;

const OUT_CAP: usize = 4096;
const PATH_CAP: usize = 256;
const DEPTH: usize = 32;

fn table(entries: &[(&str, &str)]) -> FileTable {
    let mut t = FileTable::new();
    for (path, content) in entries {
        let mut key = path.as_bytes().to_vec();
        key.push(0);
        t.add(key, content.as_bytes().to_vec());
    }
    t
}

fn resolve_str(files: &FileTable, input: &str) -> Result<(String, Vec<Vec<u8>>), Error> {
    let dir = b"src".to_vec();
    let doc = input.as_bytes().to_vec();
    match resolve_document(files, &dir, &doc, OUT_CAP, PATH_CAP, DEPTH) {
        Ok(res) => Ok((String::from_utf8(res.output).unwrap(), res.reads)),
        Err(e) => Err(e),
    }
}

#[test]
fn plain_document_resolves_to_itself() {
    let files = table(&[]);
    let input = "<!DOCTYPE html>\n<p>nothing special here, not even < or } alone</p>\n";
    let (out, reads) = resolve_str(&files, input).unwrap();
    assert_eq!(out, input);
    assert!(reads.is_empty());
}

#[test]
fn empty_document_resolves_to_empty() {
    let files = table(&[]);
    let (out, reads) = resolve_str(&files, "").unwrap();
    assert_eq!(out, "");
    assert!(reads.is_empty());
}

#[test]
fn resolving_resolved_output_is_idempotent() {
    let files = table(&[("src/X.html", "$a-$b")]);
    let (first, _) = resolve_str(&files, "pre <X a=\"1\" b=\"2\" /> post").unwrap();
    let (second, reads) = resolve_str(&files, &first).unwrap();
    assert_eq!(second, first);
    assert!(reads.is_empty());
}

#[test]
fn basic_substitution() {
    let files = table(&[("src/X.html", "$a-$b")]);
    let (out, _) = resolve_str(&files, "<X a=\"1\" b=\"2\" />").unwrap();
    assert_eq!(out, "1-2");
}

#[test]
fn two_level_scoping() {
    let files = table(&[
        ("src/Outer.html", "<Inner txt=\"$msg\" />"),
        ("src/Inner.html", "[$txt]"),
    ]);
    let (out, _) = resolve_str(&files, "<Outer msg=\"hello\" />").unwrap();
    assert_eq!(out, "[hello]");
}

#[test]
fn three_level_scoping_fails() {
    // `z` is bound to `$y` at the use site of `C`; `$y` is bound to `$x`
    // one level up; `$x` lives two levels up from where it is finally
    // needed, beyond the two-level chain.
    let files = table(&[
        ("src/A.html", "<B y=\"$x\" />"),
        ("src/B.html", "<C z=\"$y\" />"),
        ("src/C.html", "$z"),
    ]);
    let err = resolve_str(&files, "<A x=\"top\" />").unwrap_err();
    assert_eq!(err, Error::ArgumentNotBound);
}

#[test]
fn cache_reads_component_file_once() {
    let files = table(&[("src/X.html", "$a")]);
    let (out, reads) = resolve_str(&files, "<X a=\"1\" /><X a=\"2\" />").unwrap();
    assert_eq!(out, "12");
    assert_eq!(reads.len(), 1);
    assert_eq!(reads[0], b"src/X.html\0".to_vec());
}

#[test]
fn duplicate_inline_definition_fails() {
    let files = table(&[]);
    let err = resolve_str(&files, "{{Foo\nbar}}{{Foo\nbaz}}").unwrap_err();
    assert_eq!(err, Error::DuplicateComponentDefinition);
}

#[test]
fn missing_component_fails() {
    let files = table(&[]);
    let err = resolve_str(&files, "<Phantom />").unwrap_err();
    assert_eq!(err, Error::ComponentNotFound);
}

#[test]
fn inline_component_defined_then_used() {
    let files = table(&[]);
    let (out, reads) = resolve_str(&files, "{{Card title line\n  <b>body</b>  }}a<Card />z").unwrap();
    assert_eq!(out, "a<b>body</b>z");
    assert!(reads.is_empty());
}

#[test]
fn inline_definition_inside_component_body_clashes_on_second_use() {
    // A component body is cached raw and re-resolved at every use, so an
    // inline definition inside it is registered again on the second use
    // and trips the duplicate check.
    let files = table(&[("src/W.html", "{{Note x\nhello}}<Note />")]);
    let (out, _) = resolve_str(&files, "<W />").unwrap();
    assert_eq!(out, "hello");
    let err = resolve_str(&files, "<W /><W />").unwrap_err();
    assert_eq!(err, Error::DuplicateComponentDefinition);
}

#[test]
fn component_content_is_trimmed() {
    let files = table(&[("src/X.html", "\n  boxed \n\n")]);
    let (out, _) = resolve_str(&files, "[<X />]").unwrap();
    assert_eq!(out, "[boxed]");
}

#[test]
fn nested_components_expand() {
    let files = table(&[
        ("src/Page.html", "<Header /> body"),
        ("src/Header.html", "HEAD"),
    ]);
    let (out, reads) = resolve_str(&files, "<Page />").unwrap();
    assert_eq!(out, "HEAD body");
    assert_eq!(reads.len(), 2);
}

#[test]
fn unbound_argument_fails() {
    let files = table(&[("src/X.html", "$missing")]);
    let err = resolve_str(&files, "<X a=\"1\" />").unwrap_err();
    assert_eq!(err, Error::ArgumentNotBound);
}

#[test]
fn self_including_component_hits_recursion_limit() {
    let files = table(&[("src/Loop.html", "<Loop />")]);
    let err = resolve_str(&files, "<Loop />").unwrap_err();
    assert_eq!(err, Error::RecursionLimitExceeded);
}

#[test]
fn tag_without_self_close_is_syntax_error() {
    let files = table(&[]);
    let err = resolve_str(&files, "<Foo>children</Foo>").unwrap_err();
    assert_eq!(err, Error::SyntaxError);
}

#[test]
fn attribute_missing_quote_is_syntax_error() {
    let files = table(&[]);
    let err = resolve_str(&files, "<Foo a=1 />").unwrap_err();
    assert_eq!(err, Error::SyntaxError);
}

#[test]
fn attribute_missing_equals_is_syntax_error() {
    let files = table(&[]);
    let err = resolve_str(&files, "<Foo a \"1\" />").unwrap_err();
    assert_eq!(err, Error::SyntaxError);
}

#[test]
fn unterminated_tag_is_syntax_error() {
    let files = table(&[]);
    let err = resolve_str(&files, "before <Foo").unwrap_err();
    assert_eq!(err, Error::SyntaxError);
}

#[test]
fn unterminated_inline_block_is_syntax_error() {
    let files = table(&[]);
    let err = resolve_str(&files, "{{Foo\nbar").unwrap_err();
    assert_eq!(err, Error::SyntaxError);
}

#[test]
fn inline_block_without_newline_is_syntax_error() {
    let files = table(&[]);
    let err = resolve_str(&files, "{{Foo bar}}").unwrap_err();
    assert_eq!(err, Error::SyntaxError);
}

#[test]
fn lowercase_tag_is_plain_text() {
    let files = table(&[]);
    let (out, _) = resolve_str(&files, "<div class=\"x\">$ {</div>").unwrap();
    assert_eq!(out, "<div class=\"x\">$ {</div>");
}

#[test]
fn output_larger_than_sink_capacity_fails() {
    let files = table(&[]);
    let dir = b"src".to_vec();
    let doc = b"0123456789".to_vec();
    let err = resolve_document(&files, &dir, &doc, 4, PATH_CAP, DEPTH).unwrap_err();
    assert_eq!(err, Error::CapacityExceeded);
}

#[test]
fn sink_flushes_across_many_tokens() {
    // A small sink forces flushes between tokens; the stream still comes
    // out whole and in order.
    let files = table(&[("src/X.html", "$a")]);
    let dir = b"src".to_vec();
    let doc = b"aa<X a=\"bb\" />cc<X a=\"dd\" />ee".to_vec();
    let res = resolve_document(&files, &dir, &doc, 3, PATH_CAP, DEPTH).unwrap();
    assert_eq!(res.output, b"aabbccddee".to_vec());
}

#[test]
fn path_longer_than_path_buffer_fails() {
    let files = table(&[("src/X.html", "x")]);
    let dir = b"src".to_vec();
    let doc = b"<X />".to_vec();
    let err = resolve_document(&files, &dir, &doc, OUT_CAP, 5, DEPTH).unwrap_err();
    assert_eq!(err, Error::CapacityExceeded);
}

#[test]
fn argument_value_may_contain_component_tag() {
    let files = table(&[
        ("src/Wrap.html", "($inner)"),
        ("src/Leaf.html", "leaf"),
    ]);
    let (out, _) = resolve_str(&files, "<Wrap inner=\"<Leaf />\" />").unwrap();
    assert_eq!(out, "(leaf)");
}

#[test]
fn first_argument_binding_wins() {
    let files = table(&[("src/X.html", "$a")]);
    let (out, _) = resolve_str(&files, "<X a=\"first\" a=\"second\" />").unwrap();
    assert_eq!(out, "first");
}

#[test]
fn whitespace_inside_tag_is_tolerated() {
    let files = table(&[("src/X.html", "$a:$b")]);
    let (out, _) = resolve_str(&files, "<X   a =  \"1\"\n  b=\"2\"   />").unwrap();
    assert_eq!(out, "1:2");
}
