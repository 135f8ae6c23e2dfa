use directive_reducer::directive::{remove_directive, replace_directive, DirectiveError};

fn b(s: &str) -> Vec<u8> {
    s.as_bytes().to_vec()
}

const REPLACEMENT: &str = "// compile-flags: -Cdebug-assertions=no";

#[test]
fn remove_deletes_the_directive_line() {
    let content = b("fn main() {}\n// ignore-debug: reason\nmore\n");
    let out = remove_directive(&content).unwrap();
    assert_eq!(out, b("fn main() {}\nmore\n"));
}

#[test]
fn replace_substitutes_the_compile_flags_line() {
    let content = b("fn main() {}\n// ignore-debug: reason\nmore\n");
    let out = replace_directive(&content).unwrap();
    assert_eq!(
        out,
        b(&format!("fn main() {{}}\n{}\nmore\n", REPLACEMENT))
    );
}

#[test]
fn remove_on_first_line() {
    let content = b("// ignore-debug\nrest\n");
    let out = remove_directive(&content).unwrap();
    assert_eq!(out, b("rest\n"));
}

#[test]
fn remove_on_unterminated_last_line() {
    let content = b("head\n// ignore-debug: tail");
    let out = remove_directive(&content).unwrap();
    assert_eq!(out, b("head\n"));
}

#[test]
fn replace_on_unterminated_last_line_keeps_no_terminator() {
    let content = b("head\n// ignore-debug: tail");
    let out = replace_directive(&content).unwrap();
    assert_eq!(out, b(&format!("head\n{}", REPLACEMENT)));
}

#[test]
fn remove_of_single_line_file_yields_empty_content() {
    let content = b("// ignore-debug: wasm64 bit width\n");
    let out = remove_directive(&content).unwrap();
    assert_eq!(out, b(""));
}

#[test]
fn absent_directive_is_reported() {
    let content = b("fn main() {}\n");
    assert_eq!(remove_directive(&content), Err(DirectiveError::Absent));
    assert_eq!(replace_directive(&content), Err(DirectiveError::Absent));
}

#[test]
fn empty_content_has_no_directive() {
    let content = b("");
    assert_eq!(remove_directive(&content), Err(DirectiveError::Absent));
}

#[test]
fn directive_not_at_line_start_does_not_count() {
    let content = b("code // ignore-debug\n");
    assert_eq!(remove_directive(&content), Err(DirectiveError::Absent));
}

#[test]
fn shorter_comment_is_not_the_directive() {
    let content = b("// ignore-debu\n");
    assert_eq!(remove_directive(&content), Err(DirectiveError::Absent));
}

#[test]
fn two_directives_are_an_anomaly() {
    let content = b("// ignore-debug: a\nmid\n// ignore-debug: b\n");
    assert_eq!(remove_directive(&content), Err(DirectiveError::Anomalous));
    assert_eq!(replace_directive(&content), Err(DirectiveError::Anomalous));
}

#[test]
fn replacement_already_present_is_an_anomaly() {
    let content = b(&format!("// ignore-debug: a\n{}\n", REPLACEMENT));
    assert_eq!(remove_directive(&content), Err(DirectiveError::Anomalous));
}

#[test]
fn replacement_line_alone_is_no_directive() {
    let content = b(&format!("{}\nfn main() {{}}\n", REPLACEMENT));
    assert_eq!(remove_directive(&content), Err(DirectiveError::Absent));
}

#[test]
fn transforms_are_pure_and_repeatable() {
    let content = b("a\n// ignore-debug\nb\n");
    let once = remove_directive(&content).unwrap();
    let twice = remove_directive(&content).unwrap();
    assert_eq!(once, twice);
    assert_eq!(content, b("a\n// ignore-debug\nb\n"));
}

#[test]
fn removed_content_carries_no_directive() {
    let content = b("a\n// ignore-debug: x\nb\n");
    let removed = remove_directive(&content).unwrap();
    assert_eq!(remove_directive(&removed), Err(DirectiveError::Absent));
}

#[test]
fn replaced_content_carries_no_directive() {
    let content = b("a\n// ignore-debug: x\nb\n");
    let replaced = replace_directive(&content).unwrap();
    assert_eq!(remove_directive(&replaced), Err(DirectiveError::Absent));
}
