use directive_reducer::oracle::OracleResponse;
use directive_reducer::reduce::{begin, RunOutcome, Step};
use directive_reducer::report::{format_report, ReportBuilder, ReportEntry};

fn b(s: &str) -> Vec<u8> {
    s.as_bytes().to_vec()
}

fn entry(path: &str, outcome: RunOutcome) -> ReportEntry {
    ReportEntry { path: b(path), outcome }
}

#[test]
fn empty_report_renders_all_groups_with_zero_counts() {
    let entries: Vec<ReportEntry> = Vec::new();
    let got = format_report(&entries);
    let want = "# Reduction report\n\
                \n## Unmodified (0)\n\
                \n## Remove (0)\n\
                \n## Replace (0)\n\
                \n## Ignored (0)\n";
    assert_eq!(got, b(want));
}

#[test]
fn report_groups_files_by_outcome_in_path_order() {
    let entries = vec![
        entry("t/a.rs", RunOutcome::RemoveOk),
        entry("t/b.rs", RunOutcome::Ignored),
        entry("t/c.rs", RunOutcome::RemoveOk),
        entry("t/d.rs", RunOutcome::UnmodifiedOk),
        entry("t/e.rs", RunOutcome::ReplaceOk),
    ];
    let got = format_report(&entries);
    let want = "# Reduction report\n\
                \n## Unmodified (1)\n- t/d.rs\n\
                \n## Remove (2)\n- t/a.rs\n- t/c.rs\n\
                \n## Replace (1)\n- t/e.rs\n\
                \n## Ignored (1)\n- t/b.rs\n";
    assert_eq!(got, b(want));
}

#[test]
fn counts_above_nine_render_with_all_digits() {
    let mut entries = Vec::new();
    for i in 0..12 {
        entries.push(entry(&format!("t/f{:02}.rs", i), RunOutcome::Ignored));
    }
    let got = format_report(&entries);
    let text = String::from_utf8(got).unwrap();
    assert!(text.contains("## Ignored (12)\n- t/f00.rs\n"));
    assert!(text.contains("- t/f11.rs\n"));
    assert!(text.contains("## Remove (0)\n"));
}

#[test]
fn end_to_end_single_directive_file_resolved_by_removal() {
    // a directory holds `tests/foo.rs` with the single ignore-form line;
    // the oracle passes the sanity check, passes the removal, and fails the
    // replacement
    let original = b("// ignore-debug: wasm64 bit width\n");

    let m = begin(original.clone());
    let (m, removed) = match m.on_oracle(OracleResponse::Pass) {
        Step::Continue { next, write } => (next, write),
        _ => panic!("expected the remove phase"),
    };
    let m = match m.on_oracle(OracleResponse::Pass) {
        Step::Continue { next, .. } => next,
        _ => panic!("expected the replace phase"),
    };
    let (outcome, final_content) = match m.on_oracle(OracleResponse::Fail) {
        Step::Done { outcome, final_content } => (outcome, final_content),
        _ => panic!("expected a terminal outcome"),
    };

    // the directive line is deleted and the kept content is the removal
    assert_eq!(outcome, RunOutcome::RemoveOk);
    assert_eq!(final_content, b(""));
    assert_eq!(final_content, removed);

    // the report's Remove group lists the file with count 1
    let report = format_report(&vec![entry("tests/foo.rs", outcome)]);
    let text = String::from_utf8(report).unwrap();
    assert!(text.contains("## Remove (1)\n- tests/foo.rs\n"));
    assert_eq!(
        text,
        "# Reduction report\n\
         \n## Unmodified (0)\n\
         \n## Remove (1)\n- tests/foo.rs\n\
         \n## Replace (0)\n\
         \n## Ignored (0)\n"
    );
}

#[test]
fn builder_aggregates_in_discovery_order_and_renders() {
    let targets = vec![b("t/a.rs"), b("t/b.rs"), b("t/c.rs")];
    let outcomes = [RunOutcome::RemoveOk, RunOutcome::Ignored, RunOutcome::ReplaceOk];

    let mut builder = ReportBuilder::new(targets.clone());
    let mut seen: Vec<Vec<u8>> = Vec::new();
    let mut i = 0;
    while let Some(path) = builder.next_path() {
        seen.push(path);
        builder.record(outcomes[i]);
        i += 1;
    }
    assert_eq!(seen, targets);

    let direct = format_report(&vec![
        entry("t/a.rs", RunOutcome::RemoveOk),
        entry("t/b.rs", RunOutcome::Ignored),
        entry("t/c.rs", RunOutcome::ReplaceOk),
    ]);
    assert_eq!(builder.render(), direct);
}
