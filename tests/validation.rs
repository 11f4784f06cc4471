use pumlchk::file::{PumlFile, PumlValidator, SourceFile};
use pumlchk::section::{Puml, RuleSet};

fn check(lines: &[&str]) -> Vec<(usize, String)> {
    let rules = RuleSet::standard().unwrap();
    let mut p = Puml::new();
    p.lines = lines.iter().map(|l| l.to_string()).collect();
    p.validate(&rules);
    p.errors.iter().map(|d| (d.line, d.message.clone())).collect()
}

const MISSING_PREFIX: &str = "<- missing ':' at the beginning of the line (doesnt check multiline)";
const MISSING_TERMINATOR: &str = "<- missing ';' at the end of the line (doesnt check multiline)";

#[test]
fn switch_with_case_is_clean() {
    assert_eq!(check(&["switch (x)", "case (1)", "endswitch"]), vec![]);
}

#[test]
fn second_endswitch_has_no_opening() {
    assert_eq!(
        check(&["switch (x)", "endswitch", "endswitch"]),
        vec![(2, "<- no opening switch (*) found".to_string())]
    );
}

#[test]
fn prefixed_and_terminated_line_passes() {
    assert_eq!(check(&[":foo;"]), vec![]);
}

#[test]
fn line_without_prefix_fails() {
    assert_eq!(check(&["foo;"]), vec![(0, MISSING_PREFIX.to_string())]);
}

#[test]
fn line_without_terminator_fails() {
    assert_eq!(check(&[":foo"]), vec![(0, MISSING_TERMINATOR.to_string())]);
}

#[test]
fn surrounding_whitespace_is_trimmed() {
    assert_eq!(check(&["   :foo;   ", "\t:bar;"]), vec![]);
}

#[test]
fn nested_ifs_are_clean() {
    assert_eq!(
        check(&["if (a) then (yes)", "if (b) then (yes)", "endif", "endif"]),
        vec![]
    );
}

#[test]
fn else_and_elseif_inside_if_are_clean() {
    assert_eq!(
        check(&["if (a) then (yes)", ":x;", "elseif (b) then (yes)", "else (no)", "endif"]),
        vec![]
    );
}

#[test]
fn unclosed_while_reports_missing_close() {
    assert_eq!(
        check(&["while (x)", ":a;"]),
        vec![(0, "<- no closing endwhile [(*)] found".to_string())]
    );
}

#[test]
fn endif_without_if_reports_missing_open() {
    assert_eq!(
        check(&["endif", "if (a) then (b)", "endif"]),
        vec![(0, "<- no opening if (*) then (*) found".to_string())]
    );
}

#[test]
fn case_without_switch_reports_missing_open() {
    assert_eq!(
        check(&["case (1)"]),
        vec![(0, "<- no opening switch (*) found".to_string())]
    );
}

#[test]
fn diagnostics_are_sorted_by_line() {
    assert_eq!(
        check(&["while (x)", "foo;", "endif"]),
        vec![
            (0, "<- no closing endwhile [(*)] found".to_string()),
            (1, MISSING_PREFIX.to_string()),
            (2, "<- no opening if (*) then (*) found".to_string()),
        ]
    );
}

#[test]
fn one_line_may_get_several_diagnostics() {
    assert_eq!(
        check(&["endif;"]),
        vec![
            (0, MISSING_PREFIX.to_string()),
            (0, "<- no opening if (*) then (*) found".to_string()),
        ]
    );
}

#[test]
fn unclosed_opens_are_reported_outermost_first() {
    assert_eq!(
        check(&["while (a)", "while (b)"]),
        vec![
            (0, "<- no closing endwhile [(*)] found".to_string()),
            (1, "<- no closing endwhile [(*)] found".to_string()),
        ]
    );
}

#[test]
fn repeat_while_line_counts_as_an_open() {
    assert_eq!(
        check(&["repeat", ":a;", "repeat while (x) is (y)"]),
        vec![
            (0, "<- no closing repeat while (*) is (*) found".to_string()),
            (2, "<- no closing repeat while (*) is (*) found".to_string()),
        ]
    );
}

#[test]
fn validating_twice_gives_the_same_result() {
    let rules = RuleSet::standard().unwrap();
    let mut p = Puml::new();
    p.lines = vec!["switch (x)".to_string(), "endswitch".to_string(), "endswitch".to_string(), "foo;".to_string()];
    p.validate(&rules);
    let first: Vec<(usize, String)> = p.errors.iter().map(|d| (d.line, d.message.clone())).collect();
    p.validate(&rules);
    let second: Vec<(usize, String)> = p.errors.iter().map(|d| (d.line, d.message.clone())).collect();
    assert_eq!(first.len(), 2);
    assert_eq!(first, second);
}

#[test]
fn sections_are_cut_out_of_the_file() {
    let f = PumlFile::parse("a.md".to_string(), "text\n@startuml\n  :a;\n@enduml\nmore\r\n@startuml x\r\nendif\r\n@enduml\n").unwrap();
    assert_eq!(f.filename, "a.md");
    assert_eq!(f.pumls.len(), 2);
    assert_eq!(f.pumls[0].starting_line, 1);
    assert_eq!(f.pumls[0].lines, vec![":a;".to_string()]);
    assert_eq!(f.pumls[1].starting_line, 5);
    assert_eq!(f.pumls[1].lines, vec!["endif".to_string()]);
}

#[test]
fn section_left_open_is_dropped() {
    let f = PumlFile::parse("b".to_string(), "@startuml\n:a;\n@enduml\n@startuml\n:b;\n").unwrap();
    assert_eq!(f.pumls.len(), 1);
}

#[test]
fn end_without_start_fails() {
    let e = PumlFile::parse("c".to_string(), "x\n  @enduml\n").err().unwrap();
    assert_eq!(e.line, 1);
    assert_eq!(e.text, "@enduml");
    assert_eq!(e.open_line, None);
}

#[test]
fn start_inside_section_fails() {
    let e = PumlFile::parse("d".to_string(), "@startuml\n:a;\n@startuml\n").err().unwrap();
    assert_eq!(e.line, 2);
    assert_eq!(e.text, "@startuml");
    assert_eq!(e.open_line, Some(0));
}

#[test]
fn validator_skips_malformed_files() {
    let files = vec![
        SourceFile { name: "good".to_string(), content: "@startuml\nfoo;\n@enduml\n".to_string() },
        SourceFile { name: "bad".to_string(), content: "@enduml\n".to_string() },
        SourceFile { name: "empty".to_string(), content: String::new() },
    ];
    let mut v = PumlValidator::new(files).unwrap();
    assert_eq!(v.puml_files.len(), 2);
    assert_eq!(v.puml_files[0].filename, "good");
    assert_eq!(v.puml_files[1].filename, "empty");
    assert_eq!(v.skipped.len(), 1);
    assert_eq!(v.skipped[0].name, "bad");
    assert_eq!(v.skipped[0].error.line, 0);
    v.validate();
    let errors = &v.puml_files[0].pumls[0].errors;
    assert_eq!(errors.len(), 1);
    assert_eq!(errors[0].line, 0);
    assert_eq!(errors[0].message, MISSING_PREFIX);
}

#[test]
fn invalid_pattern_is_refused() {
    assert!(pumlchk::pattern::Matcher::new("foo(bar").is_err());
    let m = pumlchk::pattern::Matcher::new("^a+$").ok().unwrap();
    assert_eq!(m.source(), "^a+$");
}
