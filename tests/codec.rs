use lsystem_explorer_core::codec::{
    join_source_code, join_with_newlines, rebuild_source, split_source_code,
    DECOMPOSITION_SEPARATOR,
};
use lsystem_explorer_core::grammar::sort_by_name;
use lsystem_explorer_core::text::{
    contains, find, line_kind, split_lines, starts_with, trim, trim_end, trim_start, LineKind,
};

#[test]
fn split_without_separator_is_all_growth() {
    let (g, f) = split_source_code("omega: F\nF -> F F");
    assert_eq!(g, "omega: F\nF -> F F");
    assert_eq!(f, "");
}

#[test]
fn split_at_separator_trims_both_halves() {
    let full = format!("omega: F\nF -> F F  \n{}\n\n  F -> G", DECOMPOSITION_SEPARATOR);
    let (g, f) = split_source_code(&full);
    assert_eq!(g, "omega: F\nF -> F F");
    assert_eq!(f, "F -> G");
}

#[test]
fn join_writes_separator_only_with_finalization() {
    assert_eq!(join_source_code("omega: F  ", "  \n "), "omega: F  ");
    let joined = join_source_code("omega: F \n", "\n F -> G");
    assert_eq!(joined, format!("omega: F\n{}\nF -> G", DECOMPOSITION_SEPARATOR));
    let (g, f) = split_source_code(&joined);
    assert_eq!(g, "omega: F");
    assert_eq!(f, "F -> G");
}

#[test]
fn lines_split_like_str_lines() {
    assert_eq!(split_lines(""), Vec::<String>::new());
    assert_eq!(split_lines("a"), vec!["a"]);
    assert_eq!(split_lines("a\n"), vec!["a"]);
    assert_eq!(split_lines("a\n\nb"), vec!["a", "", "b"]);
    assert_eq!(split_lines("\n"), vec![""]);
}

#[test]
fn trimming_removes_outer_whitespace() {
    assert_eq!(trim("  a b \t"), "a b");
    assert_eq!(trim_start("  a "), "a ");
    assert_eq!(trim_end("  a \r"), "  a");
    assert_eq!(trim("   "), "");
}

#[test]
fn prefix_and_infix_search() {
    assert!(starts_with("omega: F", "omega:"));
    assert!(!starts_with("omeg", "omega:"));
    assert!(contains("F -> G", "->"));
    assert!(!contains("F - > G", "->"));
    assert_eq!(find("abcabc", "ca"), Some(2));
    assert_eq!(find("abc", "x"), None);
}

#[test]
fn line_kinds_follow_the_grammar_format() {
    assert_eq!(line_kind("   "), LineKind::Blank);
    assert_eq!(line_kind("// note -> x"), LineKind::Comment);
    assert_eq!(line_kind("  omega: F"), LineKind::Axiom);
    assert_eq!(line_kind("#define a 1"), LineKind::Define);
    assert_eq!(line_kind("#ignore: + -"), LineKind::Directive);
    assert_eq!(line_kind("F -> F F"), LineKind::Rule);
    assert_eq!(line_kind("just words"), LineKind::Other);
}

#[test]
fn rebuild_orders_preamble_defines_omega_rules() {
    let original = "// title\n#ignore: +\nomega: F(a)\n#define a 1\nF -> G\n// dropped\nnote\n#ignore: -";
    let defines = vec![
        ("a".to_string(), "2".to_string()),
        ("b".to_string(), "3".to_string()),
    ];
    let rules = vec!["F -> G G".to_string()];
    let text = rebuild_source(original, &defines, &rules);
    assert_eq!(
        text,
        "// title\n#ignore: +\n#ignore: -\n#define a 2\n#define b 3\nomega: F(a)\nF -> G G"
    );
}

#[test]
fn rebuild_without_omega_or_rules() {
    let text = rebuild_source("// only a comment", &Vec::new(), &Vec::new());
    assert_eq!(text, "// only a comment");
    assert_eq!(rebuild_source("", &Vec::new(), &Vec::new()), "");
}

#[test]
fn last_omega_line_wins() {
    let text = rebuild_source("omega: A\nomega: B\nB -> A", &Vec::new(), &vec!["B -> A".to_string()]);
    assert_eq!(text, "omega: B\nB -> A");
}

#[test]
fn definitions_sort_by_name() {
    let v = vec![
        ("len".to_string(), "2".to_string()),
        ("angle".to_string(), "45".to_string()),
        ("b".to_string(), "1".to_string()),
        ("Z".to_string(), "0".to_string()),
    ];
    let sorted = sort_by_name(&v);
    let names: Vec<&str> = sorted.iter().map(|p| p.0.as_str()).collect();
    assert_eq!(names, vec!["Z", "angle", "b", "len"]);
    assert_eq!(sorted[0].1, "0");
}

#[test]
fn newline_join() {
    assert_eq!(join_with_newlines(&vec!["a".to_string(), "b".to_string()]), "a\nb");
    assert_eq!(join_with_newlines(&Vec::new()), "");
}
