use mtsc::indent::{common_indent, dedent_script, reindent_script, script_trailer};
use mtsc::minify::format_ecma_version_string;

#[test]
fn common_indent_of_two_indented_lines() {
    assert_eq!(common_indent("    let a=1;\n    let b=2;\n"), "    ");
}

#[test]
fn indentation_round_trip() {
    let body = "    let a=1;\n    let b=2;\n";
    let indent = common_indent(body);
    assert_eq!(indent, "    ");
    let dedented = dedent_script(body);
    assert_eq!(dedented, "let a=1;\nlet b=2;");
    let recompiled = dedented;
    let reindented = reindent_script(&recompiled, &indent);
    for line in reindented.split('\n') {
        assert!(line.starts_with("    "));
    }
    assert_eq!(reindented, "    let a=1;\n    let b=2;");
}

#[test]
fn common_indent_with_tabs() {
    assert_eq!(common_indent("\tx\n\ty\n"), "\t");
}

#[test]
fn common_indent_skips_blank_lines() {
    assert_eq!(common_indent("  a\n\n  b"), "  ");
}

#[test]
fn common_indent_of_blank_text_is_empty() {
    assert_eq!(common_indent(""), "");
    assert_eq!(common_indent("   \n  \n"), "");
}

#[test]
fn common_indent_stops_at_first_difference() {
    assert_eq!(common_indent("  a\n b"), " ");
    assert_eq!(common_indent("a\nb"), "");
}

#[test]
fn common_indent_is_bounded_by_the_shortest_line() {
    assert_eq!(common_indent("    a\n  b"), "  ");
}

#[test]
fn dedent_drops_surrounding_blank_lines() {
    assert_eq!(dedent_script("\n  a\n  b\n"), "a\nb");
    assert_eq!(dedent_script("\n  a\n\n  b\n  "), "a\n\nb");
}

#[test]
fn reindent_prefixes_every_line() {
    assert_eq!(reindent_script("a\n\nb", "  "), "  a\n  \n  b");
    assert_eq!(reindent_script("a\nb\n", "  "), "  a\n  b\n  ");
}

#[test]
fn trailer_is_the_blank_last_line() {
    assert_eq!(script_trailer("\n  code\n  "), Some(String::from("  ")));
    assert_eq!(script_trailer("\n  code\n"), Some(String::from("")));
    assert_eq!(script_trailer("code"), None);
}

#[test]
fn ecma_version_strings() {
    assert_eq!(format_ecma_version_string("esnext"), "2023");
    assert_eq!(format_ecma_version_string("ESNext"), "2023");
    assert_eq!(format_ecma_version_string("es2022"), "2022");
    assert_eq!(format_ecma_version_string("ES2020"), "2020");
    assert_eq!(format_ecma_version_string("latest"), "esnext");
}
