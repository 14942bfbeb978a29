use gdtools::format::{reorder_source, run_formatter, FormatOptions, IndentStyle};

fn format(source: &str) -> String {
    run_formatter(source, &FormatOptions::default()).unwrap()
}

fn reorder(source: &str) -> String {
    reorder_source(&format(source)).unwrap()
}

#[test]
fn test_trailing_comma_forces_multiline_array() {
    // A comma before the closing bracket is the multi-line directive:
    // one element per line, trailing comma kept, bracket on its own line.
    let input = "var x = [1, 2, 3,]\n";
    let expected = "var x = [\n\t1,\n\t2,\n\t3,\n]\n";
    assert_eq!(format(input), expected);
}

#[test]
fn test_no_trailing_comma_single_line_array() {
    assert_eq!(format("var x = [1,2,3]\n"), "var x = [1, 2, 3]\n");
}

#[test]
fn test_comment_moves_with_declaration_on_reorder() {
    // The doc comment attached to the variable travels with it when the
    // variable moves ahead of the function.
    let input = "func foo():\n\tpass\n\n\n# doc\nvar x = 1\n";
    let result = reorder(input);
    let var_pos = result.find("var x = 1").unwrap();
    let doc_pos = result.find("# doc").unwrap();
    let func_pos = result.find("func foo").unwrap();
    assert!(doc_pos < var_pos);
    assert!(var_pos < func_pos);
}

#[test]
fn test_reorder_stability_equal_kinds() {
    // Members of equal kind keep their relative source order.
    let input = "signal x\nsignal y\nsignal z\nvar a = 1\n";
    let result = reorder(input);
    let px = result.find("signal x").unwrap();
    let py = result.find("signal y").unwrap();
    let pz = result.find("signal z").unwrap();
    assert!(px < py && py < pz);
}

#[test]
fn test_reorder_noop_is_byte_identical() {
    let ordered = "extends Node\n\nsignal done\n\nconst MAX = 1\n\nvar x = 1\n";
    let formatted = format(ordered);
    assert_eq!(reorder_source(&formatted).unwrap(), formatted);
}

#[test]
fn test_reorder_twice_equals_once() {
    let input = "extends Node\n\n\nfunc foo():\n\tpass\n\n\nvar x = 1\n";
    let once = reorder(input);
    let twice = reorder_source(&once).unwrap();
    assert_eq!(once, twice);
}

#[test]
fn test_format_twice_equals_once() {
    let input = "var   x=  1\nfunc f( a , b ):\n\treturn a+b\n";
    let once = format(input);
    let twice = format(&once);
    assert_eq!(once, twice);
}

#[test]
fn test_reorder_empty_source_unchanged() {
    assert_eq!(reorder_source("").unwrap(), "");
    assert_eq!(reorder_source("   \n  \n").unwrap(), "   \n  \n");
}

#[test]
fn test_reorder_skipped_top_level_unchanged() {
    let source = "# fmt: off\nvar b = 2\nvar a = 1\n# fmt: on\n";
    assert_eq!(reorder_source(source).unwrap(), source);
}

#[test]
fn test_options_builders() {
    let tabs = FormatOptions::with_tabs();
    assert_eq!(tabs.indent_style, IndentStyle::Tabs);
    assert_eq!(tabs.max_line_length, 100);
    assert!(tabs.trailing_newline);
    let spaces = FormatOptions::with_spaces(2).line_length(80);
    assert_eq!(spaces.indent_style, IndentStyle::Spaces(2));
    assert_eq!(spaces.max_line_length, 80);
    let default_options = FormatOptions::default();
    assert_eq!(default_options.indent_style, IndentStyle::Tabs);
}

#[test]
fn test_indent_style_strings() {
    assert_eq!(IndentStyle::Tabs.as_str(), "\t");
    assert_eq!(IndentStyle::Spaces(3).as_str(), "   ");
    assert_eq!(IndentStyle::Tabs.width(), 4);
    assert_eq!(IndentStyle::Spaces(3).width(), 3);
}

#[test]
fn test_no_trailing_newline_option() {
    let options = FormatOptions { trailing_newline: false, ..FormatOptions::default() };
    assert_eq!(run_formatter("var x = 1\n", &options).unwrap(), "var x = 1");
}
