use adp_trafic_aerien::sql_script::{cut_comment, lines_of, split_statements, uncomment};

fn strings(v: &[&str]) -> Vec<String> {
    v.iter().map(|s| s.to_string()).collect()
}

#[test]
fn comments_are_removed_line_by_line() {
    let script = "-- header; DROP DATABASE x;\nCREATE DATABASE t; -- c\nUSE t;\n";
    assert_eq!(split_statements(script), strings(&["CREATE DATABASE t", "USE t"]));
}

#[test]
fn a_leading_comment_does_not_swallow_the_next_statement() {
    let script = "-- Schema of the database\nDROP DATABASE IF EXISTS trafic_aerien;\nCREATE DATABASE trafic_aerien;\n";
    assert_eq!(
        split_statements(script),
        strings(&["DROP DATABASE IF EXISTS trafic_aerien", "CREATE DATABASE trafic_aerien"])
    );
}

#[test]
fn statements_may_span_lines() {
    let script = "CREATE TABLE a (\n  x INT, -- the x\n  y INT\n);\n";
    assert_eq!(split_statements(script), strings(&["CREATE TABLE a (\n  x INT, \n  y INT\n)"]));
}

#[test]
fn crlf_line_endings() {
    assert_eq!(split_statements("A;\r\nB; -- b\r\n"), strings(&["A", "B"]));
}

#[test]
fn empty_and_blank_scripts_have_no_statement() {
    assert!(split_statements("").is_empty());
    assert!(split_statements(" ;; \n ; -- only a comment ;\n").is_empty());
}

#[test]
fn no_final_semicolon_needed() {
    assert_eq!(split_statements("SELECT 1"), strings(&["SELECT 1"]));
}

#[test]
fn statements_hold_no_separator_nor_comment_marker() {
    let script = "a;b -- c;d\n--e\n-\n-f;  g  ;\n";
    for st in split_statements(script) {
        assert!(!st.contains(';'));
        assert!(!st.contains("--"));
        assert!(!st.is_empty());
        assert_eq!(st.trim(), st);
    }
    assert_eq!(split_statements(script), strings(&["a", "b \n\n-\n-f", "g"]));
}

#[test]
fn lines_agree_with_str_lines() {
    for s in ["", "\n", "a", "a\n", "a\r\nb", "a\r", "a\n\nb\n", "\r\n\r\n", "x\ry\n"] {
        let cs: Vec<char> = s.chars().collect();
        let got: Vec<String> = lines_of(&cs).into_iter().map(|l| l.into_iter().collect()).collect();
        let want: Vec<String> = s.lines().map(|l| l.to_string()).collect();
        assert_eq!(got, want, "sample {:?}", s);
    }
}

#[test]
fn a_line_is_cut_at_its_first_double_dash() {
    let cut = |s: &str| -> String { cut_comment(&s.chars().collect()).into_iter().collect() };
    assert_eq!(cut("SELECT 1 -- one -- two"), "SELECT 1 ");
    assert_eq!(cut("a - b"), "a - b");
    assert_eq!(cut("--"), "");
    assert_eq!(cut("x-"), "x-");
}

#[test]
fn uncommenting_keeps_the_lines() {
    let raw = "-- a\nB; -- b\n\nC\n";
    let text: String = uncomment(&raw.chars().collect()).into_iter().collect();
    assert_eq!(text, "\nB; \n\nC");
    assert_eq!(text.split('\n').count(), raw.lines().count());
}
