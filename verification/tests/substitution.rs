use std::cell::Cell;

use str_var_subst::{remove_var_delimiters, replace_variables};

fn one_two_replace(variable: &str) -> String {
    if variable == "test_num" {
        return String::from("1");
    }
    if variable == "test_num_2" {
        return String::from("2");
    }
    return String::from("");
}

#[test]
fn test_simple_replacement() {
    let test_expr = "This is a test string that has %{{test_num}} %{{test_num_2}}%{{test_num}} %{{test_num_2}} %{{empty_var}}variables";
    let res = replace_variables(test_expr, one_two_replace);
    assert_eq!(
        res,
        String::from("This is a test string that has 1 21 2 variables")
    );
    println!("{}", res)
}

#[test]
fn test_json_template() {
    let in_template = "{\n  \"first\": \"%{{test_num}}\",\n  \"second\": \"%{{test_num_2}}\",\n  \"missing\": \"%{{empty_var}}\"\n}";
    let expected_output = "{\n  \"first\": \"1\",\n  \"second\": \"2\",\n  \"missing\": \"\"\n}";
    let parsed = replace_variables(in_template, one_two_replace);
    println!("{}", parsed);
    assert_ne!(in_template, expected_output);
    assert_eq!(parsed, expected_output);
}

#[test]
fn test_name_replacement() {
    let test_str = "Hi my name is %{{name}}%{{no_var}}!";
    let parsed_str = replace_variables(test_str, |var| {
        if var == "name" {
            String::from("John")
        } else {
            String::from("")
        }
    });
    assert_eq!(parsed_str, "Hi my name is John!");
}

#[test]
fn test_adjacent_and_repeated_tokens() {
    let res = replace_variables("%{{a}} %{{b}}%{{a}} %{{b}} %{{c}}x", |var| {
        if var == "a" {
            String::from("1")
        } else if var == "b" {
            String::from("2")
        } else {
            String::from("")
        }
    });
    assert_eq!(res, "1 21 2 x");
}

#[test]
fn test_plain_text_identity() {
    let res = replace_variables("plain text", |_var| String::from("X"));
    assert_eq!(res, "plain text");
}

#[test]
fn test_empty_template() {
    let res = replace_variables("", |_var| String::from("X"));
    assert_eq!(res, "");
}

#[test]
fn test_malformed_passthrough() {
    let loud = |_var: &str| String::from("X");
    assert_eq!(replace_variables("%{{123abc}}", loud), "%{{123abc}}");
    assert_eq!(replace_variables("%{{unterminated", loud), "%{{unterminated");
    assert_eq!(replace_variables("%{{}}", loud), "%{{}}");
    assert_eq!(replace_variables("%{a}", loud), "%{a}");
    assert_eq!(replace_variables("%{{ name }}", loud), "%{{ name }}");
}

#[test]
fn test_no_reexpansion() {
    let res = replace_variables("x%{{a}}y", |var| {
        if var == "a" {
            String::from("%{{b}}")
        } else {
            String::from("Z")
        }
    });
    assert_eq!(res, "x%{{b}}y");
}

#[test]
fn test_repeats_resolved_independently() {
    let count = Cell::new(0u32);
    let res = replace_variables("%{{a}}%{{a}}", |_var| {
        count.set(count.get() + 1);
        format!("{}", count.get())
    });
    assert_eq!(count.get(), 2);
    assert_eq!(res, "12");
}

#[test]
fn test_env_style_resolution() {
    let set = |var: &str| {
        if var == "FOO" {
            String::from("bar")
        } else {
            String::from("")
        }
    };
    let unset = |_var: &str| String::from("");
    assert_eq!(replace_variables("val=%{{FOO}}", set), "val=bar");
    assert_eq!(replace_variables("val=%{{FOO}}", unset), "val=");
}

#[test]
fn test_non_ascii_literal_text() {
    let res = replace_variables("h\u{e9}llo %{{a}}\u{2764}", |var| {
        if var == "a" {
            String::from("X")
        } else {
            String::from("")
        }
    });
    assert_eq!(res, "h\u{e9}llo X\u{2764}");
    let untouched = replace_variables("%{{a\u{e9}}}", |_var| String::from("X"));
    assert_eq!(untouched, "%{{a\u{e9}}}");
}

#[test]
fn test_delimiter_stripping() {
    assert_eq!(remove_var_delimiters("%{{name}}"), "name");
    assert_eq!(remove_var_delimiters("%{{ name }}"), "name");
    assert_eq!(remove_var_delimiters("  a%{b  "), "ab");
    assert_eq!(remove_var_delimiters("abc"), "abc");
    assert_eq!(remove_var_delimiters(" a b "), "a b");
    assert_eq!(remove_var_delimiters("%{{}}"), "");
}

#[test]
fn test_unicode_whitespace_trimming() {
    assert_eq!(remove_var_delimiters("\u{a0}"), "");
    assert_eq!(remove_var_delimiters("\u{a0}x\u{a0}"), "x");
    assert_eq!(remove_var_delimiters("\u{2003}%{{\u{3000}name\u{85}}}\u{1680}"), "name");
    assert_eq!(remove_var_delimiters("a\u{2009}b"), "a\u{2009}b");
}
