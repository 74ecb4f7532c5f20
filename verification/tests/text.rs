use prompt_eval::local::prompt_in_template;
use prompt_eval::text::{render_text, replace};

fn substitution(items: &[(&str, &str)]) -> Vec<(String, String)> {
    items.iter().map(|(a, b)| (a.to_string(), b.to_string())).collect()
}

#[test]
fn rendering_replaces_each_marker_by_its_value() {
    let variant = substitution(&[("{{a}}", "X"), ("{{b}}", "Y")]);
    assert_eq!(render_text("{{a}}-{{b}}", &variant), "X-Y");
}

#[test]
fn rendering_with_no_substitution_keeps_the_text() {
    assert_eq!(render_text("val={{x}}", &Vec::new()), "val={{x}}");
}

#[test]
fn a_later_substitution_sees_what_an_earlier_one_inserted() {
    let variant = substitution(&[("{{a}}", "{{b}}"), ("{{b}}", "Y")]);
    assert_eq!(render_text("{{a}}-{{b}}", &variant), "Y-Y");
    let reversed = substitution(&[("{{b}}", "Y"), ("{{a}}", "{{b}}")]);
    assert_eq!(render_text("{{a}}-{{b}}", &reversed), "{{b}}-Y");
}

#[test]
fn replace_agrees_with_the_standard_library() {
    let cases = [
        ("hello world", "o", "0"),
        ("aaa", "aa", "b"),
        ("aaaa", "aa", "b"),
        ("abc", "", "-"),
        ("", "", "-"),
        ("", "a", "b"),
        ("abc", "abcd", "x"),
        ("abcabc", "abc", ""),
        ("ab-ab", "ab", "abab"),
        ("grüße, {{wer}}!", "{{wer}}", "Jürgen"),
        ("日本語日本", "日本", "に"),
        ("a{{x}}b{{x}}", "{{x}}", "{{x}}{{x}}"),
    ];
    for (text, from, to) in cases {
        assert_eq!(replace(text, from, to), text.replace(from, to));
    }
}

#[test]
fn replace_takes_occurrences_from_the_left_without_overlap() {
    assert_eq!(replace("aaa", "aa", "b"), "ba");
    assert_eq!(replace("abc", "", "-"), "-a-b-c-");
    assert_eq!(replace("abc", "x", "y"), "abc");
}

#[test]
fn the_template_takes_the_system_text_then_the_user_text() {
    let prompt = prompt_in_template("<s>{{SYSTEM}}</s> Q: {{PROMPT}} A:", "be brief", "why?");
    assert_eq!(prompt, "<s>be brief</s> Q: why? A:");
}

#[test]
fn a_prompt_marker_in_the_system_text_is_filled_too() {
    let prompt = prompt_in_template("{{SYSTEM}}|{{PROMPT}}", "see {{PROMPT}}", "this");
    assert_eq!(prompt, "see this|this");
}
