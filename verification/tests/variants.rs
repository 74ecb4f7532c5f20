use prompt_eval::variants::{make_variants, variant_count, VariableSet};

fn strings(items: &[&str]) -> Vec<String> {
    items.iter().map(|s| s.to_string()).collect()
}

fn pairs(items: &[(&str, &str)]) -> Vec<(String, String)> {
    items.iter().map(|(a, b)| (a.to_string(), b.to_string())).collect()
}

#[test]
fn test_make_variants() {
    let var_a = String::from("{{a}}");
    let var_b = String::from("{{b}}");

    let one_str = String::from("one");
    let one_digit = String::from("1");
    let two_str = String::from("two");
    let two_digit = String::from("2");

    let mut variables = VariableSet::new();
    variables.insert(var_a, vec![one_str, one_digit]);
    variables.insert(var_b, vec![two_str, two_digit]);

    assert_eq!(variant_count(&variables), Some(4));
    assert_eq!(
        vec![
            pairs(&[("{{a}}", "one"), ("{{b}}", "two")]),
            pairs(&[("{{a}}", "one"), ("{{b}}", "2")]),
            pairs(&[("{{a}}", "1"), ("{{b}}", "two")]),
            pairs(&[("{{a}}", "1"), ("{{b}}", "2")]),
        ],
        make_variants(&variables)
    );
}

#[test]
fn variables_are_kept_in_the_order_of_their_names() {
    let mut variables = VariableSet::new();
    assert_eq!(variables.insert("{{b}}".to_string(), strings(&["x"])), None);
    assert_eq!(variables.insert("{{a}}".to_string(), strings(&["1", "2"])), None);
    assert_eq!(variables.len(), 2);
    assert_eq!(
        make_variants(&variables),
        vec![
            pairs(&[("{{a}}", "1"), ("{{b}}", "x")]),
            pairs(&[("{{a}}", "2"), ("{{b}}", "x")]),
        ]
    );
}

#[test]
fn no_variables_give_the_one_empty_variant() {
    let variables = VariableSet::new();
    assert_eq!(variant_count(&variables), Some(1));
    assert_eq!(make_variants(&variables), vec![Vec::<(String, String)>::new()]);
}

#[test]
fn a_variable_without_values_gives_no_variant() {
    let mut variables = VariableSet::new();
    variables.insert("{{a}}".to_string(), strings(&["1", "2"]));
    variables.insert("{{b}}".to_string(), Vec::new());
    variables.insert("{{c}}".to_string(), strings(&["x"]));
    assert_eq!(variant_count(&variables), Some(0));
    assert!(make_variants(&variables).is_empty());
}

#[test]
fn the_number_of_variants_is_the_product_of_the_numbers_of_values() {
    let mut variables = VariableSet::new();
    variables.insert("{{a}}".to_string(), strings(&["1", "2"]));
    variables.insert("{{b}}".to_string(), strings(&["x", "y", "z"]));
    variables.insert("{{c}}".to_string(), strings(&["p", "q", "r", "s"]));
    assert_eq!(variant_count(&variables), Some(24));
    let variants = make_variants(&variables);
    assert_eq!(variants.len(), 24);
    assert_eq!(variants[0], pairs(&[("{{a}}", "1"), ("{{b}}", "x"), ("{{c}}", "p")]));
    assert_eq!(variants[1], pairs(&[("{{a}}", "1"), ("{{b}}", "x"), ("{{c}}", "q")]));
    assert_eq!(variants[4], pairs(&[("{{a}}", "1"), ("{{b}}", "y"), ("{{c}}", "p")]));
    assert_eq!(variants[12], pairs(&[("{{a}}", "2"), ("{{b}}", "x"), ("{{c}}", "p")]));
    assert_eq!(variants[23], pairs(&[("{{a}}", "2"), ("{{b}}", "z"), ("{{c}}", "s")]));
}

#[test]
fn inserting_a_name_again_replaces_its_values() {
    let mut variables = VariableSet::new();
    assert_eq!(variables.insert("{{a}}".to_string(), strings(&["1", "2"])), None);
    assert_eq!(
        variables.insert("{{a}}".to_string(), strings(&["3"])),
        Some(strings(&["1", "2"]))
    );
    assert_eq!(variables.len(), 1);
    assert_eq!(make_variants(&variables), vec![pairs(&[("{{a}}", "3")])]);
}

#[test]
fn names_are_ordered_as_strings_are() {
    let names = ["b", "a", "ab", "", "B", "é", "z", "aa", "日本", "a b"];
    let mut variables = VariableSet::new();
    for name in names {
        variables.insert(name.to_string(), strings(&["v"]));
    }
    let mut sorted = names.to_vec();
    sorted.sort();
    let expected: Vec<(String, String)> =
        sorted.iter().map(|name| (name.to_string(), "v".to_string())).collect();
    assert_eq!(make_variants(&variables), vec![expected]);
}

#[test]
fn a_count_beyond_the_word_is_reported() {
    let mut variables = VariableSet::new();
    let many: Vec<String> = (0..65536).map(|i| i.to_string()).collect();
    for name in ["a", "b", "c", "d", "e"] {
        variables.insert(name.to_string(), many.clone());
    }
    assert_eq!(variant_count(&variables), None);
    variables.insert("f".to_string(), Vec::new());
    assert_eq!(variant_count(&variables), Some(0));
}

#[test]
fn variables_are_read_by_position() {
    let mut variables = VariableSet::new();
    variables.insert("{{b}}".to_string(), strings(&["x"]));
    variables.insert("{{a}}".to_string(), strings(&["1", "2"]));
    let first = variables.get(0).expect("there are two variables");
    assert_eq!(first.name, "{{a}}");
    assert_eq!(first.values, strings(&["1", "2"]));
    assert_eq!(variables.get(1).map(|v| v.name.as_str()), Some("{{b}}"));
    assert!(variables.get(2).is_none());
}
