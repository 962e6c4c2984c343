use wstm::devices::{
    active_device_label, choose_input_device, default_output_device, device_catalog, device_label,
    find_named_device, requested_device_name, sorted_unique, DeviceDirection, InputChoice,
};
use wstm::text::trim_text;

fn strings(items: &[&str]) -> Vec<String> {
    items.iter().map(|s| s.to_string()).collect()
}

#[test]
fn labels_carry_the_direction() {
    assert_eq!(device_label(DeviceDirection::Output, "Speakers"), "output: Speakers");
    assert_eq!(device_label(DeviceDirection::Input, "Mic"), "input: Mic");
}

#[test]
fn sorted_unique_sorts_and_removes_duplicates() {
    let items = strings(&["b", "a", "c", "a", "b", "ab", ""]);
    assert_eq!(sorted_unique(&items), strings(&["", "a", "ab", "b", "c"]));
}

#[test]
fn sorted_unique_orders_as_str_does() {
    let items = strings(&["zeta", "Zeta", "éclair", "eclair", "z", "日本", "Ω"]);
    let mut expected = items.clone();
    expected.sort();
    expected.dedup();
    assert_eq!(sorted_unique(&items), expected);
}

#[test]
fn catalog_lists_each_device_once_in_order() {
    let catalog = device_catalog(
        &Some("Speakers".to_string()),
        &Some("Mic".to_string()),
        &strings(&["Speakers", "HDMI"]),
        &strings(&["Mic", "Line In"]),
    );
    assert_eq!(
        catalog,
        strings(&["input: Line In", "input: Mic", "output: HDMI", "output: Speakers"])
    );
}

#[test]
fn catalog_without_devices_is_empty() {
    let catalog = device_catalog(&None, &None, &Vec::new(), &Vec::new());
    assert!(catalog.is_empty());
}

#[test]
fn default_output_is_the_first_output() {
    let devices = strings(&["input: Mic", "output: B", "output: A"]);
    assert_eq!(default_output_device(&devices), Some("output: B".to_string()));
    let devices = strings(&["input: Mic", "outputs: X"]);
    assert_eq!(default_output_device(&devices), None);
}

#[test]
fn requested_names_drop_the_prefix_and_whitespace() {
    assert_eq!(requested_device_name("output: Speakers"), Some("Speakers".to_string()));
    assert_eq!(requested_device_name("input:   Mic  "), Some("Mic".to_string()));
    assert_eq!(requested_device_name("input: \u{3000}Mic\t\n"), Some("Mic".to_string()));
    assert_eq!(requested_device_name("output: "), Some(String::new()));
    assert_eq!(requested_device_name("Speakers"), None);
    assert_eq!(requested_device_name(""), None);
}

#[test]
fn trimming_matches_str_trim() {
    for s in ["", "   ", " a ", "\u{2003}x y\u{a0}", "no-space", "\tmix ed \n"] {
        assert_eq!(trim_text(s), s.trim());
    }
}

#[test]
fn named_devices_are_found_first_first() {
    let names = vec![None, Some("A".to_string()), Some("B".to_string()), Some("A".to_string())];
    assert_eq!(find_named_device(&names, &"A".to_string()), Some(1));
    assert_eq!(find_named_device(&names, &"C".to_string()), None);
}

#[test]
fn input_choice_prefers_the_named_device() {
    let names = vec![Some("Mic".to_string()), Some("Line In".to_string())];
    assert_eq!(
        choose_input_device("input: Line In", &names, true),
        Some(InputChoice::Listed(1))
    );
    assert_eq!(
        choose_input_device("output: Speakers", &names, true),
        Some(InputChoice::DefaultInput)
    );
    assert_eq!(choose_input_device("", &names, true), Some(InputChoice::DefaultInput));
    assert_eq!(choose_input_device("output: Speakers", &names, false), None);
    assert_eq!(choose_input_device("input: Mic", &names, false), Some(InputChoice::Listed(0)));
}

#[test]
fn active_label_prefers_the_chosen_label() {
    assert_eq!(active_device_label("output: X", Some("Y".to_string())), "output: X");
    assert_eq!(active_device_label("", Some("Y".to_string())), "Y");
    assert_eq!(active_device_label("", None), "Default input");
}
