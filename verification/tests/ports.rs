use midi_clock_shifter::ports::{
    exclude_port, port_listed, resolve_port_name, should_reconnect, should_reconnect_input,
    strip_index_prefix,
};

#[test]
fn resolves_an_exact_match_first() {
    let available = vec!["Beatstep Pro".to_string(), "2- Beatstep Pro".to_string()];
    assert_eq!(
        resolve_port_name("Beatstep Pro", &available),
        Some("Beatstep Pro")
    );
}

#[test]
fn resolves_a_replugged_device_via_the_stripped_prefix() {
    let available = vec!["2- Beatstep Pro".to_string()];
    assert_eq!(
        resolve_port_name("Beatstep Pro", &available),
        Some("2- Beatstep Pro")
    );
}

#[test]
fn does_not_resolve_an_unrelated_name() {
    let available = vec!["2- Beatstep Pro".to_string()];
    assert_eq!(resolve_port_name("KeyStep", &available), None);
}

#[test]
fn does_not_strip_a_name_that_merely_contains_a_dash() {
    let available = vec!["Arturia - KeyStep".to_string()];
    assert_eq!(resolve_port_name("KeyStep", &available), None);
    assert_eq!(
        resolve_port_name("Arturia - KeyStep", &available),
        Some("Arturia - KeyStep")
    );
}

#[test]
fn exact_match_wins_even_when_listed_after_a_prefixed_one() {
    let available = vec!["3- KeyStep".to_string(), "KeyStep".to_string()];
    assert_eq!(resolve_port_name("KeyStep", &available), Some("KeyStep"));
}

#[test]
fn first_prefixed_match_is_taken() {
    let available = vec!["Other".to_string(), "12- KeyStep".to_string(), "3- KeyStep".to_string()];
    assert_eq!(resolve_port_name("KeyStep", &available), Some("12- KeyStep"));
    assert_eq!(resolve_port_name("KeyStep", &[]), None);
}

#[test]
fn strip_index_prefix_cases() {
    assert_eq!(strip_index_prefix("2- Beatstep Pro"), "Beatstep Pro");
    assert_eq!(strip_index_prefix("10- A- B"), "A- B");
    assert_eq!(strip_index_prefix("- KeyStep"), "- KeyStep");
    assert_eq!(strip_index_prefix("2a- KeyStep"), "2a- KeyStep");
    assert_eq!(strip_index_prefix("Arturia - KeyStep"), "Arturia - KeyStep");
    assert_eq!(strip_index_prefix("KeyStep"), "KeyStep");
    assert_eq!(strip_index_prefix("7- "), "");
    assert_eq!(strip_index_prefix("7-"), "7-");
    assert_eq!(strip_index_prefix("3- Über"), "Über");
    assert_eq!(strip_index_prefix(""), "");
}

#[test]
fn exclude_port_removes_only_the_named_port() {
    let ports = vec![
        "Clock Shifter Out".to_string(),
        "Beatstep Pro".to_string(),
        "Clock Shifter Out".to_string(),
        "KeyStep".to_string(),
    ];
    assert_eq!(
        exclude_port(ports, "Clock Shifter Out"),
        vec!["Beatstep Pro".to_string(), "KeyStep".to_string()]
    );
    assert_eq!(exclude_port(vec!["A".to_string()], "B"), vec!["A".to_string()]);
}

#[test]
fn port_listed_matches_whole_names_only() {
    let ports = vec!["Beatstep Pro".to_string(), "KeyStep".to_string()];
    assert!(port_listed("KeyStep", &ports));
    assert!(!port_listed("Key", &ports));
    assert!(!port_listed("KeyStep", &[]));
}

#[test]
fn reconnects_only_enabled_present_unconnected_hardware_outputs() {
    let live = vec!["Beatstep Pro".to_string(), "KeyStep".to_string()];
    let connected = vec!["KeyStep".to_string()];
    assert!(should_reconnect("Beatstep Pro", true, "Clock Shifter Out", &live, &connected));
    assert!(!should_reconnect("Beatstep Pro", false, "Clock Shifter Out", &live, &connected));
    assert!(!should_reconnect("KeyStep", true, "Clock Shifter Out", &live, &connected));
    assert!(!should_reconnect("Missing", true, "Clock Shifter Out", &live, &connected));
    let live_virtual = vec!["Clock Shifter Out".to_string()];
    assert!(!should_reconnect("Clock Shifter Out", true, "Clock Shifter Out", &live_virtual, &[]));
}

#[test]
fn inputs_reconnect_only_when_selected_disconnected_and_present() {
    let live = vec!["Beatstep Pro".to_string(), "KeyStep".to_string()];
    assert!(should_reconnect_input(Some("KeyStep"), false, &live));
    assert!(!should_reconnect_input(Some("KeyStep"), true, &live));
    assert!(!should_reconnect_input(Some("Launchpad"), false, &live));
    assert!(!should_reconnect_input(None, false, &live));
}
