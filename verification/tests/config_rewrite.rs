use bawal_pathfinder::yaml::rewrite_map_config;

#[test]
fn rewrite_sets_map_server_filename_only() {
    let content = "amcl:\n  ros__parameters:\n    yaml_filename: \"a\"\nmap_server:\n  ros__parameters:\n    use_sim_time: True\n    yaml_filename: \"/old/map.yaml\"\nplanner_server:\n  ros__parameters:\n    yaml_filename: \"x\"\n";
    let expected = "amcl:\n  ros__parameters:\n    yaml_filename: \"a\"\nmap_server:\n  ros__parameters:\n    use_sim_time: True\n    yaml_filename: \"/ros2_ws/src/navigation/maps/test.yaml\"\nplanner_server:\n  ros__parameters:\n    yaml_filename: \"x\"";
    assert_eq!(rewrite_map_config(content, "test.yaml"), expected);
}

#[test]
fn rewrite_handles_crlf_line_endings() {
    let content = "map_server:\r\n  ros__parameters:\r\n    yaml_filename: old\r\n";
    let expected = "map_server:\n  ros__parameters:\n    yaml_filename: \"/ros2_ws/src/navigation/maps/m.yaml\"";
    assert_eq!(rewrite_map_config(content, "m.yaml"), expected);
}

#[test]
fn rewrite_section_closed_by_unindented_line() {
    let content = "map_server:\nother:\n  ros__parameters:\n    yaml_filename: x";
    assert_eq!(rewrite_map_config(content, "m.yaml"), content);
}

#[test]
fn rewrite_keeps_tab_indentation() {
    let content = "map_server:\n\tros__parameters:\n\t\tyaml_filename: x\n";
    let expected = "map_server:\n\tros__parameters:\n\t\tyaml_filename: \"/ros2_ws/src/navigation/maps/z.yaml\"";
    assert_eq!(rewrite_map_config(content, "z.yaml"), expected);
}

#[test]
fn rewrite_only_first_filename_in_block() {
    let content = "map_server:\n  ros__parameters:\n    yaml_filename: a\n    yaml_filename: b";
    let expected = "map_server:\n  ros__parameters:\n    yaml_filename: \"/ros2_ws/src/navigation/maps/q\"\n    yaml_filename: b";
    assert_eq!(rewrite_map_config(content, "q"), expected);
}

#[test]
fn rewrite_empty_and_blank_lines() {
    assert_eq!(rewrite_map_config("", "m"), "");
    assert_eq!(rewrite_map_config("\n", "m"), "");
    assert_eq!(rewrite_map_config("a\n\nb\n", "m"), "a\n\nb");
    assert_eq!(rewrite_map_config("a\r", "m"), "a\r");
}

#[test]
fn rewrite_without_map_server_is_unchanged() {
    let content = "controller:\n  ros__parameters:\n    yaml_filename: keep";
    assert_eq!(rewrite_map_config(content, "m"), content);
}

#[test]
fn rewrite_blank_line_keeps_section_open() {
    let content = "map_server:\n\n  ros__parameters:\n\n    yaml_filename: a";
    let expected = "map_server:\n\n  ros__parameters:\n\n    yaml_filename: \"/ros2_ws/src/navigation/maps/n\"";
    assert_eq!(rewrite_map_config(content, "n"), expected);
}
