use bulkseed::docker::{base_url_from_output, port_to_string, trim_blanks, Docker};

#[test]
fn port_renders_in_decimal() {
    assert_eq!(port_to_string(0), "0");
    assert_eq!(port_to_string(7), "7");
    assert_eq!(port_to_string(8080), "8080");
    assert_eq!(port_to_string(65535), "65535");
}

#[test]
fn trim_strips_blanks_on_both_ends() {
    assert_eq!(trim_blanks(" \t0.0.0.0:32768\r\n"), "0.0.0.0:32768");
    assert_eq!(trim_blanks("bare"), "bare");
    assert_eq!(trim_blanks("  \n "), "");
}

#[test]
fn base_url_wraps_trimmed_binding() {
    assert_eq!(base_url_from_output("0.0.0.0:32768\n"), "http://0.0.0.0:32768/");
    assert_eq!(base_url_from_output("  [::]:8080  "), "http://[::]:8080/");
}

#[test]
fn port_args_include_compose_file_when_given() {
    let with = Docker::new(Some("compose.yaml".to_string()));
    assert_eq!(
        with.port_args("gics", 8080),
        vec!["compose", "-f", "compose.yaml", "port", "gics", "8080"]
            .into_iter()
            .map(String::from)
            .collect::<Vec<String>>()
    );
    let without = Docker::new(None);
    assert_eq!(
        without.port_args("cd-hds", 8080),
        vec!["compose", "port", "cd-hds", "8080"]
            .into_iter()
            .map(String::from)
            .collect::<Vec<String>>()
    );
}
