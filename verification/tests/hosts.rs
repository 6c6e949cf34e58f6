use wait::strings::split_hosts;

#[test]
fn an_empty_string_names_no_hosts() {
    let hosts = split_hosts("");
    assert!(hosts.is_empty());
}

#[test]
fn a_whitespace_string_names_no_hosts() {
    let hosts = split_hosts(" \t ");
    assert!(hosts.is_empty());
}

#[test]
fn hosts_are_split_on_commas_and_trimmed() {
    let hosts = split_hosts(" alpha:1, beta:2 ,gamma:3 ");
    assert_eq!(
        vec!["alpha:1".to_string(), "beta:2".to_string(), "gamma:3".to_string()],
        hosts
    );
}

#[test]
fn commas_keep_their_empty_pieces() {
    let hosts = split_hosts(" , ");
    assert_eq!(vec!["".to_string(), "".to_string()], hosts);
}

#[test]
fn a_single_host_needs_no_comma() {
    let hosts = split_hosts("localhost:8080");
    assert_eq!(vec!["localhost:8080".to_string()], hosts);
}
