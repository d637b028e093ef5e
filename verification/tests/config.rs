use zzh::config::{
    extract_hosts, find_config, history_file, host_listing, list_hosts, state_folder,
};

fn strings(items: &[&str]) -> Vec<String> {
    items.iter().map(|s| s.to_string()).collect()
}

#[test]
fn declared_aliases_in_file_order() {
    let config = "Host a\n  HostName a.example.com\nHost b\n  User me\nHost c\n";
    assert_eq!(extract_hosts(config), strings(&["a", "b", "c"]));
}

#[test]
fn every_alias_of_a_line_is_taken() {
    assert_eq!(extract_hosts("Host a b  c\n"), strings(&["a", "b", "c"]));
    assert_eq!(extract_hosts("\t Host\tweb1 \t web2\r\n"), strings(&["web1", "web2"]));
}

#[test]
fn repeated_aliases_stay() {
    assert_eq!(extract_hosts("Host a\nHost b a\nHost a\n"), strings(&["a", "b", "a", "a"]));
}

#[test]
fn wildcards_are_taken_as_they_stand() {
    assert_eq!(extract_hosts("Host *.example.com !bad ?\n"), strings(&["*.example.com", "!bad", "?"]));
}

#[test]
fn other_lines_declare_nothing() {
    let config = "# Host commented\nHostName x\nhost lower\nHOST upper\nMatch host y\nHost\nHost   \nProxyHost z\nUser Host\n";
    assert_eq!(extract_hosts(config), Vec::<String>::new());
    assert_eq!(extract_hosts(""), Vec::<String>::new());
}

#[test]
fn declaration_does_not_run_over_lines() {
    assert_eq!(extract_hosts("Host\na\nHost b\n c\n"), strings(&["b"]));
}

#[test]
fn last_line_needs_no_line_feed() {
    assert_eq!(extract_hosts("Host a\nHost b"), strings(&["a", "b"]));
}

#[test]
fn aliases_may_hold_any_characters_but_blanks() {
    assert_eq!(extract_hosts("Host caf\u{e9} \u{4e2d}\u{6587}\n"), strings(&["caf\u{e9}", "\u{4e2d}\u{6587}"]));
}

#[test]
fn listing_has_one_alias_per_line() {
    assert_eq!(host_listing(&strings(&["a", "b", "c"])), "a\nb\nc\n");
    assert_eq!(host_listing(&vec![]), "");
    assert_eq!(list_hosts("Host a b\nUser x\nHost c\n"), "a\nb\nc\n");
    assert_eq!(list_hosts("User x\n"), "");
}

#[test]
fn files_are_under_home() {
    assert_eq!(find_config("/home/me"), "/home/me/.ssh/config");
    assert_eq!(state_folder("/home/me"), "/home/me/.zzh");
    assert_eq!(history_file("/home/me/.zzh"), "/home/me/.zzh/history");
}
