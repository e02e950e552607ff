use scriv::select::{file_preview_command, quote, refresh_bind, SelectItem, REFRESH_KEY};

#[test]
fn quotes_plain_values() {
    assert_eq!(quote("main"), "'main'");
    assert_eq!(quote("/home/u/my repo"), "'/home/u/my repo'");
}

#[test]
fn quotes_escape_embedded_single_quotes() {
    assert_eq!(quote("it's"), r"'it'\''s'");
    assert_eq!(quote("'; rm -rf /; '"), r"''\''; rm -rf /; '\'''");
}

#[test]
fn the_refresh_binding_names_the_key_it_closes_on() {
    assert_eq!(REFRESH_KEY, "ctrl-r");
    assert_eq!(refresh_bind(), "ctrl-r:accept(ctrl-r)");
}

#[test]
fn a_file_preview_is_bat_then_head_on_the_quoted_path() {
    assert_eq!(
        file_preview_command("/tmp/a b"),
        "bat --color=always --style=plain --line-range=:200 -- '/tmp/a b' 2>/dev/null || head -n 200 -- '/tmp/a b'"
    );
}

#[test]
fn a_row_hands_back_its_value_not_its_label() {
    let item = SelectItem::new("~/dev/x".to_string(), "/home/u/dev/x".to_string()).color(3);
    assert_eq!(item.value(), "/home/u/dev/x");
    assert_eq!(item.label, "~/dev/x");
    assert_eq!(item.color, Some(3));
}
