use hqm_server::text::{
    decimal_string, format_list_line, get_player_name, master_server_fields, name_or_default,
    padded_string, parse_port, split_command, str_eq,
};

#[test]
fn name_ends_at_the_first_zero() {
    assert_eq!(get_player_name(b"Anna\0junk".to_vec()), Some(String::from("Anna")));
    assert_eq!(get_player_name(b"Anna".to_vec()), Some(String::from("Anna")));
    assert_eq!(get_player_name(b"Anna\0\xff".to_vec()), Some(String::from("Anna")));
}

#[test]
fn white_space_around_a_name_goes() {
    assert_eq!(get_player_name(b" \tBo B \n".to_vec()), Some(String::from("Bo B")));
    let wide = "\u{3000}C\u{a0}".as_bytes().to_vec();
    assert_eq!(get_player_name(wide), Some(String::from("C")));
}

#[test]
fn nameless_players_get_a_name() {
    assert_eq!(get_player_name(b"   \0".to_vec()), Some(String::from("Noname")));
    assert_eq!(get_player_name(Vec::new()), Some(String::from("Noname")));
    assert_eq!(name_or_default(""), "Noname");
    assert_eq!(name_or_default("x"), "x");
}

#[test]
fn name_has_to_be_utf8() {
    assert_eq!(get_player_name(b"A\xff".to_vec()), None);
    assert_eq!(get_player_name("\u{c4}\u{f6}".as_bytes().to_vec()), Some(String::from("\u{c4}\u{f6}")));
}

fn split(line: &str) -> Option<(String, String)> {
    split_command(line)
}

#[test]
fn commands_start_with_a_slash() {
    assert_eq!(split("hello"), None);
    assert_eq!(split(""), None);
    assert_eq!(split(" /list"), None);
    assert_eq!(split("/"), Some((String::new(), String::new())));
    assert_eq!(split("/list"), Some((String::from("list"), String::new())));
    assert_eq!(split("/list "), Some((String::from("list"), String::new())));
    assert_eq!(
        split("/search two words"),
        Some((String::from("search"), String::from("two words")))
    );
    assert_eq!(split("/ x"), Some((String::new(), String::from("x"))));
}

#[test]
fn numbers_in_decimal() {
    assert_eq!(decimal_string(0), "0");
    assert_eq!(decimal_string(9), "9");
    assert_eq!(decimal_string(10), "10");
    assert_eq!(decimal_string(1234567890), "1234567890");
    assert_eq!(format_list_line(63, "Anna"), "63: Anna");
}

#[test]
fn texts_are_compared() {
    assert!(str_eq("a", "a"));
    assert!(!str_eq("a", "A"));
    assert!(!str_eq("a", "ab"));
}

#[test]
fn master_server_answer() {
    let answer = "  www.example.org\t 66.226.72.227 \r\n 27590 more";
    let (address, port) = master_server_fields(answer);
    assert_eq!(address, "66.226.72.227");
    assert_eq!(port, "27590");
    assert_eq!(parse_port(&port), Some(27590));
    assert_eq!(master_server_fields("one"), (String::new(), String::new()));
    assert_eq!(master_server_fields("one two"), (String::from("two"), String::new()));
    assert_eq!(master_server_fields(""), (String::new(), String::new()));
}

#[test]
fn ports_fit_in_sixteen_bits() {
    assert_eq!(parse_port("65535"), Some(65535));
    assert_eq!(parse_port("65536"), None);
    assert_eq!(parse_port("+80"), Some(80));
    assert_eq!(parse_port("007"), Some(7));
    assert_eq!(parse_port("-1"), None);
    assert_eq!(parse_port("+"), None);
    assert_eq!(parse_port(""), None);
    assert_eq!(parse_port("8 "), None);
    assert_eq!(parse_port("99999999999999999999999999"), None);
}

#[test]
fn numbers_are_padded_with_zeros() {
    assert_eq!(padded_string(7, 2), "07");
    assert_eq!(padded_string(0, 4), "0000");
    assert_eq!(padded_string(2021, 4), "2021");
    assert_eq!(padded_string(12345, 4), "12345");
    assert_eq!(padded_string(5, 0), "5");
}

#[test]
fn all_white_space_of_unicode_goes() {
    for c in "\t\n\u{b}\u{c}\r \u{85}\u{a0}\u{1680}\u{2000}\u{200a}\u{2028}\u{2029}\u{202f}\u{205f}\u{3000}".chars() {
        let name = format!("{}x{}", c, c);
        assert_eq!(get_player_name(name.into_bytes()), Some(String::from("x")));
    }
    for c in "\u{8}\u{e}\u{1f}\u{200b}\u{180e}\u{feff}\u{2060}".chars() {
        let name = format!("{}x", c);
        assert_eq!(get_player_name(name.clone().into_bytes()), Some(name));
    }
}
