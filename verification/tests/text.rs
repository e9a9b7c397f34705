use frpc_client_app::decimal::number_text;
use frpc_client_app::decimal::signed_number_text;
use frpc_client_app::decimal::three_digit_text;
use frpc_client_app::text::begins_with;
use frpc_client_app::text::ends_with;
use frpc_client_app::text::lower_text;
use frpc_client_app::text::replace_char;
use frpc_client_app::text::same_ignoring_case;
use frpc_client_app::text::split_text;
use frpc_client_app::text::trim_end_char;
use frpc_client_app::text::trim_start_char;
use frpc_client_app::text::trim_tail;
use frpc_client_app::text::trim_text;
use frpc_client_app::text_map::TextMap;

#[test]
fn numbers_are_written_in_decimal() {
    assert_eq!(number_text(0), "0");
    assert_eq!(number_text(1090), "1090");
    assert_eq!(number_text(u64::MAX), "18446744073709551615");
    assert_eq!(signed_number_text(i64::MIN), "-9223372036854775808");
    assert_eq!(signed_number_text(42), "42");
    assert_eq!(three_digit_text(7), "007");
    assert_eq!(three_digit_text(42), "042");
    assert_eq!(three_digit_text(999), "999");
    assert_eq!(three_digit_text(1000), "1000");
}

#[test]
fn text_helpers_agree_with_std() {
    for s in ["", " a ", "\u{3000}中\u{a0}文\u{2003}", "\u{1c}x\u{85}", "--a-b--", "x.zip.zip", "A_b__C_"] {
        assert_eq!(trim_text(s), s.trim());
        assert_eq!(trim_start_char(s, '-'), s.trim_start_matches('-'));
        assert_eq!(trim_end_char(s, '-'), s.trim_end_matches('-'));
        assert_eq!(trim_tail(s, ".zip"), s.trim_end_matches(".zip"));
        assert_eq!(lower_text(s), s.to_ascii_lowercase());
        assert_eq!(replace_char(s, '-', "//"), s.replace('-', "//"));
        assert_eq!(begins_with(s, "--"), s.starts_with("--"));
        assert_eq!(ends_with(s, "zip"), s.ends_with("zip"));
        let pieces: Vec<String> = s.split('_').map(str::to_string).collect();
        assert_eq!(split_text(s, '_'), pieces);
        assert!(same_ignoring_case(s, &s.to_ascii_uppercase()));
    }
    for code in 0..0x11_0000u32 {
        if let Some(ch) = char::from_u32(code) {
            let s = ch.to_string();
            assert_eq!(trim_text(&s).is_empty(), ch.is_whitespace());
        }
    }
}

#[test]
fn maps_keep_their_keys_in_the_order_of_bytes() {
    let mut map: TextMap<u64> = TextMap::new();
    let mut reference = std::collections::BTreeMap::new();
    for (n, key) in ["b", "a:10", "a:9", "", "中", "z", "a", "\u{ffff}", "\u{10000}", "b"].iter().enumerate() {
        assert_eq!(map.insert(key.to_string(), n as u64), reference.insert(key.to_string(), n as u64));
    }
    let keys: Vec<&str> = (0..map.len()).map(|i| map.key_at(i)).collect();
    let expected: Vec<&str> = reference.keys().map(|k| k.as_str()).collect();
    assert_eq!(keys, expected);
    assert_eq!(map.get("a:9"), Some(&2));
    assert_eq!(map.remove("a:9"), Some(2));
    assert_eq!(map.remove("a:9"), None);
    assert_eq!(map.len(), reference.len() - 1);
    let flags = vec![true; map.len()];
    assert_eq!(map.extract(&flags).len(), reference.len() - 1);
    assert!(map.is_empty());
}
