use frpc_client_app::config::default_config_text;
use frpc_client_app::config::escape_toml_string;
use frpc_client_app::config::get_integer;
use frpc_client_app::config::get_string;
use frpc_client_app::config::parse_config_summary;
use frpc_client_app::config::render_quick_config;
use frpc_client_app::config::render_single_proxy_config;
use frpc_client_app::config::select_proxy;
use frpc_client_app::config::summarize_config;
use frpc_client_app::config::validate_config_text;
use frpc_client_app::config::QuickProxyRequest;
use frpc_client_app::config::SaveQuickConfigRequest;
use frpc_client_app::error::AppError;

fn proxy(name: &str, local_ip: &str, local_port: u16, remote_port: u16) -> QuickProxyRequest {
    QuickProxyRequest {
        name: name.to_string(),
        proxy_type: "tcp".to_string(),
        local_ip: local_ip.to_string(),
        local_port,
        remote_port,
    }
}

#[test]
fn quick_config_output_is_valid_toml_document() {
    let request = SaveQuickConfigRequest {
        server_addr: "203.0.113.10".to_string(),
        server_port: 7000,
        auth_method: "token".to_string(),
        auth_token: String::new(),
        proxies: vec![QuickProxyRequest {
            name: "pet-h5".to_string(),
            proxy_type: "tcp".to_string(),
            local_ip: "127.0.0.1".to_string(),
            local_port: 2999,
            remote_port: 2999,
        }],
    };

    let config_text = render_quick_config(&request);

    validate_config_text(&config_text).expect("quick config should render valid TOML");
    let summary = parse_config_summary(&config_text);
    assert_eq!(summary.server_addr, "203.0.113.10");
    assert_eq!(summary.proxies[0].name, "pet-h5");
}

#[test]
fn single_proxy_config_keeps_only_selected_proxy() {
    let config_text = render_quick_config(&SaveQuickConfigRequest {
        server_addr: "203.0.113.10".to_string(),
        server_port: 7000,
        auth_method: "token".to_string(),
        auth_token: "secret".to_string(),
        proxies: vec![
            QuickProxyRequest {
                name: "ip1-web".to_string(),
                proxy_type: "tcp".to_string(),
                local_ip: "192.168.1.10".to_string(),
                local_port: 8080,
                remote_port: 18080,
            },
            QuickProxyRequest {
                name: "ip2-api".to_string(),
                proxy_type: "tcp".to_string(),
                local_ip: "192.168.1.11".to_string(),
                local_port: 9000,
                remote_port: 19000,
            },
        ],
    });

    let (single_config, proxy_name) =
        render_single_proxy_config(&config_text, 1).expect("single proxy config should render");
    let summary = parse_config_summary(&single_config);

    assert_eq!(proxy_name, "ip2-api");
    assert_eq!(summary.server_addr, "203.0.113.10");
    assert_eq!(summary.proxies.len(), 1);
    assert_eq!(summary.proxies[0].local_ip, "192.168.1.11");
    assert_eq!(summary.proxies[0].remote_port, Some(19000));
}

#[test]
fn quick_config_has_the_documented_layout() {
    let text = render_quick_config(&SaveQuickConfigRequest {
        server_addr: "a\"b\\c".to_string(),
        server_port: 7000,
        auth_method: "token".to_string(),
        auth_token: "t".to_string(),
        proxies: vec![proxy("web", "127.0.0.1", 80, 8080)],
    });
    assert_eq!(
        text,
        "serverAddr = \"a\\\"b\\\\c\"\nserverPort = 7000\n\nauth.method = \"token\"\nauth.token = \"t\"\n\n[[proxies]]\nname = \"web\"\ntype = \"tcp\"\nlocalIP = \"127.0.0.1\"\nlocalPort = 80\nremotePort = 8080\n\n"
    );
    assert_eq!(parse_config_summary(&text).server_addr, "a\"b\\c");
}

#[test]
fn escaping_doubles_backslashes_before_quotes() {
    assert_eq!(escape_toml_string("\\\""), "\\\\\\\"");
    assert_eq!(escape_toml_string("plain"), "plain");
    assert_eq!(escape_toml_string(""), "");
}

#[test]
fn every_entry_of_the_form_is_shown_in_the_summary() {
    let text = render_quick_config(&SaveQuickConfigRequest {
        server_addr: "frp.example.com".to_string(),
        server_port: 65535,
        auth_method: "oidc".to_string(),
        auth_token: "秘密\t\"quoted\"".to_string(),
        proxies: vec![proxy("一", "10.0.0.1", 0, 1), proxy("two", "10.0.0.2", 2, 3)],
    });
    let summary = parse_config_summary(&text);
    assert_eq!(summary.server_addr, "frp.example.com");
    assert_eq!(summary.server_port, Some(65535));
    assert_eq!(summary.auth_method, "oidc");
    assert_eq!(summary.auth_token, "秘密\t\"quoted\"");
    assert_eq!(summary.proxies.len(), 2);
    assert_eq!(summary.proxies[0].name, "一");
    assert_eq!(summary.proxies[0].proxy_type, "tcp");
    assert_eq!(summary.proxies[0].local_ip, "10.0.0.1");
    assert_eq!(summary.proxies[0].local_port, Some(0));
    assert_eq!(summary.proxies[1].remote_port, Some(3));
}

#[test]
fn a_form_without_proxies_has_none() {
    let text = render_quick_config(&SaveQuickConfigRequest {
        server_addr: "h".to_string(),
        server_port: 1,
        auth_method: "token".to_string(),
        auth_token: String::new(),
        proxies: Vec::new(),
    });
    assert!(validate_config_text(&text).is_ok());
    assert_eq!(parse_config_summary(&text).proxies.len(), 0);
}

#[test]
fn a_line_break_in_the_form_makes_no_document() {
    let text = render_quick_config(&SaveQuickConfigRequest {
        server_addr: "a\nb".to_string(),
        server_port: 1,
        auth_method: "token".to_string(),
        auth_token: String::new(),
        proxies: Vec::new(),
    });
    assert!(matches!(validate_config_text(&text), Err(AppError::InvalidToml)));
}

#[test]
fn a_summary_has_defaults_for_what_is_missing() {
    let summary = parse_config_summary("[[proxies]]\n[[proxies]]\nname = 3\n");
    assert_eq!(summary.server_addr, "");
    assert_eq!(summary.server_port, None);
    assert_eq!(summary.auth_method, "token");
    assert_eq!(summary.auth_token, "");
    assert_eq!(summary.proxies.len(), 2);
    assert_eq!(summary.proxies[0].name, "");
    assert_eq!(summary.proxies[0].proxy_type, "tcp");
    assert_eq!(summary.proxies[0].local_ip, "127.0.0.1");
    assert_eq!(summary.proxies[0].local_port, None);
    assert_eq!(summary.proxies[1].name, "");
}

#[test]
fn a_text_that_is_no_document_has_the_empty_summary() {
    let summary = parse_config_summary("= nonsense");
    assert_eq!(summary.server_addr, "");
    assert_eq!(summary.auth_method, "token");
    assert_eq!(summary.proxies.len(), 0);
}

#[test]
fn ports_keep_their_lowest_bits() {
    let summary = parse_config_summary("serverPort = 65537\n[[proxies]]\nlocalPort = -1\n");
    assert_eq!(summary.server_port, Some(1));
    assert_eq!(summary.proxies[0].local_port, Some(65535));
}

#[test]
fn entries_are_found_along_a_path() {
    let value: toml::Value = toml::from_str("a.b.c = \"x\"\na.n = 5\n").expect("a document");
    assert_eq!(get_string(&value, &["a", "b", "c"]), Some("x".to_string()));
    assert_eq!(get_integer(&value, &["a", "n"]), Some(5));
    assert_eq!(get_string(&value, &["a", "n"]), None);
    assert_eq!(get_integer(&value, &["a", "b", "c"]), None);
    assert_eq!(get_string(&value, &["a", "z"]), None);
    assert_eq!(summarize_config(&value).proxies.len(), 0);
}

#[test]
fn a_missing_proxy_is_reported_by_its_number() {
    let text = "serverAddr = \"h\"\n";
    match render_single_proxy_config(text, 2) {
        Err(AppError::ProxyNotFound(n)) => assert_eq!(n, 3),
        _ => panic!("there is no such proxy"),
    }
    match render_single_proxy_config(text, 0) {
        Err(e) => assert_eq!(e.message(), "找不到第 1 个代理配置"),
        Ok(_) => panic!("there is no such proxy"),
    }
    assert!(matches!(render_single_proxy_config("[", 0), Err(AppError::InvalidToml)));
}

#[test]
fn a_proxy_without_a_name_is_called_by_its_number() {
    let (text, name) =
        render_single_proxy_config("[[proxies]]\nx = 1\n[[proxies]]\ny = 2\n", 1).expect("a proxy");
    assert_eq!(name, "proxy-2");
    let value: toml::Value = toml::from_str(&text).expect("a document");
    let proxies = value.get("proxies").and_then(toml::Value::as_array).expect("an array");
    assert_eq!(proxies.len(), 1);
    assert_eq!(proxies[0].get("y").and_then(toml::Value::as_integer), Some(2));
}

#[test]
fn narrowing_keeps_the_other_entries() {
    let document: toml::Value =
        toml::from_str("user = \"u\"\n[log]\nlevel = \"info\"\n[[proxies]]\nname = \"a\"\n[[proxies]]\nname = \"b\"\n")
            .expect("a document");
    let (single, name) = select_proxy(document, 0).expect("a proxy");
    assert_eq!(name, "a");
    assert_eq!(get_string(&single, &["user"]), Some("u".to_string()));
    assert_eq!(get_string(&single, &["log", "level"]), Some("info".to_string()));
    assert_eq!(summarize_config(&single).proxies.len(), 1);
}

#[test]
fn a_narrowed_plain_document_reads_back_exactly() {
    let mut source = Source(13);
    for _ in 0..2000 {
        let mut table = match source.table(3) {
            toml::Value::Table(table) => table,
            _ => unreachable!(),
        };
        let proxies = vec![source.table(2), source.table(2)];
        table.insert("proxies".to_string(), toml::Value::Array(proxies.clone()));
        let whole = toml::to_string_pretty(&toml::Value::Table(table.clone())).expect("written");
        let (single, _) = render_single_proxy_config(&whole, 1).expect("a proxy");
        table.insert("proxies".to_string(), toml::Value::Array(vec![proxies[1].clone()]));
        let again: toml::Value = toml::from_str(&single).expect("a document");
        assert_eq!(again, toml::Value::Table(table));
    }
}

#[test]
fn the_default_configuration_is_the_bundled_one_or_a_form() {
    assert_eq!(default_config_text(Some("x = 1\n".to_string())), "x = 1\n");
    let text = default_config_text(None);
    let summary = parse_config_summary(&text);
    assert_eq!(summary.server_addr, "127.0.0.1");
    assert_eq!(summary.server_port, Some(7000));
    assert_eq!(summary.auth_method, "token");
    assert_eq!(summary.auth_token, "");
    assert_eq!(summary.proxies.len(), 1);
    assert_eq!(summary.proxies[0].name, "web");
    assert_eq!(summary.proxies[0].local_port, Some(8080));
    assert_eq!(summary.proxies[0].remote_port, Some(8080));
}

/// A generator of small documents that are hard to write.
struct Source(u64);

impl Source {
    fn below(&mut self, n: u64) -> u64 {
        self.0 = self.0.wrapping_mul(6364136223846793005).wrapping_add(1442695040888963407);
        (self.0 >> 33) % n
    }

    fn text(&mut self) -> String {
        let alphabet = [
            '\'', '"', '\\', '\n', '\r', '\t', '\0', '\u{7f}', '\u{1b}', 'a', ' ', '=', '#', '[', '.',
            '\u{85}', '\u{feff}', '中',
        ];
        (0..self.below(9)).map(|_| alphabet[self.below(alphabet.len() as u64) as usize]).collect()
    }

    fn number(&mut self) -> f64 {
        match self.below(8) {
            0 => f64::INFINITY,
            1 => f64::NEG_INFINITY,
            2 => -0.0,
            3 => f64::MAX,
            4 => f64::from_bits(self.below(100) + 1),
            5 => self.below(1000) as f64,
            _ => {
                let bits = (self.below(1 << 31) << 33) ^ (self.below(1 << 31) << 11) ^ self.below(1 << 11);
                let number = f64::from_bits(bits);
                if number.is_nan() { 0.1 } else { number }
            }
        }
    }

    fn date(&mut self) -> toml::value::Datetime {
        let dates = [
            "1979-05-27T07:32:00Z",
            "1979-05-27T00:32:00-07:00",
            "1979-05-27T00:32:00+00:00",
            "1979-05-27T00:32:00.999999",
            "2024-02-29 23:59:59.5",
            "0000-01-01",
            "9999-12-31",
            "00:00:00",
            "23:59:60.000000001",
        ];
        dates[self.below(dates.len() as u64) as usize].parse().expect("a date or time")
    }

    fn value(&mut self, depth: u64) -> toml::Value {
        match self.below(if depth == 0 { 5 } else { 7 }) {
            0 => toml::Value::String(self.text()),
            1 => toml::Value::Integer(match self.below(3) {
                0 => i64::MIN,
                1 => i64::MAX,
                _ => self.below(1000) as i64 - 500,
            }),
            2 => toml::Value::Boolean(self.below(2) == 0),
            3 => toml::Value::Float(self.number()),
            4 => toml::Value::Datetime(self.date()),
            5 => toml::Value::Array((0..self.below(4)).map(|_| self.value(depth - 1)).collect()),
            _ => self.table(depth - 1),
        }
    }

    fn table(&mut self, depth: u64) -> toml::Value {
        let mut table = toml::map::Map::new();
        for _ in 0..self.below(4) {
            table.insert(self.text(), self.value(depth));
        }
        toml::Value::Table(table)
    }
}

#[test]
fn plain_documents_are_read_back() {
    let mut source = Source(7);
    for round in 0..20000u64 {
        let document = source.table(round % 6);
        let text = toml::to_string_pretty(&document).expect("a plain document is written");
        let again: toml::Value = toml::from_str(&text).expect("and is a document");
        assert_eq!(again, document, "{text}");
        assert_eq!(format!("{again:?}"), format!("{document:?}"), "{text}");
    }
}

#[test]
fn dates_stand_alone_as_they_are_written() {
    let mut source = Source(3);
    for _ in 0..200 {
        let date = source.date();
        let alone: toml::Value = toml::from_str(&format!("d = {date}")).expect("a document");
        assert_eq!(alone.as_table().expect("a table").len(), 1);
        assert_eq!(alone["d"].as_datetime().expect("a date or time").to_string(), date.to_string());
    }
}

#[test]
fn a_narrowed_document_keeps_floats_and_dates() {
    let text = "rate = -0.0\nlimit = inf\nsince = 1979-05-27T07:32:00Z\n\n[[proxies]]\nname = \"one\"\nlocalPort = 1\nremotePort = 2\nload = 0.1\n";
    let (narrowed, _) = render_single_proxy_config(text, 0).expect("narrowed");
    let value: toml::Value = toml::from_str(&narrowed).expect("a document");
    assert_eq!(value["rate"].as_float().expect("a float").to_bits(), (-0.0f64).to_bits());
    assert_eq!(value["limit"].as_float(), Some(f64::INFINITY));
    assert_eq!(value["since"].to_string(), "1979-05-27T07:32:00Z");
    assert_eq!(value["proxies"][0]["load"].as_float(), Some(0.1));
}

#[test]
fn deep_documents_are_read_back() {
    let mut tables = toml::Value::Integer(1);
    let mut arrays = toml::Value::Integer(1);
    for level in 0..16 {
        let mut table = toml::map::Map::new();
        table.insert("k".to_string(), tables);
        tables = toml::Value::Table(table);
        if level < 15 {
            arrays = toml::Value::Array(vec![arrays]);
        }
    }
    let mut outer = toml::map::Map::new();
    outer.insert("k".to_string(), arrays);
    for document in [tables, toml::Value::Table(outer)] {
        let text = toml::to_string_pretty(&document).expect("written");
        assert_eq!(toml::from_str::<toml::Value>(&text).expect("read"), document);
    }
}

#[test]
fn printable_forms_are_read_as_they_were_entered() {
    let mut source = Source(11);
    for _ in 0..5000 {
        let mut texts = Vec::new();
        for _ in 0..9 {
            let text: String =
                source.text().chars().filter(|ch| *ch == '\t' || (*ch >= ' ' && *ch != '\u{7f}')).collect();
            texts.push(text);
        }
        let request = SaveQuickConfigRequest {
            server_addr: texts[0].clone(),
            server_port: source.below(65536) as u16,
            auth_method: texts[1].clone(),
            auth_token: texts[2].clone(),
            proxies: vec![
                QuickProxyRequest {
                    name: texts[3].clone(),
                    proxy_type: texts[4].clone(),
                    local_ip: texts[5].clone(),
                    local_port: source.below(65536) as u16,
                    remote_port: source.below(65536) as u16,
                },
                QuickProxyRequest {
                    name: texts[6].clone(),
                    proxy_type: texts[7].clone(),
                    local_ip: texts[8].clone(),
                    local_port: 0,
                    remote_port: 65535,
                },
            ],
        };
        let text = render_quick_config(&request);
        let value: toml::Value = toml::from_str(&text).expect("a document");
        assert_eq!(value.as_table().expect("a table").len(), 4);
        assert_eq!(value["auth"].as_table().expect("a table").len(), 2);
        assert_eq!(value["proxies"][0].as_table().expect("a table").len(), 5);
        let summary = parse_config_summary(&text);
        assert_eq!(summary.server_addr, request.server_addr);
        assert_eq!(summary.server_port, Some(request.server_port));
        assert_eq!(summary.auth_method, request.auth_method);
        assert_eq!(summary.auth_token, request.auth_token);
        for (shown, entered) in summary.proxies.iter().zip(&request.proxies) {
            assert_eq!(shown.name, entered.name);
            assert_eq!(shown.proxy_type, entered.proxy_type);
            assert_eq!(shown.local_ip, entered.local_ip);
            assert_eq!(shown.local_port, Some(entered.local_port));
            assert_eq!(shown.remote_port, Some(entered.remote_port));
        }
        let (_, name) = render_single_proxy_config(&text, 1).expect("a proxy");
        assert_eq!(name, request.proxies[1].name);
    }
}
