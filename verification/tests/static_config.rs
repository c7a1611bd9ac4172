use proxy_registry::config::{char_is_space, parse_static_entries, StaticEntry};

fn entry(domain: &str, port: u16) -> StaticEntry {
    StaticEntry { domain: domain.to_string(), port }
}

#[test]
fn parses_pairs_in_order() {
    assert_eq!(
        parse_static_entries("a.com:2,b.com:3"),
        vec![entry("a.com", 2), entry("b.com", 3)]
    );
}

#[test]
fn empty_config_gives_nothing() {
    assert_eq!(parse_static_entries(""), Vec::new());
    assert_eq!(parse_static_entries("   "), Vec::new());
    assert_eq!(parse_static_entries(",,,"), Vec::new());
}

#[test]
fn pieces_are_trimmed_and_empty_ones_ignored() {
    assert_eq!(
        parse_static_entries("  a.com:80 , ,\tb.com:443\n,"),
        vec![entry("a.com", 80), entry("b.com", 443)]
    );
}

#[test]
fn malformed_entries_are_skipped() {
    assert_eq!(parse_static_entries("badentry"), Vec::new());
    assert_eq!(parse_static_entries("c.com:notaport"), Vec::new());
    assert_eq!(
        parse_static_entries("a.com:1,badentry,c.com:notaport,b.com:2"),
        vec![entry("a.com", 1), entry("b.com", 2)]
    );
}

#[test]
fn port_must_fit_in_sixteen_bits() {
    assert_eq!(parse_static_entries("a.com:65535"), vec![entry("a.com", 65535)]);
    assert_eq!(parse_static_entries("a.com:65536"), Vec::new());
    assert_eq!(parse_static_entries("a.com:70000"), Vec::new());
    assert_eq!(parse_static_entries("a.com:99999999999999999999999"), Vec::new());
    assert_eq!(parse_static_entries("a.com:0"), vec![entry("a.com", 0)]);
    assert_eq!(parse_static_entries("a.com:00080"), vec![entry("a.com", 80)]);
}

#[test]
fn port_text_is_digits_with_an_optional_plus() {
    assert_eq!(parse_static_entries("a.com:+80"), vec![entry("a.com", 80)]);
    assert_eq!(parse_static_entries("a.com:-80"), Vec::new());
    assert_eq!(parse_static_entries("a.com:+"), Vec::new());
    assert_eq!(parse_static_entries("a.com:++80"), Vec::new());
    assert_eq!(parse_static_entries("a.com:"), Vec::new());
    assert_eq!(parse_static_entries("a.com: 80"), Vec::new());
    assert_eq!(parse_static_entries("a.com:8o"), Vec::new());
    assert_eq!(parse_static_entries("a.com:80x"), Vec::new());
}

#[test]
fn the_first_colon_splits() {
    assert_eq!(parse_static_entries("a.com:b:80"), Vec::new());
    assert_eq!(parse_static_entries(":80"), vec![entry("", 80)]);
    assert_eq!(parse_static_entries("a.com :80"), vec![entry("a.com ", 80)]);
}

#[test]
fn agrees_with_std_on_each_piece() {
    let config = " x.org:1 ,y.org:+2,,z.org:65536,\u{3000}w.org:9\u{2009},q:1:2, :7,é.fr:12";
    let expected: Vec<StaticEntry> = config
        .split(',')
        .map(|s| s.trim())
        .filter(|s| !s.is_empty())
        .filter_map(|s| {
            let (domain, port) = s.split_once(':')?;
            let port = port.parse::<u16>().ok()?;
            Some(entry(domain, port))
        })
        .collect();
    assert_eq!(parse_static_entries(config), expected);
    assert_eq!(expected.len(), 5);
}

#[test]
fn white_space_is_what_std_calls_white_space() {
    let mut code: u32 = 0;
    while code <= 0x3100 {
        if let Some(c) = char::from_u32(code) {
            assert_eq!(char_is_space(c), c.is_whitespace());
        }
        code += 1;
    }
}
