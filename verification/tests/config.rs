use yap::config::{fallback_port, parse_u16, requested_name, requested_port, DEFAULT_PORT};

#[test]
fn parse_u16_matches_std() {
    let samples = [
        "", "+", "-", "-0", "0", "+0", "7331", "+7331", "65535", "65536", "99999", "00001",
        " 1", "1 ", "1a", "١", "4294967296", "++1", "+-1",
    ];
    for sample in samples {
        assert_eq!(parse_u16(sample), sample.parse::<u16>().ok(), "{sample:?}");
    }
    for n in (0u32..70000).step_by(7) {
        let text = n.to_string();
        assert_eq!(parse_u16(&text), text.parse::<u16>().ok(), "{text}");
    }
}

#[test]
fn requested_port_defaults() {
    assert_eq!(DEFAULT_PORT, 7331);
    assert_eq!(requested_port(None), 7331);
    assert_eq!(requested_port(Some("8000")), 8000);
    assert_eq!(requested_port(Some("0")), 0);
    assert_eq!(requested_port(Some("eighty")), 7331);
    assert_eq!(requested_port(Some("70000")), 7331);
}

#[test]
fn requested_name_and_fallback_port() {
    assert_eq!(requested_name(None), "Blyth");
    assert_eq!(requested_name(Some("zed")), "zed");
    assert_eq!(fallback_port(7331), Some(0));
    assert_eq!(fallback_port(0), None);
}
