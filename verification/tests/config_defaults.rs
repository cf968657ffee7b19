use http_server::config::{validate_port, Config, FastCgiConfig, StaticFilesConfig};

#[test]
fn defaults_match_the_documented_values() {
    let c: Config = Default::default();
    assert_eq!(c.port, 8000);
    assert_eq!(c.stat.webroot, "/etc/http-server/site");
    assert_eq!(c.stat.public_prefix, "/html");
    assert_eq!(c.fcgi.host, "localhost");
    assert_eq!(c.fcgi.port, 9000);

    let s: StaticFilesConfig = Default::default();
    assert_eq!(s.webroot, "/etc/http-server/site");
    let f: FastCgiConfig = Default::default();
    assert_eq!(f.port, 9000);
}

#[test]
fn ports_outside_the_16_bit_range_are_rejected() {
    assert_eq!(validate_port(8080), Some(8080));
    assert_eq!(validate_port(1), Some(1));
    assert_eq!(validate_port(65535), Some(65535));
    assert_eq!(validate_port(0), None);
    assert_eq!(validate_port(-1), None);
    assert_eq!(validate_port(65536), None);
}
