use relay_builder::subdomain::{extract_subdomain, is_address};

#[test]
fn test_extract_subdomain_simple() {
    assert_eq!(extract_subdomain("oslo.hol.is", 2), Some("oslo".to_string()));
    assert_eq!(extract_subdomain("bergen.hol.is", 2), Some("bergen".to_string()));
}

#[test]
fn test_extract_subdomain_no_subdomain() {
    assert_eq!(extract_subdomain("hol.is", 2), None);
}

#[test]
fn test_extract_subdomain_multi_level_base() {
    assert_eq!(extract_subdomain("sub.example.co.uk", 3), Some("sub".to_string()));
    assert_eq!(extract_subdomain("another.sub.example.co.uk", 3), Some("another.sub".to_string()));
}

#[test]
fn test_extract_subdomain_localhost() {
    assert_eq!(extract_subdomain("localhost", 2), None);
    assert_eq!(extract_subdomain("localhost:8080", 2), None);
}

#[test]
fn test_extract_subdomain_ip_address() {
    assert_eq!(extract_subdomain("192.168.1.1", 2), None);
    assert_eq!(extract_subdomain("192.168.1.1:8080", 2), None);
}

#[test]
fn test_extract_subdomain_with_port() {
    assert_eq!(extract_subdomain("sub.example.com:8080", 2), Some("sub".to_string()));
    assert_eq!(extract_subdomain("example.com:8080", 2), None);
}

#[test]
fn four_numbers_with_a_large_one_are_no_address() {
    assert!(is_address("10.0.0.255"));
    assert!(!is_address("10.0.0.256"));
    assert!(!is_address("10.0.0"));
    assert_eq!(extract_subdomain("1.2.3.400", 2), Some("1.2".to_string()));
}
