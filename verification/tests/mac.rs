use virtnet::mac::{format_mac, generate_mac};

fn hex_value(c: char) -> u8 {
    match c {
        '0'..='9' => c as u8 - b'0',
        'a'..='f' => c as u8 - b'a' + 10,
        _ => panic!("not a lowercase hex digit: {c}"),
    }
}

#[test]
fn formats_octets_as_lowercase_hex() {
    assert_eq!(format_mac(&[0xaa, 0xbb, 0x0c, 0x01, 0x02, 0x03]), "aa:bb:0c:01:02:03");
    assert_eq!(format_mac(&[0, 0, 0, 0, 0, 0]), "00:00:00:00:00:00");
    assert_eq!(format_mac(&[0xff, 0xfe, 0x10, 0x9f, 0x00, 0x7a]), "ff:fe:10:9f:00:7a");
}

#[test]
fn generated_mac_is_unicast_and_locally_administered() {
    for _ in 0..50 {
        let mac = generate_mac();
        assert_eq!(mac.len(), 17);
        let chars: Vec<char> = mac.chars().collect();
        for (i, c) in chars.iter().enumerate() {
            if i % 3 == 2 {
                assert_eq!(*c, ':');
            } else {
                assert!(c.is_ascii_hexdigit() && !c.is_ascii_uppercase());
            }
        }
        let first = (hex_value(chars[0]) << 4) | hex_value(chars[1]);
        assert_eq!(first & 0x01, 0, "multicast bit must be cleared");
        assert_eq!(first & 0x02, 0x02, "locally-administered bit must be set");
    }
}
