use caramell::address::{
    address_payload, compare_addresses, is_zero_address, parse_address, zero_address,
    AddressOrder,
};
use caramell::text::{chars_of, decode_text, parse_decimal, push_decimal, split_chars, string_from_chars};

fn chars(s: &str) -> Vec<char> {
    s.chars().collect()
}

#[test]
fn decode_text_accepts_utf8_only() {
    assert_eq!(decode_text("héllo".as_bytes()), Some("héllo".to_string()));
    assert_eq!(decode_text(&[0x66, 0xff, 0x66]), None);
    assert_eq!(decode_text(&[]), Some(String::new()));
}

#[test]
fn split_keeps_empty_pieces() {
    let pieces = split_chars(&chars("a;b;;c"), ';');
    let texts: Vec<String> = pieces.iter().map(|p| p.iter().collect()).collect();
    assert_eq!(texts, vec!["a", "b", "", "c"]);
    let empty = split_chars(&[], ';');
    assert_eq!(empty, vec![Vec::<char>::new()]);
    let trailing = split_chars(&chars("x;"), ';');
    assert_eq!(trailing, vec![vec!['x'], vec![]]);
}

#[test]
fn decimal_numerals_read_as_str_parse() {
    for s in ["0", "12", "+12", "007", "65535", "65536", "", "+", "-1", "12x", " 1", "4294967295", "4294967296"] {
        let got16 = parse_decimal(&chars(s), 65535);
        let want16 = s.parse::<u16>().ok().map(|v| v as u64);
        assert_eq!(got16, want16, "u16 {:?}", s);
        let got32 = parse_decimal(&chars(s), 4294967295);
        let want32 = s.parse::<u32>().ok().map(|v| v as u64);
        assert_eq!(got32, want32, "u32 {:?}", s);
    }
}

#[test]
fn decimal_text_is_display() {
    for n in [0u64, 7, 10, 1883, 65535, 4294967295] {
        let mut s = String::from("p=");
        push_decimal(&mut s, n);
        assert_eq!(s, format!("p={}", n));
    }
}

#[test]
fn chars_and_strings() {
    assert_eq!(chars_of("aé;"), vec!['a', 'é', ';']);
    assert_eq!(string_from_chars(&['x', 'ÿ']), "xÿ");
}

#[test]
fn address_text_forms() {
    let hex = "00112233445566778899aabbccddeeff01020304";
    let want: [u8; 20] = [
        0x00, 0x11, 0x22, 0x33, 0x44, 0x55, 0x66, 0x77, 0x88, 0x99, 0xaa, 0xbb, 0xcc, 0xdd, 0xee,
        0xff, 0x01, 0x02, 0x03, 0x04,
    ];
    assert_eq!(parse_address(&format!("0x{}", hex)), Some(want));
    assert_eq!(parse_address(hex), Some(want));
    assert_eq!(parse_address(&hex.to_uppercase()), Some(want));
    assert_eq!(parse_address(&format!("0x 0011 2233\t4455\n66778899aabbccddeeff01020304 ")), Some(want));
    assert_eq!(parse_address(&format!("0X{}", hex)), None);
    assert_eq!(parse_address(&hex[1..]), None);
    assert_eq!(parse_address(&format!("{}0", hex)), None);
    assert_eq!(parse_address(&format!("{}g", hex)), None);
    assert_eq!(parse_address(""), None);
    assert_eq!(address_payload(&want), format!("0x{}", hex));
}

#[test]
fn address_text_round_trip() {
    for b in [0u8, 1, 0x7f, 0x80, 0xfe, 0xff] {
        let a = [b; 20];
        assert_eq!(parse_address(&address_payload(&a)), Some(a));
    }
}

#[test]
fn zero_and_order() {
    let z = zero_address();
    assert_eq!(z, [0u8; 20]);
    assert!(is_zero_address(&z));
    let mut one = [0u8; 20];
    one[19] = 1;
    assert!(!is_zero_address(&one));
    assert_eq!(compare_addresses(&z, &one), AddressOrder::Less);
    assert_eq!(compare_addresses(&one, &z), AddressOrder::Greater);
    assert_eq!(compare_addresses(&one, &one), AddressOrder::Equal);
    let mut big = [0u8; 20];
    big[0] = 1;
    assert_eq!(compare_addresses(&one, &big), AddressOrder::Less);
}
