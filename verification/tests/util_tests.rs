use aid::bitsexpr::{get_precedence, BinOp};
use aid::eval::evaluate_condition;
use aid::ast::Condition;
use aid::like::like_matches;
use aid::netpkt::{build_icmp_packet, checksum};
use aid::numbers::{parse_dec, parse_i32, parse_u64, render_scaled18, Dec};
use aid::strings::{join_with_commas, str_eq, str_le};
use aid::sysfmt::{format_bytes, format_memory};
use aid::timespan::parse_duration;

#[test]
fn integer_parsing_matches_std() {
    for s in ["0", "42", "-42", "+7", "2147483647", "-2147483648"] {
        assert_eq!(parse_i32(s), s.parse::<i32>().ok(), "on {:?}", s);
    }
    for s in ["", "x", "4 2", "2147483648", "-2147483649", "--1", "1.0"] {
        assert_eq!(parse_i32(s), None, "on {:?}", s);
    }
    assert_eq!(parse_u64("18446744073709551615"), Some(u64::MAX));
    assert_eq!(parse_u64("18446744073709551616"), None);
    assert_eq!(parse_u64("+3"), Some(3));
    assert_eq!(parse_u64("-3"), None);
}

#[test]
fn decimal_parsing_and_rendering() {
    assert_eq!(
        parse_dec("1.5"),
        Some(Dec {
            neg: false,
            mant: 15,
            scale: 1
        })
    );
    assert_eq!(
        parse_dec("-0.25"),
        Some(Dec {
            neg: true,
            mant: 25,
            scale: 2
        })
    );
    assert_eq!(parse_dec("10"), Some(Dec { neg: false, mant: 10, scale: 0 }));
    assert_eq!(parse_dec(""), None);
    assert_eq!(parse_dec("."), None);
    assert_eq!(parse_dec("1.2.3"), None);
    assert_eq!(parse_dec("1e5"), None);
    assert_eq!(parse_dec("bad"), None);
    let one_and_half = 1_500_000_000_000_000_000i128;
    assert_eq!(render_scaled18(one_and_half), "1.5");
    assert_eq!(render_scaled18(4 * 1_000_000_000_000_000_000i128), "4");
    assert_eq!(render_scaled18(-one_and_half / 3), "-0.5");
    assert_eq!(render_scaled18(0), "0");
}

#[test]
fn string_order_is_lexicographic() {
    assert!(str_le("abc", "abd"));
    assert!(str_le("ab", "abc"));
    assert!(!str_le("b", "abc"));
    assert!(str_le("10", "9"));
    assert!(str_eq("same", "same"));
    assert!(!str_eq("same", "Same"));
}

#[test]
fn comma_join() {
    let vs: Vec<String> = vec!["a".into(), "b".into(), "c".into()];
    assert_eq!(join_with_commas(&vs), "a,b,c");
    let empty: Vec<String> = vec![];
    assert_eq!(join_with_commas(&empty), "");
}

#[test]
fn like_wildcards() {
    assert!(like_matches("foo%", "football"));
    assert!(like_matches("foo%", "foo"));
    assert!(!like_matches("foo%", "afoo"));
    assert!(like_matches("%foo", "afoo"));
    assert!(!like_matches("%foo", "foob"));
    assert!(like_matches("%foo%", "a foo b"));
    assert!(like_matches("a%b%c", "a-x-b-y-c"));
    assert!(!like_matches("abc", "abd"));
    assert!(like_matches("%", ""));
    assert!(!like_matches("", "x"));
}

#[test]
fn evaluator_is_pure_and_lenient() {
    let headers: Vec<String> = vec!["Year".into()];
    let row: Vec<String> = vec!["2010".into()];
    let gt = Condition::GreaterThan("Year".into(), 2000);
    assert!(evaluate_condition(&gt, &row, &headers));
    assert!(evaluate_condition(&gt, &row, &headers));
    let missing = Condition::GreaterThan("Other".into(), 2000);
    assert!(!evaluate_condition(&missing, &row, &headers));
    let bad_row: Vec<String> = vec!["n/a".into()];
    assert!(!evaluate_condition(&gt, &bad_row, &headers));
    let gt_again = Condition::GreaterThan("Year".into(), 2000);
    let double_not = Condition::Not(Box::new(Condition::Not(Box::new(gt_again))));
    assert_eq!(
        evaluate_condition(&double_not, &row, &headers),
        evaluate_condition(&gt, &row, &headers)
    );
}

#[test]
fn precedence_levels() {
    assert_eq!(get_precedence(&BinOp::Shl), 3);
    assert_eq!(get_precedence(&BinOp::Shr), 3);
    assert_eq!(get_precedence(&BinOp::And), 2);
    assert_eq!(get_precedence(&BinOp::Xor), 1);
    assert_eq!(get_precedence(&BinOp::Or), 0);
}

#[test]
fn icmp_packet_layout_and_checksum() {
    let packet = build_icmp_packet(1);
    assert_eq!(packet.len(), 8);
    assert_eq!(packet[0], 8);
    assert_eq!(packet[1], 0);
    assert_eq!(packet[4], 0);
    assert_eq!(packet[5], 1);
    assert_eq!(packet[6], 0);
    assert_eq!(packet[7], 1);
    // A packet with its checksum filled in sums to 0xFFFF.
    assert_eq!(checksum(&packet), 0);
    let seq = 0x1234u16;
    let p2 = build_icmp_packet(seq);
    assert_eq!(p2[4], 0x12);
    assert_eq!(p2[5], 0x34);
    assert_eq!(p2[7], 0x34);
    assert_eq!(checksum(&p2), 0);
}

#[test]
fn checksum_of_simple_words() {
    assert_eq!(checksum(&[]), 0xFFFF);
    assert_eq!(checksum(&[0x00, 0x01]), 0xFFFE);
    assert_eq!(checksum(&[0xFF, 0xFF]), 0x0000);
    // An odd byte counts as the high half of a word.
    assert_eq!(checksum(&[0x01]), 0xFEFF);
    // End-around carry folds back into the low bits.
    assert_eq!(checksum(&[0xFF, 0xFF, 0x00, 0x01]), 0xFFFE);
}

#[test]
fn byte_rate_formatting() {
    assert_eq!(format_bytes(512), "512 B/s");
    assert_eq!(format_bytes(1024), "1.00 kB/s");
    assert_eq!(format_bytes(1536), "1.50 kB/s");
    assert_eq!(format_bytes(5 * 1024 * 1024), "5.00 MB/s");
    assert_eq!(format_bytes(3 * 1024 * 1024 * 1024 / 2), "1.50 GB/s");
}

#[test]
fn memory_formatting() {
    assert_eq!(format_memory(100), "100 B");
    assert_eq!(format_memory(2048), "2 kB");
    assert_eq!(format_memory(3 * 1024 * 1024), "3 MB");
    assert_eq!(format_memory(7 * 1024 * 1024 * 1024), "7 GB");
}

#[test]
fn duration_parsing() {
    assert_eq!(parse_duration("90"), Some(90));
    assert_eq!(parse_duration("2:30"), Some(150));
    assert_eq!(parse_duration("0:05"), Some(5));
    assert_eq!(parse_duration("1:xx"), None);
    assert_eq!(parse_duration("xx:10"), None);
    assert_eq!(parse_duration("ten"), None);
    assert_eq!(parse_duration(""), None);
    assert_eq!(parse_duration("10:"), None);
}
