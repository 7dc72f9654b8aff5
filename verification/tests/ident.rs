use ringstore::easyhash::{EasyHash, Hex};
use ringstore::ident::{
    clone_texts, compare_ids, find_separator, gen_id, ip_from_id, ips_from_ids, is_valid_id,
    push_decimal, same_text, Rank,
};

#[test]
fn ids_compare_like_strings() {
    let samples = [
        "", "a", "ab", "b", "10.0.0.1:9000|5", "10.0.0.1:9000|10", "10.0.0.2:9000|1", "é", "z",
        "10.0.0.10:9000|1", "\u{10000}", "\u{ffff}",
    ];
    for a in samples.iter() {
        for b in samples.iter() {
            let expected = match a.cmp(b) {
                std::cmp::Ordering::Less => Rank::Before,
                std::cmp::Ordering::Equal => Rank::Same,
                std::cmp::Ordering::Greater => Rank::After,
            };
            assert_eq!(compare_ids(a, b), expected, "{:?} against {:?}", a, b);
            assert_eq!(same_text(a, b), a == b);
        }
    }
}

#[test]
fn shorter_prefix_comes_first() {
    assert_eq!(compare_ids("10.0.0.1:9000|1", "10.0.0.1:9000|10"), Rank::Before);
    assert_eq!(compare_ids("10.0.0.1:9000|10", "10.0.0.1:9000|1"), Rank::After);
    assert_eq!(compare_ids("10.0.0.1:9000|9", "10.0.0.1:9000|10"), Rank::After);
}

#[test]
fn address_is_what_stands_before_the_first_separator() {
    assert_eq!(ip_from_id(&"10.0.0.1:9000|1599".to_string()), "10.0.0.1:9000");
    assert_eq!(ip_from_id(&"a|b|c".to_string()), "a");
    assert_eq!(ip_from_id(&"|b".to_string()), "");
    assert_eq!(ip_from_id(&"é:1|7".to_string()), "é:1");
    assert_eq!(
        ips_from_ids(&vec!["x:1|2".to_string(), "y:3|4".to_string()]),
        vec!["x:1".to_string(), "y:3".to_string()]
    );
    assert_eq!(ips_from_ids(&vec![]), Vec::<String>::new());
}

#[test]
fn validity_is_having_a_separator() {
    assert!(is_valid_id("a|1"));
    assert!(is_valid_id("|"));
    assert!(!is_valid_id(""));
    assert!(!is_valid_id("10.0.0.1:9000"));
    assert_eq!(find_separator("ab|c|d"), Some(2));
    assert_eq!(find_separator("éé|c"), Some(2));
    assert_eq!(find_separator("abc"), None);
}

#[test]
fn generated_id_is_address_separator_second() {
    assert_eq!(gen_id(&"10.0.0.1:9000".to_string(), 1599000000), "10.0.0.1:9000|1599000000");
    assert_eq!(gen_id(&"h:1".to_string(), 0), "h:1|0");
    assert_eq!(gen_id(&"h:1".to_string(), u64::MAX), "h:1|18446744073709551615");
    let id = gen_id(&"10.0.0.1:9000".to_string(), 42);
    assert!(is_valid_id(&id));
    assert_eq!(ip_from_id(&id), "10.0.0.1:9000");
}

#[test]
fn decimal_numerals() {
    for n in [0u64, 7, 9, 10, 11, 99, 100, 101, 1234567890, u64::MAX] {
        let mut out = String::from("n=");
        push_decimal(&mut out, n);
        assert_eq!(out, format!("n={}", n));
    }
}

#[test]
fn copies_keep_order_and_content() {
    let list = vec!["b".to_string(), "a".to_string(), "b".to_string()];
    assert_eq!(clone_texts(&list), list);
}

#[test]
fn hash_is_fnv1a_of_the_bytes() {
    assert_eq!("".easyhash(), 14695981039346656037);
    assert_eq!("a".easyhash(), 12638187200555641996);
    assert_eq!("f1".easyhash(), 619397813985486904);
    assert_eq!("notes.txt".easyhash(), 8777129108885940044);
    assert_eq!("hello".to_string().easyhash(), 11831194018420276491);
    assert_ne!("f1".easyhash(), "f2".easyhash());
}

#[test]
fn upper_case_hexadecimal() {
    for n in [0u64, 9, 10, 15, 16, 255, 256, 0xDEADBEEF, u64::MAX] {
        assert_eq!(n.hex(), format!("{:X}", n));
    }
}
