use rpm_version::{evr_compare, version_sortkey, EvrSortKey};

#[test]
fn from_values_orders_by_version() {
    let key_a = EvrSortKey::from_values("1", "2.0", "3.fc40");
    let key_b = EvrSortKey::from_values("1", "3.0", "1.fc40");
    assert!(key_a < key_b);
}

#[test]
fn parse_matches_from_values() {
    let key_a = EvrSortKey::from_values("1", "2.0", "3.fc40");
    let key_c = EvrSortKey::parse("1:2.0-3.fc40");
    assert_eq!(key_a, key_c);
}

#[test]
fn sorted_keys_follow_rpm_order() {
    let mut keys: Vec<(EvrSortKey, &str)> = ["2.0-1", "1:0.1-1", "1.0~rc1-1", "1.0-1"]
        .iter()
        .map(|s| (EvrSortKey::parse(s), *s))
        .collect();
    keys.sort();
    let order: Vec<&str> = keys.iter().map(|(_, s)| *s).collect();
    assert_eq!(order, vec!["1.0~rc1-1", "1.0-1", "2.0-1", "1:0.1-1"]);
}

#[test]
fn bytes_round_trip() {
    let key_a = EvrSortKey::from_values("1", "2.0", "3.fc40");
    let key_c = EvrSortKey::parse("1:2.0-3.fc40");
    let bytes: Vec<u8> = key_a.into();
    let restored = EvrSortKey::from(bytes);
    assert_eq!(key_c, restored);
}

#[test]
fn bytes_views_agree() {
    let key = EvrSortKey::parse("3:1.2-4");
    let bytes: Vec<u8> = key.clone().into();
    assert_eq!(bytes.as_slice(), key.as_bytes());
    assert_eq!(EvrSortKey::from(bytes), key);
    let as_ref: &[u8] = key.as_ref();
    assert_eq!(as_ref, key.as_bytes());
}

#[test]
fn documented_encoding_example() {
    let key = EvrSortKey::parse("2:1.0~rc1-3.fc40");
    let mut expected: Vec<u8> = vec![0, 0, 0, 2];
    // version "1.0~rc1"
    expected.extend_from_slice(&[0x05, 0x01, b'1', 0x00]);
    expected.extend_from_slice(&[0x05, 0x00, 0x00]);
    expected.push(0x01);
    expected.extend_from_slice(&[0x04, b'r', b'c', 0x00]);
    expected.extend_from_slice(&[0x05, 0x01, b'1', 0x00]);
    expected.push(0x02);
    // release "3.fc40"
    expected.extend_from_slice(&[0x05, 0x01, b'3', 0x00]);
    expected.extend_from_slice(&[0x04, b'f', b'c', 0x00]);
    expected.extend_from_slice(&[0x05, 0x02, b'4', b'0', 0x00]);
    expected.push(0x02);
    assert_eq!(key.as_bytes(), expected.as_slice());
}

#[test]
fn tilde_sorts_before_end() {
    assert!(version_sortkey("1.0~rc1") < version_sortkey("1.0"));
}

#[test]
fn empty_version_is_end_marker() {
    assert_eq!(version_sortkey(""), vec![0x02]);
    assert_eq!(version_sortkey("..--"), vec![0x02]);
}

#[test]
fn version_sortkey_segments() {
    assert_eq!(version_sortkey("0012a"), vec![0x05, 0x02, b'1', b'2', 0x00, 0x04, b'a', 0x00, 0x02]);
    assert_eq!(version_sortkey("000"), vec![0x05, 0x00, 0x00, 0x02]);
    assert_eq!(version_sortkey("^x"), vec![0x03, 0x04, b'x', 0x00, 0x02]);
    // non-ASCII characters separate segments
    assert_eq!(version_sortkey("1\u{e9}2"), version_sortkey("1.2"));
}

#[test]
fn long_number_count_bytes() {
    let digits: String = std::iter::repeat('9').take(256).collect();
    let key = version_sortkey(&digits);
    assert_eq!(&key[..4], &[0x05, 0xff, 0xff, 0x00]);
    assert_eq!(key.len(), 4 + 256 + 1 + 1);
}

#[test]
fn epoch_encoding() {
    assert_eq!(&EvrSortKey::from_values("", "", "").as_bytes()[..4], &[0, 0, 0, 0]);
    assert_eq!(&EvrSortKey::from_values("x", "", "").as_bytes()[..4], &[0, 0, 0, 0]);
    assert_eq!(&EvrSortKey::from_values("+258", "", "").as_bytes()[..4], &[0, 0, 1, 2]);
    assert_eq!(
        &EvrSortKey::from_values("4294967295", "", "").as_bytes()[..4],
        &[0xff, 0xff, 0xff, 0xff]
    );
    assert_eq!(&EvrSortKey::from_values("4294967296", "", "").as_bytes()[..4], &[0, 0, 0, 0]);
    assert_eq!(EvrSortKey::from_values("7", "", "").as_bytes(), &[0, 0, 0, 7, 2, 2]);
}

#[test]
fn higher_epoch_dominates() {
    assert!(EvrSortKey::parse("1:0.1-1") > EvrSortKey::parse("99.0-99"));
    assert!(EvrSortKey::parse("2:1.0-1") > EvrSortKey::parse("1:9.9-1"));
}

const SAMPLES: [&str; 40] = [
    "3:9.2.1-4.fc40",
    "1.0~rc1-1.el9",
    "2:3.14.159-2.6.el8",
    "0:1.0.0-1",
    "5.6.7-8.fc39",
    "1:0.99-100.el9",
    "2.0^git20230901-1.fc40",
    "1.0~alpha1-0.1",
    "10.0.0-1.el8",
    "1:2.0~beta3-2.fc39",
    "3.3.3-33.el9",
    "0:0.1-0.1.alpha",
    "2:1.0^post1-1",
    "4.0-1.fc40",
    "1.2.3-45.el9",
    "1:7.0~rc2-3.fc38",
    "99:0.0.1-1",
    "2.18.4-5.el9",
    "0:3.0^20240101-1",
    "1.0-1.fc40",
    "5:1.0~rc1^git1-1.el9",
    "12.0.0-1.fc39",
    "0:4.5.6-7.8.el8",
    "3:2.1.0-1.fc40",
    "1.99-2.el9",
    "0:1.0-1",
    "2:5.0~alpha-1.fc39",
    "8.0.1-3.el8",
    "1:3.2.1-1.fc40",
    "0:0.0.1~pre1-1",
    "6.6.6-6.el9",
    "2.0-1.fc40",
    "1.0",
    "1.0-",
    "1.a-1",
    "1.1-1",
    "1.01-1",
    "1_1-1",
    "a1-1",
    "",
];

#[test]
fn key_order_matches_evr_compare() {
    for a in SAMPLES.iter() {
        for b in SAMPLES.iter() {
            let by_key = EvrSortKey::parse(a).cmp(&EvrSortKey::parse(b));
            let expected = match evr_compare(a, b) {
                -1 => std::cmp::Ordering::Less,
                0 => std::cmp::Ordering::Equal,
                _ => std::cmp::Ordering::Greater,
            };
            assert_eq!(by_key, expected, "{a:?} vs {b:?}");
        }
    }
}

#[test]
fn evr_compare_is_a_total_order_on_samples() {
    for a in SAMPLES.iter() {
        assert_eq!(evr_compare(a, a), 0);
        for b in SAMPLES.iter() {
            let ab = evr_compare(a, b);
            assert!((-1..=1).contains(&ab));
            assert_eq!(evr_compare(b, a), -ab);
            for c in SAMPLES.iter() {
                if ab < 0 && evr_compare(b, c) < 0 {
                    assert!(evr_compare(a, c) < 0, "{a:?} {b:?} {c:?}");
                }
                if ab == 0 {
                    assert_eq!(evr_compare(a, c), evr_compare(b, c));
                }
            }
        }
    }
}

#[test]
fn long_numbers_keep_their_order() {
    let mut big = String::from("1");
    big.push_str(&"0".repeat(256));
    assert!(version_sortkey(&big) > version_sortkey("2"));
    assert_eq!(rpm_version::compare_versions(&big, "2"), 1);
    let n254 = "9".repeat(254);
    let n255 = "1".repeat(255);
    let n510 = "1".repeat(510);
    let n600 = "1".repeat(600);
    assert!(version_sortkey(&n254) < version_sortkey(&n255));
    assert!(version_sortkey(&n255) < version_sortkey(&n510));
    assert!(version_sortkey(&n510) < version_sortkey(&n600));
    assert_eq!(&version_sortkey(&n254)[..2], &[0x05, 254]);
    assert_eq!(&version_sortkey(&n255)[..3], &[0x05, 0xff, b'1']);
    assert_eq!(version_sortkey(&n255).len(), 2 + 255 + 1 + 1);
    assert_eq!(&version_sortkey(&n600)[..6], &[0x05, 0xff, 0xff, 0xff, 0xff, 88]);
    let n256 = "1".repeat(256);
    let n511 = "9".repeat(511);
    let n512 = "1".repeat(512);
    assert!(version_sortkey(&n255) < version_sortkey(&n256));
    assert!(version_sortkey(&n511) < version_sortkey(&n512));
}
