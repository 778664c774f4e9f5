use offline_license::adler32::adler32_checksum;
use offline_license::license_blacklist::LicenseBlacklist;
use offline_license::license_byte_check::LicenseByteCheck;
use offline_license::license_checksum::{Adler32, LicenseChecksum};
use offline_license::license_key::{LicenseKey, LicenseKeyProperties, LicenseKeyStatus};
use offline_license::license_magic::LicenseMagic;
use offline_license::license_operator::LicenseOperator;
use offline_license::license_properties::LicenseProperties;
use offline_license::license_serializer::{
    group_key, DefaultLicenseKeySerializer, LicenseKeySerializer,
};
use offline_license::LicenseError;

const SALT: [u8; 8] = [1, 2, 3, 4, 5, 6, 7, 8];

fn operator(
    key_size: usize,
    magic: Vec<Vec<u8>>,
) -> LicenseOperator<DefaultLicenseKeySerializer, Adler32> {
    LicenseOperator::new(
        LicenseProperties {
            key_size,
            magic_count: 0,
            magic_size: 0,
        },
        LicenseMagic::new(magic),
        DefaultLicenseKeySerializer {},
        LicenseChecksum::default(SALT),
        LicenseBlacklist::default(),
        LicenseByteCheck::default(),
    )
}

#[test]
fn adler32_plain_recurrence() {
    let r = adler32_checksum(b"abc", &[0; 8]).unwrap();
    assert_eq!(r, vec![0x02, 0x4A, 0x01, 0x26]);
}

#[test]
fn adler32_empty_data_keeps_initializer() {
    let r = adler32_checksum(b"", &[0, 0, 0, 1, 0, 0, 0, 0]).unwrap();
    assert_eq!(r, vec![0, 0, 0, 1]);
}

#[test]
fn adler32_large_initializer_reduces_modulo() {
    let r = adler32_checksum(&[1], &[0xFF, 0xFF, 0xFF, 0xFF, 0, 0, 0, 0]).unwrap();
    assert_eq!(r, vec![0x00, 0xE1, 0x00, 0xE1]);
}

#[test]
fn adler32_rejects_bad_initializer() {
    assert_eq!(
        adler32_checksum(b"abc", &[1, 2, 3, 4, 5, 6, 7]),
        Err(LicenseError::InvalidChecksumInit { count: 7 })
    );
    assert_eq!(
        adler32_checksum(b"abc", &[0; 9]),
        Err(LicenseError::InvalidChecksumInit { count: 9 })
    );
}

#[test]
fn adler32_salt_changes_checksum() {
    let a = adler32_checksum(b"same data", &[0, 0, 0, 1, 0, 0, 0, 0]).unwrap();
    let b = adler32_checksum(b"same data", &[0, 0, 0, 2, 0, 0, 0, 0]).unwrap();
    assert_ne!(a, b);
}

#[test]
fn checksum_generate_and_validate() {
    let c = LicenseChecksum::default([0; 8]);
    assert_eq!(c.generate(b"abc").unwrap(), vec![0x02, 0x4A, 0x01, 0x26]);
    assert!(c.validate(b"ab".to_vec(), b"c".to_vec(), vec![0x02, 0x4A, 0x01, 0x26]));
    assert!(!c.validate(b"ab".to_vec(), b"d".to_vec(), vec![0x02, 0x4A, 0x01, 0x26]));
    assert_eq!(*c.get_byte_size(), 4);
    assert_eq!(c.get_magic(), &vec![0; 8]);
}

#[test]
fn checksum_with_bad_salt_never_validates() {
    let c = LicenseChecksum::new(vec![1, 2, 3], 4, Adler32 {});
    assert_eq!(
        c.generate(b"abc"),
        Err(LicenseError::InvalidChecksumInit { count: 3 })
    );
    assert!(!c.validate(b"a".to_vec(), b"b".to_vec(), vec![0, 0, 0, 0]));
}

#[test]
fn default_hash_rules() {
    let s = DefaultLicenseKeySerializer {};
    assert_eq!(s.hash(&[1, 2, 3], &[]), 0);
    // even: add every seed byte
    assert_eq!(s.hash(&[1, 2, 3], &[2]), 6);
    // 3 and 7 multiply
    assert_eq!(s.hash(&[1, 2, 3], &[3]), 0);
    // odd: XOR, then multiply
    assert_eq!(s.hash(&[1, 2, 3], &[1, 3]), 3);
    assert_eq!(s.hash(&[10], &[5, 7, 2]), 45);
    // wrapping addition and multiplication
    assert_eq!(s.hash(&[200, 100], &[2]), 44);
    assert_eq!(s.hash(&[200], &[2, 7]), 120);
}

#[test]
fn serializer_hex_round_trip() {
    let s = DefaultLicenseKeySerializer {};
    assert_eq!(s.serialize_key(&[0xAB, 0x01, 0xFF]), "AB01FF");
    assert_eq!(s.serialize_key(&[]), "");
    assert_eq!(
        s.deserialize_key("AB01ff".to_string()),
        Some(vec![0xAB, 0x01, 0xFF])
    );
    assert_eq!(s.deserialize_key("ABC".to_string()), None);
    assert_eq!(s.deserialize_key("ZZ".to_string()), None);
    let raw = vec![0, 1, 2, 250, 251, 252];
    assert_eq!(s.deserialize_key(s.serialize_key(&raw)), Some(raw));
}

#[test]
fn magic_table_sizes() {
    let mut m = LicenseMagic::new(vec![vec![1, 2, 3], vec![4]]);
    assert_eq!(m.payload_size(), 4);
    m.push(vec![5, 6]);
    assert_eq!(m.payload_size(), 6);
    assert_eq!(m.get_magic().len(), 3);
    assert_eq!(LicenseMagic::default().payload_size(), 0);
}

#[test]
fn randomize_magic_shape() {
    let mut m = LicenseMagic::new(vec![vec![9]]);
    m.randomize_magic(4, 3);
    assert_eq!(m.get_magic().len(), 5);
    assert_eq!(m.get_magic()[0], vec![9]);
    for chunk in &m.get_magic()[1..] {
        assert_eq!(chunk.len(), 3);
    }
    assert_eq!(m.payload_size(), 13);
}

#[test]
fn blacklist_membership() {
    let mut b = LicenseBlacklist::new(vec![vec![1, 2]]);
    assert!(b.is_blacklisted(vec![1, 2]));
    assert!(!b.is_blacklisted(vec![1]));
    b.push(vec![3]);
    assert!(b.is_blacklisted(vec![3]));
    assert_eq!(b.get_blacklist(), &vec![vec![1, 2], vec![3]]);
    assert!(!LicenseBlacklist::default().is_blacklisted(vec![]));
}

#[test]
fn byte_check_construction() {
    let magic = LicenseMagic::new(vec![vec![2], vec![3]]);
    assert!(LicenseByteCheck::new(vec![0, 1], &magic).is_ok());
    assert_eq!(
        LicenseByteCheck::new(vec![0, 2], &magic).err(),
        Some(LicenseError::InvalidByteCheckPosition { magic_size: 2 })
    );
    let empty = LicenseMagic::default();
    assert!(LicenseByteCheck::new(vec![], &empty).is_ok());
}

#[test]
fn byte_check_validate() {
    let magic = LicenseMagic::new(vec![vec![2], vec![1]]);
    let s = DefaultLicenseKeySerializer {};
    let seed = [1, 2, 3];
    let check = LicenseByteCheck::new(vec![0, 1], &magic).unwrap();
    assert!(check.validate(&[6, 1], &s, &seed, &magic));
    assert!(!check.validate(&[6, 2], &s, &seed, &magic));
    assert!(!check.validate(&[6], &s, &seed, &magic));
    let beyond = LicenseByteCheck::default().push(5);
    assert!(!beyond.validate(&[6, 1], &s, &seed, &magic));
    assert!(LicenseByteCheck::default().validate(&[], &s, &seed, &magic));
}

#[test]
fn properties_size() {
    let p = LicenseKeyProperties {
        key_size: 9,
        payload_size: 1,
        checksum_size: 4,
    };
    assert_eq!(p.size(), 14);
    assert_eq!(LicenseKeyProperties::default().size(), 0);
}

#[test]
fn default_key_is_empty() {
    let k = LicenseKey::default();
    assert!(k.key.is_empty() && k.payload.is_empty() && k.checksum.is_empty());
    assert!(k.serialized_key.is_empty());
    assert_eq!(k.properties, LicenseKeyProperties::default());
    assert!(k.deserialize().is_ok());
}

#[test]
fn deserialize_too_short() {
    let k = LicenseKey::new(
        LicenseKeyProperties {
            key_size: 4,
            payload_size: 4,
            checksum_size: 4,
        },
        Vec::new(),
        Vec::new(),
        Vec::new(),
        vec![0; 11],
    );
    assert_eq!(k.deserialize(), Err(LicenseError::DeserializeTooShort));
    let op = LicenseOperator::default(1, 3, SALT);
    assert_eq!(op.validate_license_key(&k), LicenseKeyStatus::Invalid);
}

#[test]
fn deserialize_overflowing_properties() {
    let k = LicenseKey::new(
        LicenseKeyProperties {
            key_size: usize::MAX,
            payload_size: usize::MAX,
            checksum_size: 1,
        },
        Vec::new(),
        Vec::new(),
        Vec::new(),
        vec![0; 4],
    );
    assert_eq!(k.deserialize(), Err(LicenseError::DeserializeTooShort));
}

#[test]
fn deserialize_ignores_trailing_bytes() {
    let k = LicenseKey::new(
        LicenseKeyProperties {
            key_size: 1,
            payload_size: 1,
            checksum_size: 1,
        },
        Vec::new(),
        Vec::new(),
        Vec::new(),
        vec![1, 2, 3, 4],
    );
    let d = k.deserialize().unwrap();
    assert_eq!(d.key, vec![1]);
    assert_eq!(d.payload, vec![2]);
    assert_eq!(d.checksum, vec![3]);
    assert_eq!(d.serialized_key, vec![1, 2, 3, 4]);
}

#[test]
fn scenario_sample_email() {
    let op = LicenseOperator::default(1, 3, SALT);
    let k = op
        .generate_license_key("sample.name@sample.domain.com".as_bytes())
        .unwrap();
    // 16 - 4 checksum bytes - 3 magic bytes
    assert_eq!(k.key.len(), 9);
    assert_eq!(k.payload.len(), 1);
    assert_eq!(k.checksum.len(), 4);
    assert_eq!(k.serialized_key.len(), 14);
    assert_eq!(
        k.key,
        vec![0x71, 0xB0, 0xCF, 0x6A, 0xB7, 0xDC, 0xCE, 0x54, 0x2E]
    );
    assert_eq!(
        k.properties,
        LicenseKeyProperties {
            key_size: 9,
            payload_size: 1,
            checksum_size: 4
        }
    );
    assert_eq!(op.validate_license_key(&k), LicenseKeyStatus::Valid);
}

#[test]
fn generated_key_layout() {
    let op = LicenseOperator::new(
        LicenseProperties {
            key_size: 16,
            magic_count: 0,
            magic_size: 0,
        },
        LicenseMagic::default(),
        DefaultLicenseKeySerializer {},
        LicenseChecksum::default([0; 8]),
        LicenseBlacklist::default(),
        LicenseByteCheck::default(),
    );
    let k = op.generate_license_key(b"").unwrap();
    // the first twelve bytes of SHAKE256 over the empty input
    let key = vec![0x46, 0xB9, 0xDD, 0x2B, 0x0B, 0xA8, 0x8D, 0x13, 0x23, 0x3B, 0x3F, 0xEB];
    assert_eq!(k.key, key);
    assert!(k.payload.is_empty());
    assert_eq!(k.checksum, vec![0x20, 0xA3, 0x04, 0xE2]);
    let mut serialized = key.clone();
    serialized.extend([0x20, 0xA3, 0x04, 0xE2]);
    assert_eq!(k.serialized_key, serialized);
    assert_eq!(
        op.get_serialized_key(&k),
        "46B9DD2B0BA88D13233B3FEB20A304E2"
    );
}

#[test]
fn payload_follows_magic_order() {
    let op = operator(20, vec![vec![2], vec![1], vec![1, 3]]);
    let k = op.generate_license_key(b"seed").unwrap();
    let s = DefaultLicenseKeySerializer {};
    assert_eq!(k.key.len(), 20 - 4 - 4);
    assert_eq!(
        k.payload,
        vec![s.hash(&k.key, &[2]), 1, 3]
    );
}

#[test]
fn round_trip_many_seeds() {
    let op = operator(24, vec![vec![2, 5], vec![3], vec![7, 8, 1]]);
    for seed in [&b""[..], b"a", b"customer-42", b"sample.name@sample.domain.com"] {
        let k = op.generate_license_key(seed).unwrap();
        assert_eq!(op.validate_license_key(&k), LicenseKeyStatus::Valid);
    }
    let random = LicenseOperator::default(4, 2, SALT);
    let k = random.generate_license_key(b"x").unwrap_err();
    assert_eq!(k, LicenseError::KeyTooSmall { required: 20 });
}

#[test]
fn round_trip_with_byte_checks() {
    let magic = LicenseMagic::new(vec![vec![2], vec![4, 1], vec![9]]);
    let check = LicenseByteCheck::new(vec![0, 2], &magic).unwrap();
    let op = LicenseOperator::new(
        LicenseProperties {
            key_size: 20,
            magic_count: 0,
            magic_size: 0,
        },
        magic,
        DefaultLicenseKeySerializer {},
        LicenseChecksum::default(SALT),
        LicenseBlacklist::default(),
        check,
    );
    let k = op.generate_license_key(b"abc").unwrap();
    assert_eq!(op.validate_license_key(&k), LicenseKeyStatus::Valid);
}

#[test]
fn byte_check_outside_payload_is_invalid() {
    let magic = LicenseMagic::new(vec![vec![2]]);
    let op = LicenseOperator::new(
        LicenseProperties {
            key_size: 20,
            magic_count: 0,
            magic_size: 0,
        },
        magic,
        DefaultLicenseKeySerializer {},
        LicenseChecksum::default(SALT),
        LicenseBlacklist::default(),
        LicenseByteCheck::default().push(3),
    );
    let k = op.generate_license_key(b"abc").unwrap();
    assert_eq!(op.validate_license_key(&k), LicenseKeyStatus::Invalid);
}

#[test]
fn tampered_bytes_are_invalid() {
    let op = operator(16, vec![vec![2, 5, 6]]);
    let k = op.generate_license_key(b"tamper").unwrap();
    for i in 0..k.serialized_key.len() {
        for delta in [1u8, 0x80, 0xFF] {
            let mut t = k.clone();
            t.serialized_key[i] = t.serialized_key[i].wrapping_add(delta);
            assert_eq!(op.validate_license_key(&t), LicenseKeyStatus::Invalid);
        }
    }
}

#[test]
fn blacklisted_seed() {
    let mut op = LicenseOperator::default(1, 3, SALT);
    let seed = b"revoked@example.com";
    let other = b"kept@example.com";
    assert_eq!(
        op.validate_license_key(&op.generate_license_key(seed).unwrap()),
        LicenseKeyStatus::Valid
    );
    op.add_seed_to_blacklist(seed);
    let k = op.generate_license_key(seed).unwrap();
    assert_eq!(op.validate_license_key(&k), LicenseKeyStatus::Blacklisted);
    let o = op.generate_license_key(other).unwrap();
    assert_eq!(op.validate_license_key(&o), LicenseKeyStatus::Valid);
}

#[test]
fn corrupted_blacklisted_key_is_invalid() {
    let mut op = LicenseOperator::default(1, 3, SALT);
    op.add_seed_to_blacklist(b"gone");
    let mut k = op.generate_license_key(b"gone").unwrap();
    let last = k.serialized_key.len() - 1;
    k.serialized_key[last] ^= 1;
    assert_eq!(op.validate_license_key(&k), LicenseKeyStatus::Invalid);
}

#[test]
fn key_size_boundary() {
    // 8 seed bytes + 3 payload bytes + 4 checksum bytes
    let op = operator(15, vec![vec![1, 2, 3]]);
    assert_eq!(
        op.generate_license_key(b"x").unwrap_err(),
        LicenseError::KeyTooSmall { required: 15 }
    );
    let op = operator(16, vec![vec![1, 2, 3]]);
    assert!(op.generate_license_key(b"x").is_ok());
    let op = operator(0, vec![]);
    assert_eq!(
        op.generate_license_key(b"x").unwrap_err(),
        LicenseError::KeyTooSmall { required: 12 }
    );
}

#[test]
fn wide_checksum_raises_the_bound() {
    let build = |key_size: usize| {
        LicenseOperator::new(
            LicenseProperties {
                key_size,
                magic_count: 0,
                magic_size: 0,
            },
            LicenseMagic::new(vec![vec![1, 2, 3]]),
            DefaultLicenseKeySerializer {},
            LicenseChecksum::new(SALT.to_vec(), 6, Adler32 {}),
            LicenseBlacklist::default(),
            LicenseByteCheck::default(),
        )
    };
    assert_eq!(
        build(17).generate_license_key(b"x").unwrap_err(),
        LicenseError::KeyTooSmall { required: 17 }
    );
    let k = build(18).generate_license_key(b"x").unwrap();
    assert_eq!(k.key.len(), 9);
}

#[test]
fn bad_salt_fails_generation() {
    let op = LicenseOperator::new(
        LicenseProperties {
            key_size: 16,
            magic_count: 0,
            magic_size: 0,
        },
        LicenseMagic::default(),
        DefaultLicenseKeySerializer {},
        LicenseChecksum::new(vec![1, 2, 3, 4], 4, Adler32 {}),
        LicenseBlacklist::default(),
        LicenseByteCheck::default(),
    );
    assert_eq!(
        op.generate_license_key(b"x").unwrap_err(),
        LicenseError::InvalidChecksumInit { count: 4 }
    );
}

#[test]
fn blacklisting_with_small_key_changes_nothing() {
    let mut op = operator(10, vec![]);
    op.add_seed_to_blacklist(b"x");
    assert!(op.generate_license_key(b"x").is_err());
}

#[test]
fn grouping_pieces_and_remainder() {
    assert_eq!(group_key("ABCDEFGHIJ", 3), "ABC-DEF-GHI-J");
    assert_eq!(group_key("ABCDEF", 2), "ABC-DEF");
    assert_eq!(group_key("ABCDEF", 4), "A-B-C-D-EF");
    assert_eq!(group_key("ABCDEF", 1), "ABCDEF");
    assert_eq!(group_key("ABCDEF", 0), "ABCDEF");
    assert_eq!(group_key("ABCDEF", 7), "ABCDEF");
    assert_eq!(group_key("", 2), "");
}

#[test]
fn grouped_display_round_trip() {
    let s = DefaultLicenseKeySerializer {};
    let raw = vec![0xAB, 0xCD, 0xEF, 0x01, 0x23];
    assert_eq!(s.serialize_key_grouped(&raw, 2), "ABCDE-F0123");
    assert_eq!(s.serialize_key_grouped(&raw, 3), "ABC-DEF-012-3");
    for groups in 0..12 {
        let text = s.serialize_key_grouped(&raw, groups);
        assert_eq!(s.deserialize_key(text), Some(raw.clone()));
    }
    assert_eq!(
        s.deserialize_key("AB-CD-EF".to_string()),
        Some(vec![0xAB, 0xCD, 0xEF])
    );
    assert_eq!(s.deserialize_key("A-BC".to_string()), None);
}
