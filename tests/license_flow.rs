use offline_license::adler32::adler32_checksum;
use offline_license::license_key::{LicenseKey, LicenseKeyProperties, LicenseKeyStatus};
use offline_license::license_operator::LicenseOperator;

// Example from the Adler-32 reference: "Wikipedia" with left = 1, right = 0.
#[test]
fn validate_adler32_checksum() {
    let checksum = adler32_checksum(
        &"Wikipedia".as_bytes().to_vec(),
        &Vec::from([0x00, 0x00, 0x00, 0x01, 0x00, 0x00, 0x00, 0x00]),
    );

    assert!(checksum.is_ok());
    assert_eq!(300286872_u32.to_be_bytes().to_vec(), checksum.unwrap())
}

#[test]
fn license_key_validate_deserialization() {
    let key: Vec<u8> = Vec::from([0x01, 0x02, 0x03, 0x04]);
    let payload: Vec<u8> = Vec::from([0x05, 0x06, 0x07, 0x08]);
    let checksum: Vec<u8> = Vec::from([0x09, 0x0A, 0x0B, 0x0C]);
    let properties: LicenseKeyProperties = LicenseKeyProperties {
        key_size: 4,
        payload_size: 4,
        checksum_size: 4,
    };

    let mut raw_key: Vec<u8> = Vec::new();
    raw_key.extend(key.clone());
    raw_key.extend(payload.clone());
    raw_key.extend(checksum.clone());
    let manual_license_key = LicenseKey {
        key: key.clone(),
        payload: payload.clone(),
        checksum: checksum.clone(),
        properties: properties.clone(),
        serialized_key: raw_key.clone(),
    };

    let license_key = LicenseKey::new(
        properties.clone(),
        Vec::new(),
        Vec::new(),
        Vec::new(),
        raw_key.clone(),
    )
    .deserialize();
    match license_key {
        Ok(valid) => {
            assert_eq!(valid, manual_license_key);
        }
        Err(_) => {
            assert!(false)
        }
    }
}

#[test]
fn validate_license_key_validation() {
    let user_email = "sample.name@sample.domain.com";

    let license_op = LicenseOperator::default(1, 3, [1, 2, 3, 4, 5, 6, 7, 8]);

    let license_key = license_op.generate_license_key(user_email.as_bytes());

    assert!(license_key.is_ok());

    assert_eq!(
        license_op.validate_license_key(&license_key.unwrap()),
        LicenseKeyStatus::Valid
    )
}
