use nex_core::cbor_strict::{NexCborValidator, CborError};

#[test]
fn test_valid_structures() {
    assert_eq!(NexCborValidator::validate(&[0x00]), Ok(())); 
    assert_eq!(NexCborValidator::validate(&[0x18, 0x18]), Ok(())); 
    assert_eq!(NexCborValidator::validate(&[0x38, 0x18]), Ok(())); 
    assert_eq!(NexCborValidator::validate(&[0x40]), Ok(())); 
    assert_eq!(NexCborValidator::validate(&[0x60]), Ok(())); 
    assert_eq!(NexCborValidator::validate(&[0x80]), Ok(())); 
    assert_eq!(NexCborValidator::validate(&[0xA0]), Ok(())); 
}

#[test]
fn test_encoded_key_ordering() {
    // Correctly ordered:
    // 0x0a (10) < 0x18 0x64 (100) < 0x20 ("") < 0x61 0x7a ("z") < 0x62 0x61 0x61 ("aa")
    let correct = [
        0xA5,
        0x0A, 0x01,                   // 10: 1
        0x18, 0x64, 0x01,             // 100: 1
        0x20, 0x01,                   // b"": 1
        0x61, 0x7A, 0x01,             // "z": 1
        0x62, 0x61, 0x61, 0x01        // "aa": 1
    ];
    assert_eq!(NexCborValidator::validate(&correct), Ok(()));

    // Incorrectly ordered (length-first or arbitrary): "aa" before "z"
    let incorrect = [
        0xA5,
        0x0A, 0x01,
        0x18, 0x64, 0x01,
        0x20, 0x01,
        0x62, 0x61, 0x61, 0x01,       // "aa": 1
        0x61, 0x7A, 0x01              // "z": 1
    ];
    assert_eq!(NexCborValidator::validate(&incorrect), Err(CborError::NonCanonicalMapOrder));
}

#[test]
fn test_metamorphic_ordering() {
    // {1: 1, 2: 2, 3: 3}
    let abc = [0xA3, 0x01, 0x01, 0x02, 0x02, 0x03, 0x03];
    assert_eq!(NexCborValidator::validate(&abc), Ok(()));
    
    let acb = [0xA3, 0x01, 0x01, 0x03, 0x03, 0x02, 0x02];
    let bac = [0xA3, 0x02, 0x02, 0x01, 0x01, 0x03, 0x03];
    assert_eq!(NexCborValidator::validate(&acb), Err(CborError::NonCanonicalMapOrder));
    assert_eq!(NexCborValidator::validate(&bac), Err(CborError::NonCanonicalMapOrder));
}

#[test]
fn test_nested_duplicate_keys() {
    // { 1: { 1: A, 1: B } }
    let bytes = [
        0xA1, // map(1)
        0x01, // key 1
        0xA2, // map(2)
        0x01, 0x61, 0x41, // 1: "A"
        0x01, 0x61, 0x42, // 1: "B"
    ];
    assert_eq!(NexCborValidator::validate(&bytes), Err(CborError::DuplicateMapKey));
}

#[test]
fn test_simple_values() {
    assert_eq!(NexCborValidator::validate(&[0xF4]), Ok(())); // false
    assert_eq!(NexCborValidator::validate(&[0xF5]), Ok(())); // true
    assert_eq!(NexCborValidator::validate(&[0xF6]), Ok(())); // null
    assert_eq!(NexCborValidator::validate(&[0xF7]), Ok(())); // undefined
    assert_eq!(NexCborValidator::validate(&[0xF8, 0x20]), Ok(())); // extended simple value 32

    // Non-minimal simple value (e.g. 23 encoded as 0xF8 0x17)
    assert_eq!(NexCborValidator::validate(&[0xF8, 0x17]), Err(CborError::NonMinimalEncoding));

    // Break outside indefinite container
    assert_eq!(NexCborValidator::validate(&[0xFF]), Err(CborError::ForbiddenBreak));
}

#[test]
fn test_truncated_data() {
    assert_eq!(NexCborValidator::validate(&[0x82, 0x01]), Err(CborError::TruncatedData));
}

#[test]
fn test_trailing_bytes() {
    assert_eq!(NexCborValidator::validate(&[0x80, 0x00]), Err(CborError::TrailingBytes));
}

#[test]
fn test_nested_forbidden() {
    // array containing a float
    let bytes = [0x81, 0xFA, 0x00, 0x00, 0x00, 0x00];
    assert_eq!(NexCborValidator::validate(&bytes), Err(CborError::ForbiddenFloat));
}

#[test]
fn test_resource_limits() {
    // Test MAX_TOTAL_BYTES
    let huge_bytes = vec![0x00; 16_777_217]; // 1 byte over 16MB
    assert_eq!(NexCborValidator::validate(&huge_bytes), Err(CborError::ResourceExhaustion));

    // Test MAX_DEPTH
    // 65 nested arrays = 65 bytes of 0x81 (array of 1), followed by 0x00
    let mut deep = vec![0x81; 65];
    deep.push(0x00);
    assert_eq!(NexCborValidator::validate(&deep), Err(CborError::ResourceExhaustion));

    let mut safe_deep = vec![0x81; 64];
    safe_deep.push(0x00);
    assert_eq!(NexCborValidator::validate(&safe_deep), Ok(()));

    // Test MAX_CONTAINER_ITEMS
    // Array of 65537 items (requires 4-byte length)
    // 0x9A 0x00 0x01 0x00 0x01 = Array of length 65537
    let mut large_array = vec![0x9A, 0x00, 0x01, 0x00, 0x01];
    large_array.extend(vec![0x00; 65537]); // Fill with 0s
    assert_eq!(NexCborValidator::validate(&large_array), Err(CborError::ResourceExhaustion));
}
