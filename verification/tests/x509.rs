//! Tests of the DER engine and the X.509 grammar, including an end-to-end
//! decode of a real self-signed certificate.

use x509_der::any::parse_der;
use x509_der::obj::{DerClass, DerContent, DerObject, ErrorKind, StrKind, TimeValue};
use x509_der::x509::{
    parse_algorithm_identifier, parse_signature_value, parse_tbs_certificate, parse_version,
    x509_parser, X509Certificate,
};

static IGCA_DER: &'static [u8] = &[
    0x30, 0x82, 0x04, 0x02, 0x30, 0x82, 0x02, 0xea, 0xa0, 0x03, 0x02, 0x01,
    0x02, 0x02, 0x05, 0x39, 0x11, 0x45, 0x10, 0x94, 0x30, 0x0d, 0x06, 0x09,
    0x2a, 0x86, 0x48, 0x86, 0xf7, 0x0d, 0x01, 0x01, 0x05, 0x05, 0x00, 0x30,
    0x81, 0x85, 0x31, 0x0b, 0x30, 0x09, 0x06, 0x03, 0x55, 0x04, 0x06, 0x13,
    0x02, 0x46, 0x52, 0x31, 0x0f, 0x30, 0x0d, 0x06, 0x03, 0x55, 0x04, 0x08,
    0x13, 0x06, 0x46, 0x72, 0x61, 0x6e, 0x63, 0x65, 0x31, 0x0e, 0x30, 0x0c,
    0x06, 0x03, 0x55, 0x04, 0x07, 0x13, 0x05, 0x50, 0x61, 0x72, 0x69, 0x73,
    0x31, 0x10, 0x30, 0x0e, 0x06, 0x03, 0x55, 0x04, 0x0a, 0x13, 0x07, 0x50,
    0x4d, 0x2f, 0x53, 0x47, 0x44, 0x4e, 0x31, 0x0e, 0x30, 0x0c, 0x06, 0x03,
    0x55, 0x04, 0x0b, 0x13, 0x05, 0x44, 0x43, 0x53, 0x53, 0x49, 0x31, 0x0e,
    0x30, 0x0c, 0x06, 0x03, 0x55, 0x04, 0x03, 0x13, 0x05, 0x49, 0x47, 0x43,
    0x2f, 0x41, 0x31, 0x23, 0x30, 0x21, 0x06, 0x09, 0x2a, 0x86, 0x48, 0x86,
    0xf7, 0x0d, 0x01, 0x09, 0x01, 0x16, 0x14, 0x69, 0x67, 0x63, 0x61, 0x40,
    0x73, 0x67, 0x64, 0x6e, 0x2e, 0x70, 0x6d, 0x2e, 0x67, 0x6f, 0x75, 0x76,
    0x2e, 0x66, 0x72, 0x30, 0x1e, 0x17, 0x0d, 0x30, 0x32, 0x31, 0x32, 0x31,
    0x33, 0x31, 0x34, 0x32, 0x39, 0x32, 0x33, 0x5a, 0x17, 0x0d, 0x32, 0x30,
    0x31, 0x30, 0x31, 0x37, 0x31, 0x34, 0x32, 0x39, 0x32, 0x32, 0x5a, 0x30,
    0x81, 0x85, 0x31, 0x0b, 0x30, 0x09, 0x06, 0x03, 0x55, 0x04, 0x06, 0x13,
    0x02, 0x46, 0x52, 0x31, 0x0f, 0x30, 0x0d, 0x06, 0x03, 0x55, 0x04, 0x08,
    0x13, 0x06, 0x46, 0x72, 0x61, 0x6e, 0x63, 0x65, 0x31, 0x0e, 0x30, 0x0c,
    0x06, 0x03, 0x55, 0x04, 0x07, 0x13, 0x05, 0x50, 0x61, 0x72, 0x69, 0x73,
    0x31, 0x10, 0x30, 0x0e, 0x06, 0x03, 0x55, 0x04, 0x0a, 0x13, 0x07, 0x50,
    0x4d, 0x2f, 0x53, 0x47, 0x44, 0x4e, 0x31, 0x0e, 0x30, 0x0c, 0x06, 0x03,
    0x55, 0x04, 0x0b, 0x13, 0x05, 0x44, 0x43, 0x53, 0x53, 0x49, 0x31, 0x0e,
    0x30, 0x0c, 0x06, 0x03, 0x55, 0x04, 0x03, 0x13, 0x05, 0x49, 0x47, 0x43,
    0x2f, 0x41, 0x31, 0x23, 0x30, 0x21, 0x06, 0x09, 0x2a, 0x86, 0x48, 0x86,
    0xf7, 0x0d, 0x01, 0x09, 0x01, 0x16, 0x14, 0x69, 0x67, 0x63, 0x61, 0x40,
    0x73, 0x67, 0x64, 0x6e, 0x2e, 0x70, 0x6d, 0x2e, 0x67, 0x6f, 0x75, 0x76,
    0x2e, 0x66, 0x72, 0x30, 0x82, 0x01, 0x22, 0x30, 0x0d, 0x06, 0x09, 0x2a,
    0x86, 0x48, 0x86, 0xf7, 0x0d, 0x01, 0x01, 0x01, 0x05, 0x00, 0x03, 0x82,
    0x01, 0x0f, 0x00, 0x30, 0x82, 0x01, 0x0a, 0x02, 0x82, 0x01, 0x01, 0x00,
    0xb2, 0x1f, 0xd1, 0xd0, 0x62, 0xc5, 0x33, 0x3b, 0xc0, 0x04, 0x86, 0x88,
    0xb3, 0xdc, 0xf8, 0x88, 0xf7, 0xfd, 0xdf, 0x43, 0xdf, 0x7a, 0x8d, 0x9a,
    0x49, 0x5c, 0xf6, 0x4e, 0xaa, 0xcc, 0x1c, 0xb9, 0xa1, 0xeb, 0x27, 0x89,
    0xf2, 0x46, 0xe9, 0x3b, 0x4a, 0x71, 0xd5, 0x1d, 0x8e, 0x2d, 0xcf, 0xe6,
    0xad, 0xab, 0x63, 0x50, 0xc7, 0x54, 0x0b, 0x6e, 0x12, 0xc9, 0x90, 0x36,
    0xc6, 0xd8, 0x2f, 0xda, 0x91, 0xaa, 0x68, 0xc5, 0x72, 0xfe, 0x17, 0x0a,
    0xb2, 0x17, 0x7e, 0x79, 0xb5, 0x32, 0x88, 0x70, 0xca, 0x70, 0xc0, 0x96,
    0x4a, 0x8e, 0xe4, 0x55, 0xcd, 0x1d, 0x27, 0x94, 0xbf, 0xce, 0x72, 0x2a,
    0xec, 0x5c, 0xf9, 0x73, 0x20, 0xfe, 0xbd, 0xf7, 0x2e, 0x89, 0x67, 0xb8,
    0xbb, 0x47, 0x73, 0x12, 0xf7, 0xd1, 0x35, 0x69, 0x3a, 0xf2, 0x0a, 0xb9,
    0xae, 0xff, 0x46, 0x42, 0x46, 0xa2, 0xbf, 0xa1, 0x85, 0x1a, 0xf9, 0xbf,
    0xe4, 0xff, 0x49, 0x85, 0xf7, 0xa3, 0x70, 0x86, 0x32, 0x1c, 0x5d, 0x9f,
    0x60, 0xf7, 0xa9, 0xad, 0xa5, 0xff, 0xcf, 0xd1, 0x34, 0xf9, 0x7d, 0x5b,
    0x17, 0xc6, 0xdc, 0xd6, 0x0e, 0x28, 0x6b, 0xc2, 0xdd, 0xf1, 0xf5, 0x33,
    0x68, 0x9d, 0x4e, 0xfc, 0x87, 0x7c, 0x36, 0x12, 0xd6, 0xa3, 0x80, 0xe8,
    0x43, 0x0d, 0x55, 0x61, 0x94, 0xea, 0x64, 0x37, 0x47, 0xea, 0x77, 0xca,
    0xd0, 0xb2, 0x58, 0x05, 0xc3, 0x5d, 0x7e, 0xb1, 0xa8, 0x46, 0x90, 0x31,
    0x56, 0xce, 0x70, 0x2a, 0x96, 0xb2, 0x30, 0xb8, 0x77, 0xe6, 0x79, 0xc0,
    0xbd, 0x29, 0x3b, 0xfd, 0x94, 0x77, 0x4c, 0xbd, 0x20, 0xcd, 0x41, 0x25,
    0xe0, 0x2e, 0xc7, 0x1b, 0xbb, 0xee, 0xa4, 0x04, 0x41, 0xd2, 0x5d, 0xad,
    0x12, 0x6a, 0x8a, 0x9b, 0x47, 0xfb, 0xc9, 0xdd, 0x46, 0x40, 0xe1, 0x9d,
    0x3c, 0x33, 0xd0, 0xb5, 0x02, 0x03, 0x01, 0x00, 0x01, 0xa3, 0x77, 0x30,
    0x75, 0x30, 0x0f, 0x06, 0x03, 0x55, 0x1d, 0x13, 0x01, 0x01, 0xff, 0x04,
    0x05, 0x30, 0x03, 0x01, 0x01, 0xff, 0x30, 0x0b, 0x06, 0x03, 0x55, 0x1d,
    0x0f, 0x04, 0x04, 0x03, 0x02, 0x01, 0x46, 0x30, 0x15, 0x06, 0x03, 0x55,
    0x1d, 0x20, 0x04, 0x0e, 0x30, 0x0c, 0x30, 0x0a, 0x06, 0x08, 0x2a, 0x81,
    0x7a, 0x01, 0x79, 0x01, 0x01, 0x01, 0x30, 0x1d, 0x06, 0x03, 0x55, 0x1d,
    0x0e, 0x04, 0x16, 0x04, 0x14, 0xa3, 0x05, 0x2f, 0x18, 0x60, 0x50, 0xc2,
    0x89, 0x0a, 0xdd, 0x2b, 0x21, 0x4f, 0xff, 0x8e, 0x4e, 0xa8, 0x30, 0x31,
    0x36, 0x30, 0x1f, 0x06, 0x03, 0x55, 0x1d, 0x23, 0x04, 0x18, 0x30, 0x16,
    0x80, 0x14, 0xa3, 0x05, 0x2f, 0x18, 0x60, 0x50, 0xc2, 0x89, 0x0a, 0xdd,
    0x2b, 0x21, 0x4f, 0xff, 0x8e, 0x4e, 0xa8, 0x30, 0x31, 0x36, 0x30, 0x0d,
    0x06, 0x09, 0x2a, 0x86, 0x48, 0x86, 0xf7, 0x0d, 0x01, 0x01, 0x05, 0x05,
    0x00, 0x03, 0x82, 0x01, 0x01, 0x00, 0x05, 0xdc, 0x26, 0xd8, 0xfa, 0x77,
    0x15, 0x44, 0x68, 0xfc, 0x2f, 0x66, 0x3a, 0x74, 0xe0, 0x5d, 0xe4, 0x29,
    0xff, 0x06, 0x07, 0x13, 0x84, 0x4a, 0xab, 0xcf, 0x6d, 0xa0, 0x1f, 0x51,
    0x94, 0xf8, 0x49, 0xcb, 0x74, 0x36, 0x14, 0xbc, 0x15, 0xdd, 0xdb, 0x89,
    0x2f, 0xdd, 0x8f, 0xa0, 0x5d, 0x7c, 0xf5, 0x12, 0xeb, 0x9f, 0x9e, 0x38,
    0xa4, 0x47, 0xcc, 0xb3, 0x96, 0xd9, 0xbe, 0x9c, 0x25, 0xab, 0x03, 0x7e,
    0x33, 0x0f, 0x95, 0x81, 0x0d, 0xfd, 0x16, 0xe0, 0x88, 0xbe, 0x37, 0xf0,
    0x6c, 0x5d, 0xd0, 0x31, 0x9b, 0x32, 0x2b, 0x5d, 0x17, 0x65, 0x93, 0x98,
    0x60, 0xbc, 0x6e, 0x8f, 0xb1, 0xa8, 0x3c, 0x1e, 0xd9, 0x1c, 0xf3, 0xa9,
    0x26, 0x42, 0xf9, 0x64, 0x1d, 0xc2, 0xe7, 0x92, 0xf6, 0xf4, 0x1e, 0x5a,
    0xaa, 0x19, 0x52, 0x5d, 0xaf, 0xe8, 0xa2, 0xf7, 0x60, 0xa0, 0xf6, 0x8d,
    0xf0, 0x89, 0xf5, 0x6e, 0xe0, 0x0a, 0x05, 0x01, 0x95, 0xc9, 0x8b, 0x20,
    0x0a, 0xba, 0x5a, 0xfc, 0x9a, 0x2c, 0x3c, 0xbd, 0xc3, 0xb7, 0xc9, 0x5d,
    0x78, 0x25, 0x05, 0x3f, 0x56, 0x14, 0x9b, 0x0c, 0xda, 0xfb, 0x3a, 0x48,
    0xfe, 0x97, 0x69, 0x5e, 0xca, 0x10, 0x86, 0xf7, 0x4e, 0x96, 0x04, 0x08,
    0x4d, 0xec, 0xb0, 0xbe, 0x5d, 0xdc, 0x3b, 0x8e, 0x4f, 0xc1, 0xfd, 0x9a,
    0x36, 0x34, 0x9a, 0x4c, 0x54, 0x7e, 0x17, 0x03, 0x48, 0x95, 0x08, 0x11,
    0x1c, 0x07, 0x6f, 0x85, 0x08, 0x7e, 0x5d, 0x4d, 0xc4, 0x9d, 0xdb, 0xfb,
    0xae, 0xce, 0xb2, 0xd1, 0xb3, 0xb8, 0x83, 0x6c, 0x1d, 0xb2, 0xb3, 0x79,
    0xf1, 0xd8, 0x70, 0x99, 0x7e, 0xf0, 0x13, 0x02, 0xce, 0x5e, 0xdd, 0x51,
    0xd3, 0xdf, 0x36, 0x81, 0xa1, 0x1b, 0x78, 0x2f, 0x71, 0xb3, 0xf1, 0x59,
    0x4c, 0x46, 0x18, 0x28, 0xab, 0x85, 0xd2, 0x60, 0x56, 0x5a,
];

#[test]
fn test_x509_parser() {
    let res = x509_parser(IGCA_DER);
    match res {
        Ok((cert, trailing)) => {
            assert_eq!(trailing, 0);
            println!("tbsCertificate: {:?}", cert.tbsCertificate.as_pretty(0, 2));
            println!("signatureAlgorithm: {:?}", cert.signatureAlgorithm.as_pretty(0, 2));
        },
        _ => panic!("x509 parsing failed: {:?}", res),
    }
}

fn children(o: &DerObject) -> &Vec<DerObject> {
    match &o.content {
        DerContent::Constructed(cs) => cs,
        other => panic!("expected constructed content, got {:?}", other),
    }
}

#[test]
fn test_version_field_is_two() {
    let (cert, _) = x509_parser(IGCA_DER).unwrap();
    let tbs = children(&cert.tbsCertificate);
    assert_eq!(tbs.len(), 10);
    let version = &tbs[0];
    assert_eq!(version.class, DerClass::ContextSpecific);
    assert_eq!(version.tag, 0);
    assert!(version.constructed);
    let inner = &children(version)[0];
    assert_eq!(inner.as_u64(), Some(2));
}

#[test]
fn test_fixture_field_order_and_absent_uids() {
    let (cert, _) = x509_parser(IGCA_DER).unwrap();
    // outer fields in declared order
    assert_eq!(cert.tbsCertificate.tag, 16);
    assert_eq!(cert.signatureAlgorithm.tag, 16);
    assert_eq!(cert.signatureValue.tag, 3);
    let tbs = children(&cert.tbsCertificate);
    // unique identifiers absent, extensions present
    assert_eq!(tbs[7].content, DerContent::Absent);
    assert_eq!(tbs[8].content, DerContent::Absent);
    assert_eq!(tbs[9].class, DerClass::ContextSpecific);
    assert_eq!(tbs[9].tag, 3);
}

#[test]
fn test_truncated_fixture() {
    let res = x509_parser(&IGCA_DER[..10]);
    match res {
        Err(e) => assert_eq!(e.kind, ErrorKind::TruncatedInput),
        Ok(_) => panic!("truncated input must not parse"),
    }
}

#[test]
fn test_corrupt_outer_length() {
    let mut bad = IGCA_DER.to_vec();
    bad[1] = 0xFF;
    let res = x509_parser(&bad);
    match res {
        Err(e) => assert!(
            e.kind == ErrorKind::InvalidLength || e.kind == ErrorKind::TruncatedInput,
            "unexpected kind {:?}",
            e.kind
        ),
        Ok(_) => panic!("corrupt length must not parse"),
    }
}

#[test]
fn test_trailing_bytes_reported() {
    let mut extended = IGCA_DER.to_vec();
    extended.push(0x00);
    extended.push(0x01);
    let (_, trailing) = x509_parser(&extended).unwrap();
    assert_eq!(trailing, 2);
}

#[test]
fn test_idempotent_reparse() {
    let (cert, trailing) = x509_parser(IGCA_DER).unwrap();
    let consumed = IGCA_DER.len() - trailing;
    let (cert2, trailing2) = x509_parser(&IGCA_DER[..consumed]).unwrap();
    assert_eq!(trailing2, 0);
    assert_eq!(cert.tbsCertificate, cert2.tbsCertificate);
    assert_eq!(cert.signatureAlgorithm, cert2.signatureAlgorithm);
    assert_eq!(cert.signatureValue, cert2.signatureValue);
}

#[test]
fn test_short_form_lengths() {
    for l in 0u8..=127 {
        let mut input = vec![0x04, l];
        for i in 0..l {
            input.push(i);
        }
        let (o, trailing) = parse_der(&input).unwrap();
        assert_eq!(trailing, 0);
        assert_eq!(o.length, l as usize);
        assert_eq!(o.tag, 4);
    }
}

#[test]
fn test_long_form_length_round_trip() {
    // 128 content bytes: minimal long form is 0x81 0x80
    let mut input = vec![0x04, 0x81, 0x80];
    input.extend(std::iter::repeat(0xAB).take(128));
    let (o, trailing) = parse_der(&input).unwrap();
    assert_eq!(trailing, 0);
    assert_eq!(o.length, 128);
    // 300 content bytes: minimal long form is 0x82 0x01 0x2C
    let mut input = vec![0x04, 0x82, 0x01, 0x2C];
    input.extend(std::iter::repeat(0xCD).take(300));
    let (o, trailing) = parse_der(&input).unwrap();
    assert_eq!(trailing, 0);
    assert_eq!(o.length, 300);
}

#[test]
fn test_non_minimal_length_rejected() {
    // value 127 written in long form
    let mut input = vec![0x04, 0x81, 0x7F];
    input.extend(std::iter::repeat(0x00).take(127));
    assert_eq!(parse_der(&input).unwrap_err().kind, ErrorKind::InvalidLength);
    // leading zero length octet
    let mut input = vec![0x04, 0x82, 0x00, 0xFF];
    input.extend(std::iter::repeat(0x00).take(255));
    assert_eq!(parse_der(&input).unwrap_err().kind, ErrorKind::InvalidLength);
}

#[test]
fn test_indefinite_length_rejected() {
    let input: Vec<u8> = vec![0x30, 0x80, 0x02, 0x01, 0x05, 0x00, 0x00];
    assert_eq!(parse_der(&input).unwrap_err().kind, ErrorKind::InvalidLength);
}

#[test]
fn test_oid_final_continuation_rejected() {
    // last arc byte 0x86 keeps its continuation bit set
    let input: Vec<u8> = vec![0x06, 0x03, 0x2A, 0x86, 0x86];
    assert_eq!(parse_der(&input).unwrap_err().kind, ErrorKind::InvalidEncoding);
}

#[test]
fn test_oid_arcs() {
    // 2.5.4.6 (id-at-countryName)
    let input: Vec<u8> = vec![0x06, 0x03, 0x55, 0x04, 0x06];
    let (o, _) = parse_der(&input).unwrap();
    assert_eq!(o.content, DerContent::Oid(vec![2, 5, 4, 6]));
    // 1.2.840.113549.1.1.5 (sha1WithRSAEncryption)
    let input: Vec<u8> = vec![0x06, 0x09, 0x2A, 0x86, 0x48, 0x86, 0xF7, 0x0D, 0x01, 0x01, 0x05];
    let (o, _) = parse_der(&input).unwrap();
    assert_eq!(o.content, DerContent::Oid(vec![1, 2, 840, 113549, 1, 1, 5]));
}

#[test]
fn test_boolean_canonical_only() {
    let (o, _) = parse_der(&[0x01, 0x01, 0xFF]).unwrap();
    assert_eq!(o.content, DerContent::Boolean(true));
    let (o, _) = parse_der(&[0x01, 0x01, 0x00]).unwrap();
    assert_eq!(o.content, DerContent::Boolean(false));
    assert_eq!(parse_der(&[0x01, 0x01, 0x01]).unwrap_err().kind, ErrorKind::InvalidEncoding);
    assert_eq!(parse_der(&[0x01, 0x02, 0x00, 0x00]).unwrap_err().kind, ErrorKind::InvalidEncoding);
}

#[test]
fn test_integer_minimality() {
    assert_eq!(parse_der(&[0x02, 0x00]).unwrap_err().kind, ErrorKind::InvalidEncoding);
    assert_eq!(
        parse_der(&[0x02, 0x02, 0x00, 0x7F]).unwrap_err().kind,
        ErrorKind::InvalidEncoding
    );
    assert_eq!(
        parse_der(&[0x02, 0x02, 0xFF, 0x80]).unwrap_err().kind,
        ErrorKind::InvalidEncoding
    );
    let (o, _) = parse_der(&[0x02, 0x02, 0x00, 0x80]).unwrap();
    assert_eq!(o.content, DerContent::Integer(vec![0x00, 0x80]));
    assert_eq!(o.as_u64(), Some(128));
    let (o, _) = parse_der(&[0x02, 0x01, 0x2A]).unwrap();
    assert_eq!(o.as_u64(), Some(42));
}

#[test]
fn test_bitstring_unused_bits() {
    assert_eq!(parse_der(&[0x03, 0x01, 0x08]).unwrap_err().kind, ErrorKind::InvalidEncoding);
    assert_eq!(parse_der(&[0x03, 0x01, 0x03]).unwrap_err().kind, ErrorKind::InvalidEncoding);
    assert_eq!(parse_der(&[0x03, 0x00]).unwrap_err().kind, ErrorKind::InvalidEncoding);
    let (o, _) = parse_der(&[0x03, 0x02, 0x03, 0xE8]).unwrap();
    assert_eq!(o.content, DerContent::BitString(3, vec![0xE8]));
}

#[test]
fn test_printable_string_charset() {
    let (o, _) = parse_der(&[0x13, 0x02, 0x46, 0x52]).unwrap();
    assert_eq!(o.content, DerContent::CharString(StrKind::Printable, vec![0x46, 0x52]));
    // '@' is outside the PrintableString set
    assert_eq!(
        parse_der(&[0x13, 0x02, 0x40, 0x41]).unwrap_err().kind,
        ErrorKind::InvalidEncoding
    );
}

#[test]
fn test_utctime_fields() {
    let mut input = vec![0x17, 0x0D];
    input.extend(b"021213142923Z");
    let (o, _) = parse_der(&input).unwrap();
    assert_eq!(
        o.content,
        DerContent::Time(TimeValue {
            generalized: false,
            year: 2002,
            month: 12,
            day: 13,
            hour: 14,
            minute: 29,
            second: 23,
            offset_minutes: 0,
        })
    );
    // two-digit years below 50 are 20xx, from 50 on 19xx
    let mut input = vec![0x17, 0x0D];
    input.extend(b"501017142922Z");
    let (o, _) = parse_der(&input).unwrap();
    match o.content {
        DerContent::Time(t) => assert_eq!(t.year, 1950),
        other => panic!("expected a time, got {:?}", other),
    }
}

#[test]
fn test_utctime_offset_and_rejections() {
    let mut input = vec![0x17, 0x11];
    input.extend(b"021213142923+0130");
    let (o, _) = parse_der(&input).unwrap();
    match o.content {
        DerContent::Time(t) => assert_eq!(t.offset_minutes, 90),
        other => panic!("expected a time, got {:?}", other),
    }
    // month 13 is out of range
    let mut input = vec![0x17, 0x0D];
    input.extend(b"021313142923Z");
    assert_eq!(parse_der(&input).unwrap_err().kind, ErrorKind::InvalidEncoding);
    // missing terminator
    let mut input = vec![0x17, 0x0D];
    input.extend(b"0212131429233");
    assert_eq!(parse_der(&input).unwrap_err().kind, ErrorKind::InvalidEncoding);
}

#[test]
fn test_generalizedtime_fields() {
    let mut input = vec![0x18, 0x0F];
    input.extend(b"20201017142922Z");
    let (o, _) = parse_der(&input).unwrap();
    assert_eq!(
        o.content,
        DerContent::Time(TimeValue {
            generalized: true,
            year: 2020,
            month: 10,
            day: 17,
            hour: 14,
            minute: 29,
            second: 22,
            offset_minutes: 0,
        })
    );
}

#[test]
fn test_algorithm_identifier_optional_params() {
    // SEQUENCE { OID 1.3.4 } without parameters: the OPTIONAL is absent and
    // the cursor is not advanced past the OID.
    let input: Vec<u8> = vec![0x30, 0x04, 0x06, 0x02, 0x2B, 0x04];
    let (o, trailing) = parse_algorithm_identifier(&input).unwrap();
    assert_eq!(trailing, 0);
    let cs = children(&o);
    assert_eq!(cs.len(), 2);
    assert_eq!(cs[0].content, DerContent::Oid(vec![1, 3, 4]));
    assert_eq!(cs[1].content, DerContent::Absent);
    // with NULL parameters the OPTIONAL is present
    let input: Vec<u8> = vec![0x30, 0x06, 0x06, 0x02, 0x2B, 0x04, 0x05, 0x00];
    let (o, _) = parse_algorithm_identifier(&input).unwrap();
    assert_eq!(children(&o)[1].content, DerContent::Null);
}

#[test]
fn test_parse_version_entry() {
    let input: Vec<u8> = vec![0xA0, 0x03, 0x02, 0x01, 0x02];
    let (o, trailing) = parse_version(&input).unwrap();
    assert_eq!(trailing, 0);
    assert_eq!(o.class, DerClass::ContextSpecific);
    assert_eq!(children(&o)[0].as_u64(), Some(2));
    // a second element inside the EXPLICIT wrapper is trailing data
    let input: Vec<u8> = vec![0xA0, 0x06, 0x02, 0x01, 0x02, 0x02, 0x01, 0x03];
    assert_eq!(parse_version(&input).unwrap_err().kind, ErrorKind::TrailingData);
}

#[test]
fn test_parse_tbs_certificate_entry() {
    // the TBSCertificate inside the fixture starts at offset 4
    let (o, _trailing) = parse_tbs_certificate(&IGCA_DER[4..]).unwrap();
    assert_eq!(children(&o).len(), 10);
}

#[test]
fn test_parse_signature_value_entry() {
    let input: Vec<u8> = vec![0x03, 0x02, 0x00, 0xA5];
    let (o, trailing) = parse_signature_value(&input).unwrap();
    assert_eq!(trailing, 0);
    assert_eq!(o.content, DerContent::BitString(0, vec![0xA5]));
    assert_eq!(
        parse_signature_value(&[0x04, 0x01, 0x00]).unwrap_err().kind,
        ErrorKind::UnexpectedTag
    );
}

#[test]
fn test_sequence_arity() {
    let v = vec![DerObject::absent(), DerObject::absent()];
    let err = X509Certificate::new(v).unwrap_err();
    assert_eq!(err.kind, ErrorKind::SequenceArity);
}

#[test]
fn test_depth_exceeded() {
    // 60 nested SEQUENCEs exceed the recursion bound of 50
    let mut input: Vec<u8> = vec![0x30, 0x00];
    for _ in 0..60 {
        let len = input.len() as u8;
        let mut outer = vec![0x30, len];
        outer.extend(&input);
        input = outer;
    }
    assert_eq!(parse_der(&input).unwrap_err().kind, ErrorKind::DepthExceeded);
}

#[test]
fn test_unexpected_tag_in_mandatory_position() {
    // an OCTET STRING where the certificate SEQUENCE must stand
    let input: Vec<u8> = vec![0x04, 0x01, 0x00];
    assert_eq!(x509_parser(&input).unwrap_err().kind, ErrorKind::UnexpectedTag);
}

#[test]
fn test_empty_input() {
    assert_eq!(x509_parser(&[]).unwrap_err().kind, ErrorKind::TruncatedInput);
    assert_eq!(parse_der(&[]).unwrap_err().kind, ErrorKind::TruncatedInput);
}

#[test]
fn test_as_pretty_renders_tree() {
    let input: Vec<u8> = vec![0x30, 0x03, 0x01, 0x01, 0xFF];
    let (o, _) = parse_der(&input).unwrap();
    assert_eq!(o.as_pretty(0, 2), "CONSTRUCTED\n  BOOLEAN\n");
    assert_eq!(o.as_pretty(1, 2), " CONSTRUCTED\n   BOOLEAN\n");
}
