use emberplus::oid::{join, RelativeOid};

#[test]
fn relative_oid_is_encoded_correctly() {
    let oid = RelativeOid(vec![1, 2, 3]);
    let encoded = oid.to_ber();
    let expected = vec![0x0d, 0x03, 0x01, 0x02, 0x03];
    assert_eq!(expected, encoded);
}

#[test]
fn big_relative_oid_is_encoded_correctly() {
    let oid = RelativeOid(vec![16383]);
    let encoded = oid.to_ber();
    let expected = vec![0x0d, 0x02, 0xff, 0x7f];
    assert_eq!(expected, encoded);
}

#[test]
fn relative_oid_is_decoded_correctly() {
    let decoded = RelativeOid::from_ber(&[0x0d, 0x03, 0x01, 0x02, 0x03]).unwrap();
    assert_eq!(RelativeOid(vec![1, 2, 3]), decoded);
}

#[test]
fn base128_continuation_is_decoded_correctly() {
    // 0xFF carries the continuation bit: 0x7F * 128 + 0x7F == 16383
    let decoded = RelativeOid::from_ber(&[0x0d, 0x02, 0xff, 0x7f]).unwrap();
    assert_eq!(RelativeOid(vec![16383]), decoded);
}

#[test]
fn arc_boundary_values_round_trip() {
    for arc in [0u32, 127, 128, 16383, 2147483647] {
        let oid = RelativeOid(vec![arc]);
        let bytes = oid.to_base128();
        let back = RelativeOid::from_base128(&bytes).unwrap();
        assert_eq!(oid, back, "arc {} did not round-trip", arc);
    }
    let all = RelativeOid(vec![0, 127, 128, 16383, 2147483647, u32::MAX]);
    let back = RelativeOid::from_base128(&all.to_base128()).unwrap();
    assert_eq!(all, back);
}

#[test]
fn unterminated_arc_is_an_error() {
    assert!(RelativeOid::from_base128(&[0x81]).is_err());
    assert!(RelativeOid::from_ber(&[0x0d, 0x01, 0x81]).is_err());
}

#[test]
fn parent_of_join_is_the_original() {
    let p = RelativeOid(vec![1, 2]);
    let child = join(&p, 7);
    assert_eq!(RelativeOid(vec![1, 2, 7]), child);
    assert_eq!(p, child.parent());
}

#[test]
fn root_is_its_own_parent() {
    let root = RelativeOid::root();
    assert_eq!(root, root.parent());
    assert!(root.is_root());
}

#[test]
fn long_content_uses_the_long_length_form() {
    // 40 five-byte arcs make 200 content octets: length needs the long form
    let oid = RelativeOid(vec![u32::MAX; 40]);
    let encoded = oid.to_ber();
    assert_eq!(0x0d, encoded[0]);
    assert_eq!(0x81, encoded[1]);
    assert_eq!(40 * 5, encoded[2] as usize);
    let back = RelativeOid::from_ber(&encoded).unwrap();
    assert_eq!(oid, back);
}
