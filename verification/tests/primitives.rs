use shamir_share::address::key_for;
use shamir_share::codec::Share;
use shamir_share::field::{gf_add, gf_inv, gf_mul};
use shamir_share::Error;

#[test]
fn gf_add_is_xor() {
    assert_eq!(gf_add(0x57, 0x83), 0xD4);
    assert_eq!(gf_add(0, 0xAB), 0xAB);
    assert_eq!(gf_add(0xAB, 0xAB), 0);
}

#[test]
fn gf_mul_matches_known_products() {
    // The worked example of the AES specification: {57} x {83} = {c1}.
    assert_eq!(gf_mul(0x57, 0x83), 0xC1);
    assert_eq!(gf_mul(0x57, 0x13), 0xFE);
    assert_eq!(gf_mul(2, 0x83), 0x1D);
    for a in 0..=255u8 {
        assert_eq!(gf_mul(a, 0), 0);
        assert_eq!(gf_mul(0, a), 0);
        assert_eq!(gf_mul(a, 1), a);
        assert_eq!(gf_mul(1, a), a);
    }
}

#[test]
fn gf_mul_commutes_everywhere() {
    for a in 0..=255u8 {
        for b in 0..=255u8 {
            assert_eq!(gf_mul(a, b), gf_mul(b, a));
        }
    }
}

#[test]
fn gf_inv_inverts_every_nonzero_element() {
    for a in 1..=255u8 {
        let inv = gf_inv(a).unwrap();
        assert_eq!(gf_mul(a, inv), 1, "inverse failed for {}", a);
    }
}

#[test]
fn gf_inv_of_zero_is_division_by_zero() {
    assert_eq!(gf_inv(0), Err(Error::DivisionByZero));
}

#[test]
fn share_encodes_index_then_values() {
    let share = Share { index: 7, values: vec![0xAA, 0xBB, 0xCC] };
    assert_eq!(share.encode(), vec![7, 0xAA, 0xBB, 0xCC]);
}

#[test]
fn share_codec_round_trips() {
    let share = Share { index: 255, values: vec![1, 2, 3, 4, 5] };
    let decoded = Share::decode(&share.encode()).unwrap();
    assert_eq!(decoded.index, 255);
    assert_eq!(decoded.values, vec![1, 2, 3, 4, 5]);
}

#[test]
fn share_decode_rejects_malformed_buffers() {
    assert_eq!(Share::decode(&vec![]).unwrap_err(), Error::CorruptShare);
    assert_eq!(Share::decode(&vec![3]).unwrap_err(), Error::CorruptShare);
    assert_eq!(Share::decode(&vec![0, 1, 2]).unwrap_err(), Error::CorruptShare);
}

#[test]
fn key_for_is_deterministic() {
    let first = key_for(2, "/demo/secret");
    let second = key_for(2, "/demo/secret");
    assert_eq!(first, second);
    assert_eq!(first.as_str(), "share/2/demo/secret");
}

#[test]
fn key_for_normalizes_missing_leading_slash() {
    assert_eq!(key_for(2, "demo/secret"), key_for(2, "/demo/secret"));
}

#[test]
fn key_for_strips_extra_separators() {
    assert_eq!(key_for(9, "//demo/secret///").as_str(), "share/9/demo/secret");
}

#[test]
fn key_for_renders_indices_of_every_width() {
    assert_eq!(key_for(0, "/s").as_str(), "share/0/s");
    assert_eq!(key_for(10, "/s").as_str(), "share/10/s");
    assert_eq!(key_for(200, "/s").as_str(), "share/200/s");
    assert_eq!(key_for(255, "/s").as_str(), "share/255/s");
}
