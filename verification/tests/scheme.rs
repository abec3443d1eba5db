use shamir_share::codec::Share;
use shamir_share::collector::{collect_responses, QuorumCollector, ShareSet};
use shamir_share::dealer::{split, split_for_storage, split_with_coeffs};
use shamir_share::reconstruct::{reconstruct, recover_from_responses};
use shamir_share::Error;

fn set_of(shares: &[&Share]) -> ShareSet {
    let mut set = ShareSet::new();
    for s in shares {
        set.push(Share { index: s.index, values: s.values.clone() });
    }
    set
}

fn recover(shares: &[&Share], threshold: u8) -> Result<Vec<u8>, Error> {
    reconstruct(&set_of(shares), threshold)
}

#[test]
fn split_rejects_bad_parameters() {
    let secret = vec![1, 2, 3];
    assert_eq!(split(&secret, 1, 4).unwrap_err(), Error::ThresholdInvalid);
    assert_eq!(split(&secret, 5, 4).unwrap_err(), Error::ThresholdInvalid);
    assert_eq!(split(&vec![], 2, 4).unwrap_err(), Error::ThresholdInvalid);
}

#[test]
fn split_produces_indexed_shares_of_secret_length() {
    let secret = b"a modest secret".to_vec();
    let shares = split(&secret, 3, 7).unwrap();
    assert_eq!(shares.len(), 7);
    for (k, share) in shares.iter().enumerate() {
        assert_eq!(share.index as usize, k + 1);
        assert_eq!(share.values.len(), secret.len());
    }
}

#[test]
fn split_round_trips_with_exact_threshold() {
    let secret = b"polynomials over bytes".to_vec();
    let shares = split(&secret, 3, 5).unwrap();
    let recovered = recover(&[&shares[0], &shares[1], &shares[2]], 3).unwrap();
    assert_eq!(recovered, secret);
}

#[test]
fn split_round_trips_with_every_pair() {
    let secret = vec![0x00, 0x01, 0x7F, 0x80, 0xFF];
    let shares = split(&secret, 2, 4).unwrap();
    for i in 0..4 {
        for j in 0..4 {
            if i != j {
                let recovered = recover(&[&shares[i], &shares[j]], 2).unwrap();
                assert_eq!(recovered, secret, "pair ({}, {})", i, j);
            }
        }
    }
}

#[test]
fn split_round_trips_with_a_superset_of_the_quorum() {
    let secret = b"redundant".to_vec();
    let shares = split(&secret, 2, 5).unwrap();
    let all: Vec<&Share> = shares.iter().collect();
    assert_eq!(recover(&all, 2).unwrap(), secret);
}

#[test]
fn reconstruction_is_subset_independent() {
    let secret = b"same from any quorum".to_vec();
    let shares = split(&secret, 3, 6).unwrap();
    let first = recover(&[&shares[0], &shares[2], &shares[4]], 3).unwrap();
    let second = recover(&[&shares[5], &shares[1], &shares[3]], 3).unwrap();
    assert_eq!(first, second);
    assert_eq!(first, secret);
}

#[test]
fn reconstruction_fails_outright_below_the_threshold() {
    let secret = b"entropy".to_vec();
    let shares = split(&secret, 3, 5).unwrap();
    let result = recover(&[&shares[0], &shares[1]], 3);
    assert_eq!(result.unwrap_err(), Error::CorruptShareSet);
}

#[test]
fn reconstruction_rejects_an_empty_set() {
    assert_eq!(reconstruct(&ShareSet::new(), 0).unwrap_err(), Error::CorruptShareSet);
}

#[test]
fn reconstruction_rejects_duplicate_indices() {
    let secret = b"dup".to_vec();
    let shares = split(&secret, 2, 4).unwrap();
    let result = recover(&[&shares[1], &shares[1]], 2);
    assert_eq!(result.unwrap_err(), Error::CorruptShareSet);
}

#[test]
fn reconstruction_rejects_reserved_index_zero() {
    let mut set = ShareSet::new();
    set.push(Share { index: 0, values: vec![1, 2] });
    set.push(Share { index: 1, values: vec![3, 4] });
    assert_eq!(reconstruct(&set, 2).unwrap_err(), Error::CorruptShareSet);
}

#[test]
fn reconstruction_rejects_disagreeing_lengths() {
    let mut set = ShareSet::new();
    set.push(Share { index: 1, values: vec![1, 2] });
    set.push(Share { index: 2, values: vec![3] });
    assert_eq!(reconstruct(&set, 2).unwrap_err(), Error::CorruptShareSet);
}

#[test]
fn split_with_known_coefficients_gives_known_shares() {
    // One secret byte 0x57 with the single higher coefficient 0x83:
    // share x carries 0x57 + 0x83 * x in GF(2^8).
    let secret = vec![0x57];
    let coeffs = vec![vec![0x83]];
    let shares = split_with_coeffs(&secret, 2, 2, &coeffs);
    assert_eq!(shares[0].values, vec![0x57 ^ 0x83]);
    assert_eq!(shares[1].values, vec![0x57 ^ 0x1D]);
    let recovered = recover(&[&shares[0], &shares[1]], 2).unwrap();
    assert_eq!(recovered, secret);
}

#[test]
fn collect_tolerates_bounded_loss() {
    // threshold 2, redundancy 2: of the 4 candidates one is missing and
    // one is corrupt, and the two that remain still carry the secret.
    let secret = b"survives loss".to_vec();
    let shares = split(&secret, 2, 4).unwrap();
    let responses = vec![
        None,
        Some(shares[1].encode()),
        Some(vec![0xFF]),
        Some(shares[3].encode()),
    ];
    let set = collect_responses(2, 2, &responses).unwrap();
    assert_eq!(set.len(), 2);
    assert_eq!(reconstruct(&set, 2).unwrap(), secret);
}

#[test]
fn collect_fails_once_the_budget_is_spent() {
    let secret = b"too many lost".to_vec();
    let shares = split(&secret, 2, 4).unwrap();
    let responses = vec![None, Some(shares[1].encode()), None, Some(vec![0u8, 9u8, 9u8])];
    let result = collect_responses(2, 2, &responses);
    assert_eq!(result.unwrap_err(), Error::InsufficientShares { collected: 1, required: 2 });
}

#[test]
fn collect_drops_duplicate_indices() {
    let secret = b"no doubles".to_vec();
    let shares = split(&secret, 2, 4).unwrap();
    let responses = vec![
        Some(shares[0].encode()),
        Some(shares[0].encode()),
        Some(shares[2].encode()),
        None,
    ];
    let set = collect_responses(2, 2, &responses).unwrap();
    assert_eq!(set.len(), 2);
    assert_eq!(set.get(0).index, 1);
    assert_eq!(set.get(1).index, 3);
    assert_eq!(reconstruct(&set, 2).unwrap(), secret);
}

#[test]
fn collect_skips_shares_of_disagreeing_length() {
    let long = Share { index: 1, values: vec![1, 2, 3] };
    let short = Share { index: 2, values: vec![4] };
    let other = Share { index: 3, values: vec![5, 6, 7] };
    let responses = vec![
        Some(long.encode()),
        Some(short.encode()),
        Some(other.encode()),
        None,
    ];
    let set = collect_responses(2, 2, &responses).unwrap();
    assert_eq!(set.len(), 2);
    assert_eq!(set.get(0).index, 1);
    assert_eq!(set.get(1).index, 3);
}

#[test]
fn collect_rejects_bad_parameters() {
    assert_eq!(
        collect_responses(1, 4, &vec![None, None, None, None]).unwrap_err(),
        Error::ThresholdInvalid
    );
    assert_eq!(collect_responses(2, 0, &vec![]).unwrap_err(), Error::ThresholdInvalid);
}

#[test]
fn split_for_storage_pairs_keys_with_encoded_shares() {
    let secret = b"addressed".to_vec();
    let records = split_for_storage(&secret, 2, 2, "demo/keys").unwrap();
    assert_eq!(records.len(), 4);
    for (k, (key, payload)) in records.iter().enumerate() {
        assert_eq!(key.as_str(), format!("share/{}/demo/keys", k).as_str());
        let share = Share::decode(payload).unwrap();
        assert_eq!(share.index as usize, k + 1);
        assert_eq!(share.values.len(), secret.len());
    }
}

#[test]
fn split_for_storage_rejects_an_oversized_deal() {
    let secret = b"too wide".to_vec();
    assert_eq!(split_for_storage(&secret, 100, 3, "/x").unwrap_err(), Error::ThresholdInvalid);
    assert_eq!(split_for_storage(&secret, 2, 0, "/x").unwrap_err(), Error::ThresholdInvalid);
}

fn fetch(store: &[(String, Vec<u8>)], key: &str) -> Option<Vec<u8>> {
    store.iter().find(|(k, _)| k == key).map(|(_, v)| v.clone())
}

#[test]
fn quorum_session_agrees_with_the_dealer_on_addresses() {
    // Distributed under the bare name, collected under the absolute one:
    // normalization makes the keys line up.
    let secret = b"meeting point".to_vec();
    let mut store = split_for_storage(&secret, 2, 2, "demo/secret").unwrap();
    store.remove(0);
    store.remove(1);
    let mut session = QuorumCollector::new("/demo/secret", 2, 2).unwrap();
    while let Some(key) = session.next_key() {
        session.absorb_response(fetch(&store, key.as_str()));
    }
    let set = session.finish().unwrap();
    assert_eq!(reconstruct(&set, 2).unwrap(), secret);
}

#[test]
fn quorum_session_fails_over_an_empty_store() {
    let mut session = QuorumCollector::new("/gone", 2, 2).unwrap();
    let mut probes = 0;
    while let Some(_key) = session.next_key() {
        session.absorb_response(None);
        probes += 1;
    }
    assert_eq!(probes, 4);
    assert_eq!(
        session.finish().unwrap_err(),
        Error::InsufficientShares { collected: 0, required: 2 }
    );
}

#[test]
fn quorum_session_rejects_bad_parameters() {
    assert!(matches!(QuorumCollector::new("/x", 1, 2), Err(Error::ThresholdInvalid)));
    assert!(matches!(QuorumCollector::new("/x", 2, 0), Err(Error::ThresholdInvalid)));
    assert!(matches!(QuorumCollector::new("/x", 100, 3), Err(Error::ThresholdInvalid)));
}

#[test]
fn enigma_scenario() {
    // The concrete scenario: "Enigma", threshold 2, redundancy 2, four
    // shares indexed 1..=4; the quorums {1, 3} and {2, 4} both recover it.
    let secret = b"Enigma".to_vec();
    let shares = split(&secret, 2, 4).unwrap();
    assert_eq!(shares.len(), 4);
    for (k, share) in shares.iter().enumerate() {
        assert_eq!(share.index as usize, k + 1);
    }
    let first = recover(&[&shares[0], &shares[2]], 2).unwrap();
    let second = recover(&[&shares[1], &shares[3]], 2).unwrap();
    assert_eq!(first, secret);
    assert_eq!(second, secret);
    assert_eq!(String::from_utf8(first).unwrap(), "Enigma");
}

#[test]
fn recover_from_responses_runs_the_whole_pipeline() {
    let secret = b"one call".to_vec();
    let shares = split(&secret, 2, 4).unwrap();
    let responses = vec![None, Some(shares[1].encode()), Some(shares[2].encode()), None];
    assert_eq!(recover_from_responses(2, 2, &responses).unwrap(), secret);
    let starved = vec![None, None, None, Some(shares[3].encode())];
    assert_eq!(
        recover_from_responses(2, 2, &starved).unwrap_err(),
        Error::InsufficientShares { collected: 1, required: 2 }
    );
    assert_eq!(
        recover_from_responses(1, 4, &vec![None, None, None, None]).unwrap_err(),
        Error::ThresholdInvalid
    );
}
