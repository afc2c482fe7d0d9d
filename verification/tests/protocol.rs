use schnorr_login::credentials::{hash_to_int, register_user, StoredCredentials, UserCredentials};
use schnorr_login::natural::BigNat;
use schnorr_login::params::{generate_params, Params};
use schnorr_login::protocol::{
    commit, identify, in_range, login, respond, sample_exponent, verify_transcript, ProofTranscript,
    RunState,
};

fn n(v: u64) -> BigNat {
    BigNat::from_u64(v)
}

fn user(name: &str, password: &str) -> UserCredentials {
    UserCredentials { username: name.to_string(), password: password.as_bytes().to_vec() }
}

fn small(modulus: u64, generator: u64) -> Params {
    Params::new(n(modulus), n(generator)).unwrap()
}

fn curve_sized_params() -> Params {
    let mut modulus: Vec<u8> = vec![255; 32];
    modulus[0] = 127;
    modulus[31] = 237;
    Params::new(BigNat::from_bytes_be(&modulus), n(2)).unwrap()
}

fn transcript(commitment: u64, challenge: u64, response: u64) -> ProofTranscript {
    ProofTranscript { commitment: n(commitment), challenge: n(challenge), response: n(response) }
}

#[test]
fn correct_password_is_accepted() {
    let params = generate_params();
    let alice = user("alice", "secret_password");
    let stored = register_user(&params, &alice);
    for _ in 0..200 {
        assert!(login(&params, &stored, &alice));
    }
}

#[test]
fn wrong_password_is_rejected() {
    let params = generate_params();
    let stored = register_user(&params, &user("alice", "secret_password"));
    let mallory = user("alice", "wrong_password");
    for _ in 0..200 {
        assert!(!login(&params, &stored, &mallory));
    }
}

#[test]
fn honest_run_is_accepted_for_every_draw() {
    let params = generate_params();
    let stored = register_user(&params, &user("alice", "secret_password"));
    let x = hash_to_int(b"secret_password");
    for k in 1u64..=21 {
        for e in 1u64..=21 {
            assert!(identify(&params, &stored, &x, n(k), n(e)));
        }
    }
}

#[test]
fn run_with_the_wrong_password_is_rejected_for_every_draw() {
    let params = generate_params();
    let stored = register_user(&params, &user("alice", "secret_password"));
    let x = hash_to_int(b"wrong_password");
    for k in 1u64..=21 {
        for e in 1u64..=21 {
            assert!(!identify(&params, &stored, &x, n(k), n(e)));
        }
    }
}

#[test]
fn honest_run_with_small_exponents() {
    let params = generate_params();
    for x in 0u64..30 {
        let stored = StoredCredentials::from_exponent(&params, "u".to_string(), &n(x));
        for k in 1u64..=21 {
            for e in 1u64..=21 {
                assert!(identify(&params, &stored, &n(x), n(k), n(e)));
            }
        }
    }
}

#[test]
fn run_is_accepted_exactly_when_the_exponents_agree_in_the_group() {
    let params = generate_params();
    let stored = StoredCredentials::from_exponent(&params, "u".to_string(), &n(7));
    for x in 0u64..44 {
        for e in 1u64..=21 {
            let expected = (e * x) % 22 == (e * 7) % 22;
            assert_eq!(identify(&params, &stored, &n(x), n(5), n(e)), expected);
        }
    }
}

#[test]
fn draw_out_of_range_is_rejected() {
    let params = generate_params();
    let stored = StoredCredentials::from_exponent(&params, "u".to_string(), &n(7));
    assert!(identify(&params, &stored, &n(7), n(1), n(1)));
    assert!(identify(&params, &stored, &n(7), n(21), n(21)));
    assert!(!identify(&params, &stored, &n(7), n(0), n(4)));
    assert!(!identify(&params, &stored, &n(7), n(22), n(4)));
    assert!(!identify(&params, &stored, &n(7), n(23), n(4)));
    assert!(!identify(&params, &stored, &n(7), n(3), n(0)));
    assert!(!identify(&params, &stored, &n(7), n(3), n(22)));
    assert!(!identify(&params, &stored, &n(7), n(3), n(1000)));
}

#[test]
fn range_runs_from_one_to_the_modulus_less_two() {
    let params = generate_params();
    assert!(!in_range(&params, &n(0)));
    assert!(in_range(&params, &n(1)));
    assert!(in_range(&params, &n(21)));
    assert!(!in_range(&params, &n(22)));
    assert!(!in_range(&params, &n(23)));
    let tiny = small(3, 2);
    assert!(!in_range(&tiny, &n(0)));
    assert!(in_range(&tiny, &n(1)));
    assert!(!in_range(&tiny, &n(2)));
}

#[test]
fn samples_stay_in_range() {
    let params = generate_params();
    let mut seen: Vec<bool> = vec![false; 23];
    for _ in 0..2000 {
        let v = sample_exponent(&params).to_u64().unwrap();
        assert!(1 <= v && v <= 21);
        seen[v as usize] = true;
    }
    for v in 1..=21 {
        assert!(seen[v]);
    }
    assert!(!seen[0]);
    assert!(!seen[22]);
}

#[test]
fn only_one_can_be_drawn_for_modulus_three() {
    let params = small(3, 2);
    for _ in 0..50 {
        assert_eq!(sample_exponent(&params).to_u64(), Some(1));
    }
}

#[test]
fn samples_in_a_large_group_stay_in_range() {
    let params = curve_sized_params();
    for _ in 0..50 {
        let v = sample_exponent(&params);
        assert!(in_range(&params, &v));
    }
}

#[test]
fn commitment_is_generator_to_the_secret() {
    let params = generate_params();
    assert_eq!(commit(&params, &n(1)).to_u64(), Some(5));
    assert_eq!(commit(&params, &n(3)).to_u64(), Some(10));
    assert_eq!(commit(&params, &n(21)).to_u64(), Some(14));
    assert_eq!(commit(&params, &n(22)).to_u64(), Some(1));
    assert_eq!(commit(&params, &n(0)).to_u64(), Some(1));
}

#[test]
fn response_is_reduced_modulo_the_modulus_less_one() {
    let params = generate_params();
    assert_eq!(respond(&params, &n(3), &n(4), &n(7)).to_u64(), Some(9));
    assert_eq!(respond(&params, &n(1), &n(1), &n(20)).to_u64(), Some(21));
    assert_eq!(respond(&params, &n(1), &n(1), &n(21)).to_u64(), Some(0));
    assert_eq!(respond(&params, &n(5), &n(2), &n(0)).to_u64(), Some(5));
}

#[test]
fn response_stays_below_the_modulus_less_one() {
    let params = generate_params();
    let x = hash_to_int(b"secret_password");
    for k in 1u64..=21 {
        for e in 1u64..=21 {
            let s = respond(&params, &n(k), &n(e), &x).to_u64().unwrap();
            assert!(s < 22);
            assert_eq!(s, (k + e * 14) % 22);
        }
    }
}

#[test]
fn verification_equation_on_a_transcript() {
    let params = generate_params();
    let y = n(17);
    assert!(verify_transcript(&params, &y, &transcript(10, 4, 9)));
    assert!(!verify_transcript(&params, &y, &transcript(10, 4, 10)));
    assert!(!verify_transcript(&params, &y, &transcript(10, 5, 9)));
    assert!(!verify_transcript(&params, &y, &transcript(11, 4, 9)));
    assert!(!verify_transcript(&params, &n(18), &transcript(10, 4, 9)));
}

#[test]
fn verification_gives_the_same_answer_when_asked_again() {
    let params = generate_params();
    let y = n(17);
    for commitment in 0u64..23 {
        for response in 0u64..22 {
            let t = transcript(commitment, 4, response);
            let first = verify_transcript(&params, &y, &t);
            let second = verify_transcript(&params, &y, &t);
            assert_eq!(first, second);
        }
    }
}

#[test]
fn a_commitment_written_with_leading_zeros_verifies_alike() {
    let params = generate_params();
    let t = ProofTranscript {
        commitment: BigNat::from_bytes_be(&[0, 0, 10]),
        challenge: BigNat::from_bytes_be(&[0, 4]),
        response: BigNat::from_bytes_be(&[0, 0, 0, 9]),
    };
    assert!(verify_transcript(&params, &BigNat::from_bytes_be(&[0, 17]), &t));
}

#[test]
fn states_follow_one_another() {
    let params = generate_params();
    let run = RunState::new();
    assert!(matches!(run, RunState::Start));
    let run = run.commit(&params, n(3));
    match &run {
        RunState::CommitSent { secret, commitment } => {
            assert_eq!(secret.to_u64(), Some(3));
            assert_eq!(commitment.to_u64(), Some(10));
        },
        _ => panic!("the commitment was not sent"),
    }
    let run = run.challenge(&params, n(4));
    match &run {
        RunState::ChallengeSent { secret, commitment, challenge } => {
            assert_eq!(secret.to_u64(), Some(3));
            assert_eq!(commitment.to_u64(), Some(10));
            assert_eq!(challenge.to_u64(), Some(4));
        },
        _ => panic!("the challenge was not sent"),
    }
    let run = run.respond(&params, &n(7));
    match &run {
        RunState::ResponseSent { transcript } => {
            assert_eq!(transcript.commitment.to_u64(), Some(10));
            assert_eq!(transcript.challenge.to_u64(), Some(4));
            assert_eq!(transcript.response.to_u64(), Some(9));
        },
        _ => panic!("the response was not sent"),
    }
    assert!(!run.is_verified());
    let run = run.verify(&params, &n(17));
    assert!(matches!(run, RunState::Verified));
    assert!(run.is_verified());
}

#[test]
fn failed_verification_ends_in_rejected() {
    let params = generate_params();
    let run = RunState::new().commit(&params, n(3)).challenge(&params, n(4));
    let run = run.respond(&params, &n(8)).verify(&params, &n(17));
    assert!(matches!(run, RunState::Rejected));
    assert!(!run.is_verified());
}

#[test]
fn secret_out_of_range_ends_the_run() {
    let params = generate_params();
    assert!(matches!(RunState::new().commit(&params, n(0)), RunState::Rejected));
    assert!(matches!(RunState::new().commit(&params, n(22)), RunState::Rejected));
    assert!(matches!(RunState::new().commit(&params, n(21)), RunState::CommitSent { .. }));
}

#[test]
fn challenge_out_of_range_ends_the_run() {
    let params = generate_params();
    let run = RunState::new().commit(&params, n(3)).challenge(&params, n(0));
    assert!(matches!(run, RunState::Rejected));
    let run = RunState::new().commit(&params, n(3)).challenge(&params, n(22));
    assert!(matches!(run, RunState::Rejected));
    let run = RunState::new().commit(&params, n(3)).challenge(&params, n(1));
    assert!(matches!(run, RunState::ChallengeSent { .. }));
}

#[test]
fn move_out_of_turn_ends_the_run() {
    let params = generate_params();
    assert!(matches!(RunState::new().challenge(&params, n(4)), RunState::Rejected));
    assert!(matches!(RunState::new().respond(&params, &n(7)), RunState::Rejected));
    assert!(matches!(RunState::new().verify(&params, &n(17)), RunState::Rejected));
    let committed = RunState::new().commit(&params, n(3));
    assert!(matches!(committed.commit(&params, n(3)), RunState::Rejected));
    let committed = RunState::new().commit(&params, n(3));
    assert!(matches!(committed.respond(&params, &n(7)), RunState::Rejected));
    let committed = RunState::new().commit(&params, n(3));
    assert!(matches!(committed.verify(&params, &n(17)), RunState::Rejected));
    let challenged = RunState::new().commit(&params, n(3)).challenge(&params, n(4));
    assert!(matches!(challenged.challenge(&params, n(4)), RunState::Rejected));
    let challenged = RunState::new().commit(&params, n(3)).challenge(&params, n(4));
    assert!(matches!(challenged.verify(&params, &n(17)), RunState::Rejected));
}

#[test]
fn ended_run_moves_no_more() {
    let params = generate_params();
    assert!(matches!(RunState::Verified.commit(&params, n(3)), RunState::Verified));
    assert!(matches!(RunState::Verified.challenge(&params, n(4)), RunState::Verified));
    assert!(matches!(RunState::Verified.respond(&params, &n(7)), RunState::Verified));
    assert!(matches!(RunState::Verified.verify(&params, &n(17)), RunState::Verified));
    assert!(matches!(RunState::Rejected.commit(&params, n(3)), RunState::Rejected));
    assert!(matches!(RunState::Rejected.challenge(&params, n(4)), RunState::Rejected));
    assert!(matches!(RunState::Rejected.respond(&params, &n(7)), RunState::Rejected));
    assert!(matches!(RunState::Rejected.verify(&params, &n(17)), RunState::Rejected));
}

#[test]
fn honest_run_can_fail_where_the_modulus_is_not_prime() {
    let params = small(9, 2);
    let stored = StoredCredentials::from_exponent(&params, "u".to_string(), &n(1));
    assert_eq!(stored.y.to_u64(), Some(2));
    assert!(!identify(&params, &stored, &n(1), n(1), n(7)));
}

#[test]
fn known_run_in_a_large_group() {
    let params = curve_sized_params();
    let stored = register_user(&params, &user("alice", "secret_password"));
    let x = hash_to_int(b"secret_password");
    let k = BigNat::from_bytes_be(&[
        18, 52, 86, 120, 144, 171, 205, 239, 18, 52, 86, 120, 144, 171, 205, 239,
    ]);
    let e = BigNat::from_bytes_be(&[254, 220, 186, 9, 135, 101, 67, 33]);
    let commitment = commit(&params, &k);
    let expected_commitment: Vec<u8> = vec![
        36, 90, 180, 232, 69, 164, 238, 140, 92, 15, 82, 34, 246, 76, 107, 100, 149, 37, 146, 105,
        196, 98, 185, 30, 1, 89, 33, 159, 178, 252, 70, 142,
    ];
    assert_eq!(commitment.to_bytes_be(), expected_commitment);
    let response = respond(&params, &k, &e, &x);
    let expected_response: Vec<u8> = vec![
        99, 29, 22, 95, 37, 168, 204, 236, 87, 225, 65, 113, 85, 178, 56, 184, 100, 120, 134, 126,
        110, 43, 142, 254, 204, 111, 54, 102, 129, 118, 102, 171,
    ];
    assert_eq!(response.to_bytes_be(), expected_response);
    let t = ProofTranscript { commitment, challenge: e.clone(), response };
    assert!(verify_transcript(&params, &stored.y, &t));
    assert!(identify(&params, &stored, &x, k, e));
}

#[test]
fn login_in_a_large_group() {
    let params = curve_sized_params();
    let alice = user("alice", "secret_password");
    let stored = register_user(&params, &alice);
    let mallory = user("alice", "wrong_password");
    for _ in 0..10 {
        assert!(login(&params, &stored, &alice));
        assert!(!login(&params, &stored, &mallory));
    }
}

#[test]
fn independent_runs_do_not_repeat_commitment_and_challenge() {
    let params = curve_sized_params();
    let mut seen: Vec<(Vec<u8>, Vec<u8>)> = Vec::new();
    for _ in 0..64 {
        let k = sample_exponent(&params);
        let e = sample_exponent(&params);
        let pair = (commit(&params, &k).to_bytes_be(), e.to_bytes_be());
        assert!(!seen.contains(&pair));
        seen.push(pair);
    }
}
