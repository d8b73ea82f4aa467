use wasm_server_runner::bundle::{extract_error_message_versions, pretty_size};
use wasm_server_runner::certificate::{
    certificate, certificate_plan, generate, terminal_state, CacheProbe, CertOutcome, CertPlan,
    ReadOutcome,
};
use wasm_server_runner::portpick::pick_free_port;
use wasm_server_runner::strutil::{
    find_str, parse_usize_digits, replace_all, split_once_str, u64_to_string,
};

#[test]
fn pretty_size_small() {
    assert_eq!(pretty_size(0), "0.00kb");
    assert_eq!(pretty_size(1024), "1.00kb");
    assert_eq!(pretty_size(1536), "1.50kb");
    assert_eq!(pretty_size(1023), "1.00kb");
}

#[test]
fn pretty_size_rounds_ties_to_even() {
    // 128 bytes is exactly 0.125kb: the 12.5 hundredths round down to 12
    assert_eq!(pretty_size(128), "0.12kb");
    // 384 bytes is exactly 0.375kb: the 37.5 hundredths round up to 38
    assert_eq!(pretty_size(384), "0.38kb");
}

#[test]
fn pretty_size_large() {
    assert_eq!(pretty_size(1048576), "1.00mb");
    assert_eq!(pretty_size(2621440), "2.50mb");
    assert_eq!(pretty_size(1048575), "1024.00kb");
}

#[test]
fn extract_versions_from_known_message() {
    let msg = "input file is a newer schema version\n\nCaused by:\n    rust wasm file schema version: 0.2.92\n     this binary schema version: 0.2.89\nCurrently the bindgen format is unstable enough";
    let r = extract_error_message_versions(msg);
    assert_eq!(r, Some((String::from("0.2.92"), String::from("0.2.89"))));
}

#[test]
fn extract_versions_rejects_other_messages() {
    assert_eq!(extract_error_message_versions("file not found"), None);
    assert_eq!(
        extract_error_message_versions("rust wasm file schema version: 1"),
        None
    );
}

#[test]
fn decimal_formatting() {
    assert_eq!(u64_to_string(0), "0");
    assert_eq!(u64_to_string(7), "7");
    assert_eq!(u64_to_string(1334), "1334");
    assert_eq!(u64_to_string(18446744073709551615), "18446744073709551615");
}

#[test]
fn digit_parsing() {
    assert_eq!(parse_usize_digits("0"), Some(0));
    assert_eq!(parse_usize_digits("0042"), Some(42));
    assert_eq!(parse_usize_digits(""), None);
    assert_eq!(parse_usize_digits("+3"), None);
    assert_eq!(parse_usize_digits("4x"), None);
    assert_eq!(parse_usize_digits("99999999999999999999999999"), None);
}

#[test]
fn substring_search_and_split() {
    assert_eq!(find_str("hello world", "world"), Some(6));
    assert_eq!(find_str("hello", "world"), None);
    assert_eq!(find_str("aaa", "aa"), Some(0));
    assert_eq!(
        split_once_str("key: value", ": "),
        Some((String::from("key"), String::from("value")))
    );
    assert_eq!(split_once_str("plain", ": "), None);
}

#[test]
fn replacement_is_left_to_right() {
    assert_eq!(replace_all("a-b-c", "-", "+"), "a+b+c");
    assert_eq!(replace_all("aaaa", "aa", "a"), "aa");
    assert_eq!(replace_all("none here", "xyz", "!"), "none here");
}

#[test]
fn first_free_candidate_wins() {
    let free = vec![false, false, true, true, false, false, false, false, false, false, false];
    assert_eq!(pick_free_port(1334, 10, &free, Some(9000)), 1336);
}

#[test]
fn os_port_is_the_fallback() {
    let free = vec![false; 11];
    assert_eq!(pick_free_port(1334, 10, &free, Some(9000)), 9000);
}

#[test]
fn starting_port_is_the_last_resort() {
    let free = vec![false; 11];
    assert_eq!(pick_free_port(1334, 10, &free, None), 1334);
}

#[test]
fn cache_with_both_files_is_reused() {
    let probe = CacheProbe::Dir {
        certificate: ReadOutcome::Found(vec![1, 2, 3]),
        private_key: ReadOutcome::Found(vec![4, 5]),
    };
    match certificate_plan(probe) {
        CertPlan::Reuse(pair) => {
            assert_eq!(pair.certificate, vec![1, 2, 3]);
            assert_eq!(pair.private_key, vec![4, 5]);
        }
        _ => panic!("expected the cached pair to be reused"),
    }
}

#[test]
fn missing_file_asks_for_regeneration_and_persistence() {
    let probe = CacheProbe::Dir {
        certificate: ReadOutcome::NotFound,
        private_key: ReadOutcome::Found(vec![4, 5]),
    };
    assert!(matches!(
        certificate_plan(probe),
        CertPlan::GenerateAndPersist
    ));
    let probe = CacheProbe::Dir {
        certificate: ReadOutcome::Found(vec![1]),
        private_key: ReadOutcome::NotFound,
    };
    assert!(matches!(
        certificate_plan(probe),
        CertPlan::GenerateAndPersist
    ));
}

#[test]
fn unreadable_file_forbids_touching_the_cache() {
    let probe = CacheProbe::Dir {
        certificate: ReadOutcome::Failed,
        private_key: ReadOutcome::NotFound,
    };
    assert!(matches!(
        certificate_plan(probe),
        CertPlan::GenerateEphemeral
    ));
    let probe = CacheProbe::Dir {
        certificate: ReadOutcome::Found(vec![1]),
        private_key: ReadOutcome::Failed,
    };
    assert!(matches!(
        certificate_plan(probe),
        CertPlan::GenerateEphemeral
    ));
}

#[test]
fn undeterminable_directory_is_ephemeral() {
    assert!(matches!(
        certificate_plan(CacheProbe::NoDirectory),
        CertPlan::GenerateEphemeral
    ));
}

#[test]
fn terminal_states() {
    let reuse = certificate_plan(CacheProbe::Dir {
        certificate: ReadOutcome::Found(vec![1]),
        private_key: ReadOutcome::Found(vec![2]),
    });
    assert_eq!(terminal_state(&reuse, false), CertOutcome::Reused);
    assert_eq!(
        terminal_state(&CertPlan::GenerateAndPersist, true),
        CertOutcome::GeneratedAndCached
    );
    assert_eq!(
        terminal_state(&CertPlan::GenerateAndPersist, false),
        CertOutcome::GeneratedEphemeral
    );
    assert_eq!(
        terminal_state(&CertPlan::GenerateEphemeral, false),
        CertOutcome::GeneratedEphemeral
    );
}

#[test]
fn second_acquisition_returns_identical_bytes() {
    let probe = CacheProbe::Dir {
        certificate: ReadOutcome::Found(vec![1, 2, 3]),
        private_key: ReadOutcome::Found(vec![4, 5]),
    };
    let (pair, persist) = certificate(probe).expect("reuse never fails");
    assert!(!persist);
    assert_eq!(pair.certificate, vec![1, 2, 3]);
    assert_eq!(pair.private_key, vec![4, 5]);
}

#[test]
fn generation_yields_a_pair() {
    let pair = generate().expect("self-signed generation succeeds");
    assert!(!pair.certificate.is_empty());
    assert!(!pair.private_key.is_empty());
}

#[test]
fn fresh_generation_wants_persistence() {
    let probe = CacheProbe::Dir {
        certificate: ReadOutcome::NotFound,
        private_key: ReadOutcome::NotFound,
    };
    let (_, persist) = certificate(probe).expect("generation succeeds");
    assert!(persist);
}
