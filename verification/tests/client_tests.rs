use dataflow_node::{
    JobCallOutcome, classify_job_get, classify_job_mutation, object_files_request_path,
    object_request_path, response_is_success, urlencode,
};

fn enc(s: &str) -> String {
    String::from_utf8(urlencode(&s.as_bytes().to_vec())).unwrap()
}

#[test]
fn urlencode_matches_form_encoding() {
    // Unreserved bytes pass through; space becomes '+'; everything else
    // becomes an upper-case %XX escape. Were the input handed back
    // unchanged, each of these would fail.
    assert_eq!(enc("abcXYZ019*-._"), "abcXYZ019*-._");
    assert_eq!(enc("a b"), "a+b");
    assert_eq!(enc("a/b"), "a%2Fb");
    assert_eq!(enc("100%"), "100%25");
    assert_eq!(enc("owner~"), "owner%7E");
    assert_eq!(enc(""), "");
}

#[test]
fn object_paths_are_built_and_encoded() {
    let owner = "own er".as_bytes().to_vec();
    let repository = "repo/1".as_bytes().to_vec();
    let path = String::from_utf8(object_request_path(&owner, &repository)).unwrap();
    assert_eq!(path, "/object/own+er/repo%2F1");
    let files = String::from_utf8(object_files_request_path(&owner, &repository)).unwrap();
    assert_eq!(files, "/object/own+er/repo%2F1/files");
}

#[test]
fn success_is_everything_outside_the_error_ranges() {
    assert!(response_is_success(200));
    assert!(response_is_success(204));
    assert!(response_is_success(302));
    assert!(response_is_success(399));
    assert!(!response_is_success(400));
    assert!(!response_is_success(404));
    assert!(!response_is_success(499));
    assert!(!response_is_success(500));
    assert!(!response_is_success(599));
}

#[test]
fn job_get_treats_not_found_as_absent() {
    assert_eq!(classify_job_get(200), JobCallOutcome::Accepted);
    assert_eq!(classify_job_get(204), JobCallOutcome::Accepted);
    assert_eq!(classify_job_get(404), JobCallOutcome::AbsentNotFound);
    assert_eq!(classify_job_get(401), JobCallOutcome::Rejected);
    assert_eq!(classify_job_get(500), JobCallOutcome::Rejected);
    // The job client accepts 2xx only: informational and redirect
    // statuses are rejected, not silently taken as success.
    assert_eq!(classify_job_get(302), JobCallOutcome::Rejected);
    assert_eq!(classify_job_get(100), JobCallOutcome::Rejected);
}

#[test]
fn job_mutation_accepts_only_2xx() {
    assert_eq!(classify_job_mutation(200), JobCallOutcome::Accepted);
    assert_eq!(classify_job_mutation(299), JobCallOutcome::Accepted);
    assert_eq!(classify_job_mutation(302), JobCallOutcome::Rejected);
    assert_eq!(classify_job_mutation(404), JobCallOutcome::Rejected);
    assert_eq!(classify_job_mutation(503), JobCallOutcome::Rejected);
}
