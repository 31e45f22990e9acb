use identity_credential::error::Error;
use identity_credential::presentation::SelectiveDiscosurePresentation;
use identity_credential::presentation::Stage;
use jsonprooftoken::jpa::algs::PresentationProofAlgorithm;
use jsonprooftoken::jpa::algs::ProofAlgorithm;
use jsonprooftoken::jpt::claims::JptClaims;
use jsonprooftoken::jpt::payloads::PayloadType;
use jsonprooftoken::jwp::header::IssuerProtectedHeader;
use jsonprooftoken::jwp::header::PresentationProtectedHeader;
use jsonprooftoken::jwp::issued::JwpIssued;
use jsonprooftoken::jwp::issued::JwpIssuedBuilder;
use jsonprooftoken::jwp::presented::JwpPresented;

const CREDENTIAL: &str = r#"{
    "@context": ["https://www.w3.org/2018/credentials/v1"],
    "id": "https://example.edu/credentials/3732",
    "type": ["VerifiableCredential", "UniversityDegreeCredential"],
    "issuer": "did:example:issuer",
    "issuanceDate": "2023-01-01T00:00:00Z",
    "expirationDate": "2033-01-01T00:00:00Z",
    "credentialSubject": {
        "id": 1234,
        "name": "Alice",
        "mainCourses": ["Object-oriented Programming", "Mathematics"],
        "degree": {
            "type": "BachelorDegree",
            "name": "Bachelor of Science and Arts"
        },
        "GPA": "4.0"
    },
    "credentialStatus": { "id": "https://example.edu/status/24", "type": "StatusList" },
    "evidence": { "verifier": "https://example.edu/issuers/14", "documents": ["passport", "licence"] }
}"#;

fn issue(credential: &str) -> JwpIssued {
    let vc: serde_json::Value = serde_json::from_str(credential).unwrap();
    let mut claims = JptClaims::new();
    claims.set_iss("did:example:issuer".to_owned());
    claims.set_claim(Some("vc"), vc, true);
    JwpIssuedBuilder::new(IssuerProtectedHeader::new(ProofAlgorithm::BLS12381_SHA256), claims)
        .build_with_proof(vec![1, 2, 3])
        .unwrap()
}

fn header(nonce: Option<&str>) -> PresentationProtectedHeader {
    let mut header = PresentationProtectedHeader::new(PresentationProofAlgorithm::BLS12381_SHA256_PROOF);
    header.set_aud(Some("https://verifier.example".to_owned()));
    header.set_nonce(nonce.map(|n| n.to_owned()));
    header
}

fn names(issued: &JwpIssued) -> Vec<String> {
    issued.get_claims().unwrap().0.clone()
}

fn hidden_names(presentation: &SelectiveDiscosurePresentation) -> Vec<String> {
    let claims = presentation.builder().get_issuer_protected_header().claims().unwrap().0.clone();
    presentation.undisclosed().into_iter().map(|i| claims[i].clone()).collect()
}

fn disclosed_names(presented: &JwpPresented) -> Vec<String> {
    let claims = presented.get_claims().unwrap().0.clone();
    presented
        .get_payloads()
        .0
        .iter()
        .enumerate()
        .filter(|(_, p)| p.1 != PayloadType::Undisclosed)
        .map(|(i, _)| claims[i].clone())
        .collect()
}

const DEFAULTS: [&str; 5] = [
    "vc.id",
    "vc.issuanceDate",
    "vc.expirationDate",
    "vc.credentialStatus.id",
    "vc.credentialStatus.type",
];

#[test]
fn new_hides_the_regions_that_are_always_undisclosed() {
    let issued = issue(CREDENTIAL);
    let presentation = SelectiveDiscosurePresentation::new(&issued);
    assert_eq!(presentation.stage(), Stage::Accumulating);
    assert_eq!(hidden_names(&presentation), DEFAULTS);
}

#[test]
fn new_skips_the_regions_that_the_credential_lacks() {
    let issued = issue(r#"{"type": ["VerifiableCredential"], "credentialSubject": {"name": "Alice"}}"#);
    let presentation = SelectiveDiscosurePresentation::new(&issued);
    assert_eq!(hidden_names(&presentation), Vec::<String>::new());
}

#[test]
fn undisclose_subject_hides_one_leaf() {
    let issued = issue(CREDENTIAL);
    let mut presentation = SelectiveDiscosurePresentation::new(&issued);
    assert_eq!(presentation.undisclose_subject("degree.name"), Ok(()));
    let mut expected: Vec<String> = DEFAULTS.iter().map(|n| n.to_string()).collect();
    expected.insert(3, "vc.credentialSubject.degree.name".to_owned());
    assert_eq!(hidden_names(&presentation), expected);
}

#[test]
fn undisclose_subject_hides_everything_below_a_mapping() {
    let issued = issue(CREDENTIAL);
    let mut presentation = SelectiveDiscosurePresentation::new(&issued);
    assert_eq!(presentation.undisclose_subject("degree"), Ok(()));
    let hidden = hidden_names(&presentation);
    assert!(hidden.contains(&"vc.credentialSubject.degree.type".to_owned()));
    assert!(hidden.contains(&"vc.credentialSubject.degree.name".to_owned()));
    assert_eq!(hidden.len(), DEFAULTS.len() + 2);
}

#[test]
fn undisclose_evidence_hides_below_the_evidence() {
    let issued = issue(CREDENTIAL);
    let mut presentation = SelectiveDiscosurePresentation::new(&issued);
    assert_eq!(presentation.undisclose_evidence("documents[1]"), Ok(()));
    let hidden = hidden_names(&presentation);
    assert!(hidden.contains(&"vc.evidence.documents[1]".to_owned()));
    assert!(!hidden.contains(&"vc.evidence.documents[0]".to_owned()));
    assert_eq!(hidden.len(), DEFAULTS.len() + 1);
}

#[test]
fn set_undisclosed_takes_a_path_from_the_root() {
    let issued = issue(CREDENTIAL);
    let mut presentation = SelectiveDiscosurePresentation::new(&issued);
    assert_eq!(presentation.set_undisclosed("vc.credentialSubject"), Ok(()));
    let hidden = hidden_names(&presentation);
    for name in names(&issued) {
        assert_eq!(hidden.contains(&name), name.starts_with("vc.credentialSubject.") || DEFAULTS.contains(&name.as_str()));
    }
}

#[test]
fn marking_twice_is_marking_once() {
    let issued = issue(CREDENTIAL);
    let mut once = SelectiveDiscosurePresentation::new(&issued);
    assert_eq!(once.undisclose_subject("mainCourses[1]"), Ok(()));
    let mut twice = SelectiveDiscosurePresentation::new(&issued);
    assert_eq!(twice.undisclose_subject("mainCourses[1]"), Ok(()));
    assert_eq!(twice.undisclose_subject("mainCourses[1]"), Ok(()));
    assert_eq!(once.undisclosed(), twice.undisclosed());
    assert_eq!(once.builder(), twice.builder());
}

#[test]
fn marking_a_default_again_is_no_error() {
    let issued = issue(CREDENTIAL);
    let mut presentation = SelectiveDiscosurePresentation::new(&issued);
    assert_eq!(presentation.set_undisclosed("vc.id"), Ok(()));
    assert_eq!(presentation.set_undisclosed("vc.credentialStatus"), Ok(()));
    assert_eq!(hidden_names(&presentation), DEFAULTS);
}

#[test]
fn always_disclosed_regions_are_forbidden() {
    let issued = issue(CREDENTIAL);
    let mut presentation = SelectiveDiscosurePresentation::new(&issued);
    for path in [
        "vc.@context",
        "vc.type",
        "vc.issuer",
        "vc.credentialSchema",
        "vc.refreshService",
        "vc.type[0]",
        "vc.issuer.id",
    ] {
        assert_eq!(presentation.set_undisclosed(path), Err(Error::DisclosureForbidden));
    }
    assert_eq!(hidden_names(&presentation), DEFAULTS);
}

#[test]
fn always_disclosed_regions_are_forbidden_whatever_came_before() {
    let issued = issue(CREDENTIAL);
    let mut presentation = SelectiveDiscosurePresentation::new(&issued);
    assert_eq!(presentation.set_undisclosed("vc.issuer"), Err(Error::DisclosureForbidden));
    assert_eq!(presentation.undisclose_subject("name"), Ok(()));
    assert_eq!(presentation.set_undisclosed("vc.issuer"), Err(Error::DisclosureForbidden));
    assert_eq!(presentation.set_presentation_header(header(Some("n"))), Ok(()));
    assert_eq!(presentation.set_undisclosed("vc.issuer"), Err(Error::DisclosureForbidden));
}

#[test]
fn paths_outside_the_regions_are_hidden_where_they_exist() {
    let issued = issue(CREDENTIAL);
    let mut presentation = SelectiveDiscosurePresentation::new(&issued);
    assert_eq!(presentation.set_undisclosed("iss"), Ok(()));
    assert!(hidden_names(&presentation).contains(&"iss".to_owned()));
    assert_eq!(hidden_names(&presentation).len(), DEFAULTS.len() + 1);
    assert_eq!(presentation.set_undisclosed("vc.unknown"), Err(Error::PathNotFound));
    assert_eq!(presentation.set_undisclosed("credentialSubject.name"), Err(Error::PathNotFound));
    assert_eq!(presentation.set_undisclosed("sub"), Err(Error::PathNotFound));
}

#[test]
fn a_claim_of_the_credential_outside_the_regions_is_hidden() {
    let issued = issue(r#"{"type": ["VerifiableCredential"], "name": "Alice", "credentialSubject": {"age": 30}}"#);
    let mut presentation = SelectiveDiscosurePresentation::new(&issued);
    assert_eq!(presentation.set_undisclosed("vc.name"), Ok(()));
    assert_eq!(hidden_names(&presentation), ["vc.name"]);
}

#[test]
fn the_credential_as_a_whole_is_forbidden() {
    let issued = issue(CREDENTIAL);
    let mut presentation = SelectiveDiscosurePresentation::new(&issued);
    assert_eq!(presentation.set_undisclosed("vc"), Err(Error::DisclosureForbidden));
    assert_eq!(hidden_names(&presentation), DEFAULTS);
}

#[test]
fn hiding_a_sequence_hides_the_sequences_inside_it() {
    let issued = issue(r#"{"credentialSubject": {"x": [["a", "b"], "c", [["d"]]], "y": 1}}"#);
    assert_eq!(
        names(&issued),
        [
            "iss",
            "vc.credentialSubject.x[0][0]",
            "vc.credentialSubject.x[0][1]",
            "vc.credentialSubject.x[1]",
            "vc.credentialSubject.x[2][0][0]",
            "vc.credentialSubject.y",
        ]
    );
    let mut presentation = SelectiveDiscosurePresentation::new(&issued);
    assert_eq!(presentation.undisclose_subject("x"), Ok(()));
    assert_eq!(presentation.undisclosed(), [1, 2, 3, 4]);
    let mut part = SelectiveDiscosurePresentation::new(&issued);
    assert_eq!(part.undisclose_subject("x[0]"), Ok(()));
    assert_eq!(part.undisclosed(), [1, 2]);
    assert_eq!(part.undisclose_subject("x[2]"), Ok(()));
    assert_eq!(part.undisclosed(), [1, 2, 4]);
    assert_eq!(part.set_presentation_header(header(Some("n"))), Ok(()));
    let presented = part.finalize(vec![1]).unwrap();
    assert_eq!(
        disclosed_names(&presented),
        ["iss", "vc.credentialSubject.x[1]", "vc.credentialSubject.y"]
    );
}

#[test]
fn new_hides_nested_sequences_in_the_default_regions() {
    let issued = issue(
        r#"{"type": ["T"], "termsOfUse": [[{"type": "policy"}], ["plain"]], "credentialSubject": {"name": "Alice"}}"#,
    );
    let presentation = SelectiveDiscosurePresentation::new(&issued);
    assert_eq!(
        hidden_names(&presentation),
        ["vc.termsOfUse[0][0].type", "vc.termsOfUse[1][0]"]
    );
    let alone = issue(r#"{"termsOfUse": [["x"]], "id": "urn:1"}"#);
    assert_eq!(
        hidden_names(&SelectiveDiscosurePresentation::new(&alone)),
        ["vc.termsOfUse[0][0]", "vc.id"]
    );
}

#[test]
fn the_presented_proof_carries_the_header_as_it_was_set() {
    let issued = issue(CREDENTIAL);
    let mut presentation = SelectiveDiscosurePresentation::new(&issued);
    let mut ph = header(Some("nonce-1"));
    ph.set_kid(Some("did:example:holder#key".to_owned()));
    assert_eq!(presentation.set_presentation_header(ph.clone()), Ok(()));
    let presented = presentation.finalize(vec![1]).unwrap();
    assert_eq!(presented.get_presentation_protected_header(), &ph);
    assert_eq!(presentation.builder().get_presentation_protected_header(), Some(&ph));
}

#[test]
fn a_part_of_a_region_that_is_always_undisclosed_is_granted_where_it_exists() {
    let issued = issue(CREDENTIAL);
    let mut presentation = SelectiveDiscosurePresentation::new(&issued);
    assert_eq!(presentation.set_undisclosed("vc.credentialStatus.id"), Ok(()));
    assert_eq!(hidden_names(&presentation), DEFAULTS);
    assert_eq!(presentation.set_undisclosed("vc.credentialStatus.other"), Err(Error::PathNotFound));
    assert_eq!(presentation.set_undisclosed("vc.termsOfUse[0]"), Err(Error::PathNotFound));
    assert_eq!(presentation.set_undisclosed("vc.id.value"), Err(Error::PathNotFound));
}

#[test]
fn a_part_of_a_region_is_hidden_in_a_proof_that_discloses_the_region() {
    let mut issued = issue(r#"{"credentialStatus": {"id": "urn:s", "type": "List"}, "credentialSubject": {"a": 1}}"#);
    let presentation = SelectiveDiscosurePresentation::new(&issued);
    assert_eq!(presentation.undisclosed(), [1, 2]);
    issued.set_claims(jsonprooftoken::jpt::claims::Claims(vec![
        "iss".to_owned(),
        "vc.credentialSchema.id".to_owned(),
        "vc.evidence[0].id".to_owned(),
        "vc.credentialSubject.a".to_owned(),
    ]));
    let mut other = SelectiveDiscosurePresentation::new(&issued);
    assert_eq!(other.undisclosed(), Vec::<usize>::new());
    assert_eq!(other.set_undisclosed("vc.evidence[0]"), Ok(()));
    assert_eq!(other.set_undisclosed("vc.credentialSchema.id"), Err(Error::DisclosureForbidden));
    assert_eq!(other.undisclosed(), [2]);
}

#[test]
fn absent_paths_are_not_found() {
    let issued = issue(CREDENTIAL);
    let mut presentation = SelectiveDiscosurePresentation::new(&issued);
    assert_eq!(presentation.undisclose_subject("age"), Err(Error::PathNotFound));
    assert_eq!(presentation.undisclose_subject("mainCourses[2]"), Err(Error::PathNotFound));
    assert_eq!(presentation.undisclose_subject("name.first"), Err(Error::PathNotFound));
    assert_eq!(presentation.set_undisclosed("vc.termsOfUse"), Err(Error::PathNotFound));
    assert_eq!(hidden_names(&presentation), DEFAULTS);
}

#[test]
fn malformed_paths_are_rejected() {
    let issued = issue(CREDENTIAL);
    let mut presentation = SelectiveDiscosurePresentation::new(&issued);
    assert_eq!(presentation.undisclose_subject(""), Err(Error::MalformedPath));
    assert_eq!(presentation.undisclose_subject("mainCourses[one]"), Err(Error::MalformedPath));
    assert_eq!(presentation.undisclose_evidence("documents[1"), Err(Error::MalformedPath));
    assert_eq!(presentation.set_undisclosed("vc..id"), Err(Error::MalformedPath));
}

#[test]
fn finalize_without_a_header_is_missing_the_challenge() {
    let issued = issue(CREDENTIAL);
    let mut presentation = SelectiveDiscosurePresentation::new(&issued);
    assert_eq!(presentation.finalize(vec![9]), Err(Error::MissingChallenge));
    assert_eq!(presentation.stage(), Stage::Accumulating);
    assert_eq!(presentation.undisclose_subject("name"), Ok(()));
}

#[test]
fn finalize_with_a_header_without_nonce_is_missing_the_challenge() {
    let issued = issue(CREDENTIAL);
    let mut presentation = SelectiveDiscosurePresentation::new(&issued);
    assert_eq!(presentation.set_presentation_header(header(None)), Ok(()));
    assert_eq!(presentation.finalize(vec![9]), Err(Error::MissingChallenge));
    assert_eq!(presentation.stage(), Stage::Accumulating);
}

#[test]
fn a_later_header_replaces_an_earlier_one() {
    let issued = issue(CREDENTIAL);
    let mut presentation = SelectiveDiscosurePresentation::new(&issued);
    assert_eq!(presentation.set_presentation_header(header(Some("first"))), Ok(()));
    assert_eq!(presentation.set_presentation_header(header(Some("second"))), Ok(()));
    let presented = presentation.finalize(vec![9]).unwrap();
    assert_eq!(presented.get_presentation_protected_header().nonce(), Some(&"second".to_owned()));
    assert_eq!(
        presented.get_presentation_protected_header().aud(),
        Some(&"https://verifier.example".to_owned())
    );
}

#[test]
fn after_finalize_every_change_fails() {
    let issued = issue(CREDENTIAL);
    let mut presentation = SelectiveDiscosurePresentation::new(&issued);
    assert_eq!(presentation.set_presentation_header(header(Some("475a7984"))), Ok(()));
    assert!(presentation.finalize(vec![9]).is_ok());
    assert_eq!(presentation.stage(), Stage::Finalized);
    let before = presentation.undisclosed();
    assert_eq!(presentation.undisclose_subject("name"), Err(Error::AlreadyFinalized));
    assert_eq!(presentation.undisclose_evidence("verifier"), Err(Error::AlreadyFinalized));
    assert_eq!(presentation.set_undisclosed("vc.issuer"), Err(Error::AlreadyFinalized));
    assert_eq!(presentation.set_undisclosed("not a path]"), Err(Error::AlreadyFinalized));
    assert_eq!(presentation.set_presentation_header(header(Some("other"))), Err(Error::AlreadyFinalized));
    assert_eq!(presentation.finalize(vec![9]), Err(Error::AlreadyFinalized));
    assert_eq!(presentation.undisclosed(), before);
    assert_eq!(
        presentation.builder().get_presentation_protected_header().unwrap().nonce(),
        Some(&"475a7984".to_owned())
    );
}

#[test]
fn presented_proof_carries_the_proof_bytes_and_the_marks() {
    let issued = issue(CREDENTIAL);
    let mut presentation = SelectiveDiscosurePresentation::new(&issued);
    assert_eq!(presentation.undisclose_subject("GPA"), Ok(()));
    assert_eq!(presentation.set_presentation_header(header(Some("475a7984"))), Ok(()));
    let hidden = presentation.undisclosed();
    let presented = presentation.finalize(vec![4, 5, 6]).unwrap();
    assert_eq!(presented.get_proof(), &[4, 5, 6]);
    assert_eq!(presented.get_payloads().get_undisclosed_indexes(), hidden);
    assert_eq!(presented.get_claims().unwrap().0, names(&issued));
}

#[test]
fn degree_scenario_discloses_what_was_not_hidden() {
    let issued = issue(
        r#"{"credentialSubject": {
            "id": 1234,
            "name": "Alice",
            "mainCourses": ["OOP", "Math"],
            "degree": {"type": "BachelorDegree", "name": "Bachelor of Science and Arts"}
        }}"#,
    );
    let mut presentation = SelectiveDiscosurePresentation::new(&issued);
    assert_eq!(presentation.undisclose_subject("mainCourses[1]"), Ok(()));
    assert_eq!(presentation.undisclose_subject("degree.name"), Ok(()));
    assert_eq!(presentation.set_presentation_header(header(Some("475a7984-1bb5-4c4c-a56f-822bccd46440"))), Ok(()));
    let presented = presentation.finalize(vec![0; 8]).unwrap();
    assert_eq!(
        disclosed_names(&presented),
        [
            "iss",
            "vc.credentialSubject.id",
            "vc.credentialSubject.name",
            "vc.credentialSubject.mainCourses[0]",
            "vc.credentialSubject.degree.type",
        ]
    );
    let compact = presented
        .encode(jsonprooftoken::encoding::SerializationType::COMPACT)
        .unwrap();
    let payloads: Vec<&str> = compact.split('.').nth(2).unwrap().split('~').collect();
    assert_eq!(payloads.len(), 7);
    assert_eq!(payloads[4], "");
    assert_eq!(payloads[6], "");
    assert!(payloads.iter().enumerate().all(|(i, p)| p.is_empty() == (i == 4 || i == 6)));
}

#[test]
fn what_the_issued_proof_hides_stays_hidden() {
    let mut issued = issue(CREDENTIAL);
    let mut payloads = issued.get_payloads().clone();
    payloads.set_undisclosed(0);
    issued.set_payloads(payloads);
    let presentation = SelectiveDiscosurePresentation::new(&issued);
    let hidden = hidden_names(&presentation);
    assert_eq!(hidden[0], "iss");
    assert_eq!(hidden[1..], DEFAULTS);
}

#[test]
fn no_granted_request_hides_what_is_always_disclosed() {
    let issued = issue(CREDENTIAL);
    let mut presentation = SelectiveDiscosurePresentation::new(&issued);
    for path in [
        "iss",
        "vc.credentialSubject",
        "vc.evidence",
        "vc.id",
        "vc.issuanceDate",
        "vc.expirationDate",
        "vc.credentialStatus",
        "vc",
        "vc.issuer",
        "vc.type",
        "vc.@context[0]",
        "v",
        "vc.issue",
        "vc.types",
    ] {
        let _ = presentation.set_undisclosed(path);
    }
    let hidden = hidden_names(&presentation);
    for name in names(&issued) {
        let spared = ["vc.@context", "vc.type", "vc.issuer", "vc.credentialSchema", "vc.refreshService"]
            .iter()
            .any(|region| name == *region || name.starts_with(&format!("{region}.")) || name.starts_with(&format!("{region}[")));
        assert_eq!(hidden.contains(&name), !spared);
    }
}

#[test]
fn check_ready_says_what_finalize_would_say() {
    let issued = issue(CREDENTIAL);
    let mut presentation = SelectiveDiscosurePresentation::new(&issued);
    assert_eq!(presentation.check_ready(), Err(Error::MissingChallenge));
    assert_eq!(presentation.set_presentation_header(header(None)), Ok(()));
    assert_eq!(presentation.check_ready(), Err(Error::MissingChallenge));
    assert_eq!(presentation.set_presentation_header(header(Some("n"))), Ok(()));
    assert_eq!(presentation.check_ready(), Ok(()));
    assert_eq!(presentation.stage(), Stage::Accumulating);
    assert!(presentation.finalize(vec![1]).is_ok());
    assert_eq!(presentation.check_ready(), Err(Error::AlreadyFinalized));
}
