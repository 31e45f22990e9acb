use identity_credential::presentation::SelectiveDiscosurePresentation;
use identity_credential::token::frame;
use identity_credential::token::is_base64url_text;
use identity_credential::token::split_text;
use identity_credential::token::ArtifactKind;
use identity_credential::token::Frame;
use identity_credential::verification::VerificationError;
use jsonprooftoken::encoding::base64url_encode;
use jsonprooftoken::encoding::SerializationType;
use jsonprooftoken::jpa::algs::PresentationProofAlgorithm;
use jsonprooftoken::jpa::algs::ProofAlgorithm;
use jsonprooftoken::jpt::claims::JptClaims;
use jsonprooftoken::jwp::header::IssuerProtectedHeader;
use jsonprooftoken::jwp::header::PresentationProtectedHeader;
use jsonprooftoken::jwp::issued::JwpIssued;
use jsonprooftoken::jwp::issued::JwpIssuedBuilder;

fn issue() -> JwpIssued {
    let vc: serde_json::Value =
        serde_json::from_str(r#"{"id": "urn:1", "credentialSubject": {"name": "Alice", "age": 30}}"#).unwrap();
    let mut claims = JptClaims::new();
    claims.set_claim(Some("vc"), vc, true);
    JwpIssuedBuilder::new(IssuerProtectedHeader::new(ProofAlgorithm::BLS12381_SHA256), claims)
        .build_with_proof(vec![1, 2, 3, 4, 5])
        .unwrap()
}

#[test]
fn split_cuts_at_every_separator() {
    assert_eq!(split_text("a.b.c", '.'), ["a", "b", "c"]);
    assert_eq!(split_text("abc", '.'), ["abc"]);
    assert_eq!(split_text("", '.'), [""]);
    assert_eq!(split_text(".", '.'), ["", ""]);
    assert_eq!(split_text("a..b.", '.'), ["a", "", "b", ""]);
    assert_eq!(split_text("~x~", '~'), ["", "x", ""]);
    assert_eq!(split_text("é~ü", '~'), ["é", "ü"]);
}

#[test]
fn base64_text_is_recognised() {
    for text in ["", "AA", "AAA", "AAAA", "AQ", "AQI", "AQID", "-_-_", "eyJhIjoxfQ", "_w"] {
        assert!(is_base64url_text(text));
    }
}

#[test]
fn other_text_is_not_base64() {
    for text in ["A", "AAAAA", "AB", "AAB", "A=", "AA==", "a+b/", "a b", "é", "AQ.", "_x", "AAD"] {
        assert!(!is_base64url_text(text));
    }
}

#[test]
fn base64_text_is_what_the_encoder_writes() {
    for len in 0..40usize {
        let bytes: Vec<u8> = (0..len).map(|i| (i * 37 + 11) as u8).collect();
        assert!(is_base64url_text(&base64url_encode(&bytes)));
    }
}

#[test]
fn an_issued_token_has_three_parts() {
    assert_eq!(
        frame("aGVhZGVy.cGF5bG9hZA~~AQ.cHJvb2Y"),
        Ok(Frame {
            kind: ArtifactKind::Issued,
            issuer_header: "aGVhZGVy".to_owned(),
            presentation_header: None,
            payloads: vec![Some("cGF5bG9hZA".to_owned()), None, Some("AQ".to_owned())],
            proof: "cHJvb2Y".to_owned(),
        })
    );
}

#[test]
fn a_presented_token_has_four_parts() {
    assert_eq!(
        frame("aGVhZGVy.AAAA.~cGF5bG9hZA.AQID"),
        Ok(Frame {
            kind: ArtifactKind::Presented,
            issuer_header: "aGVhZGVy".to_owned(),
            presentation_header: Some("AAAA".to_owned()),
            payloads: vec![None, Some("cGF5bG9hZA".to_owned())],
            proof: "AQID".to_owned(),
        })
    );
}

#[test]
fn an_empty_payload_section_is_one_hidden_payload() {
    assert_eq!(frame("AAAA..").map(|f| f.payloads), Ok(vec![None]));
    assert_eq!(frame("AAAA..").map(|f| f.proof), Ok(String::new()));
}

#[test]
fn the_wrong_number_of_parts_is_malformed() {
    for token in ["", "AAAA", "AAAA.AAAA", "AAAA.AAAA.AAAA.AAAA.AAAA", "....."] {
        assert_eq!(frame(token), Err(VerificationError::MalformedArtifact));
    }
}

#[test]
fn an_empty_header_is_malformed() {
    assert_eq!(frame(".AAAA.AAAA"), Err(VerificationError::MalformedArtifact));
    assert_eq!(frame("AAAA..AAAA.AAAA"), Err(VerificationError::MalformedArtifact));
    assert_eq!(frame(".AAAA.AAAA.AAAA"), Err(VerificationError::MalformedArtifact));
}

#[test]
fn a_part_that_is_not_base64_is_malformed() {
    for token in [
        "AA!A.AAAA.AAAA",
        "AAAA.AA A.AAAA",
        "AAAA.AAAA~A.AAAA",
        "AAAA.AAAA.AAAAA",
        "AAAA.AAAA.AA==",
        "AAAA.A%AA.AAAA.AAAA",
        "AAAA.AAAA.AAAA.A",
    ] {
        assert_eq!(frame(token), Err(VerificationError::MalformedArtifact));
    }
}

#[test]
fn an_encoded_issued_proof_is_framed() {
    let issued = issue();
    let token = issued.encode(SerializationType::COMPACT).unwrap();
    let framed = frame(&token).unwrap();
    assert_eq!(framed.kind, ArtifactKind::Issued);
    assert_eq!(framed.presentation_header, None);
    assert_eq!(framed.payloads.len(), 3);
    assert!(framed.payloads.iter().all(|p| p.is_some()));
    assert_eq!(framed.proof, base64url_encode([1u8, 2, 3, 4, 5]));
    assert_eq!(
        format!(
            "{}.{}.{}",
            framed.issuer_header,
            framed.payloads.iter().map(|p| p.clone().unwrap_or_default()).collect::<Vec<_>>().join("~"),
            framed.proof
        ),
        token
    );
}

#[test]
fn an_encoded_presented_proof_is_framed_without_what_is_hidden() {
    let issued = issue();
    let mut presentation = SelectiveDiscosurePresentation::new(&issued);
    presentation.undisclose_subject("age").unwrap();
    let mut header = PresentationProtectedHeader::new(PresentationProofAlgorithm::BLS12381_SHA256_PROOF);
    header.set_nonce(Some("nonce".to_owned()));
    presentation.set_presentation_header(header).unwrap();
    let presented = presentation.finalize(vec![9, 9]).unwrap();
    let framed = frame(&presented.encode(SerializationType::COMPACT).unwrap()).unwrap();
    assert_eq!(framed.kind, ArtifactKind::Presented);
    assert!(framed.presentation_header.is_some());
    assert_eq!(
        framed.payloads.iter().map(|p| p.is_some()).collect::<Vec<_>>(),
        [false, true, false]
    );
    assert_eq!(framed.payloads[1], Some(base64url_encode("\"Alice\"")));
}
