use crate::claim_path::find_char;
use crate::claim_path::find_from;
use crate::claim_tree::is_location;
use crate::claim_tree::ClaimTree;
use crate::disclosure::DisclosureRegion;
use crate::document::has_method;
use crate::document::is_first_method;
use crate::document::IdentityDocument;
use crate::document::MethodError;
use crate::document::VerificationMethod;
use crate::resolver::Resolution;
use crate::resolver::ResolveError;
use crate::text::chars_of;
use crate::text::copy_string;
use crate::text::str_eq;
use crate::token::is_base64url;
use crate::token::is_base64url_text;
use crate::token::ArtifactKind;
use crate::timestamp::parse_timestamp;
use crate::timestamp::timestamp_of;
use vstd::prelude::*;

verus! {

/// Why the issuer of an artifact could not be resolved.
#[derive(Clone, Copy, Debug, PartialEq, Eq, Structural)]
pub enum Unresolvable {
    /// The resolver failed.
    Resolver(ResolveError),
    /// The issuer's document is marked as deactivated.
    Deactivated,
}

/// One semantic check that a credential failed.
#[derive(Clone, Copy, Debug, PartialEq, Eq, Structural)]
pub enum SemanticFailure {
    /// The credential does not claim the expected type.
    TypeMismatch,
    /// The credential was issued after now.
    IssuedInFuture,
    /// The credential expired before now.
    Expired,
}

/// Whether the semantic checks stop at the first failure.
#[derive(Clone, Copy, Debug, PartialEq, Eq, Structural)]
pub enum FailFast {
    /// Report the first failure only.
    FirstError,
    /// Report every failure.
    AllErrors,
}

/// Why a verification was turned down.
#[derive(Debug, PartialEq, Eq)]
pub enum VerificationError {
    /// The artifact is not of the right shape.
    MalformedArtifact,
    /// The issuer's document could not be had.
    IssuerUnresolvable(Unresolvable),
    /// The issuer's document holds no method under the key identifier.
    VerificationMethodNotFound,
    /// The method is not put forward for verification.
    MethodNotAuthorized,
    /// The proof engine turned the proof down.
    ProofInvalid,
    /// The proof holds and the credential fails these checks.
    Semantic(Vec<SemanticFailure>),
}

/// What a credential discloses of the fields that the semantic checks read.
/// A field that is not disclosed is `None`. Dates are in seconds since the
/// epoch.
#[derive(Debug, PartialEq, Eq)]
pub struct CredentialFacts {
    pub types: Option<Vec<String>>,
    pub issuance_date: Option<i64>,
    pub expiration_date: Option<i64>,
}

/// A claim that an artifact discloses.
#[derive(Debug, PartialEq, Eq)]
pub struct DisclosedClaim {
    pub name: String,
    pub value: String,
}

/// The issuer and the key that an artifact names.
#[derive(Debug, PartialEq, Eq)]
pub struct IssuerKey {
    /// The identity reference to resolve.
    pub issuer: String,
    /// The key identifier to look up in the resolved document.
    pub key_id: String,
}

/// The identity reference in a key identifier `<identity>#<fragment>`: what
/// stands before the first `#`, where neither side of it is empty.
pub open spec fn issuer_of(key_id: Seq<char>) -> Option<Seq<char>> {
    let hash = find_from(key_id, '#', 0);
    if 0 < hash && hash + 1 < key_id.len() {
        Some(key_id.subrange(0, hash))
    } else {
        None
    }
}

/// Reads the issuer off the key identifier that the protected header of an
/// artifact declares.
///
/// Fails with `MalformedArtifact` where the header declares no key
/// identifier, or one that names no identity.
pub fn issuer_key(key_id: Option<&String>) -> (out: Result<IssuerKey, VerificationError>)
    ensures
        match key_id {
            Some(id) => match issuer_of(id@) {
                Some(issuer) => out matches Ok(k) && k.issuer@ == issuer && k.key_id@ == id@,
                None => out == Err::<IssuerKey, VerificationError>(
                    VerificationError::MalformedArtifact,
                ),
            },
            None => out == Err::<IssuerKey, VerificationError>(VerificationError::MalformedArtifact),
        },
{
    let id = match key_id {
        Some(id) => id,
        None => {
            return Err(VerificationError::MalformedArtifact);
        },
    };
    let chars = chars_of(id.as_str());
    let hash = find_char(&chars, '#', 0);
    if hash == 0 || hash >= chars.len() || hash + 1 >= chars.len() {
        return Err(VerificationError::MalformedArtifact);
    }
    Ok(IssuerKey { issuer: id.as_str().substring_char(0, hash).to_owned(), key_id: copy_string(id) })
}

/// What the resolver's answer and the key identifier make of the search for
/// the issuer's key: the position of the method in the document, or the
/// reason for which there is none.
pub open spec fn key_choice(
    resolution: Result<Resolution, ResolveError>,
    key_id: Seq<char>,
) -> Result<int, VerificationError> {
    match resolution {
        Err(e) => Err(VerificationError::IssuerUnresolvable(Unresolvable::Resolver(e))),
        Ok(Resolution::Deactivated(_)) => Err(
            VerificationError::IssuerUnresolvable(Unresolvable::Deactivated),
        ),
        Ok(Resolution::Active(document)) => if !has_method(document@.methods, key_id) {
            Err(VerificationError::VerificationMethodNotFound)
        } else {
            let i = choose|i: int| is_first_method(document@.methods, key_id, i);
            if document@.methods[i].authorized {
                Ok(i)
            } else {
                Err(VerificationError::MethodNotAuthorized)
            }
        },
    }
}

/// Where `methods` holds a method under `key_id`, one of them is the first.
pub proof fn lemma_first_method_exists(document: IdentityDocument, key_id: Seq<char>)
    requires
        has_method(document@.methods, key_id),
    ensures
        exists|i: int| is_first_method(document@.methods, key_id, i),
{
    let methods = document@.methods;
    let some = choose|i: int| 0 <= i < methods.len() && methods[i].id == key_id;
    lemma_first_before(document, key_id, some);
}

proof fn lemma_first_before(document: IdentityDocument, key_id: Seq<char>, upto: int)
    requires
        0 <= upto < document@.methods.len(),
        document@.methods[upto].id == key_id,
    ensures
        exists|i: int| is_first_method(document@.methods, key_id, i),
    decreases upto,
{
    let methods = document@.methods;
    if exists|j: int| 0 <= j < upto && methods[j].id == key_id {
        let j = choose|j: int| 0 <= j < upto && methods[j].id == key_id;
        lemma_first_before(document, key_id, j);
    } else {
        assert(is_first_method(methods, key_id, upto));
    }
}

/// Picks the issuer's verification key out of what the resolver answered.
///
/// A failure of the resolver, and a deactivated document, come back as
/// `IssuerUnresolvable`; a document without a method under `key_id` as
/// `VerificationMethodNotFound`; a method that is not put forward for
/// verification as `MethodNotAuthorized`.
pub fn select_key(resolution: Result<Resolution, ResolveError>, key_id: &str) -> (out: Result<
    VerificationMethod,
    VerificationError,
>)
    ensures
        match key_choice(resolution, key_id@) {
            Ok(i) => out matches Ok(method) && method@ == resolution->Ok_0.document()@.methods[i],
            Err(e) => out == Err::<VerificationMethod, VerificationError>(e),
        },
{
    match resolution {
        Err(e) => Err(VerificationError::IssuerUnresolvable(Unresolvable::Resolver(e))),
        Ok(Resolution::Deactivated(_)) => Err(
            VerificationError::IssuerUnresolvable(Unresolvable::Deactivated),
        ),
        Ok(Resolution::Active(document)) => {
            proof {
                if has_method(document@.methods, key_id@) {
                    lemma_first_method_exists(document, key_id@);
                }
            }
            match document.verification_method(key_id) {
                Ok(method) => Ok(method.duplicate()),
                Err(MethodError::VerificationMethodNotFound) => Err(
                    VerificationError::VerificationMethodNotFound,
                ),
                Err(MethodError::MethodNotAuthorized) => Err(
                    VerificationError::MethodNotAuthorized,
                ),
            }
        },
    }
}

/// Whether the disclosed types fail to hold the expected one.
pub open spec fn type_mismatch(types: Option<Vec<String>>, expected: Seq<char>) -> bool {
    types matches Some(claimed) && !(exists|i: int|
        0 <= i < claimed@.len() && claimed@[i]@ == expected)
}

/// Whether the disclosed issuance date lies strictly after `now`.
pub open spec fn issued_in_future(issuance_date: Option<i64>, now: i64) -> bool {
    issuance_date matches Some(at) && at > now
}

/// Whether the disclosed expiration date lies strictly before `now`.
pub open spec fn expired(expiration_date: Option<i64>, now: i64) -> bool {
    expiration_date matches Some(at) && at < now
}

/// Every semantic check that the facts fail, in the order of the checks:
/// type, issuance date, expiration date.
pub open spec fn all_failures(facts: CredentialFacts, expected: Seq<char>, now: i64) -> Seq<
    SemanticFailure,
> {
    (if type_mismatch(facts.types, expected) {
        seq![SemanticFailure::TypeMismatch]
    } else {
        seq![]
    }) + (if issued_in_future(facts.issuance_date, now) {
        seq![SemanticFailure::IssuedInFuture]
    } else {
        seq![]
    }) + (if expired(facts.expiration_date, now) {
        seq![SemanticFailure::Expired]
    } else {
        seq![]
    })
}

/// The failures that are reported: all of them, or the first alone.
pub open spec fn reported_failures(
    facts: CredentialFacts,
    expected: Seq<char>,
    now: i64,
    mode: FailFast,
) -> Seq<SemanticFailure> {
    let all = all_failures(facts, expected, now);
    if mode == FailFast::FirstError && all.len() > 1 {
        all.take(1)
    } else {
        all
    }
}

/// Whether `types` holds `expected`.
fn holds_type(types: &Vec<String>, expected: &str) -> (yes: bool)
    ensures
        yes == exists|i: int| 0 <= i < types@.len() && types@[i]@ == expected@,
{
    let wanted = String::from_str(expected);
    let mut i: usize = 0;
    while i < types.len()
        invariant
            i <= types.len(),
            wanted@ == expected@,
            forall|j: int| 0 <= j < i ==> types@[j]@ != expected@,
        decreases types.len() - i,
    {
        if types[i] == wanted {
            return true;
        }
        i += 1;
    }
    false
}

/// Runs the semantic checks on what a credential discloses: that it claims
/// the expected type, that it was not issued after `now`, and that it did
/// not expire before `now`. A field that is not disclosed is not checked.
///
/// Reports the failed checks in the order of the checks; with
/// `FailFast::FirstError`, the first of them alone.
pub fn check_semantics(facts: &CredentialFacts, expected_type: &str, now: i64, mode: FailFast) -> (out:
    Vec<SemanticFailure>)
    ensures
        out@ == reported_failures(*facts, expected_type@, now, mode),
{
    let mut out: Vec<SemanticFailure> = Vec::new();
    let first_only = match mode {
        FailFast::FirstError => true,
        FailFast::AllErrors => false,
    };
    let mismatch = match &facts.types {
        Some(claimed) => !holds_type(claimed, expected_type),
        None => false,
    };
    if mismatch {
        out.push(SemanticFailure::TypeMismatch);
        if first_only {
            assert(out@ =~= all_failures(*facts, expected_type@, now).take(1));
            assert(all_failures(*facts, expected_type@, now).len() == 1 ==> out@
                =~= all_failures(*facts, expected_type@, now));
            return out;
        }
    }
    let early = match facts.issuance_date {
        Some(at) => at > now,
        None => false,
    };
    if early {
        out.push(SemanticFailure::IssuedInFuture);
        if first_only {
            assert(out@ =~= all_failures(*facts, expected_type@, now).take(1));
            assert(all_failures(*facts, expected_type@, now).len() == 1 ==> out@
                =~= all_failures(*facts, expected_type@, now));
            return out;
        }
    }
    let late = match facts.expiration_date {
        Some(at) => at < now,
        None => false,
    };
    if late {
        out.push(SemanticFailure::Expired);
    }
    assert(out@ =~= all_failures(*facts, expected_type@, now));
    out
}

/// The claims that an artifact discloses: each name with its payload, for
/// the payloads that are there, in order.
pub open spec fn disclosed_view(names: Seq<Seq<char>>, payloads: Seq<Option<Seq<char>>>) -> Seq<
    (Seq<char>, Seq<char>),
>
    decreases payloads.len(),
{
    if payloads.len() == 0 || names.len() != payloads.len() {
        seq![]
    } else {
        let before = disclosed_view(names.drop_last(), payloads.drop_last());
        match payloads.last() {
            Some(value) => before.push((names.last(), value)),
            None => before,
        }
    }
}

/// Every disclosed claim stems from a payload that is there: nothing stands
/// in the disclosed claims for a payload that is not.
pub proof fn lemma_disclosed_claims_are_disclosed(
    names: Seq<Seq<char>>,
    payloads: Seq<Option<Seq<char>>>,
)
    requires
        names.len() == payloads.len(),
    ensures
        forall|k: int|
            0 <= k < disclosed_view(names, payloads).len() ==> exists|i: int|
                0 <= i < payloads.len() && payloads[i] == Some(
                    (#[trigger] disclosed_view(names, payloads)[k]).1,
                ) && names[i] == disclosed_view(names, payloads)[k].0,
        forall|i: int|
            0 <= i < payloads.len() && payloads[i] is Some ==> exists|k: int|
                0 <= k < disclosed_view(names, payloads).len() && disclosed_view(
                    names,
                    payloads,
                )[k] == (names[i], (#[trigger] payloads[i])->Some_0),
        disclosed_view(names, payloads).len() <= payloads.len(),
    decreases payloads.len(),
{
    if payloads.len() > 0 {
        let shorter_names = names.drop_last();
        let shorter = payloads.drop_last();
        lemma_disclosed_claims_are_disclosed(shorter_names, shorter);
        let before = disclosed_view(shorter_names, shorter);
        let all = disclosed_view(names, payloads);
        assert forall|k: int| 0 <= k < all.len() implies exists|i: int|
            0 <= i < payloads.len() && payloads[i] == Some((#[trigger] all[k]).1) && names[i]
                == all[k].0 by {
            if k < before.len() {
                assert(all[k] == before[k]);
                let i = choose|i: int|
                    0 <= i < shorter.len() && shorter[i] == Some(before[k].1) && shorter_names[i]
                        == before[k].0;
                assert(payloads[i] == shorter[i] && names[i] == shorter_names[i]);
            } else {
                let i = payloads.len() - 1;
                assert(payloads[i] == Some(all[k].1) && names[i] == all[k].0);
            }
        }
        assert forall|i: int| 0 <= i < payloads.len() && payloads[i] is Some implies exists|k: int|
            0 <= k < all.len() && all[k] == (names[i], (#[trigger] payloads[i])->Some_0) by {
            if i < shorter.len() {
                assert(shorter[i] == payloads[i] && shorter_names[i] == names[i]);
                let k = choose|k: int|
                    0 <= k < before.len() && before[k] == (
                        shorter_names[i],
                        (#[trigger] shorter[i])->Some_0,
                    );
                assert(all[k] == before[k]);
            } else {
                let k = all.len() - 1;
                assert(all[k] == (names[i], payloads[i]->Some_0));
            }
        }
    }
}

/// The view of a list of disclosed claims.
pub open spec fn claims_view(claims: Seq<DisclosedClaim>) -> Seq<(Seq<char>, Seq<char>)> {
    Seq::new(claims.len(), |i: int| (claims[i].name@, claims[i].value@))
}

/// The view of a list of payloads, of which some are not there.
pub open spec fn payloads_view(payloads: Seq<Option<String>>) -> Seq<Option<Seq<char>>> {
    Seq::new(
        payloads.len(),
        |i: int|
            match payloads[i] {
                Some(value) => Some(value@),
                None => None,
            },
    )
}

/// The claims that an artifact discloses, each under its name. A payload
/// that is not disclosed leaves no trace: neither a value nor a placeholder.
///
/// Fails with `MalformedArtifact` where the artifact does not hold one
/// payload for each claim name.
pub fn disclosed_claims(names: &Vec<String>, payloads: &Vec<Option<String>>) -> (out: Result<
    Vec<DisclosedClaim>,
    VerificationError,
>)
    ensures
        names@.len() != payloads@.len() ==> out == Err::<Vec<DisclosedClaim>, VerificationError>(
            VerificationError::MalformedArtifact,
        ),
        names@.len() == payloads@.len() ==> (out matches Ok(claims) && claims_view(claims@)
            == disclosed_view(names.deep_view(), payloads_view(payloads@))),
{
    if names.len() != payloads.len() {
        return Err(VerificationError::MalformedArtifact);
    }
    let ghost all_names = names.deep_view();
    let ghost all_payloads = payloads_view(payloads@);
    let mut claims: Vec<DisclosedClaim> = Vec::new();
    let mut i: usize = 0;
    while i < names.len()
        invariant
            i <= names.len(),
            names.len() == payloads.len(),
            all_names == names.deep_view(),
            all_payloads == payloads_view(payloads@),
            claims_view(claims@) == disclosed_view(all_names.take(i as int), all_payloads.take(i as int)),
        decreases names.len() - i,
    {
        let ghost before = claims_view(claims@);
        proof {
            assert(all_names.take(i + 1).drop_last() =~= all_names.take(i as int));
            assert(all_payloads.take(i + 1).drop_last() =~= all_payloads.take(i as int));
            assert(all_names.take(i + 1).last() == names@[i as int]@);
        }
        match &payloads[i] {
            Some(value) => {
                claims.push(
                    DisclosedClaim { name: copy_string(&names[i]), value: copy_string(value) },
                );
                assert(claims_view(claims@) =~= before.push((names@[i as int]@, value@)));
            },
            None => {},
        }
        i += 1;
    }
    assert(all_names.take(names.len() as int) =~= all_names);
    assert(all_payloads.take(names.len() as int) =~= all_payloads);
    Ok(claims)
}

/// The names of a list of disclosed claims.
pub open spec fn names_of(claims: Seq<DisclosedClaim>) -> Seq<Seq<char>> {
    Seq::new(claims.len(), |i: int| claims[i].name@)
}

/// The disclosed claims that lie in `region`, by their positions in rising
/// order: those whose names lead to the region or into it.
pub fn claims_in_region(claims: &Vec<DisclosedClaim>, region: DisclosureRegion) -> (out: Vec<usize>)
    ensures
        is_location(names_of(claims@), region.spec_path(), out@),
{
    let mut names: Vec<String> = Vec::new();
    let mut i: usize = 0;
    while i < claims.len()
        invariant
            i <= claims.len(),
            names.len() == i,
            forall|j: int| 0 <= j < i ==> names@[j]@ == claims@[j].name@,
        decreases claims.len() - i,
    {
        names.push(copy_string(&claims[i].name));
        i += 1;
    }
    assert(names.deep_view() =~= names_of(claims@));
    let tree = ClaimTree::from_names(names);
    match tree.locate(&region.path()) {
        Ok(found) => found,
        Err(_) => Vec::new(),
    }
}

/// What a date that a credential discloses comes to: no date where none is
/// disclosed, and no result at all where what is disclosed is no timestamp.
pub open spec fn date_of(text: Option<Seq<char>>) -> Option<Option<i64>> {
    match text {
        None => Some(None),
        Some(t) => match timestamp_of(t) {
            Some(seconds) => Some(Some(seconds as i64)),
            None => None,
        },
    }
}

/// Puts together what a credential discloses of its types and its dates,
/// the dates being written as timestamps `YYYY-MM-DDThh:mm:ssZ`.
///
/// Fails with `MalformedArtifact` where a disclosed date is no timestamp.
pub fn credential_facts(
    types: Option<Vec<String>>,
    issuance_date: Option<&str>,
    expiration_date: Option<&str>,
) -> (out: Result<CredentialFacts, VerificationError>)
    ensures
        match (
            date_of(
                match issuance_date {
                    Some(t) => Some(t@),
                    None => None,
                },
            ),
            date_of(
                match expiration_date {
                    Some(t) => Some(t@),
                    None => None,
                },
            ),
        ) {
            (Some(issued), Some(expires)) => out == Ok::<CredentialFacts, VerificationError>(
                CredentialFacts { types, issuance_date: issued, expiration_date: expires },
            ),
            _ => out == Err::<CredentialFacts, VerificationError>(
                VerificationError::MalformedArtifact,
            ),
        },
{
    let issued = match issuance_date {
        None => None,
        Some(text) => match parse_timestamp(text) {
            Some(seconds) => Some(seconds),
            None => {
                return Err(VerificationError::MalformedArtifact);
            },
        },
    };
    let expires = match expiration_date {
        None => None,
        Some(text) => match parse_timestamp(text) {
            Some(seconds) => Some(seconds),
            None => {
                return Err(VerificationError::MalformedArtifact);
            },
        },
    };
    Ok(CredentialFacts { types, issuance_date: issued, expiration_date: expires })
}

/// The first text of a list, if it holds any.
pub open spec fn first_text(texts: Seq<String>) -> Option<Seq<char>> {
    if texts.len() == 0 {
        None
    } else {
        Some(texts[0]@)
    }
}

/// Puts together what a credential discloses from the texts that its
/// disclosed claims hold in the regions of its types and of its two dates.
/// No text in a region means that the region is not disclosed. Of a date
/// that is disclosed in more than one claim, the first claim counts.
///
/// Fails with `MalformedArtifact` where a disclosed date is no timestamp.
pub fn disclosed_facts(
    types: Vec<String>,
    issuance_dates: &Vec<String>,
    expiration_dates: &Vec<String>,
) -> (out: Result<CredentialFacts, VerificationError>)
    ensures
        match (date_of(first_text(issuance_dates@)), date_of(first_text(expiration_dates@))) {
            (Some(issued), Some(expires)) => out == Ok::<CredentialFacts, VerificationError>(
                CredentialFacts {
                    types: if types@.len() == 0 {
                        None
                    } else {
                        Some(types)
                    },
                    issuance_date: issued,
                    expiration_date: expires,
                },
            ),
            _ => out == Err::<CredentialFacts, VerificationError>(
                VerificationError::MalformedArtifact,
            ),
        },
{
    let issued = if issuance_dates.len() == 0 {
        None
    } else {
        Some(issuance_dates[0].as_str())
    };
    let expires = if expiration_dates.len() == 0 {
        None
    } else {
        Some(expiration_dates[0].as_str())
    };
    let claimed = if types.len() == 0 {
        None
    } else {
        Some(types)
    };
    credential_facts(claimed, issued, expires)
}

/// Whether `name` names an algorithm for issued proofs that the proof engine
/// offers.
pub open spec fn is_issuing_algorithm(name: Seq<char>) -> bool {
    name == "BBS-BLS12381-SHA256"@ || name == "BBS-BLS12381-SHAKE256"@
}

/// Whether `name` names an algorithm for presented proofs that the proof
/// engine offers.
pub open spec fn is_presenting_algorithm(name: Seq<char>) -> bool {
    name == "BBS-BLS12381-SHA256-PROOF"@ || name == "BBS-BLS12381-SHAKE256-PROOF"@
}

/// Whether `name` names an algorithm for issued proofs that the proof engine
/// offers.
pub fn issuing_algorithm_is_offered(name: &str) -> (yes: bool)
    ensures
        yes == is_issuing_algorithm(name@),
{
    str_eq(name, "BBS-BLS12381-SHA256") || str_eq(name, "BBS-BLS12381-SHAKE256")
}

/// Whether `name` names an algorithm for presented proofs that the proof
/// engine offers.
pub fn presenting_algorithm_is_offered(name: &str) -> (yes: bool)
    ensures
        yes == is_presenting_algorithm(name@),
{
    str_eq(name, "BBS-BLS12381-SHA256-PROOF") || str_eq(name, "BBS-BLS12381-SHAKE256-PROOF")
}

/// Whether the headers of an artifact name algorithms that the proof engine
/// offers: the issuer header one for issued proofs, and the presentation
/// header of a presented artifact one for presented proofs.
pub open spec fn names_offered_algorithms(
    kind: ArtifactKind,
    issuer: Option<Seq<char>>,
    presentation: Option<Seq<char>>,
) -> bool {
    &&& issuer matches Some(name) && is_issuing_algorithm(name)
    &&& kind == ArtifactKind::Presented ==> (presentation matches Some(name)
        && is_presenting_algorithm(name))
}

/// Checks the algorithms that the headers of an artifact name, before the
/// proof engine is asked.
///
/// Fails with `MalformedArtifact` where a header names no algorithm, or one
/// that the proof engine does not offer.
pub fn check_algorithms(kind: ArtifactKind, issuer: Option<&str>, presentation: Option<&str>) -> (out:
    Result<(), VerificationError>)
    ensures
        out == (if names_offered_algorithms(
            kind,
            match issuer {
                Some(name) => Some(name@),
                None => None,
            },
            match presentation {
                Some(name) => Some(name@),
                None => None,
            },
        ) {
            Ok::<(), VerificationError>(())
        } else {
            Err::<(), VerificationError>(VerificationError::MalformedArtifact)
        }),
{
    let issuing = match issuer {
        Some(name) => issuing_algorithm_is_offered(name),
        None => false,
    };
    if !issuing {
        return Err(VerificationError::MalformedArtifact);
    }
    match kind {
        ArtifactKind::Issued => Ok(()),
        ArtifactKind::Presented => {
            let presenting = match presentation {
                Some(name) => presenting_algorithm_is_offered(name),
                None => false,
            };
            if presenting {
                Ok(())
            } else {
                Err(VerificationError::MalformedArtifact)
            }
        },
    }
}

/// Whether the two coordinates of a key are written as the proof engine
/// reads them: each as base64 text.
pub fn key_is_usable(x: &str, y: &str) -> (yes: bool)
    ensures
        yes == (is_base64url(x@) && is_base64url(y@)),
{
    is_base64url_text(x) && is_base64url_text(y)
}

/// Closes a verification once the proof engine has spoken.
///
/// Fails with `ProofInvalid` where the engine turned the proof down. Where
/// the proof holds, the semantic checks are run on what the credential
/// discloses; the failed checks come back as `Semantic`, all of them or the
/// first alone. Where none fails, the disclosed claims are handed out as
/// they were given.
pub fn conclude(
    proof_valid: bool,
    facts: &CredentialFacts,
    expected_type: &str,
    now: i64,
    mode: FailFast,
    claims: Vec<DisclosedClaim>,
) -> (out: Result<Vec<DisclosedClaim>, VerificationError>)
    ensures
        !proof_valid ==> out == Err::<Vec<DisclosedClaim>, VerificationError>(
            VerificationError::ProofInvalid,
        ),
        proof_valid && all_failures(*facts, expected_type@, now).len() > 0 ==> (out matches Err(
            VerificationError::Semantic(failures),
        ) && failures@ == reported_failures(*facts, expected_type@, now, mode)),
        proof_valid && all_failures(*facts, expected_type@, now).len() == 0 ==> out == Ok::<
            Vec<DisclosedClaim>,
            VerificationError,
        >(claims),
{
    if !proof_valid {
        return Err(VerificationError::ProofInvalid);
    }
    let failures = check_semantics(facts, expected_type, now, mode);
    if failures.len() > 0 {
        Err(VerificationError::Semantic(failures))
    } else {
        Ok(claims)
    }
}

} // verus!
