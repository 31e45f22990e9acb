//! What this library takes on trust from the `jsonprooftoken` crate: the
//! types of its JSON Web Proofs, names for what they hold, and the contracts
//! of the functions that the presentation builder calls. Nothing here is
//! proved; each contract restates what the crate's source does.

use jsonprooftoken::errors::CustomError;
use jsonprooftoken::jpt::payloads::PayloadType;
use jsonprooftoken::jwp::header::PresentationProtectedHeader;
use jsonprooftoken::jwp::issued::JwpIssued;
use jsonprooftoken::jwp::presented::JwpPresented;
use jsonprooftoken::jwp::presented::JwpPresentedBuilder;
use vstd::prelude::*;

verus! {

/// `jsonprooftoken::jwp::issued::JwpIssued`, a decoded and verified proof in
/// its issued form.
#[verifier::external_type_specification]
#[verifier::external_body]
pub struct ExJwpIssued(JwpIssued);

/// `jsonprooftoken::jwp::presented::JwpPresentedBuilder`.
#[verifier::external_type_specification]
#[verifier::external_body]
pub struct ExJwpPresentedBuilder(JwpPresentedBuilder);

/// `jsonprooftoken::jwp::presented::JwpPresented`, a proof in its presented
/// form.
#[verifier::external_type_specification]
#[verifier::external_body]
pub struct ExJwpPresented(JwpPresented);

/// `jsonprooftoken::jwp::header::PresentationProtectedHeader`.
#[verifier::external_type_specification]
#[verifier::external_body]
pub struct ExPresentationProtectedHeader(PresentationProtectedHeader);

/// `jsonprooftoken::errors::CustomError`.
#[verifier::external_type_specification]
#[verifier::external_body]
pub struct ExCustomError(CustomError);

/// The claim names in the issuer protected header of an issued proof, in
/// order; none where the header holds no claims.
pub uninterp spec fn issued_claims(jwp: JwpIssued) -> Seq<Seq<char>>;

/// For each payload of an issued proof, in order, whether it is marked
/// undisclosed.
pub uninterp spec fn issued_hidden(jwp: JwpIssued) -> Seq<bool>;

/// The claim names in the issuer protected header that a builder holds, in
/// order; none where the header holds no claims.
pub uninterp spec fn builder_claims(builder: JwpPresentedBuilder) -> Seq<Seq<char>>;

/// For each payload that a builder holds, in order, whether it is marked
/// undisclosed.
pub uninterp spec fn builder_hidden(builder: JwpPresentedBuilder) -> Seq<bool>;

/// What a presentation header holds: the name of its algorithm, its key
/// identifier, its audience and its nonce, in this order.
pub uninterp spec fn header_parts(header: PresentationProtectedHeader) -> (Seq<char>, Option<Seq<char>>, Option<Seq<char>>, Option<Seq<char>>);

/// What the presentation header that a builder holds is made of, as
/// `header_parts` gives it; `None` where the builder holds no header.
pub uninterp spec fn builder_header(builder: JwpPresentedBuilder) -> Option<
    (Seq<char>, Option<Seq<char>>, Option<Seq<char>>, Option<Seq<char>>),
>;

/// The claim names in the issuer protected header of a presented proof.
pub uninterp spec fn presented_claims(jwp: JwpPresented) -> Seq<Seq<char>>;

/// For each payload of a presented proof, in order, whether it is marked
/// undisclosed.
pub uninterp spec fn presented_hidden(jwp: JwpPresented) -> Seq<bool>;

/// What the presentation header of a presented proof is made of, as
/// `header_parts` gives it.
pub uninterp spec fn presented_header(jwp: JwpPresented) -> (Seq<char>, Option<Seq<char>>, Option<Seq<char>>, Option<Seq<char>>);

/// The proof bytes of a presented proof.
pub uninterp spec fn presented_proof(jwp: JwpPresented) -> Seq<u8>;

/// Whether `i` is the first position at which `names` holds `name`.
pub open spec fn is_first_index(names: Seq<Seq<char>>, name: Seq<char>, i: int) -> bool {
    &&& 0 <= i < names.len()
    &&& names[i] == name
    &&& forall|j: int| 0 <= j < i ==> names[j] != name
}

/// `JwpPresentedBuilder::new` copies the issuer header and the payloads of
/// the issued proof and starts without a presentation header.
pub assume_specification[ JwpPresentedBuilder::new ](issued_jwp: &JwpIssued) -> (builder:
    JwpPresentedBuilder)
    ensures
        builder_claims(builder) == issued_claims(*issued_jwp),
        builder_hidden(builder) == issued_hidden(*issued_jwp),
        builder_header(builder) is None,
;

/// `JwpPresentedBuilder::build_with_proof` fails where the builder holds no
/// presentation header. Otherwise it hands out a presented proof with the
/// builder's issuer header, presentation header and payloads, and with the
/// proof bytes it was given.
pub assume_specification[ JwpPresentedBuilder::build_with_proof ](
    builder: &JwpPresentedBuilder,
    proof: Vec<u8>,
) -> (out: Result<JwpPresented, CustomError>)
    ensures
        match builder_header(*builder) {
            None => out is Err,
            Some(header) => out matches Ok(jwp) && presented_claims(jwp) == builder_claims(*builder)
                && presented_hidden(jwp) == builder_hidden(*builder) && presented_header(jwp)
                == header && presented_proof(jwp) == proof@,
        },
;

/// `JwpIssued::get_claims`: the claim names of an issued proof.
#[verifier::external_body]
pub(crate) fn claim_names(issued_jwp: &JwpIssued) -> (names: Vec<String>)
    ensures
        names.deep_view() == issued_claims(*issued_jwp),
{
    match issued_jwp.get_claims() {
        Some(claims) => claims.0.clone(),
        None => Vec::new(),
    }
}

/// `JwpPresentedBuilder::get_payloads`: which payloads the builder has
/// marked undisclosed.
#[verifier::external_body]
pub(crate) fn hidden_flags(builder: &JwpPresentedBuilder) -> (flags: Vec<bool>)
    ensures
        flags@ == builder_hidden(*builder),
{
    let mut flags = Vec::new();
    for payload in builder.get_payloads().0.iter() {
        flags.push(match payload.1 {
            PayloadType::Undisclosed => true,
            PayloadType::Disclosed => false,
            PayloadType::ProofMethods => false,
        });
    }
    flags
}

/// `JwpPresentedBuilder::set_undisclosed` looks the claim up among the claim
/// names. Where the name is absent it fails and changes nothing. Where it is
/// present it marks the payload at the name's first position as undisclosed,
/// if there is a payload at that position, and changes nothing else.
#[verifier::external_body]
pub(crate) fn hide_claim(builder: &mut JwpPresentedBuilder, claim: &str) -> (out: Result<
    (),
    CustomError,
>)
    ensures
        builder_claims(*final(builder)) == builder_claims(*old(builder)),
        builder_header(*final(builder)) == builder_header(*old(builder)),
        out is Ok <==> builder_claims(*old(builder)).contains(claim@),
        out is Err ==> builder_hidden(*final(builder)) == builder_hidden(*old(builder)),
        forall|i: int|
            is_first_index(builder_claims(*old(builder)), claim@, i) ==> builder_hidden(
                *final(builder),
            ) == (if i < builder_hidden(*old(builder)).len() {
                builder_hidden(*old(builder)).update(i, true)
            } else {
                builder_hidden(*old(builder))
            }),
{
    match builder.set_undisclosed(claim) {
        Ok(_) => Ok(()),
        Err(e) => Err(e),
    }
}

/// `JwpPresentedBuilder::set_presentation_protected_header` replaces the
/// presentation header and changes nothing else.
#[verifier::external_body]
pub(crate) fn bind_header(builder: &mut JwpPresentedBuilder, header: PresentationProtectedHeader)
    ensures
        builder_claims(*final(builder)) == builder_claims(*old(builder)),
        builder_hidden(*final(builder)) == builder_hidden(*old(builder)),
        builder_header(*final(builder)) == Some(header_parts(header)),
{
    builder.set_presentation_protected_header(header);
}

/// `PresentationProtectedHeader::nonce`: the nonce of a header, if it has
/// one.
#[verifier::external_body]
pub(crate) fn nonce_of(header: &PresentationProtectedHeader) -> (nonce: Option<String>)
    ensures
        nonce.deep_view() == header_parts(*header).3,
{
    header.nonce().cloned()
}

} // verus!
