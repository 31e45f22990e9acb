use crate::claim_path::is_name;
use crate::claim_path::is_name_char;
use crate::claim_path::ClaimPath;
use crate::claim_path::PathSegment;
use crate::claim_path::Step;
use crate::text::str_eq;
use vstd::prelude::*;

verus! {

/// How a region of a credential is shown to a verifier by default.
#[derive(Clone, Copy, Debug, PartialEq, Eq, Structural)]
pub enum Visibility {
    /// The region is always shown; the holder cannot hide it.
    AlwaysDisclosed,
    /// The region is hidden in every presentation.
    AlwaysUndisclosed,
    /// The holder chooses what to hide.
    HolderSelectable,
}

/// The regions of a credential: its top-level properties.
#[derive(Clone, Copy, Debug, PartialEq, Eq, Structural)]
pub enum DisclosureRegion {
    Context,
    Id,
    Type,
    Issuer,
    IssuanceDate,
    ExpirationDate,
    Subject,
    Schema,
    Status,
    RefreshService,
    TermsOfUse,
    Evidence,
}

/// The name of the claim under which a token carries the credential.
pub open spec fn root_name() -> Seq<char> {
    "vc"@
}

/// The name of the claim under which a token carries the credential.
pub fn credential_root() -> (name: &'static str)
    ensures
        name@ == root_name(),
{
    "vc"
}

impl DisclosureRegion {
    /// The name of the credential property that makes up this region.
    pub open spec fn spec_name(self) -> Seq<char> {
        match self {
            DisclosureRegion::Context => "@context"@,
            DisclosureRegion::Id => "id"@,
            DisclosureRegion::Type => "type"@,
            DisclosureRegion::Issuer => "issuer"@,
            DisclosureRegion::IssuanceDate => "issuanceDate"@,
            DisclosureRegion::ExpirationDate => "expirationDate"@,
            DisclosureRegion::Subject => "credentialSubject"@,
            DisclosureRegion::Schema => "credentialSchema"@,
            DisclosureRegion::Status => "credentialStatus"@,
            DisclosureRegion::RefreshService => "refreshService"@,
            DisclosureRegion::TermsOfUse => "termsOfUse"@,
            DisclosureRegion::Evidence => "evidence"@,
        }
    }

    /// The name of the credential property that makes up this region.
    pub fn name(self) -> (name: &'static str)
        ensures
            name@ == self.spec_name(),
    {
        match self {
            DisclosureRegion::Context => "@context",
            DisclosureRegion::Id => "id",
            DisclosureRegion::Type => "type",
            DisclosureRegion::Issuer => "issuer",
            DisclosureRegion::IssuanceDate => "issuanceDate",
            DisclosureRegion::ExpirationDate => "expirationDate",
            DisclosureRegion::Subject => "credentialSubject",
            DisclosureRegion::Schema => "credentialSchema",
            DisclosureRegion::Status => "credentialStatus",
            DisclosureRegion::RefreshService => "refreshService",
            DisclosureRegion::TermsOfUse => "termsOfUse",
            DisclosureRegion::Evidence => "evidence",
        }
    }

    /// The policy table: the default visibility of each region.
    pub open spec fn spec_visibility(self) -> Visibility {
        match self {
            DisclosureRegion::Context => Visibility::AlwaysDisclosed,
            DisclosureRegion::Id => Visibility::AlwaysUndisclosed,
            DisclosureRegion::Type => Visibility::AlwaysDisclosed,
            DisclosureRegion::Issuer => Visibility::AlwaysDisclosed,
            DisclosureRegion::IssuanceDate => Visibility::AlwaysUndisclosed,
            DisclosureRegion::ExpirationDate => Visibility::AlwaysUndisclosed,
            DisclosureRegion::Subject => Visibility::HolderSelectable,
            DisclosureRegion::Schema => Visibility::AlwaysDisclosed,
            DisclosureRegion::Status => Visibility::AlwaysUndisclosed,
            DisclosureRegion::RefreshService => Visibility::AlwaysDisclosed,
            DisclosureRegion::TermsOfUse => Visibility::AlwaysUndisclosed,
            DisclosureRegion::Evidence => Visibility::HolderSelectable,
        }
    }

    /// The default visibility of this region.
    #[verifier::when_used_as_spec(spec_visibility)]
    pub fn visibility(self) -> (v: Visibility)
        ensures
            v == self.spec_visibility(),
    {
        match self {
            DisclosureRegion::Context => Visibility::AlwaysDisclosed,
            DisclosureRegion::Id => Visibility::AlwaysUndisclosed,
            DisclosureRegion::Type => Visibility::AlwaysDisclosed,
            DisclosureRegion::Issuer => Visibility::AlwaysDisclosed,
            DisclosureRegion::IssuanceDate => Visibility::AlwaysUndisclosed,
            DisclosureRegion::ExpirationDate => Visibility::AlwaysUndisclosed,
            DisclosureRegion::Subject => Visibility::HolderSelectable,
            DisclosureRegion::Schema => Visibility::AlwaysDisclosed,
            DisclosureRegion::Status => Visibility::AlwaysUndisclosed,
            DisclosureRegion::RefreshService => Visibility::AlwaysDisclosed,
            DisclosureRegion::TermsOfUse => Visibility::AlwaysUndisclosed,
            DisclosureRegion::Evidence => Visibility::HolderSelectable,
        }
    }

    /// A region can be hidden unless it is always disclosed.
    pub open spec fn spec_can_toggle(self) -> bool {
        self.spec_visibility() != Visibility::AlwaysDisclosed
    }

    /// Whether a request to hide this region, or a part of it, can be
    /// granted at all.
    #[verifier::when_used_as_spec(spec_can_toggle)]
    pub fn can_toggle(self) -> (yes: bool)
        ensures
            yes == self.spec_can_toggle(),
    {
        match self.visibility() {
            Visibility::AlwaysDisclosed => false,
            Visibility::AlwaysUndisclosed => true,
            Visibility::HolderSelectable => true,
        }
    }

    /// The subject and the evidence are the regions that are made for being
    /// hidden part by part. Every other region is meant to be shown or
    /// hidden as a whole; the policy does not refuse a request for a part of
    /// one on that account.
    pub open spec fn spec_is_selectable(self) -> bool {
        self == DisclosureRegion::Subject || self == DisclosureRegion::Evidence
    }

    /// Whether this region is made for being hidden part by part.
    #[verifier::when_used_as_spec(spec_is_selectable)]
    pub fn is_selectable(self) -> (yes: bool)
        ensures
            yes == self.spec_is_selectable(),
    {
        match self {
            DisclosureRegion::Subject => true,
            DisclosureRegion::Evidence => true,
            _ => false,
        }
    }

    /// The path of this region in a token: the credential's claim, then the
    /// region's property.
    pub open spec fn spec_path(self) -> Seq<Step> {
        seq![Step::Field(root_name()), Step::Field(self.spec_name())]
    }

    /// The path of this region in a token.
    pub fn path(self) -> (path: ClaimPath)
        ensures
            path@ == self.spec_path(),
    {
        let mut segments: Vec<PathSegment> = Vec::new();
        segments.push(PathSegment::Field(credential_root().to_owned()));
        segments.push(PathSegment::Field(self.name().to_owned()));
        let path = ClaimPath { segments };
        assert(path@ =~= self.spec_path());
        path
    }
}

/// The region that a credential property of this name makes up.
pub open spec fn region_named(name: Seq<char>) -> Option<DisclosureRegion> {
    if name == "@context"@ {
        Some(DisclosureRegion::Context)
    } else if name == "id"@ {
        Some(DisclosureRegion::Id)
    } else if name == "type"@ {
        Some(DisclosureRegion::Type)
    } else if name == "issuer"@ {
        Some(DisclosureRegion::Issuer)
    } else if name == "issuanceDate"@ {
        Some(DisclosureRegion::IssuanceDate)
    } else if name == "expirationDate"@ {
        Some(DisclosureRegion::ExpirationDate)
    } else if name == "credentialSubject"@ {
        Some(DisclosureRegion::Subject)
    } else if name == "credentialSchema"@ {
        Some(DisclosureRegion::Schema)
    } else if name == "credentialStatus"@ {
        Some(DisclosureRegion::Status)
    } else if name == "refreshService"@ {
        Some(DisclosureRegion::RefreshService)
    } else if name == "termsOfUse"@ {
        Some(DisclosureRegion::TermsOfUse)
    } else if name == "evidence"@ {
        Some(DisclosureRegion::Evidence)
    } else {
        None
    }
}

/// The region that a credential property of this name makes up, if any.
pub fn region_from_name(name: &str) -> (region: Option<DisclosureRegion>)
    ensures
        region == region_named(name@),
{
    if str_eq(name, "@context") {
        Some(DisclosureRegion::Context)
    } else if str_eq(name, "id") {
        Some(DisclosureRegion::Id)
    } else if str_eq(name, "type") {
        Some(DisclosureRegion::Type)
    } else if str_eq(name, "issuer") {
        Some(DisclosureRegion::Issuer)
    } else if str_eq(name, "issuanceDate") {
        Some(DisclosureRegion::IssuanceDate)
    } else if str_eq(name, "expirationDate") {
        Some(DisclosureRegion::ExpirationDate)
    } else if str_eq(name, "credentialSubject") {
        Some(DisclosureRegion::Subject)
    } else if str_eq(name, "credentialSchema") {
        Some(DisclosureRegion::Schema)
    } else if str_eq(name, "credentialStatus") {
        Some(DisclosureRegion::Status)
    } else if str_eq(name, "refreshService") {
        Some(DisclosureRegion::RefreshService)
    } else if str_eq(name, "termsOfUse") {
        Some(DisclosureRegion::TermsOfUse)
    } else if str_eq(name, "evidence") {
        Some(DisclosureRegion::Evidence)
    } else {
        None
    }
}

/// The twelve regions bear twelve different names: each region is found
/// again by its name.
pub proof fn lemma_region_names_distinct(region: DisclosureRegion)
    ensures
        region_named(region.spec_name()) == Some(region),
{
    reveal_strlit("@context");
    reveal_strlit("id");
    reveal_strlit("type");
    reveal_strlit("issuer");
    reveal_strlit("issuanceDate");
    reveal_strlit("expirationDate");
    reveal_strlit("credentialSubject");
    reveal_strlit("credentialSchema");
    reveal_strlit("credentialStatus");
    reveal_strlit("refreshService");
    reveal_strlit("termsOfUse");
    reveal_strlit("evidence");
    assert("@context"@.len() == 8 && "evidence"@.len() == 8);
    assert("id"@.len() == 2 && "type"@.len() == 4 && "issuer"@.len() == 6);
    assert("issuanceDate"@.len() == 12 && "termsOfUse"@.len() == 10);
    assert("expirationDate"@.len() == 14 && "refreshService"@.len() == 14);
    assert("credentialSubject"@.len() == 17);
    assert("credentialSchema"@.len() == 16 && "credentialStatus"@.len() == 16);
    assert("@context"@[0] != "evidence"@[0]);
    assert("expirationDate"@[0] != "refreshService"@[0]);
    assert("credentialSchema"@[11] != "credentialStatus"@[11]);
}

/// The region in which a path of a token lies: the credential property named
/// by the step that follows the credential's claim. A path that does not
/// enter the credential, or stops at its root, lies in no region.
pub open spec fn region_of(path: Seq<Step>) -> Option<DisclosureRegion> {
    if path.len() >= 2 && path[0] == Step::Field(root_name()) {
        match path[1] {
            Step::Field(name) => region_named(name),
            Step::Index(_) => None,
        }
    } else {
        None
    }
}

/// The region in which a path of a token lies, if any.
pub fn region_of_path(path: &ClaimPath) -> (region: Option<DisclosureRegion>)
    ensures
        region == region_of(path@),
{
    if path.segments.len() < 2 {
        return None;
    }
    let in_credential = match &path.segments[0] {
        PathSegment::Field(name) => str_eq(name.as_str(), credential_root()),
        PathSegment::Index(_) => false,
    };
    if !in_credential {
        return None;
    }
    match &path.segments[1] {
        PathSegment::Field(name) => region_from_name(name.as_str()),
        PathSegment::Index(_) => None,
    }
}

/// The name of the credential's claim and the names of the regions are
/// names of the path grammar.
pub proof fn lemma_region_names_are_names(region: DisclosureRegion)
    ensures
        is_name(root_name()),
        is_name(region.spec_name()),
        root_name().len() == 2,
        root_name()[1] == 'c',
{
    reveal_strlit("vc");
    reveal_strlit("@context");
    reveal_strlit("id");
    reveal_strlit("type");
    reveal_strlit("issuer");
    reveal_strlit("issuanceDate");
    reveal_strlit("expirationDate");
    reveal_strlit("credentialSubject");
    reveal_strlit("credentialSchema");
    reveal_strlit("credentialStatus");
    reveal_strlit("refreshService");
    reveal_strlit("termsOfUse");
    reveal_strlit("evidence");
    let root = root_name();
    let name = region.spec_name();
    assert(root.len() == 2);
    assert(name.len() > 0);
    assert forall|i: int| 0 <= i < name.len() implies is_name_char(#[trigger] name[i]) by {}
}

/// The path of a region lies in that region.
pub proof fn lemma_region_of_its_path(region: DisclosureRegion)
    ensures
        region_of(region.spec_path()) == Some(region),
{
    lemma_region_names_distinct(region);
}

/// Whether `path` addresses the credential as a whole, and with it the
/// regions that are always disclosed.
pub open spec fn is_whole_credential(path: Seq<Step>) -> bool {
    path.len() == 1 && path[0] == Step::Field(root_name())
}

/// Whether the policy lets the holder hide what `path` addresses. It refuses
/// a path into a region that is always disclosed, and the credential as a
/// whole, which holds such regions. It lets every other path pass: the
/// regions that can be hidden and every location in them, and what lies
/// outside the credential or outside its regions.
pub open spec fn may_undisclose(path: Seq<Step>) -> bool {
    match region_of(path) {
        Some(region) => region.spec_can_toggle(),
        None => !is_whole_credential(path),
    }
}

/// Whether the policy lets the holder hide what `path` addresses.
pub fn can_undisclose(path: &ClaimPath) -> (yes: bool)
    ensures
        yes == may_undisclose(path@),
{
    match region_of_path(path) {
        Some(region) => region.can_toggle(),
        None => {
            let whole = path.segments.len() == 1 && match &path.segments[0] {
                PathSegment::Field(name) => str_eq(name.as_str(), credential_root()),
                PathSegment::Index(_) => false,
            };
            !whole
        },
    }
}

/// The regions that every new presentation hides, in the order of the policy
/// table.
pub open spec fn default_regions() -> Seq<DisclosureRegion> {
    seq![
        DisclosureRegion::Id,
        DisclosureRegion::IssuanceDate,
        DisclosureRegion::ExpirationDate,
        DisclosureRegion::Status,
        DisclosureRegion::TermsOfUse,
    ]
}

/// The paths that every new presentation hides: those of the regions that
/// are always undisclosed.
pub fn default_undisclosed() -> (paths: Vec<ClaimPath>)
    ensures
        paths@.len() == default_regions().len(),
        forall|i: int|
            0 <= i < paths@.len() ==> (#[trigger] paths@[i])@ == default_regions()[i].spec_path(),
{
    let mut paths: Vec<ClaimPath> = Vec::new();
    paths.push(DisclosureRegion::Id.path());
    paths.push(DisclosureRegion::IssuanceDate.path());
    paths.push(DisclosureRegion::ExpirationDate.path());
    paths.push(DisclosureRegion::Status.path());
    paths.push(DisclosureRegion::TermsOfUse.path());
    paths
}

/// The default set holds exactly the regions that the policy table marks as
/// always undisclosed.
pub proof fn lemma_defaults_are_the_undisclosed_regions(region: DisclosureRegion)
    ensures
        default_regions().contains(region) <==> region.spec_visibility()
            == Visibility::AlwaysUndisclosed,
{
    let d = default_regions();
    assert(d[0] == DisclosureRegion::Id);
    assert(d[1] == DisclosureRegion::IssuanceDate);
    assert(d[2] == DisclosureRegion::ExpirationDate);
    assert(d[3] == DisclosureRegion::Status);
    assert(d[4] == DisclosureRegion::TermsOfUse);
}

/// Every default path may be hidden: the policy never refuses what it
/// prescribes.
pub proof fn lemma_defaults_may_be_undisclosed(k: int)
    requires
        0 <= k < default_regions().len(),
    ensures
        may_undisclose(default_regions()[k].spec_path()),
{
    lemma_region_of_its_path(default_regions()[k]);
}

/// No path into a region that is always disclosed may be hidden.
pub proof fn lemma_always_disclosed_is_forbidden(path: Seq<Step>)
    requires
        region_of(path) matches Some(region) && region.spec_visibility()
            == Visibility::AlwaysDisclosed,
    ensures
        !may_undisclose(path),
{
}

} // verus!
