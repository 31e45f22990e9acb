use crate::claim_path::has_names;
use crate::claim_path::is_name;
use crate::claim_path::lemma_parsed_fields_are_names;
use crate::claim_path::is_name_char;
use crate::claim_path::lemma_parse_after_name;
use crate::claim_path::parse;
use crate::claim_path::parse_path;
use crate::claim_path::ClaimPath;
use crate::claim_path::Step;
use crate::claim_tree::is_boundary;
use crate::claim_tree::is_first;
use crate::claim_tree::leads_into;
use crate::claim_tree::step_end;
use crate::claim_tree::walk;
use crate::claim_tree::is_location;
use crate::claim_tree::is_under;
use crate::claim_tree::path_exists;
use crate::claim_tree::ClaimTree;
use crate::disclosure::can_undisclose;
use crate::disclosure::credential_root;
use crate::disclosure::default_regions;
use crate::disclosure::default_undisclosed;
use crate::disclosure::lemma_region_names_are_names;
use crate::disclosure::lemma_region_names_distinct;
use crate::disclosure::may_undisclose;
use crate::disclosure::region_of;
use crate::disclosure::root_name;
use crate::disclosure::DisclosureRegion;
use crate::disclosure::Visibility;
use crate::error::Error;
use crate::jwp::bind_header;
use crate::jwp::builder_claims;
use crate::jwp::builder_hidden;
use crate::jwp::builder_header;
use crate::jwp::claim_names;
use crate::jwp::header_parts;
use crate::jwp::hidden_flags;
use crate::jwp::hide_claim;
use crate::jwp::is_first_index;
use crate::jwp::issued_claims;
use crate::jwp::issued_hidden;
use crate::jwp::nonce_of;
use crate::jwp::presented_claims;
use crate::jwp::presented_hidden;
use crate::jwp::presented_header;
use crate::jwp::presented_proof;
use jsonprooftoken::jwp::header::PresentationProtectedHeader;
use jsonprooftoken::jwp::issued::JwpIssued;
use jsonprooftoken::jwp::presented::JwpPresented;
use jsonprooftoken::jwp::presented::JwpPresentedBuilder;
use vstd::prelude::*;

verus! {

/// Where a presentation stands in its life.
#[derive(Clone, Copy, Debug, PartialEq, Eq, Structural)]
pub enum Stage {
    /// The holder may still hide claims and bind a header.
    Accumulating,
    /// The presented proof has been handed out; nothing changes any more.
    Finalized,
}

/// The payload marks after every leaf at or below `path` has been hidden.
pub open spec fn hide_under(names: Seq<Seq<char>>, hidden: Seq<bool>, path: Seq<Step>) -> Seq<
    bool,
> {
    Seq::new(hidden.len(), |i: int| hidden[i] || (i < names.len() && is_under(names, i, path)))
}

/// The payload marks after every leaf at or below one of the first `count`
/// default paths has been hidden.
pub open spec fn hide_regions(names: Seq<Seq<char>>, hidden: Seq<bool>, count: int) -> Seq<bool> {
    Seq::new(
        hidden.len(),
        |i: int|
            hidden[i] || (i < names.len() && exists|k: int|
                0 <= k < count && is_under(names, i, #[trigger] default_regions()[k].spec_path())),
    )
}

/// The payload marks with which a presentation starts: those of the issued
/// proof, and every leaf of a region that is always undisclosed.
pub open spec fn hide_defaults(names: Seq<Seq<char>>, hidden: Seq<bool>) -> Seq<bool> {
    hide_regions(names, hidden, default_regions().len() as int)
}

/// The paths that a new presentation holds as undisclosed.
pub open spec fn default_paths() -> Set<Seq<Step>> {
    Set::new(
        |p: Seq<Step>|
            exists|k: int|
                0 <= k < default_regions().len() && p == #[trigger] default_regions()[k].spec_path(),
    )
}

/// Whether every payload at or below `path` is marked as hidden.
pub open spec fn covers(names: Seq<Seq<char>>, hidden: Seq<bool>, path: Seq<Step>) -> bool {
    forall|i: int|
        0 <= i < hidden.len() && i < names.len() && is_under(names, i, path) ==> #[trigger] hidden[i]
}

/// Whether every payload at or below one of `paths` is marked as hidden.
pub open spec fn covers_all(names: Seq<Seq<char>>, hidden: Seq<bool>, paths: Seq<ClaimPath>) -> bool {
    forall|k: int| 0 <= k < paths.len() ==> covers(names, hidden, #[trigger] paths[k]@)
}

/// What a request to hide the location written as `path` comes to: the path
/// it names, or the reason for which it is turned down. The stage is looked
/// at first, then the grammar, then the policy, then the tree.
pub open spec fn check_request(stage: Stage, names: Seq<Seq<char>>, path: Seq<char>) -> Result<
    Seq<Step>,
    Error,
> {
    if stage == Stage::Finalized {
        Err(Error::AlreadyFinalized)
    } else {
        match parse_path(path) {
            None => Err(Error::MalformedPath),
            Some(p) => if !may_undisclose(p) {
                Err(Error::DisclosureForbidden)
            } else if !path_exists(names, p) {
                Err(Error::PathNotFound)
            } else {
                Ok(p)
            },
        }
    }
}

/// Hiding a location twice marks what hiding it once marks.
pub proof fn lemma_hide_under_idempotent(names: Seq<Seq<char>>, hidden: Seq<bool>, path: Seq<Step>)
    ensures
        hide_under(names, hide_under(names, hidden, path), path) == hide_under(
            names,
            hidden,
            path,
        ),
{
    assert(hide_under(names, hide_under(names, hidden, path), path) =~= hide_under(
        names,
        hidden,
        path,
    ));
}

/// A leaf that has an address is the first to bear its name.
proof fn lemma_addressed_leaf_is_first(names: Seq<Seq<char>>, i: int)
    requires
        0 <= i < names.len(),
        is_first(names, i),
    ensures
        is_first_index(names, names[i], i),
{
}

/// Marks as undisclosed, in the builder, every leaf that `found` lists.
fn hide_located(
    builder: &mut JwpPresentedBuilder,
    tree: &ClaimTree,
    path: &ClaimPath,
    found: &Vec<usize>,
)
    requires
        tree.wf(),
        tree@ == builder_claims(*old(builder)),
        is_location(tree@, path@, found@),
    ensures
        builder_claims(*final(builder)) == builder_claims(*old(builder)),
        builder_header(*final(builder)) == builder_header(*old(builder)),
        builder_hidden(*final(builder)) == hide_under(tree@, builder_hidden(*old(builder)), path@),
{
    let ghost names = tree@;
    let ghost start = builder_hidden(*builder);
    let mut k: usize = 0;
    while k < found.len()
        invariant
            k <= found.len(),
            tree.wf(),
            names == tree@,
            builder_claims(*builder) == names,
            builder_claims(*old(builder)) == names,
            builder_header(*builder) == builder_header(*old(builder)),
            start == builder_hidden(*old(builder)),
            is_location(names, path@, found@),
            builder_hidden(*builder) == Seq::new(
                start.len(),
                |i: int| start[i] || exists|l: int| 0 <= l < k && found@[l] == i,
            ),
        decreases found.len() - k,
    {
        let at = found[k];
        let ghost before = builder_hidden(*builder);
        let name = tree.name(at);
        proof {
            assert(is_under(names, at as int, path@));
            lemma_addressed_leaf_is_first(names, at as int);
            assert(names.contains(name@));
        }
        let _ = hide_claim(builder, name.as_str());
        assert(builder_hidden(*builder) =~= Seq::new(
            start.len(),
            |i: int| start[i] || exists|l: int| 0 <= l < k + 1 && found@[l] == i,
        )) by {
            assert forall|i: int| 0 <= i < start.len() implies builder_hidden(*builder)[i] == (
            start[i] || exists|l: int| 0 <= l < k + 1 && found@[l] == i) by {
                if i == at {
                    assert(found@[k as int] == i);
                } else if before[i] && !start[i] {
                    let l = choose|l: int| 0 <= l < k && found@[l] == i;
                    assert(0 <= l < k + 1 && found@[l] == i);
                }
            }
        }
        k += 1;
    }
    assert(builder_hidden(*builder) =~= hide_under(names, start, path@)) by {
        assert forall|i: int| 0 <= i < start.len() implies builder_hidden(*builder)[i]
            == hide_under(names, start, path@)[i] by {
            if i < names.len() && is_under(names, i, path@) {
                let l = choose|l: int| 0 <= l < found@.len() && found@[l] == i;
                assert(found@[l] == i);
            }
        }
    }
}

/// Builds a presentation from an issued JSON Web Proof: hides the claims that
/// the disclosure policy and the holder want hidden, binds the verifier's
/// challenge, and hands out the presented proof.
///
/// - `@context` is never hidden
/// - `id` is always hidden
/// - `type` is never hidden
/// - `issuer` is never hidden
/// - `issuanceDate` is always hidden
/// - `expirationDate` is always hidden
/// - `credentialSubject`: the holder chooses which attributes to hide
/// - `credentialSchema` is never hidden
/// - `credentialStatus` is always hidden
/// - `refreshService` is never hidden
/// - `termsOfUse` is always hidden
/// - `evidence`: the holder chooses which attributes to hide
pub struct SelectiveDiscosurePresentation {
    jwp_builder: JwpPresentedBuilder,
    tree: ClaimTree,
    paths: Vec<ClaimPath>,
    challenge: Option<String>,
    stage: Stage,
}

impl SelectiveDiscosurePresentation {
    /// The claim names of the issued proof, in order.
    pub closed spec fn claims(&self) -> Seq<Seq<char>> {
        builder_claims(self.jwp_builder)
    }

    /// For each payload, in order, whether it is hidden.
    pub closed spec fn hidden(&self) -> Seq<bool> {
        builder_hidden(self.jwp_builder)
    }

    /// The paths that have been made undisclosed, the defaults among them.
    pub closed spec fn undisclosed_paths(&self) -> Set<Seq<Step>> {
        Set::new(|p: Seq<Step>| exists|k: int| 0 <= k < self.paths@.len() && p == self.paths@[k]@)
    }

    /// What the presentation header that has been set holds: the name of
    /// its algorithm, its key identifier, its audience and its nonce;
    /// `None` where no header has been set.
    pub closed spec fn header(&self) -> Option<
        (Seq<char>, Option<Seq<char>>, Option<Seq<char>>, Option<Seq<char>>),
    > {
        builder_header(self.jwp_builder)
    }

    /// Whether a presentation header has been set.
    pub open spec fn has_header(&self) -> bool {
        self.header() is Some
    }

    /// The challenge that has been bound, if any: the nonce of the header
    /// that has been set. Without a header there is no challenge.
    pub open spec fn challenge(&self) -> Option<Seq<char>> {
        match self.header() {
            Some(header) => header.3,
            None => None,
        }
    }

    /// Where the presentation stands.
    pub closed spec fn spec_stage(&self) -> Stage {
        self.stage
    }

    /// The builder inside this presentation.
    pub closed spec fn spec_builder(&self) -> JwpPresentedBuilder {
        self.jwp_builder
    }

    /// The presentation agrees with the builder it holds, and every leaf at
    /// or below an undisclosed path is hidden.
    pub closed spec fn wf(&self) -> bool {
        &&& self.tree.wf()
        &&& self.tree@ == builder_claims(self.jwp_builder)
        &&& self.challenge() == (match self.challenge {
            Some(challenge) => Some(challenge@),
            None => None,
        })
        &&& covers_all(self.claims(), self.hidden(), self.paths@)
    }

    /// No payload at or below an undisclosed path is disclosed.
    pub proof fn lemma_undisclosed_paths_are_hidden(&self, path: Seq<Step>)
        requires
            self.wf(),
            self.undisclosed_paths().contains(path),
        ensures
            covers(self.claims(), self.hidden(), path),
    {
        let k = choose|k: int| 0 <= k < self.paths@.len() && path == self.paths@[k]@;
        assert(covers(self.claims(), self.hidden(), self.paths@[k]@));
    }

    /// Starts a presentation of an issued proof. Every leaf of a region that
    /// is always undisclosed is hidden from the start; what the issued proof
    /// already hides stays hidden.
    pub fn new(issued_jwp: &JwpIssued) -> (presentation: Self)
        ensures
            presentation.wf(),
            presentation.spec_stage() == Stage::Accumulating,
            presentation.claims() == issued_claims(*issued_jwp),
            presentation.hidden() == hide_defaults(
                issued_claims(*issued_jwp),
                issued_hidden(*issued_jwp),
            ),
            presentation.undisclosed_paths() == default_paths(),
            presentation.header() is None,
    {
        let mut jwp_builder = JwpPresentedBuilder::new(issued_jwp);
        let tree = ClaimTree::from_names(claim_names(issued_jwp));
        let paths = default_undisclosed();
        let ghost names = tree@;
        let ghost start = builder_hidden(jwp_builder);
        assert(builder_hidden(jwp_builder) =~= hide_regions(names, start, 0));
        let mut k: usize = 0;
        while k < paths.len()
            invariant
                k <= paths.len(),
                paths@.len() == default_regions().len(),
                forall|i: int|
                    0 <= i < paths@.len() ==> (#[trigger] paths@[i])@
                        == default_regions()[i].spec_path(),
                tree.wf(),
                names == tree@,
                builder_claims(jwp_builder) == names,
                builder_header(jwp_builder) is None,
                builder_hidden(jwp_builder) == hide_regions(names, start, k as int),
            decreases paths.len() - k,
        {
            let ghost before = builder_hidden(jwp_builder);
            match tree.locate(&paths[k]) {
                Ok(found) => {
                    hide_located(&mut jwp_builder, &tree, &paths[k], &found);
                },
                Err(_) => {
                    assert(before =~= hide_under(names, before, paths@[k as int]@));
                },
            }
            assert(builder_hidden(jwp_builder) =~= hide_regions(names, start, k + 1)) by {
                let p = paths@[k as int]@;
                assert(p == default_regions()[k as int].spec_path());
                assert forall|i: int| 0 <= i < start.len() implies hide_under(names, before, p)[i]
                    == hide_regions(names, start, k + 1)[i] by {
                    if before[i] && !start[i] {
                        let l = choose|l: int|
                            0 <= l < k && is_under(
                                names,
                                i,
                                #[trigger] default_regions()[l].spec_path(),
                            );
                        assert(0 <= l < k + 1 && is_under(
                            names,
                            i,
                            default_regions()[l].spec_path(),
                        ));
                    }
                    if hide_regions(names, start, k + 1)[i] && !start[i] {
                        let l = choose|l: int|
                            0 <= l < k + 1 && is_under(
                                names,
                                i,
                                #[trigger] default_regions()[l].spec_path(),
                            );
                        if l < k {
                            assert(before[i]);
                        }
                    }
                }
            }
            k += 1;
        }
        let presentation = SelectiveDiscosurePresentation {
            jwp_builder,
            tree,
            paths,
            challenge: None,
            stage: Stage::Accumulating,
        };
        assert(presentation.undisclosed_paths() =~= default_paths()) by {
            assert forall|p: Seq<Step>|
                presentation.undisclosed_paths().contains(p) implies default_paths().contains(
                p,
            ) by {
                let k = choose|k: int| 0 <= k < paths@.len() && p == paths@[k]@;
                assert(p == default_regions()[k].spec_path());
            }
            assert forall|p: Seq<Step>| default_paths().contains(p) implies presentation.undisclosed_paths().contains(
            p) by {
                let k = choose|k: int|
                    0 <= k < default_regions().len() && p
                        == #[trigger] default_regions()[k].spec_path();
                assert(p == paths@[k]@);
            }
        }
        assert(presentation.wf()) by {
            assert forall|k: int| 0 <= k < paths@.len() implies covers(
                presentation.claims(),
                presentation.hidden(),
                #[trigger] paths@[k]@,
            ) by {
                assert(paths@[k]@ == default_regions()[k].spec_path());
            }
        }
        presentation
    }

    /// Where the presentation stands.
    pub fn stage(&self) -> (stage: Stage)
        ensures
            stage == self.spec_stage(),
    {
        self.stage
    }

    /// Hides a location of the credential's subject. The path is written from
    /// the subject on.
    ///
    /// With this subject
    /// ```text
    /// {
    ///     "id": 1234,
    ///     "name": "Alice",
    ///     "mainCourses": ["Object-oriented Programming", "Mathematics"],
    ///     "degree": {
    ///         "type": "BachelorDegree",
    ///         "name": "Bachelor of Science and Arts",
    ///     },
    ///     "GPA": "4.0",
    /// }
    /// ```
    /// the paths `mainCourses[1]` and `degree.name` hide the second course
    /// and the name of the degree.
    pub fn undisclose_subject(&mut self, path: &str) -> (out: Result<(), Error>)
        requires
            old(self).wf(),
        ensures
            final(self).follows(*old(self), region_prefix(DisclosureRegion::Subject) + path@, out),
    {
        let mut full = String::from_str(credential_root());
        full.append(".");
        full.append(DisclosureRegion::Subject.name());
        full.append(".");
        full.append(path);
        assert(full@ =~= region_prefix(DisclosureRegion::Subject) + path@);
        self.set_undisclosed(full.as_str())
    }

    /// Hides a location of the credential's evidence. The path is written from
    /// the evidence on.
    pub fn undisclose_evidence(&mut self, path: &str) -> (out: Result<(), Error>)
        requires
            old(self).wf(),
        ensures
            final(self).follows(*old(self), region_prefix(DisclosureRegion::Evidence) + path@, out),
    {
        let mut full = String::from_str(credential_root());
        full.append(".");
        full.append(DisclosureRegion::Evidence.name());
        full.append(".");
        full.append(path);
        assert(full@ =~= region_prefix(DisclosureRegion::Evidence) + path@);
        self.set_undisclosed(full.as_str())
    }

    /// What a request to hide `path` makes of the presentation `before`:
    /// where the request is granted, every leaf at or below the path is
    /// hidden and the path joins the undisclosed paths; where it is turned
    /// down, nothing changes and the reason is given.
    pub open spec fn follows(&self, before: Self, path: Seq<char>, out: Result<(), Error>) -> bool {
        &&& self.wf()
        &&& self.claims() == before.claims()
        &&& self.spec_stage() == before.spec_stage()
        &&& self.header() == before.header()
        &&& match check_request(before.spec_stage(), before.claims(), path) {
            Ok(p) => {
                &&& out is Ok
                &&& self.hidden() == hide_under(before.claims(), before.hidden(), p)
                &&& self.undisclosed_paths() == before.undisclosed_paths().insert(p)
            },
            Err(e) => {
                &&& out == Err::<(), Error>(e)
                &&& self.hidden() == before.hidden()
                &&& self.undisclosed_paths() == before.undisclosed_paths()
            },
        }
    }

    /// A request that is granted once is granted again, and the second
    /// time changes nothing: neither the hidden payloads nor the undisclosed
    /// paths.
    pub proof fn lemma_marking_twice_is_marking_once(
        before: Self,
        once: Self,
        twice: Self,
        path: Seq<char>,
        first: Result<(), Error>,
        second: Result<(), Error>,
    )
        requires
            once.follows(before, path, first),
            twice.follows(once, path, second),
            first is Ok,
        ensures
            second is Ok,
            twice.hidden() == once.hidden(),
            twice.undisclosed_paths() == once.undisclosed_paths(),
    {
        let p = check_request(before.spec_stage(), before.claims(), path)->Ok_0;
        lemma_hide_under_idempotent(before.claims(), before.hidden(), p);
        assert(once.undisclosed_paths().insert(p) =~= once.undisclosed_paths());
    }

    /// While a presentation is not finalized, a request to hide a path into
    /// a region that is always disclosed fails with `DisclosureForbidden`,
    /// whatever has been hidden or bound before and whether or not the
    /// claims hold the path, and changes nothing.
    pub proof fn lemma_always_disclosed_is_refused(
        before: Self,
        after: Self,
        path: Seq<char>,
        out: Result<(), Error>,
    )
        requires
            after.follows(before, path, out),
            before.spec_stage() == Stage::Accumulating,
            parse_path(path) matches Some(p) && (region_of(p) matches Some(region)
                && region.spec_visibility() == Visibility::AlwaysDisclosed),
        ensures
            out == Err::<(), Error>(Error::DisclosureForbidden),
            after.hidden() == before.hidden(),
            after.undisclosed_paths() == before.undisclosed_paths(),
    {
    }

    /// Whatever request is granted, what a region that is always disclosed
    /// holds stays as it was: no payload of such a region becomes hidden.
    pub proof fn lemma_requests_spare_the_always_disclosed(
        before: Self,
        after: Self,
        path: Seq<char>,
        out: Result<(), Error>,
        region: DisclosureRegion,
        i: int,
    )
        requires
            after.follows(before, path, out),
            region.spec_visibility() == Visibility::AlwaysDisclosed,
            0 <= i < before.hidden().len(),
            i < before.claims().len(),
            leads_into(before.claims()[i], region.spec_path()),
        ensures
            after.hidden().len() == before.hidden().len(),
            after.hidden()[i] == before.hidden()[i],
    {
        match check_request(before.spec_stage(), before.claims(), path) {
            Ok(p) => {
                lemma_parsed_fields_are_names(path, 0);
                lemma_granted_paths_spare_the_always_disclosed(before.claims()[i], p, region);
            },
            Err(_) => {},
        }
    }

    /// Hides the location that `path` names, written from the root of the
    /// token's claims.
    ///
    /// Fails with `AlreadyFinalized` once the presentation is finalized, with
    /// `MalformedPath` where `path` is no path, with `DisclosureForbidden`
    /// where the path leads into a region that is always disclosed or names
    /// the credential as a whole, which holds such regions, and with
    /// `PathNotFound` where the claims hold nothing at the location. Every
    /// other path that exists is granted, in a region or outside the
    /// regions. Hiding what is hidden already succeeds and changes nothing.
    pub fn set_undisclosed(&mut self, path: &str) -> (out: Result<(), Error>)
        requires
            old(self).wf(),
        ensures
            final(self).follows(*old(self), path@, out),
    {
        if self.stage == Stage::Finalized {
            return Err(Error::AlreadyFinalized);
        }
        let p = match parse(path) {
            Ok(p) => p,
            Err(_) => {
                return Err(Error::MalformedPath);
            },
        };
        if !can_undisclose(&p) {
            return Err(Error::DisclosureForbidden);
        }
        let found = match self.tree.locate(&p) {
            Ok(found) => found,
            Err(_) => {
                return Err(Error::PathNotFound);
            },
        };
        hide_located(&mut self.jwp_builder, &self.tree, &p, &found);
        let ghost step = p@;
        let mut known = false;
        let mut k: usize = 0;
        while k < self.paths.len()
            invariant
                k <= self.paths.len(),
                step == p@,
                known == exists|l: int| 0 <= l < k && self.paths@[l]@ == step,
            decreases self.paths.len() - k,
        {
            if p.is_prefix_of(&self.paths[k]) && self.paths[k].is_prefix_of(&p) {
                assert(self.paths@[k as int]@ =~= step);
                known = true;
            }
            k += 1;
        }
        if !known {
            self.paths.push(p);
        }
        proof {
            let before = *old(self);
            assert(self.undisclosed_paths() =~= before.undisclosed_paths().insert(step)) by {
                assert forall|q: Seq<Step>|
                    before.undisclosed_paths().insert(step).contains(
                        q,
                    ) implies self.undisclosed_paths().contains(q) by {
                    if q == step {
                        if known {
                            let l = choose|l: int|
                                0 <= l < before.paths@.len() && before.paths@[l]@ == step;
                            assert(self.paths@[l]@ == q);
                        } else {
                            assert(self.paths@[before.paths@.len() as int]@ == q);
                        }
                    } else {
                        let l = choose|l: int| 0 <= l < before.paths@.len() && q == before.paths@[l]@;
                        assert(self.paths@[l]@ == q);
                    }
                }
                assert forall|q: Seq<Step>|
                    self.undisclosed_paths().contains(q) implies before.undisclosed_paths().insert(
                    step,
                ).contains(q) by {
                    let l = choose|l: int| 0 <= l < self.paths@.len() && q == self.paths@[l]@;
                    if l < before.paths@.len() {
                        assert(q == before.paths@[l]@);
                    }
                }
            }
            assert(self.wf()) by {
                assert forall|k: int| 0 <= k < self.paths@.len() implies covers(
                    self.claims(),
                    self.hidden(),
                    #[trigger] self.paths@[k]@,
                ) by {
                    if k < before.paths@.len() {
                        assert(covers(before.claims(), before.hidden(), before.paths@[k]@));
                    }
                }
            }
        }
        Ok(())
    }

    /// Sets the presentation header, which carries the verifier's challenge
    /// as its nonce, in place of any header set before. The header is kept
    /// whole: its algorithm, key identifier and audience with its nonce.
    ///
    /// Fails with `AlreadyFinalized` once the presentation is finalized.
    pub fn set_presentation_header(&mut self, ph: PresentationProtectedHeader) -> (out: Result<
        (),
        Error,
    >)
        requires
            old(self).wf(),
        ensures
            final(self).wf(),
            final(self).claims() == old(self).claims(),
            final(self).hidden() == old(self).hidden(),
            final(self).undisclosed_paths() == old(self).undisclosed_paths(),
            final(self).spec_stage() == old(self).spec_stage(),
            match old(self).spec_stage() {
                Stage::Finalized => {
                    &&& out == Err::<(), Error>(Error::AlreadyFinalized)
                    &&& final(self).header() == old(self).header()
                },
                Stage::Accumulating => {
                    &&& out is Ok
                    &&& final(self).header() == Some(header_parts(ph))
                },
            },
    {
        if self.stage == Stage::Finalized {
            return Err(Error::AlreadyFinalized);
        }
        let nonce = nonce_of(&ph);
        bind_header(&mut self.jwp_builder, ph);
        self.challenge = nonce;
        Ok(())
    }

    /// The builder inside this presentation, as it stands.
    pub fn builder(&self) -> (builder: &JwpPresentedBuilder)
        ensures
            *builder == self.spec_builder(),
            builder_claims(*builder) == self.claims(),
            builder_hidden(*builder) == self.hidden(),
    {
        &self.jwp_builder
    }

    /// Whether `finalize` would hand out a presented proof, asked before the
    /// proof engine is put to work.
    ///
    /// Fails with `AlreadyFinalized` once the presentation is finalized, and
    /// with `MissingChallenge` where no header has been set or the header
    /// carries no challenge.
    pub fn check_ready(&self) -> (out: Result<(), Error>)
        requires
            self.wf(),
        ensures
            out == (match (self.spec_stage(), self.challenge()) {
                (Stage::Finalized, _) => Err::<(), Error>(Error::AlreadyFinalized),
                (Stage::Accumulating, None) => Err::<(), Error>(Error::MissingChallenge),
                (Stage::Accumulating, Some(_)) => Ok::<(), Error>(()),
            }),
    {
        if self.stage == Stage::Finalized {
            Err(Error::AlreadyFinalized)
        } else if self.challenge.is_none() {
            Err(Error::MissingChallenge)
        } else {
            Ok(())
        }
    }

    /// Closes the presentation over `proof`, the bytes that the proof engine
    /// made for the disclosed payloads and the header, and hands out the
    /// presented proof.
    ///
    /// Fails with `AlreadyFinalized` once the presentation is finalized, and
    /// with `MissingChallenge` where no header has been set or the header
    /// carries no challenge; the presentation then stays as it was. The
    /// presented proof carries the header as it was set.
    pub fn finalize(&mut self, proof: Vec<u8>) -> (out: Result<JwpPresented, Error>)
        requires
            old(self).wf(),
        ensures
            final(self).wf(),
            final(self).claims() == old(self).claims(),
            final(self).hidden() == old(self).hidden(),
            final(self).undisclosed_paths() == old(self).undisclosed_paths(),
            final(self).header() == old(self).header(),
            match (old(self).spec_stage(), old(self).challenge()) {
                (Stage::Finalized, _) => {
                    &&& out == Err::<JwpPresented, Error>(Error::AlreadyFinalized)
                    &&& final(self).spec_stage() == Stage::Finalized
                },
                (Stage::Accumulating, None) => {
                    &&& out == Err::<JwpPresented, Error>(Error::MissingChallenge)
                    &&& final(self).spec_stage() == Stage::Accumulating
                },
                (Stage::Accumulating, Some(challenge)) => {
                    &&& out matches Ok(jwp)
                    &&& final(self).spec_stage() == Stage::Finalized
                    &&& presented_claims(jwp) == old(self).claims()
                    &&& presented_hidden(jwp) == old(self).hidden()
                    &&& Some(presented_header(jwp)) == old(self).header()
                    &&& presented_proof(jwp) == proof@
                    &&& forall|path: Seq<Step>| #[trigger]
                        old(self).undisclosed_paths().contains(path) ==> covers(
                            presented_claims(jwp),
                            presented_hidden(jwp),
                            path,
                        )
                },
            },
    {
        if self.stage == Stage::Finalized {
            return Err(Error::AlreadyFinalized);
        }
        if self.challenge.is_none() {
            return Err(Error::MissingChallenge);
        }
        match self.jwp_builder.build_with_proof(proof) {
            Ok(jwp) => {
                self.stage = Stage::Finalized;
                proof {
                    assert forall|path: Seq<Step>| #[trigger]
                        old(self).undisclosed_paths().contains(path) implies covers(
                        presented_claims(jwp),
                        presented_hidden(jwp),
                        path,
                    ) by {
                        old(self).lemma_undisclosed_paths_are_hidden(path);
                    }
                }
                Ok(jwp)
            },
            Err(_) => Err(Error::MissingChallenge),
        }
    }

    /// The positions of the payloads that are hidden, in rising order.
    pub fn undisclosed(&self) -> (out: Vec<usize>)
        requires
            self.wf(),
        ensures
            forall|k: int| 0 <= k < out@.len() ==> (#[trigger] out@[k]) < self.hidden().len()
                && self.hidden()[out@[k] as int],
            forall|k: int, l: int| 0 <= k < l < out@.len() ==> out@[k] < out@[l],
            forall|i: int|
                0 <= i < self.hidden().len() && #[trigger] self.hidden()[i] ==> out@.contains(
                    i as usize,
                ),
    {
        let flags = hidden_flags(&self.jwp_builder);
        let mut out: Vec<usize> = Vec::new();
        let mut i: usize = 0;
        while i < flags.len()
            invariant
                i <= flags.len(),
                flags@ == self.hidden(),
                forall|k: int| 0 <= k < out@.len() ==> (#[trigger] out@[k]) < i && flags@[out@[k] as int],
                forall|k: int, l: int| 0 <= k < l < out@.len() ==> out@[k] < out@[l],
                forall|j: int| 0 <= j < i && #[trigger] flags@[j] ==> out@.contains(j as usize),
            decreases flags.len() - i,
        {
            if flags[i] {
                let ghost before = out@;
                out.push(i);
                assert(out@[before.len() as int] == i);
                assert forall|j: int| 0 <= j < i + 1 && #[trigger] flags@[j] implies out@.contains(
                    j as usize,
                ) by {
                    if j < i {
                        let k = choose|k: int| 0 <= k < before.len() && before[k] == j as usize;
                        assert(out@[k] == j as usize);
                    }
                }
            }
            i += 1;
        }
        out
    }
}

/// A path that the policy lets pass leads to nothing of a region that is
/// always disclosed: no leaf of such a region lies at the path or below it.
pub proof fn lemma_granted_paths_spare_the_always_disclosed(
    name: Seq<char>,
    path: Seq<Step>,
    region: DisclosureRegion,
)
    requires
        has_names(path),
        may_undisclose(path),
        region.spec_visibility() == Visibility::AlwaysDisclosed,
        leads_into(name, region.spec_path()),
    ensures
        !leads_into(name, path),
{
    lemma_region_names_are_names(region);
    lemma_region_names_distinct(region);
    let root = root_name();
    let r = region.spec_name();
    let spared = region.spec_path();
    assert(spared[0] == Step::Field(root) && spared[1] == Step::Field(r));
    assert(walk(name, spared, 0, 0) == walk(name, spared, 1, 2));
    let end: int = 3 + r.len() as int;
    assert(walk(name, spared, 1, 2) == walk(name, spared, 2, end));
    assert(name.subrange(0, 2) == root);
    assert(name[2] == '.');
    assert(name.subrange(3, end) == r);
    assert(is_boundary(name, end));
    assert(name[1] == name.subrange(0, 2)[1]);
    if leads_into(name, path) {
        assert(path[0] is Field);
        let first = path[0]->Field_0;
        assert(is_name(first));
        assert(step_end(name, 0, path[0]) == Some(first.len() as int));
        assert(name.subrange(0, first.len() as int) == first);
        assert(walk(name, path, 0, 0) == walk(name, path, 1, first.len() as int));
        if path.len() > 1 {
            assert(step_end(name, first.len() as int, path[1]) is Some);
        }
        if first.len() > 2 {
            assert(first[2] == name.subrange(0, first.len() as int)[2]);
            assert(!is_name_char(first[2]));
        }
        assert(first.len() == 2);
        assert(first =~= root);
        assert(path.len() >= 2);
        assert(path[1] is Field);
        let second = path[1]->Field_0;
        assert(is_name(second));
        let after: int = 3 + second.len() as int;
        assert(step_end(name, 2, path[1]) == Some(after));
        assert(name.subrange(3, after) == second);
        assert(walk(name, path, 1, 2) == walk(name, path, 2, after));
        if path.len() > 2 {
            assert(step_end(name, after, path[2]) is Some);
        }
        if second.len() > r.len() {
            assert(second[r.len() as int] == name.subrange(3, after)[r.len() as int]);
            assert(!is_name_char(second[r.len() as int]));
        }
        if second.len() < r.len() {
            assert(r[second.len() as int] == name.subrange(3, end)[second.len() as int]);
            assert(is_name_char(r[second.len() as int]));
        }
        assert(second =~= r);
        assert(region_of(path) == Some(region));
    }
}

/// What `undisclose_subject` and `undisclose_evidence` write before the path
/// they are given, for the region `region`.
pub open spec fn region_prefix(region: DisclosureRegion) -> Seq<char> {
    root_name() + "."@ + region.spec_name() + "."@
}

/// A path that is written from a region on stands, with the region's prefix
/// before it, for the path of the region followed by its own steps; and it
/// is malformed with the prefix exactly where it is malformed without.
pub proof fn lemma_path_in_region(region: DisclosureRegion, path: Seq<char>)
    ensures
        parse_path(region_prefix(region) + path) == match parse_path(path) {
            Some(steps) => Some(region.spec_path() + steps),
            None => None,
        },
{
    reveal_strlit("vc");
    reveal_strlit(".");
    reveal_strlit("@context");
    reveal_strlit("id");
    reveal_strlit("type");
    reveal_strlit("issuer");
    reveal_strlit("issuanceDate");
    reveal_strlit("expirationDate");
    reveal_strlit("credentialSubject");
    reveal_strlit("credentialSchema");
    reveal_strlit("credentialStatus");
    reveal_strlit("refreshService");
    reveal_strlit("termsOfUse");
    reveal_strlit("evidence");
    let root = root_name();
    let name = region.spec_name();
    assert("."@ =~= seq!['.']);
    assert(is_name(root)) by {
        assert(root.len() == 2);
    }
    assert(is_name(name)) by {
        assert(name.len() > 0);
        assert forall|i: int| 0 <= i < name.len() implies is_name_char(#[trigger] name[i]) by {}
    }
    let tail = name + seq!['.'] + path;
    assert(region_prefix(region) + path =~= root + seq!['.'] + tail);
    lemma_parse_after_name(root, tail);
    lemma_parse_after_name(name, path);
    match parse_path(path) {
        Some(steps) => {
            assert(seq![Step::Field(root)] + (seq![Step::Field(name)] + steps)
                =~= region.spec_path() + steps);
        },
        None => {},
    }
}

} // verus!
