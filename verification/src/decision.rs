//! The version decision: from the current version and what was selected at the
//! prompt to the next version, which is always above the current one.

use crate::semantic_version::{
    bump_fits, bumped, follows, is_readable, leads_to, parsed_version, precedes, BumpKind, SemVer,
    VersionView,
};
use crate::prerelease::Precedence;
use vstd::prelude::*;

verus! {

/// The ways in which a run fails.
#[derive(Clone, Copy, PartialEq, Eq, Structural, Debug)]
pub enum VersionError {
    /// The workspace is not inside a usable repository.
    GitInvalid,
    /// The reference that was asked for as the boundary does not exist.
    GitRefNotFound,
    /// The version that was selected is not above the current one.
    VersionNotGreater,
    /// The user cancelled at the prompt.
    UserAborted,
}

/// What comes back from the prompt.
#[derive(Debug)]
pub enum Selection {
    /// One of the bumps that are computed from the current version.
    Bump(BumpKind),
    /// A version that the user typed in.
    Custom(String),
    /// The user cancelled.
    Abort,
}

/// What a selection stands for.
pub enum SelectionView {
    Bump(BumpKind),
    Custom(Seq<char>),
    Abort,
}

impl View for Selection {
    type V = SelectionView;

    open spec fn view(&self) -> SelectionView {
        match self {
            Selection::Bump(kind) => SelectionView::Bump(*kind),
            Selection::Custom(text) => SelectionView::Custom(text@),
            Selection::Abort => SelectionView::Abort,
        }
    }
}

/// A decided version, together with the version that it was derived from. The
/// decided version is always above that one.
#[derive(Debug)]
pub struct VersionDecision {
    current: SemVer,
    next: SemVer,
}

/// What a version decision stands for.
pub struct DecisionView {
    pub current: VersionView,
    pub next: VersionView,
}

impl View for VersionDecision {
    type V = DecisionView;

    closed spec fn view(&self) -> DecisionView {
        DecisionView { current: self.current@, next: self.next@ }
    }
}

/// What the result of a decision stands for.
pub open spec fn outcome_view(r: Result<VersionDecision, VersionError>) -> Result<
    DecisionView,
    VersionError,
> {
    match r {
        Ok(decision) => Ok(decision@),
        Err(error) => Err(error),
    }
}

/// What a version stands for, where there is one.
pub open spec fn candidate_view(candidate: Option<SemVer>) -> Option<VersionView> {
    match candidate {
        Some(version) => Some(version@),
        None => None,
    }
}

/// A candidate is taken as the next version exactly where there is one and it
/// is above the current version.
pub open spec fn accepted(current: VersionView, candidate: Option<VersionView>) -> Result<
    DecisionView,
    VersionError,
> {
    match candidate {
        Some(next) => if precedes(current, next) {
            Ok(DecisionView { current, next })
        } else {
            Err(VersionError::VersionNotGreater)
        },
        None => Err(VersionError::VersionNotGreater),
    }
}

/// The candidate that a selection puts forward: the bumped version, where it
/// can be stored, or the version that the typed text writes down, where it is
/// one.
pub open spec fn candidate_of(current: VersionView, selection: SelectionView) -> Option<
    VersionView,
> {
    match selection {
        SelectionView::Bump(kind) => if bump_fits(current, kind) {
            Some(bumped(current, kind))
        } else {
            None
        },
        SelectionView::Custom(text) => if is_readable(text) {
            parsed_version(text)
        } else {
            None
        },
        SelectionView::Abort => None,
    }
}

/// A bump of the given kind leads to a decision: it can be stored, and a
/// pre-release bump is of a version that has a tag.
pub open spec fn offered(current: VersionView, kind: BumpKind) -> bool {
    bump_fits(current, kind) && (kind == BumpKind::Prerelease ==> current.pre.len() > 0)
}

/// The decision that a selection leads to.
pub open spec fn decided(current: VersionView, selection: SelectionView) -> Result<
    DecisionView,
    VersionError,
> {
    if selection is Abort {
        Err(VersionError::UserAborted)
    } else {
        accepted(current, candidate_of(current, selection))
    }
}

impl VersionDecision {
    #[verifier::type_invariant]
    spec fn is_above(self) -> bool {
        precedes(self.current@, self.next@)
    }

    /// The version that was decided on.
    pub fn next(&self) -> (version: &SemVer)
        ensures
            version@ == self@.next,
            precedes(self@.current, self@.next),
    {
        proof {
            use_type_invariant(self);
        }
        &self.next
    }

    /// The version that the decision was derived from.
    pub fn current(&self) -> (version: &SemVer)
        ensures
            version@ == self@.current,
            precedes(self@.current, self@.next),
    {
        proof {
            use_type_invariant(self);
        }
        &self.current
    }

    /// A copy of this decision.
    pub fn duplicate(&self) -> (copy: VersionDecision)
        ensures
            copy@ == self@,
    {
        proof {
            use_type_invariant(self);
        }
        VersionDecision { current: self.current.duplicate(), next: self.next.duplicate() }
    }
}

/// Takes `candidate` as the next version after `current` if there is one and
/// it is above `current`, and refuses it otherwise. A candidate that plainly
/// follows `current` is taken, and a pre-release of the release `current` is
/// refused.
pub fn accept(current: &SemVer, candidate: Option<SemVer>) -> (r: Result<
    VersionDecision,
    VersionError,
>)
    ensures
        outcome_view(r) == accepted(current@, candidate_view(candidate)),
        candidate matches Some(next) && follows(current@, next@) ==> r is Ok,
        candidate matches Some(next) && leads_to(next@, current@) ==> r is Err,
{
    match candidate {
        Some(next) => {
            if current.compare(&next) == Precedence::Lower {
                Ok(VersionDecision { current: current.duplicate(), next })
            } else {
                Err(VersionError::VersionNotGreater)
            }
        },
        None => Err(VersionError::VersionNotGreater),
    }
}

/// Derives the next version after `current` from what was selected at the
/// prompt.
///
/// A bump gives the bumped version and a typed text the version that it writes
/// down; either is refused unless it is above `current`. Cancelling fails the
/// decision as aborted. A patch, minor or major bump is taken whenever it can be
/// stored; a pre-release bump likewise, but only of a version that has a tag: the
/// first pre-release of a release would be below the release.
pub fn decide(current: &SemVer, selection: &Selection) -> (r: Result<VersionDecision, VersionError>)
    ensures
        outcome_view(r) == decided(current@, selection@),
        r matches Ok(decision) ==> precedes(current@, decision@.next),
        selection@ matches SelectionView::Bump(kind) ==> (r is Ok <==> offered(current@, kind)),
{
    match selection {
        Selection::Abort => Err(VersionError::UserAborted),
        Selection::Bump(kind) => {
            let candidate = if current.can_bump(*kind) {
                Some(current.bump(*kind))
            } else {
                None
            };
            accept(current, candidate)
        },
        Selection::Custom(text) => accept(current, SemVer::parse(text.as_str())),
    }
}

/// A bump that may be selected, with the decision that it leads to.
#[derive(Debug)]
pub struct BumpOption {
    pub kind: BumpKind,
    pub decision: VersionDecision,
}

/// What a bump option stands for.
pub struct OptionView {
    pub kind: BumpKind,
    pub decision: DecisionView,
}

impl View for BumpOption {
    type V = OptionView;

    open spec fn view(&self) -> OptionView {
        OptionView { kind: self.kind, decision: self.decision@ }
    }
}

/// What a list of bump options stands for.
pub open spec fn option_views(options: Seq<BumpOption>) -> Seq<OptionView> {
    options.map_values(|o: BumpOption| o@)
}

/// The option of one kind of bump, if that bump leads to a decision.
pub open spec fn option_for(current: VersionView, kind: BumpKind) -> Seq<OptionView> {
    match decided(current, SelectionView::Bump(kind)) {
        Ok(decision) => seq![OptionView { kind, decision }],
        Err(_) => Seq::empty(),
    }
}

/// The bumps that lead to a decision, in the order patch, minor, major,
/// pre-release.
pub open spec fn options_for(current: VersionView) -> Seq<OptionView> {
    option_for(current, BumpKind::Patch) + option_for(current, BumpKind::Minor) + option_for(
        current,
        BumpKind::Major,
    ) + option_for(current, BumpKind::Prerelease)
}

/// The bump of one kind as an option, if it is offered.
pub open spec fn offer_of(current: VersionView, kind: BumpKind) -> Seq<OptionView> {
    if offered(current, kind) {
        seq![
            OptionView {
                kind,
                decision: DecisionView { current, next: bumped(current, kind) },
            },
        ]
    } else {
        Seq::empty()
    }
}

/// The bumps that are offered, in the order patch, minor, major, pre-release,
/// each with the bumped version.
pub open spec fn offers(current: VersionView) -> Seq<OptionView> {
    offer_of(current, BumpKind::Patch) + offer_of(current, BumpKind::Minor) + offer_of(
        current,
        BumpKind::Major,
    ) + offer_of(current, BumpKind::Prerelease)
}

fn add_option(options: &mut Vec<BumpOption>, current: &SemVer, kind: BumpKind)
    ensures
        option_views(final(options)@) == option_views(old(options)@) + option_for(current@, kind),
        option_for(current@, kind) == offer_of(current@, kind),
{
    let ghost before = options@;
    match decide(current, &Selection::Bump(kind)) {
        Ok(decision) => {
            options.push(BumpOption { kind, decision });
            assert(option_views(options@) =~= option_views(before) + option_for(current@, kind));
        },
        Err(_) => {
            assert(option_views(options@) =~= option_views(before) + option_for(current@, kind));
        },
    }
}

/// The bumps to offer for `current`, each with the version that it would give:
/// those that lead to a decision, which are those that can be stored, but for
/// the pre-release bump of a release.
pub fn bump_options(current: &SemVer) -> (options: Vec<BumpOption>)
    ensures
        option_views(options@) == options_for(current@),
        option_views(options@) == offers(current@),
{
    let mut options: Vec<BumpOption> = Vec::new();
    assert(option_views(options@) =~= Seq::<OptionView>::empty());
    add_option(&mut options, current, BumpKind::Patch);
    add_option(&mut options, current, BumpKind::Minor);
    add_option(&mut options, current, BumpKind::Major);
    add_option(&mut options, current, BumpKind::Prerelease);
    assert(option_views(options@) =~= options_for(current@));
    options
}

/// A decision is above the version that it was derived from, whatever was
/// selected; and what is not above that version is refused as not greater.
pub proof fn lemma_decision_is_higher(current: VersionView, selection: SelectionView)
    ensures
        decided(current, selection) matches Ok(decision) ==> decision.current == current
            && precedes(current, decision.next),
        !(selection is Abort) && (candidate_of(current, selection) matches Some(next)
            ==> !precedes(current, next)) ==> decided(current, selection) == Err::<
            DecisionView,
            VersionError,
        >(VersionError::VersionNotGreater),
{
}

/// A patch, minor or major bump whose number can still grow always leads to
/// a decision: the bumped version.
pub proof fn lemma_release_bump_is_decided(current: VersionView, kind: BumpKind)
    requires
        kind != BumpKind::Prerelease,
        bump_fits(current, kind),
    ensures
        decided(current, SelectionView::Bump(kind)) == Ok::<DecisionView, VersionError>(
            DecisionView { current, next: bumped(current, kind) },
        ),
{
}

} // verus!
