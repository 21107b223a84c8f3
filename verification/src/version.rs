//! The versioning run: a state machine that takes the answers of the
//! collaborators one by one and says what to ask for next.
//!
//! The machine does no input or output of its own. Its caller performs the
//! action that is pending (a query to the version-control layer, or a prompt)
//! and hands the answer back as an event.
//!
//! A run waits at the start for the release boundary, then for the listing of
//! the files that differ, then for one selection for each group of changed
//! packages: first for the packages that share the synchronized version, then
//! for each package that is versioned on its own. Checking the boundary, and
//! scanning and partitioning the changed packages, happen within a step. The
//! run is over when nothing changed, when every group has its version, or when
//! it failed; the releases can be had only from a run that is done.

use crate::decision::{
    bump_options, decide, decided, offers, option_views, options_for, BumpOption, DecisionView,
    OptionView, Selection, SelectionView, VersionDecision, VersionError,
};
use crate::partition::{
    all_members, form_groups, group_views, groups_of, independent_of, lemma_groups_hold_each_once,
    partition, synchronized_of, GroupView, VersionGroup,
};
use crate::scan::{changed_packages, direct_of, directly_changed, scan};
use crate::semantic_version::{precedes, SemVer, VersionView};
use crate::workspace::{
    changed_views, listing_view, workspace_view, ChangedView, FileChanges, FileChangesView,
    PackageView, WorkspacePackage,
};
use vstd::prelude::*;
use vstd::string::*;

verus! {

/// The options of a versioning run.
#[derive(Debug)]
pub struct Version {
    /// The reference to take as the last release, in place of the one that the
    /// version-control layer would find.
    pub since: Option<String>,
    /// Whether packages that are not published are versioned too.
    pub include_private: bool,
}

/// What the options of a run stand for.
pub struct OptionsView {
    pub since: Option<Seq<char>>,
    pub include_private: bool,
}

impl View for Version {
    type V = OptionsView;

    open spec fn view(&self) -> OptionsView {
        OptionsView {
            since: match self.since {
                Some(reference) => Some(reference@),
                None => None,
            },
            include_private: self.include_private,
        }
    }
}

/// The release boundary: the reference of the last release, and the number of
/// changes since then, written as text.
#[derive(Debug)]
pub struct ChangeBoundary {
    pub since: String,
    pub count: String,
}

/// What a release boundary stands for.
pub struct BoundaryView {
    pub since: Seq<char>,
    pub count: Seq<char>,
}

impl View for ChangeBoundary {
    type V = BoundaryView;

    open spec fn view(&self) -> BoundaryView {
        BoundaryView { since: self.since@, count: self.count@ }
    }
}

impl BoundaryView {
    /// Nothing changed since the boundary: the count reads `0`.
    pub open spec fn is_unchanged(self) -> bool {
        self.count == seq!['0']
    }
}

impl ChangeBoundary {
    /// Whether nothing changed since the boundary.
    pub fn is_unchanged(&self) -> (unchanged: bool)
        ensures
            unchanged == self@.is_unchanged(),
    {
        proof {
            reveal_strlit("0");
        }
        let zero = String::from_str("0");
        assert(zero@ =~= seq!['0']);
        self.count == zero
    }
}

/// The ways in which a query to the version-control layer fails.
#[derive(Clone, Copy, PartialEq, Eq, Structural, Debug)]
pub enum VcsError {
    /// The workspace is not inside a usable repository.
    InvalidRepository,
    /// The reference that was asked for does not exist.
    ReferenceNotFound,
}

/// The failure of the run that a failed query amounts to.
pub open spec fn query_failure(error: VcsError) -> VersionError {
    match error {
        VcsError::InvalidRepository => VersionError::GitInvalid,
        VcsError::ReferenceNotFound => VersionError::GitRefNotFound,
    }
}

/// An answer of a collaborator.
#[derive(Debug)]
pub enum Event {
    /// The version-control layer resolved the release boundary, or failed to.
    Boundary(Result<ChangeBoundary, VcsError>),
    /// The version-control layer listed, package by package, the files that
    /// differ from the boundary, or failed to.
    Changes(Result<Vec<FileChanges>, VcsError>),
    /// The prompt came back.
    Selected(Selection),
}

/// What an event stands for.
pub enum EventView {
    Boundary(Result<BoundaryView, VcsError>),
    Changes(Result<Seq<FileChangesView>, VcsError>),
    Selected(SelectionView),
}

impl View for Event {
    type V = EventView;

    open spec fn view(&self) -> EventView {
        match self {
            Event::Boundary(Ok(boundary)) => EventView::Boundary(Ok(boundary@)),
            Event::Boundary(Err(error)) => EventView::Boundary(Err(*error)),
            Event::Changes(Ok(listing)) => EventView::Changes(Ok(listing_view(listing@))),
            Event::Changes(Err(error)) => EventView::Changes(Err(*error)),
            Event::Selected(selection) => EventView::Selected(selection@),
        }
    }
}

/// What the caller is to do next.
#[derive(Debug)]
pub enum Action {
    /// Resolve the release boundary, from `since` where it is given.
    ResolveBoundary { since: Option<String> },
    /// List, for each package, its files that differ from `reference`.
    ListChanges { reference: String },
    /// Ask for the next version after `current`: under the name `label` for
    /// a package that is versioned on its own, without one for the shared version.
    /// The prompt offers the bumps of `options` and takes a version typed in full.
    Prompt { current: SemVer, label: Option<String>, options: Vec<BumpOption> },
    /// Nothing: the run is over.
    Finish,
}

/// What an action stands for.
pub enum ActionView {
    ResolveBoundary { since: Option<Seq<char>> },
    ListChanges { reference: Seq<char> },
    Prompt { current: VersionView, label: Option<Seq<char>>, options: Seq<OptionView> },
    Finish,
}

impl View for Action {
    type V = ActionView;

    open spec fn view(&self) -> ActionView {
        match self {
            Action::ResolveBoundary { since: Some(text) } => ActionView::ResolveBoundary {
                since: Some(text@),
            },
            Action::ResolveBoundary { since: None } => ActionView::ResolveBoundary { since: None },
            Action::ListChanges { reference } => ActionView::ListChanges { reference: reference@ },
            Action::Prompt { current, label: Some(name), options } => ActionView::Prompt {
                current: current@,
                label: Some(name@),
                options: option_views(options@),
            },
            Action::Prompt { current, label: None, options } => ActionView::Prompt {
                current: current@,
                label: None,
                options: option_views(options@),
            },
            Action::Finish => ActionView::Finish,
        }
    }
}

/// The next version of one package.
#[derive(Debug)]
pub struct Release {
    /// The position of the package in the workspace snapshot.
    pub package: usize,
    pub decision: VersionDecision,
}

/// What a release stands for.
pub struct ReleaseView {
    pub package: int,
    pub decision: DecisionView,
}

impl View for Release {
    type V = ReleaseView;

    open spec fn view(&self) -> ReleaseView {
        ReleaseView { package: self.package as int, decision: self.decision@ }
    }
}

/// What a list of releases stands for.
pub open spec fn release_views(releases: Seq<Release>) -> Seq<ReleaseView> {
    releases.map_values(|r: Release| r@)
}

/// The states of a run, as the caller sees them.
#[derive(Clone, Copy, PartialEq, Eq, Structural, Debug)]
pub enum Stage {
    /// Waiting for the release boundary.
    Start,
    /// Waiting for the packages whose files differ.
    Scanning,
    /// Waiting for the shared version of the synchronized packages.
    DecidingSynchronized,
    /// Waiting for the version of a package that is versioned on its own.
    DecidingIndependent,
    /// Over: nothing changed since the last release.
    Idle,
    /// Over: every group has its next version.
    Done,
    /// Over: the run failed or was cancelled.
    Failed,
}

/// What a run stands for: its state.
pub enum StateView {
    Start,
    Scanning { boundary: BoundaryView },
    Deciding { groups: Seq<GroupView>, cursor: nat, releases: Seq<ReleaseView> },
    Idle,
    Done { releases: Seq<ReleaseView> },
    /// The run failed with `error`. `subject` says what the failure is about: the
    /// reference that a failed query went by, or the name of the package whose
    /// prompt was cancelled.
    Failed { error: VersionError, subject: Option<Seq<char>> },
}

/// From a member of a group to its release under `decision`.
pub open spec fn released(decision: DecisionView) -> spec_fn(ChangedView) -> ReleaseView {
    |c: ChangedView| ReleaseView { package: c.index, decision }
}

/// The releases of a group: every member gets the same decision.
pub open spec fn releases_for(group: GroupView, decision: DecisionView) -> Seq<ReleaseView> {
    group.members().map_values(released(decision))
}

/// The groups to version, given the files that differ: the packages that
/// changed are scanned from those that changed directly, and partitioned.
pub open spec fn plan_of(
    include_private: bool,
    g: Seq<PackageView>,
    listing: Seq<FileChangesView>,
) -> Seq<GroupView> {
    let found = changed_packages(g, direct_of(listing), include_private);
    groups_of(independent_of(found), synchronized_of(found))
}

/// The packages that the releases are for, in their order.
pub open spec fn packages_of(releases: Seq<ReleaseView>) -> Seq<int> {
    releases.map_values(|r: ReleaseView| r.package)
}

/// The positions of the given packages in the snapshot, in their order.
pub open spec fn indices_of(members: Seq<ChangedView>) -> Seq<int> {
    members.map_values(|c: ChangedView| c.index)
}

/// Every release moves its package to a version above the one that the
/// decision was derived from.
pub open spec fn all_higher(releases: Seq<ReleaseView>) -> bool {
    forall|k: int|
        0 <= k < releases.len() ==> precedes(
            (#[trigger] releases[k]).decision.current,
            releases[k].decision.next,
        )
}

impl StateView {
    /// What holds of the state of every run: while it decides, the group in turn
    /// exists, no group is empty, and the releases so far are those of the groups
    /// before it, package by package; and every release moves to a higher
    /// version.
    pub open spec fn is_consistent(self) -> bool {
        match self {
            StateView::Deciding { groups, cursor, releases } => {
                &&& cursor < groups.len()
                &&& forall|k: int| 0 <= k < groups.len() ==> (#[trigger] groups[k]).well_formed()
                &&& packages_of(releases) == indices_of(all_members(groups.take(cursor as int)))
                &&& all_higher(releases)
            },
            StateView::Done { releases } => all_higher(releases),
            _ => true,
        }
    }

    /// The state after `event`.
    ///
    /// An event that the state does not wait for leaves it as it is; so does a
    /// selection that is refused as not greater, which is asked for again.
    pub open spec fn step(self, options: OptionsView, g: Seq<PackageView>, event: EventView) -> StateView {
        match (self, event) {
            (StateView::Start, EventView::Boundary(Ok(boundary))) => if boundary.is_unchanged() {
                StateView::Idle
            } else {
                StateView::Scanning { boundary }
            },
            (StateView::Start, EventView::Boundary(Err(error))) => StateView::Failed {
                error: query_failure(error),
                subject: options.since,
            },
            (StateView::Scanning { .. }, EventView::Changes(Ok(listing))) => {
                let groups = plan_of(options.include_private, g, listing);
                if groups.len() == 0 {
                    StateView::Done { releases: Seq::empty() }
                } else {
                    StateView::Deciding { groups, cursor: 0, releases: Seq::empty() }
                }
            },
            (StateView::Scanning { boundary }, EventView::Changes(Err(error))) => StateView::Failed {
                error: query_failure(error),
                subject: Some(boundary.since),
            },
            (StateView::Deciding { groups, cursor, releases }, EventView::Selected(selection)) => {
                match decided(groups[cursor as int].basis(), selection) {
                    Ok(decision) => {
                        let all = releases + releases_for(groups[cursor as int], decision);
                        if cursor + 1 == groups.len() {
                            StateView::Done { releases: all }
                        } else {
                            StateView::Deciding { groups, cursor: cursor + 1, releases: all }
                        }
                    },
                    Err(VersionError::UserAborted) => StateView::Failed {
                        error: VersionError::UserAborted,
                        subject: groups[cursor as int].label(),
                    },
                    Err(_) => self,
                }
            },
            _ => self,
        }
    }

    /// The state after a series of events.
    pub open spec fn run(self, options: OptionsView, g: Seq<PackageView>, events: Seq<EventView>) -> StateView
        decreases events.len(),
    {
        if events.len() == 0 {
            self
        } else {
            self.run(options, g, events.drop_last()).step(options, g, events.last())
        }
    }

    /// What the caller is to do in this state.
    pub open spec fn pending(self, since: Option<Seq<char>>) -> ActionView {
        match self {
            StateView::Start => ActionView::ResolveBoundary { since },
            StateView::Scanning { boundary } => ActionView::ListChanges { reference: boundary.since },
            StateView::Deciding { groups, cursor, .. } => ActionView::Prompt {
                current: groups[cursor as int].basis(),
                label: groups[cursor as int].label(),
                options: options_for(groups[cursor as int].basis()),
            },
            _ => ActionView::Finish,
        }
    }

    /// The stage that the state is in.
    pub open spec fn stage(self) -> Stage {
        match self {
            StateView::Start => Stage::Start,
            StateView::Scanning { .. } => Stage::Scanning,
            StateView::Deciding { groups, cursor, .. } => if groups[cursor as int] is Synchronized {
                Stage::DecidingSynchronized
            } else {
                Stage::DecidingIndependent
            },
            StateView::Idle => Stage::Idle,
            StateView::Done { .. } => Stage::Done,
            StateView::Failed { .. } => Stage::Failed,
        }
    }

    /// The run is over.
    pub open spec fn is_over(self) -> bool {
        self is Idle || self is Done || self is Failed
    }
}

#[derive(Debug)]
enum Phase {
    Start,
    Scanning { boundary: ChangeBoundary },
    Deciding { groups: Vec<VersionGroup>, cursor: usize, releases: Vec<Release> },
    Idle,
    Done { releases: Vec<Release> },
    Failed { error: VersionError, subject: Option<String> },
}

/// A versioning run in progress: the state of the machine.
#[derive(Debug)]
pub struct Run {
    phase: Phase,
}

impl View for Run {
    type V = StateView;

    closed spec fn view(&self) -> StateView {
        match self.phase {
            Phase::Start => StateView::Start,
            Phase::Scanning { boundary } => StateView::Scanning { boundary: boundary@ },
            Phase::Deciding { groups, cursor, releases } => StateView::Deciding {
                groups: group_views(groups@),
                cursor: cursor as nat,
                releases: release_views(releases@),
            },
            Phase::Idle => StateView::Idle,
            Phase::Done { releases } => StateView::Done { releases: release_views(releases@) },
            Phase::Failed { error, subject } => StateView::Failed {
                error,
                subject: text_view(subject),
            },
        }
    }
}

/// Records the decision for every member of the group.
fn record(releases: &mut Vec<Release>, group: &VersionGroup, decision: &VersionDecision)
    ensures
        release_views(final(releases)@) == release_views(old(releases)@) + releases_for(
            group@,
            decision@,
        ),
{
    let ghost before = release_views(releases@);
    let ghost make = released(decision@);
    match group {
        VersionGroup::Independent(package) => {
            releases.push(Release { package: package.index, decision: decision.duplicate() });
            assert(release_views(releases@) =~= before + releases_for(group@, decision@));
        },
        VersionGroup::Synchronized(members) => {
            let ghost views = changed_views(members@);
            let mut i: usize = 0;
            assert(release_views(releases@) =~= before + views.take(0).map_values(make));
            while i < members.len()
                invariant
                    i <= members.len(),
                    views == changed_views(members@),
                    make == released(decision@),
                    release_views(releases@) == before + views.take(i as int).map_values(make),
                decreases members.len() - i,
            {
                let ghost so_far = releases@;
                releases.push(Release { package: members[i].index, decision: decision.duplicate() });
                proof {
                    assert(views.take(i + 1) =~= views.take(i as int).push(views[i as int]));
                    assert(release_views(releases@) =~= release_views(so_far).push(
                        make(views[i as int]),
                    ));
                    assert(release_views(releases@) =~= before + views.take(i + 1).map_values(
                        make,
                    ));
                }
                i += 1;
            }
            assert(views.take(i as int) =~= views);
        },
    }
}

impl ChangeBoundary {
    /// A copy of this boundary.
    pub fn duplicate(&self) -> (copy: ChangeBoundary)
        ensures
            copy@ == self@,
    {
        ChangeBoundary { since: self.since.clone(), count: self.count.clone() }
    }
}

impl VcsError {
    /// The failure of the run that this failed query amounts to.
    pub fn failure(self) -> (error: VersionError)
        ensures
            error == query_failure(self),
    {
        match self {
            VcsError::InvalidRepository => VersionError::GitInvalid,
            VcsError::ReferenceNotFound => VersionError::GitRefNotFound,
        }
    }
}

impl Run {
    #[verifier::type_invariant]
    spec fn well_formed(self) -> bool {
        match self.phase {
            Phase::Deciding { groups, cursor, .. } => {
                &&& cursor < groups.len()
                &&& forall|k: int| 0 <= k < groups.len() ==> (#[trigger] groups@[k])@.well_formed()
            },
            _ => true,
        }
    }

    /// The stage that the run is in.
    pub fn stage(&self) -> (stage: Stage)
        ensures
            stage == self@.stage(),
    {
        proof {
            use_type_invariant(self);
        }
        match &self.phase {
            Phase::Start => Stage::Start,
            Phase::Scanning { .. } => Stage::Scanning,
            Phase::Deciding { groups, cursor, .. } => match &groups[*cursor] {
                VersionGroup::Synchronized(_) => Stage::DecidingSynchronized,
                VersionGroup::Independent(_) => Stage::DecidingIndependent,
            },
            Phase::Idle => Stage::Idle,
            Phase::Done { .. } => Stage::Done,
            Phase::Failed { .. } => Stage::Failed,
        }
    }

    /// Whether the run is over.
    pub fn is_over(&self) -> (over: bool)
        ensures
            over == self@.is_over(),
    {
        match &self.phase {
            Phase::Idle => true,
            Phase::Done { .. } => true,
            Phase::Failed { .. } => true,
            _ => false,
        }
    }

    /// The releases that the run decided on, once it is done. Before that, and
    /// after a failure, there are none to be had.
    pub fn releases(&self) -> (releases: Option<&Vec<Release>>)
        ensures
            releases is Some <==> self@ is Done,
            releases matches Some(list) ==> self@ == (StateView::Done {
                releases: release_views(list@),
            }),
    {
        match &self.phase {
            Phase::Done { releases } => Some(releases),
            _ => None,
        }
    }

    /// The failure that ended the run, if one did.
    pub fn error(&self) -> (error: Option<VersionError>)
        ensures
            error is Some <==> self@ is Failed,
            error matches Some(e) ==> self@ matches StateView::Failed { error, .. } && error == e,
    {
        match &self.phase {
            Phase::Failed { error, .. } => Some(*error),
            _ => None,
        }
    }

    /// What the failure that ended the run is about, where that is known: the
    /// reference that the failed query went by, or the name of the package whose
    /// prompt was cancelled.
    pub fn failure_subject(&self) -> (subject: Option<&String>)
        ensures
            subject is Some <==> self@ matches StateView::Failed { subject: Some(_), .. },
            subject matches Some(text) ==> self@ matches StateView::Failed {
                subject: Some(about),
                ..
            } && about == text@,
    {
        match &self.phase {
            Phase::Failed { subject: Some(text), .. } => Some(text),
            _ => None,
        }
    }
}

/// What a list of events stands for.
pub open spec fn event_views(events: Seq<Event>) -> Seq<EventView> {
    events.map_values(|e: Event| e@)
}

/// What the given option stands for.
pub open spec fn text_view(text: Option<String>) -> Option<Seq<char>> {
    match text {
        Some(t) => Some(t@),
        None => None,
    }
}

impl Version {
    /// A run that has not started.
    pub fn start(&self) -> (run: Run)
        ensures
            run@ == StateView::Start,
    {
        Run { phase: Phase::Start }
    }

    /// What the caller is to do next for `run`. A prompt offers the bumps that
    /// lead to a decision: those that can be stored, but for the pre-release bump
    /// of a release.
    pub fn pending(&self, run: &Run) -> (action: Action)
        ensures
            action@ == run@.pending(self@.since),
            action@ matches ActionView::Prompt { current, options, .. } ==> options == offers(
                current,
            ),
    {
        proof {
            use_type_invariant(run);
        }
        match &run.phase {
            Phase::Start => match &self.since {
                Some(text) => Action::ResolveBoundary { since: Some(text.clone()) },
                None => Action::ResolveBoundary { since: None },
            },
            Phase::Scanning { boundary } => Action::ListChanges {
                reference: boundary.since.clone(),
            },
            Phase::Deciding { groups, cursor, .. } => {
                let group = &groups[*cursor];
                let current = group.basis();
                let options = bump_options(&current);
                Action::Prompt { current, label: group.label(), options }
            },
            _ => Action::Finish,
        }
    }

    /// Takes the run one step further: the state after `event`.
    ///
    /// The boundary leads to the scan, or ends the run where nothing changed. From
    /// the listing of the files that differ, the changed packages are scanned and
    /// partitioned into groups, the synchronized group first. Each selection
    /// decides the version of the group in turn; one that is refused as not
    /// greater leaves the run where it is, and cancelling fails it. A failed query
    /// fails the run. Any other event is ignored.
    #[verifier::rlimit(50)]
    pub fn step(&self, packages: &Vec<WorkspacePackage>, run: Run, event: &Event) -> (next: Run)
        ensures
            next@ == run@.step(self@, workspace_view(packages@), event@),
    {
        proof {
            use_type_invariant(&run);
        }
        match run.phase {
            Phase::Start => match event {
                Event::Boundary(Ok(boundary)) => {
                    if boundary.is_unchanged() {
                        Run { phase: Phase::Idle }
                    } else {
                        Run { phase: Phase::Scanning { boundary: boundary.duplicate() } }
                    }
                },
                Event::Boundary(Err(error)) => Run {
                    phase: Phase::Failed { error: error.failure(), subject: self.since.clone() },
                },
                _ => Run { phase: Phase::Start },
            },
            Phase::Scanning { boundary } => match event {
                Event::Changes(Ok(listing)) => {
                    let direct = directly_changed(listing);
                    let found = scan(packages, &direct, self.include_private);
                    let parts = partition(&found);
                    let groups = form_groups(&parts.0, &parts.1);
                    let releases: Vec<Release> = Vec::new();
                    assert(release_views(releases@) =~= Seq::<ReleaseView>::empty());
                    if groups.len() == 0 {
                        Run { phase: Phase::Done { releases } }
                    } else {
                        Run { phase: Phase::Deciding { groups, cursor: 0, releases } }
                    }
                },
                Event::Changes(Err(error)) => Run {
                    phase: Phase::Failed { error: error.failure(), subject: Some(boundary.since) },
                },
                _ => Run { phase: Phase::Scanning { boundary } },
            },
            Phase::Deciding { groups, cursor, releases } => match event {
                Event::Selected(selection) => {
                    let basis = groups[cursor].basis();
                    match decide(&basis, selection) {
                        Ok(decision) => {
                            let mut releases = releases;
                            record(&mut releases, &groups[cursor], &decision);
                            if cursor + 1 == groups.len() {
                                Run { phase: Phase::Done { releases } }
                            } else {
                                Run { phase: Phase::Deciding { groups, cursor: cursor + 1, releases } }
                            }
                        },
                        Err(error) => {
                            if error == VersionError::UserAborted {
                                Run {
                                    phase: Phase::Failed { error, subject: groups[cursor].label() },
                                }
                            } else {
                                Run { phase: Phase::Deciding { groups, cursor, releases } }
                            }
                        },
                    }
                },
                _ => Run { phase: Phase::Deciding { groups, cursor, releases } },
            },
            Phase::Idle => Run { phase: Phase::Idle },
            Phase::Done { releases } => Run { phase: Phase::Done { releases } },
            Phase::Failed { error, subject } => Run { phase: Phase::Failed { error, subject } },
        }
    }

    /// Takes a run from the start through the given events, in their order.
    pub fn run(&self, packages: &Vec<WorkspacePackage>, events: &Vec<Event>) -> (last: Run)
        ensures
            last@ == StateView::Start.run(self@, workspace_view(packages@), event_views(events@)),
    {
        let ghost views = event_views(events@);
        let mut run = self.start();
        let mut i: usize = 0;
        assert(views.take(0) =~= Seq::<EventView>::empty());
        while i < events.len()
            invariant
                i <= events.len(),
                views == event_views(events@),
                run@ == StateView::Start.run(
                    self@,
                    workspace_view(packages@),
                    views.take(i as int),
                ),
            decreases events.len() - i,
        {
            proof {
                assert(views.take(i + 1).drop_last() =~= views.take(i as int));
                assert(views.take(i + 1).last() == events@[i as int]@);
            }
            run = self.step(packages, run, &events[i]);
            i += 1;
        }
        assert(views.take(i as int) =~= views);
        run
    }
}

/// A run that is over stays as it is, whatever comes.
pub proof fn lemma_over_is_final(
    state: StateView,
    options: OptionsView,
    g: Seq<PackageView>,
    events: Seq<EventView>,
)
    requires
        state.is_over(),
    ensures
        state.run(options, g, events) == state,
    decreases events.len(),
{
    if events.len() > 0 {
        lemma_over_is_final(state, options, g, events.drop_last());
    }
}

/// Running through two series of events, one after the other, is running
/// through both in one.
pub proof fn lemma_run_in_parts(
    state: StateView,
    options: OptionsView,
    g: Seq<PackageView>,
    first: Seq<EventView>,
    second: Seq<EventView>,
)
    ensures
        state.run(options, g, first + second) == state.run(options, g, first).run(
            options,
            g,
            second,
        ),
    decreases second.len(),
{
    if second.len() == 0 {
        assert(first + second =~= first);
    } else {
        assert((first + second).drop_last() =~= first + second.drop_last());
        assert((first + second).last() == second.last());
        lemma_run_in_parts(state, options, g, first, second.drop_last());
    }
}

/// A step keeps the state consistent; and the step that ends the deciding
/// leaves one release for each package of the groups, in their order.
pub proof fn lemma_step_is_consistent(
    state: StateView,
    options: OptionsView,
    g: Seq<PackageView>,
    event: EventView,
)
    requires
        state.is_consistent(),
    ensures
        state.step(options, g, event).is_consistent(),
        state is Deciding && state.step(options, g, event) is Done ==> packages_of(
            state.step(options, g, event)->Done_releases,
        ) == indices_of(all_members(state->Deciding_groups)),
{
    let next = state.step(options, g, event);
    match (state, event) {
        (StateView::Scanning { .. }, EventView::Changes(Ok(listing))) => {
            let found = changed_packages(g, direct_of(listing), options.include_private);
            let groups = plan_of(options.include_private, g, listing);
            lemma_groups_hold_each_once(independent_of(found), synchronized_of(found));
            if groups.len() > 0 {
                assert(groups.take(0) =~= Seq::<GroupView>::empty());
                assert(packages_of(Seq::<ReleaseView>::empty()) =~= indices_of(
                    all_members(groups.take(0)),
                ));
            }
        },
        (StateView::Deciding { groups, cursor, releases }, EventView::Selected(selection)) => {
            let group = groups[cursor as int];
            let after = cursor as int + 1;
            match decided(group.basis(), selection) {
                Ok(decision) => {
                    let added = releases_for(group, decision);
                    let all = releases + added;
                    assert(groups.take(after).drop_last() =~= groups.take(cursor as int));
                    assert(groups.take(after).last() == group);
                    assert(packages_of(all) =~= packages_of(releases) + indices_of(
                        group.members(),
                    ));
                    assert(indices_of(all_members(groups.take(after))) =~= indices_of(
                        all_members(groups.take(cursor as int)),
                    ) + indices_of(group.members()));
                    assert(all_higher(all)) by {
                        assert forall|k: int| 0 <= k < all.len() implies precedes(
                            (#[trigger] all[k]).decision.current,
                            all[k].decision.next,
                        ) by {
                            if k < releases.len() {
                                assert(all[k] == releases[k]);
                            } else {
                                assert(all[k] == added[k - releases.len()]);
                            }
                        }
                    }
                    if cursor + 1 == groups.len() {
                        assert(groups.take(after) =~= groups);
                    }
                },
                Err(_) => {},
            }
        },
        _ => {},
    }
}

/// The state of a run is consistent, whatever the events were.
pub proof fn lemma_run_is_consistent(
    options: OptionsView,
    g: Seq<PackageView>,
    events: Seq<EventView>,
)
    ensures
        StateView::Start.run(options, g, events).is_consistent(),
    decreases events.len(),
{
    if events.len() > 0 {
        lemma_run_is_consistent(options, g, events.drop_last());
        lemma_step_is_consistent(
            StateView::Start.run(options, g, events.drop_last()),
            options,
            g,
            events.last(),
        );
    }
}

/// Where the boundary says that nothing changed, the run ends at once and in
/// success: it is idle after the boundary and stays so, and being idle asks for
/// no scan and no prompt.
pub proof fn lemma_nothing_changed(
    boundary: BoundaryView,
    options: OptionsView,
    g: Seq<PackageView>,
    rest: Seq<EventView>,
)
    requires
        boundary.is_unchanged(),
    ensures
        StateView::Start.run(options, g, seq![EventView::Boundary(Ok(boundary))] + rest)
            == StateView::Idle,
        StateView::Idle.pending(options.since) == ActionView::Finish,
{
    let first = seq![EventView::Boundary(Ok(boundary))];
    assert(first.drop_last() =~= Seq::<EventView>::empty());
    assert(StateView::Start.run(options, g, first.drop_last()) == StateView::Start);
    assert(StateView::Start.run(options, g, first) == StateView::Idle);
    lemma_run_in_parts(StateView::Start, options, g, first, rest);
    lemma_over_is_final(StateView::Idle, options, g, rest);
}

} // verus!
