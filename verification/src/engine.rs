//! The remote swap engine.
//!
//! For one repository the engine takes the remotes that were read from it,
//! computes the swap candidates — the remotes whose URL is exactly a key of
//! the mapping — reports them, and, unless the run is a dry run, persists
//! each new URL. The planning is pure and exact; only the persisting call
//! touches the repository.

use vstd::prelude::*;
use crate::gitops::{list_remote_names, remote_url, set_remote_url, SwapError};
use crate::mapping::RemoteMapping;
use crate::paths::DirPath;
use crate::walker::FoundRepo;

verus! {

/// One remote as read from a repository: its name, and its URL when one
/// could be resolved.
pub struct RemoteInfo {
    pub name: String,
    /// `None` when the remote's URL could not be resolved; such a remote is
    /// skipped, never an error.
    pub url: Option<String>,
}

/// The ghost image of a `RemoteInfo`.
pub struct RemoteView {
    pub name: Seq<char>,
    pub url: Option<Seq<char>>,
}

impl View for RemoteInfo {
    type V = RemoteView;

    open spec fn view(&self) -> RemoteView {
        RemoteView {
            name: self.name@,
            url: match self.url {
                Some(u) => Some(u@),
                None => None,
            },
        }
    }
}

impl DeepView for RemoteInfo {
    type V = RemoteView;

    open spec fn deep_view(&self) -> RemoteView {
        self.view()
    }
}

/// A planned swap: this remote's URL, found as a key of the mapping, is to
/// be replaced by the mapping's destination.
pub struct SwapCandidate {
    pub name: String,
    pub old_url: String,
    pub new_url: String,
}

impl View for SwapCandidate {
    type V = (Seq<char>, Seq<char>, Seq<char>);

    open spec fn view(&self) -> (Seq<char>, Seq<char>, Seq<char>) {
        (self.name@, self.old_url@, self.new_url@)
    }
}

impl DeepView for SwapCandidate {
    type V = (Seq<char>, Seq<char>, Seq<char>);

    open spec fn deep_view(&self) -> (Seq<char>, Seq<char>, Seq<char>) {
        self.view()
    }
}

/// The swap a single remote calls for: one exactly when the remote has a
/// resolved URL and that URL is a key of the mapping, none otherwise.
pub open spec fn candidate_of(
    mapping: Map<Seq<char>, Seq<char>>,
    r: RemoteView,
) -> Option<(Seq<char>, Seq<char>, Seq<char>)> {
    match r.url {
        None => None,
        Some(u) => if mapping.contains_key(u) {
            Some((r.name, u, mapping[u]))
        } else {
            None
        },
    }
}

/// The swap candidates of a repository's remotes, in remote order.
pub open spec fn candidates_of(
    mapping: Map<Seq<char>, Seq<char>>,
    rs: Seq<RemoteView>,
) -> Seq<(Seq<char>, Seq<char>, Seq<char>)>
    decreases rs.len(),
{
    if rs.len() == 0 {
        Seq::empty()
    } else {
        candidates_of(mapping, rs.drop_last()) + match candidate_of(mapping, rs.last()) {
            Some(c) => seq![c],
            None => Seq::empty(),
        }
    }
}

/// Computes the swap candidates of `remotes` under `mapping`: exactly the
/// remotes whose resolved URL is a key of the mapping, in order, each paired
/// with the mapping's destination URL. A URL that differs from every key —
/// by a trailing slash, by case, by scheme, by anything — yields no
/// candidate.
pub fn plan_swaps(mapping: &RemoteMapping, remotes: &Vec<RemoteInfo>) -> (r: Vec<SwapCandidate>)
    requires
        mapping.wf(),
    ensures
        r.deep_view() == candidates_of(mapping@, remotes.deep_view()),
{
    let ghost rs = remotes.deep_view();
    let mut r: Vec<SwapCandidate> = Vec::new();
    let mut i: usize = 0;
    while i < remotes.len()
        invariant
            mapping.wf(),
            rs == remotes.deep_view(),
            i <= remotes.len(),
            r.deep_view() == candidates_of(mapping@, rs.take(i as int)),
        decreases remotes.len() - i,
    {
        let rem = &remotes[i];
        let ghost before = r.deep_view();
        let ghost cand = candidate_of(mapping@, rs[i as int]);
        match &rem.url {
            None => {
                proof {
                    assert(cand is None);
                }
            },
            Some(u) => {
                match mapping.lookup(u) {
                    None => {
                        proof {
                            assert(cand is None);
                        }
                    },
                    Some(new_url) => {
                        let c = SwapCandidate {
                            name: rem.name.clone(),
                            old_url: u.clone(),
                            new_url,
                        };
                        proof {
                            assert(cand == Some(c.deep_view()));
                        }
                        r.push(c);
                        proof {
                            assert(r.deep_view() =~= before.push(cand.unwrap()));
                        }
                    },
                }
            },
        }
        i = i + 1;
        proof {
            assert(rs.take(i as int).drop_last() =~= rs.take(i as int - 1));
            assert(rs.take(i as int).last() == rs[i as int - 1]);
            assert(r.deep_view() =~= candidates_of(mapping@, rs.take(i as int)));
        }
    }
    proof {
        assert(rs.take(remotes.len() as int) =~= rs);
    }
    r
}

/// One line of the progress report. The report is an injected sink: the
/// engine appends events, the caller renders them.
#[derive(Debug, PartialEq, Eq)]
pub enum ReportEvent {
    /// The run header: the dry-run flag, the root searched, and how many
    /// replacements the mapping holds.
    RunStart { dry_run: bool, root: DirPath, mapping_len: usize },
    /// One block per discovered repository.
    FoundRepo { path: DirPath },
    /// One sub-line per swap candidate, reported whether or not the run is
    /// dry.
    Swap { name: String, old_url: String, new_url: String },
    /// Closes a repository's block when none of its remotes matched.
    NoSwaps,
}

/// The ghost image of a `ReportEvent`.
pub enum EventView {
    RunStart { dry_run: bool, root: Seq<Seq<char>>, mapping_len: int },
    FoundRepo { path: Seq<Seq<char>> },
    Swap { name: Seq<char>, old_url: Seq<char>, new_url: Seq<char> },
    NoSwaps,
}

impl View for ReportEvent {
    type V = EventView;

    open spec fn view(&self) -> EventView {
        match self {
            ReportEvent::RunStart { dry_run, root, mapping_len } => EventView::RunStart {
                dry_run: *dry_run,
                root: root@,
                mapping_len: *mapping_len as int,
            },
            ReportEvent::FoundRepo { path } => EventView::FoundRepo { path: path@ },
            ReportEvent::Swap { name, old_url, new_url } => EventView::Swap {
                name: name@,
                old_url: old_url@,
                new_url: new_url@,
            },
            ReportEvent::NoSwaps => EventView::NoSwaps,
        }
    }
}

impl DeepView for ReportEvent {
    type V = EventView;

    open spec fn deep_view(&self) -> EventView {
        self.view()
    }
}

/// The report line of one swap candidate.
pub open spec fn swap_event(c: (Seq<char>, Seq<char>, Seq<char>)) -> EventView {
    EventView::Swap { name: c.0, old_url: c.1, new_url: c.2 }
}

/// The report lines of a sequence of swap candidates, in order.
pub open spec fn swap_events(cs: Seq<(Seq<char>, Seq<char>, Seq<char>)>) -> Seq<EventView> {
    cs.map_values(|c: (Seq<char>, Seq<char>, Seq<char>)| swap_event(c))
}

/// What one repository adds to the report after its header line: its swap
/// candidates, or the explicit no-swaps signal when there are none. The
/// dry-run flag plays no part: a dry run reports exactly what a real run
/// would.
pub open spec fn repo_events(cs: Seq<(Seq<char>, Seq<char>, Seq<char>)>) -> Seq<EventView> {
    swap_events(cs) + if cs.len() == 0 {
        seq![EventView::NoSwaps]
    } else {
        Seq::<EventView>::empty()
    }
}

/// One repository's whole report block: its path, then its swaps.
pub open spec fn block_events(
    path: Seq<Seq<char>>,
    cs: Seq<(Seq<char>, Seq<char>, Seq<char>)>,
) -> Seq<EventView> {
    seq![EventView::FoundRepo { path }] + repo_events(cs)
}

/// The report lines of one repository's interrupted block: its path line,
/// then the candidate lines that were reported before the run aborted.
pub open spec fn partial_block_events(
    path: Seq<Seq<char>>,
    cs: Seq<(Seq<char>, Seq<char>, Seq<char>)>,
    k: int,
) -> Seq<EventView> {
    seq![EventView::FoundRepo { path }] + swap_events(cs.take(k))
}

/// Whether `tail` reads as an interrupted block under `mapping`: a path
/// line followed by a prefix of the candidate lines of some remote list.
pub open spec fn is_partial_block(
    mapping: Map<Seq<char>, Seq<char>>,
    tail: Seq<EventView>,
) -> bool {
    exists|path: Seq<Seq<char>>, rvs: Seq<RemoteView>, k: int|
        0 <= k <= candidates_of(mapping, rvs).len() && tail == #[trigger] partial_block_events(
            path,
            candidates_of(mapping, rvs),
            k,
        )
}

/// The report tail of a completed run: one block per repository processed,
/// in arrival order.
pub open spec fn blocks_events(
    bs: Seq<(Seq<Seq<char>>, Seq<(Seq<char>, Seq<char>, Seq<char>)>)>,
) -> Seq<EventView>
    decreases bs.len(),
{
    if bs.len() == 0 {
        Seq::empty()
    } else {
        blocks_events(bs.drop_last()) + block_events(bs.last().0, bs.last().1)
    }
}

/// No remote matches, no candidate: when every remote's URL misses the
/// mapping, the plan is empty.
pub proof fn lemma_no_candidates(mapping: Map<Seq<char>, Seq<char>>, rs: Seq<RemoteView>)
    requires
        forall|i: int| 0 <= i < rs.len() ==> candidate_of(mapping, #[trigger] rs[i]) is None,
    ensures
        candidates_of(mapping, rs) == Seq::<(Seq<char>, Seq<char>, Seq<char>)>::empty(),
    decreases rs.len(),
{
    if rs.len() > 0 {
        assert(forall|i: int| 0 <= i < rs.len() - 1 ==> rs.drop_last()[i] == rs[i]);
        lemma_no_candidates(mapping, rs.drop_last());
        assert(rs.last() == rs[rs.len() - 1]);
        assert(candidates_of(mapping, rs) =~= Seq::<(Seq<char>, Seq<char>, Seq<char>)>::empty());
    }
}

/// A remote whose URL is not exactly a key is never swapped: exact-match
/// semantics. A URL that differs from a key by a trailing slash, by case,
/// or by scheme is simply a URL that is not a key.
pub proof fn lemma_exact_match_only(
    mapping: Map<Seq<char>, Seq<char>>,
    name: Seq<char>,
    url: Seq<char>,
)
    requires
        !mapping.contains_key(url),
    ensures
        candidate_of(mapping, RemoteView { name, url: Some(url) }) is None,
{
}

/// The remotes as they stand after one full (non-dry) swap pass: each
/// matching remote carries the mapping's destination URL, every other
/// remote is untouched.
pub open spec fn swapped_remotes(
    mapping: Map<Seq<char>, Seq<char>>,
    rs: Seq<RemoteView>,
) -> Seq<RemoteView> {
    rs.map_values(
        |r: RemoteView|
            match candidate_of(mapping, r) {
                Some(c) => RemoteView { name: r.name, url: Some(c.2) },
                None => r,
            },
    )
}

/// Idempotence: after one swap pass under a mapping whose destination
/// values are not themselves keys, a second pass finds no candidate at all
/// — a matched remote now carries a destination URL, which matches no key,
/// and an unmatched remote still matches none.
pub proof fn lemma_swap_idempotent(mapping: Map<Seq<char>, Seq<char>>, rs: Seq<RemoteView>)
    requires
        forall|k: Seq<char>| #[trigger] mapping.contains_key(k) ==> !mapping.contains_key(mapping[k]),
    ensures
        candidates_of(mapping, swapped_remotes(mapping, rs))
            == Seq::<(Seq<char>, Seq<char>, Seq<char>)>::empty(),
{
    let sw = swapped_remotes(mapping, rs);
    assert forall|i: int| 0 <= i < sw.len() implies candidate_of(mapping, #[trigger] sw[i]) is None by {
        assert(sw[i] == match candidate_of(mapping, rs[i]) {
            Some(c) => RemoteView { name: rs[i].name, url: Some(c.2) },
            None => rs[i],
        });
    }
    lemma_no_candidates(mapping, sw);
}

/// Resolves each named remote's URL: one entry per name, in order, every
/// name preserved — none dropped, none invented. Each URL is the disk's
/// answer: `Some` when it resolved, `None` when it could not be; a remote
/// whose URL cannot be resolved is skipped by the planner, never an error.
pub fn resolve_urls(repo: &git2::Repository, names: Vec<String>) -> (r: Vec<RemoteInfo>)
    ensures
        r@.len() == names@.len(),
        forall|i: int| 0 <= i < r@.len() ==> (#[trigger] r@[i].name) == names@[i],
{
    let ghost nv = names@;
    let mut names = names;
    let mut r: Vec<RemoteInfo> = Vec::new();
    while names.len() > 0
        invariant
            r@.len() + names@.len() == nv.len(),
            names@ == nv.subrange(r@.len() as int, nv.len() as int),
            forall|k: int| 0 <= k < r@.len() ==> (#[trigger] r@[k].name) == nv[k],
        decreases names.len(),
    {
        let name = names.remove(0);
        let url = remote_url(repo, &name);
        r.push(RemoteInfo { name, url });
        proof {
            assert(names@ =~= nv.subrange(r@.len() as int, nv.len() as int));
        }
    }
    r
}

/// Reads a repository's remotes: the names, then each name's URL through
/// `resolve_urls`, which preserves them one-to-one. A failure to enumerate
/// the names is the run's hard error; which names the disk holds is not
/// nameable here, so nothing more is claimed.
pub fn fetch_remotes(repo: &git2::Repository) -> (r: Result<Vec<RemoteInfo>, SwapError>)
    ensures
        r matches Err(e) ==> e is ListRemotes,
{
    match list_remote_names(repo) {
        Err(e) => Err(SwapError::ListRemotes(e)),
        Ok(names) => Ok(resolve_urls(repo, names)),
    }
}

/// Applies the swap pass to one repository whose remotes have been read:
/// reports every candidate, and, unless the run is dry, persists each new
/// URL in candidate order, stopping at the first failure.
///
/// Dry run is a pure observer: under `dry_run` the mutating call is never
/// made, the result is always `Ok`, and the report gains exactly
/// `repo_events(..)` — a function of the remotes and the mapping alone, so
/// a dry run reports precisely what a real run would.
pub fn swap_repo_remotes(
    dry_run: bool,
    mapping: &RemoteMapping,
    repo: &git2::Repository,
    remotes: &Vec<RemoteInfo>,
    report: &mut Vec<ReportEvent>,
) -> (r: Result<(), SwapError>)
    requires
        mapping.wf(),
    ensures
        dry_run ==> r is Ok,
        candidates_of(mapping@, remotes.deep_view()).len() == 0 ==> r is Ok,
        r is Ok ==> final(report).deep_view() == old(report).deep_view() + repo_events(
            candidates_of(mapping@, remotes.deep_view()),
        ),
        r matches Err(e) ==> e is SetUrl && !dry_run && exists|k: int|
            1 <= k <= candidates_of(mapping@, remotes.deep_view()).len()
                && final(report).deep_view() == old(report).deep_view() + swap_events(
                #[trigger] candidates_of(mapping@, remotes.deep_view()).take(k),
            ),
{
    let ghost base = report.deep_view();
    let cands = plan_swaps(mapping, remotes);
    let ghost cs = candidates_of(mapping@, remotes.deep_view());
    if cands.len() == 0 {
        report.push(ReportEvent::NoSwaps);
        proof {
            assert(swap_events(cs) =~= Seq::<EventView>::empty());
            assert(report.deep_view() =~= base + repo_events(cs));
        }
        return Ok(());
    }
    let mut k: usize = 0;
    while k < cands.len()
        invariant
            mapping.wf(),
            cands.deep_view() == cs,
            cs == candidates_of(mapping@, remotes.deep_view()),
            cs.len() == cands.len(),
            k <= cands.len(),
            base == old(report).deep_view(),
            report.deep_view() == base + swap_events(cs.take(k as int)),
        decreases cands.len() - k,
    {
        let c = &cands[k];
        let ghost prevv = report@;
        let ghost prev = report.deep_view();
        report.push(ReportEvent::Swap {
            name: c.name.clone(),
            old_url: c.old_url.clone(),
            new_url: c.new_url.clone(),
        });
        proof {
            let ev = swap_event(cs[k as int]);
            assert(c.deep_view() == cs[k as int]);
            assert(report@.last().deep_view() == ev);
            assert forall|j: int| 0 <= j < prev.len() implies #[trigger] report.deep_view()[j]
                == prev[j] by {
                assert(report.deep_view()[j] == report@[j].deep_view());
                assert(report@[j] == prevv[j]);
                assert(prev[j] == prevv[j].deep_view());
            }
            assert(report.deep_view() =~= prev.push(ev));
            assert(swap_events(cs.take(k as int + 1)) =~= swap_events(cs.take(k as int)).push(ev));
            assert(base + swap_events(cs.take(k as int)).push(ev) =~= (base + swap_events(
                cs.take(k as int),
            )).push(ev));
            assert(report.deep_view() == base + swap_events(cs.take(k as int + 1)));
        }
        if !dry_run {
            match set_remote_url(repo, &c.name, &c.new_url) {
                Ok(_) => {},
                Err(e) => {
                    proof {
                        assert(1 <= k as int + 1 <= cs.len() && report.deep_view() == base
                            + swap_events(cs.take(k as int + 1)));
                    }
                    return Err(SwapError::SetUrl(e));
                },
            }
        }
        k = k + 1;
    }
    proof {
        assert(cs.take(cs.len() as int) =~= cs);
        assert(repo_events(cs) =~= swap_events(cs));
        assert(report.deep_view() =~= base + repo_events(cs));
    }
    Ok(())
}

/// Processes one discovered repository: opens its block in the report,
/// reads its remotes, and runs the swap pass. A remote-enumeration failure
/// or a failure to persist a URL is surfaced; everything the repository
/// added to the report up to that point stays.
pub fn process_repo(
    dry_run: bool,
    mapping: &RemoteMapping,
    found: &FoundRepo,
    report: &mut Vec<ReportEvent>,
) -> (r: Result<(), SwapError>)
    requires
        mapping.wf(),
    ensures
        old(report).deep_view().is_prefix_of(final(report).deep_view()),
        final(report).deep_view().len() > old(report).deep_view().len(),
        final(report).deep_view()[old(report).deep_view().len() as int] == (EventView::FoundRepo {
            path: found.path@,
        }),
        r matches Err(e) ==> (e is SetUrl ==> !dry_run),
        r is Ok ==> exists|rvs: Seq<RemoteView>|
            final(report).deep_view() == old(report).deep_view() + block_events(
                found.path@,
                #[trigger] candidates_of(mapping@, rvs),
            ),
        r matches Err(e) ==> (e is ListRemotes ==> final(report).deep_view() == old(
            report,
        ).deep_view() + seq![EventView::FoundRepo { path: found.path@ }]),
        r matches Err(e) ==> (e is SetUrl ==> exists|rvs: Seq<RemoteView>, k: int|
            1 <= k <= candidates_of(mapping@, rvs).len() && final(report).deep_view() == old(
                report,
            ).deep_view() + seq![EventView::FoundRepo { path: found.path@ }] + swap_events(
                #[trigger] candidates_of(mapping@, rvs).take(k),
            )),
{
    let ghost base = report.deep_view();
    let ghost len0 = base.len() as int;
    report.push(ReportEvent::FoundRepo { path: found.path.clone() });
    let ghost mid = report.deep_view();
    proof {
        assert(mid =~= base + seq![EventView::FoundRepo { path: found.path@ }]);
    }
    let remotes = match fetch_remotes(&found.repo) {
        Err(e) => {
            proof {
                assert(base =~= report.deep_view().subrange(0, len0));
            }
            return Err(e);
        },
        Ok(rs) => rs,
    };
    let r = swap_repo_remotes(dry_run, mapping, &found.repo, &remotes, report);
    proof {
        let ghost rvs = remotes.deep_view();
        let cs = candidates_of(mapping@, rvs);
        match r {
            Ok(_) => {
                assert(report.deep_view() == mid + repo_events(cs));
                assert(report.deep_view() =~= old(report).deep_view() + block_events(
                    found.path@,
                    cs,
                ));
                assert(old(report).deep_view() =~= report.deep_view().subrange(0, len0));
            },
            Err(_) => {
                let k = choose|k: int|
                    1 <= k <= cs.len() && report.deep_view() == mid + swap_events(#[trigger] cs.take(k));
                assert(report.deep_view() == mid + swap_events(cs.take(k)));
                assert(1 <= k <= candidates_of(mapping@, rvs).len());
                assert(report.deep_view() =~= base + seq![
                    EventView::FoundRepo { path: found.path@ },
                ] + swap_events(candidates_of(mapping@, rvs).take(k)));
                assert(old(report).deep_view() =~= report.deep_view().subrange(0, len0));
            },
        }
        assert(report.deep_view()[len0] == (EventView::FoundRepo { path: found.path@ }));
    }
    r
}

/// The resolved configuration of one run: the dry-run flag, the root to
/// search under, and the URL mapping. Immutable for the run's duration.
pub struct RemoteSwapConfig {
    dry_run: bool,
    root: DirPath,
    remote_mapping: RemoteMapping,
}

impl RemoteSwapConfig {
    pub closed spec fn spec_dry_run(&self) -> bool {
        self.dry_run
    }

    pub closed spec fn spec_root(&self) -> Seq<Seq<char>> {
        self.root@
    }

    pub closed spec fn spec_mapping(&self) -> Map<Seq<char>, Seq<char>> {
        self.remote_mapping@
    }

    pub closed spec fn wf(&self) -> bool {
        self.remote_mapping.wf()
    }

    pub fn new(dry_run: bool, root: DirPath, remote_mapping: RemoteMapping) -> (r: Self)
        ensures
            r.spec_dry_run() == dry_run,
            r.spec_root() == root@,
            r.spec_mapping() == remote_mapping@,
            remote_mapping.wf() ==> r.wf(),
    {
        RemoteSwapConfig { dry_run, root, remote_mapping }
    }
}

/// The run header: what every report opens with.
pub open spec fn run_start_event(c: RemoteSwapConfig) -> EventView {
    EventView::RunStart {
        dry_run: c.spec_dry_run(),
        root: c.spec_root(),
        mapping_len: c.spec_mapping().dom().len() as int,
    }
}

/// One whole run: reports the header, walks the tree under the configured
/// root, and processes every discovered repository in arrival order. The
/// first hard error — a remote enumeration that fails, or a URL that cannot
/// be persisted — aborts the run; swaps already applied stay applied.
/// Under a dry run no URL-persisting failure can arise, because the
/// mutating call is never made.
///
/// The report's structure is part of the contract: after the header the
/// report is exactly one block per repository — its path line, one
/// candidate line per matched remote, the no-swaps line when none matched
/// — and an aborted run ends in the interrupted repository's partial
/// block: its path line and the candidate lines reported before the
/// failure.
pub fn run(config: RemoteSwapConfig, report: &mut Vec<ReportEvent>) -> (r: Result<(), SwapError>)
    requires
        config.wf(),
    ensures
        old(report).deep_view().is_prefix_of(final(report).deep_view()),
        final(report).deep_view().len() > old(report).deep_view().len(),
        final(report).deep_view()[old(report).deep_view().len() as int] == run_start_event(config),
        r is Ok ==> exists|bs: Seq<(Seq<Seq<char>>, Seq<(Seq<char>, Seq<char>, Seq<char>)>)>|
            final(report).deep_view() == old(report).deep_view() + seq![run_start_event(config)]
                + #[trigger] blocks_events(bs),
        r is Err ==> exists|
            bs: Seq<(Seq<Seq<char>>, Seq<(Seq<char>, Seq<char>, Seq<char>)>)>,
            tail: Seq<EventView>,
        |
            #![trigger blocks_events(bs), is_partial_block(config.spec_mapping(), tail)]
            is_partial_block(config.spec_mapping(), tail) && final(report).deep_view() == old(
                report,
            ).deep_view() + seq![run_start_event(config)] + blocks_events(bs) + tail,
        r matches Err(e) ==> (e is SetUrl ==> !config.spec_dry_run()),
{
    let ghost base = report.deep_view();
    let ghost basev = report@;
    let ghost hdr = run_start_event(config);
    let ghost m = config.remote_mapping@;
    let mapping_len = config.remote_mapping.len();
    report.push(ReportEvent::RunStart {
        dry_run: config.dry_run,
        root: config.root.clone(),
        mapping_len,
    });
    proof {
        assert(report@.last().deep_view() == hdr);
        assert forall|j: int| 0 <= j < base.len() implies #[trigger] report.deep_view()[j]
            == base[j] by {
            assert(report.deep_view()[j] == report@[j].deep_view());
            assert(report@[j] == basev[j]);
            assert(base[j] == basev[j].deep_view());
        }
        assert(report.deep_view() =~= base + seq![hdr]);
    }
    let repos = crate::walker::visit_git_repos(&config.root);
    let ghost mut blocks: Seq<(Seq<Seq<char>>, Seq<(Seq<char>, Seq<char>, Seq<char>)>)> =
        Seq::empty();
    proof {
        assert(blocks_events(blocks) =~= Seq::<EventView>::empty());
        assert(report.deep_view() =~= base + seq![hdr] + blocks_events(blocks));
    }
    let mut i: usize = 0;
    while i < repos.len()
        invariant
            config.wf(),
            hdr == run_start_event(config),
            m == config.remote_mapping@,
            i <= repos.len(),
            base == old(report).deep_view(),
            report.deep_view() == base + seq![hdr] + blocks_events(blocks),
        decreases repos.len() - i,
    {
        let ghost pre = report.deep_view();
        let outcome = process_repo(config.dry_run, &config.remote_mapping, &repos[i], report);
        let ghost path = repos@[i as int].path@;
        match outcome {
            Ok(_) => {
                proof {
                    assert(exists|rvs: Seq<RemoteView>|
                        report.deep_view() == pre + block_events(
                            path,
                            #[trigger] candidates_of(m, rvs),
                        ));
                    let rvs = choose|rvs: Seq<RemoteView>|
                        report.deep_view() == pre + block_events(
                            path,
                            #[trigger] candidates_of(m, rvs),
                        );
                    let b = (path, candidates_of(m, rvs));
                    let blocks2 = blocks.push(b);
                    assert(blocks2.drop_last() =~= blocks);
                    assert(blocks2.last() == b);
                    assert(blocks_events(blocks2) == blocks_events(blocks) + block_events(
                        b.0,
                        b.1,
                    ));
                    assert(base + seq![hdr] + blocks_events(blocks2) =~= (base + seq![hdr]
                        + blocks_events(blocks)) + block_events(b.0, b.1));
                    blocks = blocks2;
                    assert(report.deep_view() == base + seq![hdr] + blocks_events(blocks));
                }
            },
            Err(e) => {
                proof {
                    if e is ListRemotes {
                        let tail = seq![EventView::FoundRepo { path }];
                        assert(report.deep_view() == pre + tail);
                        assert(tail =~= partial_block_events(
                            path,
                            candidates_of(m, Seq::<RemoteView>::empty()),
                            0,
                        ));
                        assert(is_partial_block(m, tail));
                        assert(report.deep_view() =~= base + seq![hdr] + blocks_events(blocks)
                            + tail);
                    } else {
                        let (rvs, k) = choose|rvs: Seq<RemoteView>, k: int|
                            1 <= k <= candidates_of(m, rvs).len() && report.deep_view() == pre
                                + seq![EventView::FoundRepo { path }] + swap_events(
                                #[trigger] candidates_of(m, rvs).take(k),
                            );
                        let tail = seq![EventView::FoundRepo { path }] + swap_events(
                            candidates_of(m, rvs).take(k),
                        );
                        assert(tail == partial_block_events(path, candidates_of(m, rvs), k));
                        assert(is_partial_block(m, tail));
                        assert(report.deep_view() =~= base + seq![hdr] + blocks_events(blocks)
                            + tail);
                    }
                    assert(base =~= report.deep_view().subrange(0, base.len() as int));
                    assert(report.deep_view()[base.len() as int] == (base + seq![
                        hdr,
                    ])[base.len() as int]);
                }
                return Err(e);
            },
        }
        i = i + 1;
    }
    proof {
        assert(base =~= report.deep_view().subrange(0, base.len() as int));
        assert(report.deep_view()[base.len() as int] == (base + seq![hdr])[base.len() as int]);
    }
    Ok(())
}

} // verus!
