//! The decisions of a synchronisation cycle: materialise, stage, commit,
//! compare tips, then push or pull. The caller performs each action and
//! reports what happened; the driver says what to do next.
use vstd::prelude::*;
use vstd::string::*;
use crate::text::{contains, has_substring, join2, join3};

verus! {

/// Which way the repository is exchanged with its remote.
#[derive(PartialEq, Eq, Structural, Clone, Copy)]
pub enum Direction {
    /// Local commits go to the remote (`sync`).
    Push,
    /// The remote branch comes to this device (`pull`).
    Pull,
}

/// How a cycle ended.
pub enum Outcome {
    Synced,
    /// The branches diverged, or the remote refused the update.
    Conflict,
    Failure(String),
}

/// Where a cycle stands.
pub enum Phase {
    /// The repository is open; nothing done yet.
    Cloned,
    /// Every tracked file has been linked into the repository.
    Materialized,
    /// Changes were staged and wait to be committed.
    Staged,
    /// The tips of the local and remote branch are being compared.
    Comparing,
    /// The branch is being pushed or pulled.
    Transferring,
    Done(Outcome),
}

/// What happened when the caller performed the last action.
pub enum Event {
    Materialized,
    Staged { has_changes: bool },
    Committed,
    TipsCompared { diverged: bool },
    Transferred { accepted: bool },
    Failed(String),
}

/// What the caller is to do next.
pub enum Action {
    MaterializeAll,
    StageAll,
    Commit,
    CompareTips,
    /// Update the remote branch; `force` overwrites its history.
    Push { force: bool },
    /// Update the local branch from the remote; `force` overwrites it.
    Pull { force: bool },
    Finish,
}

/// How one step relates the driver before and after an event to the action
/// it returns.
pub open spec fn step_post(pre: SyncDriver, event: Event, post: SyncDriver, r: Action) -> bool {
    &&& post.direction == pre.direction
    &&& post.force == pre.force
    &&& post.skip_diff == pre.skip_diff
    &&& match (pre.phase, event) {
        (Phase::Done(_), _) => r is Finish && post.phase == pre.phase && post.commits == pre.commits,
        (_, Event::Failed(reason)) =>
            r is Finish && post.phase == Phase::Done(Outcome::Failure(reason))
                && post.commits == pre.commits,
        (Phase::Cloned, Event::Materialized) =>
            r is StageAll && post.phase is Materialized && post.commits == 0,
        (Phase::Materialized, Event::Staged { has_changes }) =>
            if has_changes {
                r is Commit && post.phase is Staged && post.commits == 0
            } else if pre.direction == Direction::Push {
                r is Finish && post.phase == Phase::Done(Outcome::Synced)
                    && post.commits == 0
            } else {
                (post.phase, r) == pre.after_commit_spec()
                    && post.commits == 0
            },
        (Phase::Staged, Event::Committed) =>
            (post.phase, r) == pre.after_commit_spec()
                && post.commits == 1,
        (Phase::Comparing, Event::TipsCompared { diverged }) =>
            post.commits == pre.commits && if diverged && !pre.force {
                r is Finish && post.phase == Phase::Done(Outcome::Conflict)
            } else {
                r == pre.transfer_spec() && post.phase is Transferring
            },
        (Phase::Transferring, Event::Transferred { accepted }) =>
            r is Finish && post.commits == pre.commits
                && post.phase == Phase::Done(
                if accepted { Outcome::Synced } else { Outcome::Conflict },
            ),
        _ => r is Finish && post.commits == pre.commits
            && post.phase is Done && post.phase->Done_0 is Failure,
    }
}

/// The state of one cycle.
pub struct SyncDriver {
    pub phase: Phase,
    pub direction: Direction,
    pub force: bool,
    pub skip_diff: bool,
    /// Commits made in this cycle.
    pub commits: u64,
}

impl SyncDriver {
    /// At most one commit per cycle, and none before the commit step.
    pub open spec fn wf(&self) -> bool {
        &&& self.commits <= 1
        &&& (self.phase is Cloned || self.phase is Materialized || self.phase is Staged)
            ==> self.commits == 0
    }

    /// A cycle on an open repository, with the force and skip-diff policy.
    pub fn new(direction: Direction, force: bool, skip_diff: bool) -> (r: SyncDriver)
        ensures
            r.wf(),
            r.phase is Cloned,
            r.commits == 0,
            r.direction == direction,
            r.force == force,
            r.skip_diff == skip_diff,
    {
        SyncDriver { phase: Phase::Cloned, direction, force, skip_diff, commits: 0 }
    }

    /// The first action of a cycle.
    pub fn start(&self) -> (r: Action)
        ensures
            r is MaterializeAll,
    {
        Action::MaterializeAll
    }

    /// The exchange with the remote, by direction and policy.
    pub open spec fn transfer_spec(&self) -> Action {
        match self.direction {
            Direction::Push => Action::Push { force: self.force },
            Direction::Pull => Action::Pull { force: self.force },
        }
    }

    fn transfer(&self) -> (r: Action)
        ensures
            r == self.transfer_spec(),
    {
        match self.direction {
            Direction::Push => Action::Push { force: self.force },
            Direction::Pull => Action::Pull { force: self.force },
        }
    }

    /// After the commit step, or where there was nothing to commit: compare
    /// the tips first unless the check is skipped.
    pub open spec fn after_commit_spec(&self) -> (Phase, Action) {
        if self.skip_diff {
            (Phase::Transferring, self.transfer_spec())
        } else {
            (Phase::Comparing, Action::CompareTips)
        }
    }

    /// Takes the outcome of the last action and returns the next one.
    /// A failure ends the cycle with that failure. Nothing staged ends a
    /// `sync` as synced with no commit, and takes a `pull` on to the
    /// exchange. Diverged tips without force end it as a conflict before
    /// anything is pushed or pulled; with force, the exchange overwrites.
    /// An event that does not fit the phase is a failure.
    pub fn step(&mut self, event: Event) -> (r: Action)
        requires
            old(self).wf(),
        ensures
            final(self).wf(),
            step_post(*old(self), event, *final(self), r),
    {
        if let Phase::Done(_) = &self.phase {
            return Action::Finish;
        }
        match event {
            Event::Failed(reason) => {
                self.phase = Phase::Done(Outcome::Failure(reason));
                Action::Finish
            },
            Event::Materialized => {
                if let Phase::Cloned = &self.phase {
                    self.phase = Phase::Materialized;
                    Action::StageAll
                } else {
                    self.unexpected()
                }
            },
            Event::Staged { has_changes } => {
                if let Phase::Materialized = &self.phase {
                    if has_changes {
                        self.phase = Phase::Staged;
                        Action::Commit
                    } else if self.direction == Direction::Push {
                        self.phase = Phase::Done(Outcome::Synced);
                        Action::Finish
                    } else {
                        self.after_commit()
                    }
                } else {
                    self.unexpected()
                }
            },
            Event::Committed => {
                if let Phase::Staged = &self.phase {
                    self.commits = 1;
                    self.after_commit()
                } else {
                    self.unexpected()
                }
            },
            Event::TipsCompared { diverged } => {
                if let Phase::Comparing = &self.phase {
                    if diverged && !self.force {
                        self.phase = Phase::Done(Outcome::Conflict);
                        Action::Finish
                    } else {
                        self.phase = Phase::Transferring;
                        self.transfer()
                    }
                } else {
                    self.unexpected()
                }
            },
            Event::Transferred { accepted } => {
                if let Phase::Transferring = &self.phase {
                    self.phase = Phase::Done(
                        if accepted {
                            Outcome::Synced
                        } else {
                            Outcome::Conflict
                        },
                    );
                    Action::Finish
                } else {
                    self.unexpected()
                }
            },
        }
    }

    fn after_commit(&mut self) -> (r: Action)
        requires
            old(self).commits <= 1,
        ensures
            (final(self).phase, r) == old(self).after_commit_spec(),
            final(self).commits == old(self).commits,
            final(self).direction == old(self).direction,
            final(self).force == old(self).force,
            final(self).skip_diff == old(self).skip_diff,
    {
        if self.skip_diff {
            self.phase = Phase::Transferring;
            self.transfer()
        } else {
            self.phase = Phase::Comparing;
            Action::CompareTips
        }
    }

    fn unexpected(&mut self) -> (r: Action)
        ensures
            r is Finish,
            final(self).phase is Done && final(self).phase->Done_0 is Failure,
            final(self).commits == old(self).commits,
            final(self).direction == old(self).direction,
            final(self).force == old(self).force,
            final(self).skip_diff == old(self).skip_diff,
    {
        self.phase = Phase::Done(Outcome::Failure(String::from_str("event out of order")));
        Action::Finish
    }
}

/// A step keeps the driver well formed: across a whole cycle at most one
/// commit is made, and only when a commit was asked for after staging.
pub proof fn lemma_step_commits(pre: SyncDriver, event: Event, post: SyncDriver, r: Action)
    requires
        pre.wf(),
        step_post(pre, event, post, r),
    ensures
        post.wf(),
        post.commits <= 1,
        post.commits != pre.commits ==> pre.phase is Staged && event is Committed,
        r is Commit ==> post.commits == 0,
{
}

/// When staging finds nothing to commit, no commit is asked for and the
/// cycle's commit count stays at zero: a `sync` run again with no change in
/// between adds no commit.
pub proof fn lemma_empty_stage_no_commit(pre: SyncDriver, post: SyncDriver, r: Action)
    requires
        pre.wf(),
        pre.phase is Materialized,
        step_post(pre, Event::Staged { has_changes: false }, post, r),
    ensures
        !(r is Commit),
        post.commits == 0,
        pre.direction == Direction::Push ==> post.phase == Phase::Done(Outcome::Synced),
{
}

/// Diverged tips end the cycle as a conflict, with nothing pushed or pulled,
/// unless force is set; with force the exchange goes ahead and overwrites.
pub proof fn lemma_conflict_policy(pre: SyncDriver, post: SyncDriver, r: Action)
    requires
        pre.phase is Comparing,
        step_post(pre, Event::TipsCompared { diverged: true }, post, r),
    ensures
        !pre.force ==> r is Finish && post.phase == Phase::Done(Outcome::Conflict),
        !pre.force ==> !(r is Push) && !(r is Pull),
        pre.force && pre.direction == Direction::Push ==> r == (Action::Push { force: true }),
        pre.force && pre.direction == Direction::Pull ==> r == (Action::Pull { force: true }),
{
}

/// `states` and `actions` are what a driver goes through when it is handed
/// `events` one by one.
pub open spec fn is_run(states: Seq<SyncDriver>, events: Seq<Event>, actions: Seq<Action>) -> bool {
    &&& states.len() == events.len() + 1
    &&& actions.len() == events.len()
    &&& forall|k: int| 0 <= k < events.len()
        ==> #[trigger] step_post(states[k], events[k], states[k + 1], actions[k])
}

/// Staging reported changes.
pub open spec fn found_changes(e: Event) -> bool {
    e is Staged && e->has_changes
}

/// Over a whole cycle from a new driver, at most one commit is made, and none
/// at all when staging never reports a change: two `sync` runs with no change
/// in between make one commit between them, not two.
pub proof fn lemma_cycle_commits(states: Seq<SyncDriver>, events: Seq<Event>, actions: Seq<Action>)
    requires
        is_run(states, events, actions),
        states[0].phase is Cloned,
        states[0].commits == 0,
    ensures
        forall|k: int| 0 <= k < states.len() ==> #[trigger] states[k].wf(),
        states.last().commits <= 1,
        (forall|k: int| 0 <= k < events.len() ==> !found_changes(#[trigger] events[k]))
            ==> states.last().commits == 0,
        forall|k: int| 0 <= k < actions.len() && #[trigger] actions[k] is Commit
            ==> found_changes(events[k]),
    decreases events.len(),
{
    if events.len() > 0 {
        let n = events.len() - 1;
        let s2 = states.drop_last();
        let e2 = events.drop_last();
        let a2 = actions.drop_last();
        assert forall|k: int| 0 <= k < e2.len() implies #[trigger] step_post(s2[k], e2[k], s2[k + 1], a2[k]) by {
            assert(step_post(states[k], events[k], states[k + 1], actions[k]));
        }
        lemma_cycle_commits(s2, e2, a2);
        assert(s2.last() == states[n]);
        assert(step_post(states[n], events[n], states[n + 1], actions[n]));
        lemma_step_commits(states[n], events[n], states[n + 1], actions[n]);
        assert forall|k: int| 0 <= k < states.len() implies #[trigger] states[k].wf() by {
            if k < states.len() - 1 {
                assert(s2[k] == states[k]);
            }
        }
        assert forall|k: int| 0 <= k < actions.len() && #[trigger] actions[k] is Commit
            implies found_changes(events[k]) by {
            if k < n {
                assert(a2[k] == actions[k]);
                assert(e2[k] == events[k]);
            }
        }
        if forall|k: int| 0 <= k < events.len() ==> !found_changes(#[trigger] events[k]) {
            assert forall|k: int| 0 <= k < e2.len() implies !found_changes(#[trigger] e2[k]) by {
                assert(e2[k] == events[k]);
            }
            lemma_no_changes_no_staged(s2, e2, a2);
            assert(!found_changes(events[n]));
        }
    }
}

proof fn lemma_no_changes_no_staged(states: Seq<SyncDriver>, events: Seq<Event>, actions: Seq<Action>)
    requires
        is_run(states, events, actions),
        states[0].phase is Cloned,
        states[0].commits == 0,
        forall|k: int| 0 <= k < events.len() ==> !found_changes(#[trigger] events[k]),
    ensures
        states.last().commits == 0,
        !(states.last().phase is Staged),
    decreases events.len(),
{
    if events.len() > 0 {
        let n = events.len() - 1;
        let s2 = states.drop_last();
        let e2 = events.drop_last();
        let a2 = actions.drop_last();
        assert forall|k: int| 0 <= k < e2.len() implies #[trigger] step_post(s2[k], e2[k], s2[k + 1], a2[k]) by {
            assert(step_post(states[k], events[k], states[k + 1], actions[k]));
        }
        assert forall|k: int| 0 <= k < e2.len() implies !found_changes(#[trigger] e2[k]) by {
            assert(e2[k] == events[k]);
        }
        lemma_no_changes_no_staged(s2, e2, a2);
        assert(s2.last() == states[n]);
        assert(step_post(states[n], events[n], states[n + 1], actions[n]));
        assert(!found_changes(events[n]));
    }
}

/// Why a cycle cannot start.
pub enum SyncError {
    /// The private key is encrypted and no passphrase was given.
    MissingPassphrase,
    /// The HTTPS transport is not available.
    HttpsUnsupported,
}

/// The private key used for SSH, below the home directory.
pub fn ssh_key_path(home_dir: &str) -> (r: String)
    ensures
        r@ == home_dir@ + "/.ssh/id_rsa"@,
{
    join2(home_dir, "/.ssh/id_rsa")
}

/// Whether a PEM private key is protected by a passphrase.
pub fn key_is_encrypted(key_text: &str) -> (r: bool)
    ensures
        r == contains(key_text@, "ENCRYPTED"@),
{
    has_substring(key_text, "ENCRYPTED")
}

/// The passphrase to unlock the key with: none for a plain key, the given
/// one for an encrypted key, and an error for an encrypted key without one.
pub fn choose_passphrase(encrypted: bool, given: Option<String>) -> (r: Result<Option<String>, SyncError>)
    ensures
        !encrypted ==> r == Ok::<Option<String>, SyncError>(None),
        encrypted && given is Some ==> r == Ok::<Option<String>, SyncError>(given),
        encrypted && given is None ==> r == Err::<Option<String>, SyncError>(SyncError::MissingPassphrase),
{
    if !encrypted {
        Ok(None)
    } else {
        match given {
            Some(p) => Ok(Some(p)),
            None => Err(SyncError::MissingPassphrase),
        }
    }
}

/// The URL to clone over SSH; HTTPS is refused.
pub fn ssh_url(url: &crate::args::RepoURL) -> (r: Result<String, SyncError>)
    ensures
        match url@ {
            crate::args::UrlModel::Ssh(u) => r is Ok && r->Ok_0@ == u,
            crate::args::UrlModel::Https(_) => r is Err && r->Err_0 is HttpsUnsupported,
        },
{
    match url {
        crate::args::RepoURL::SSH(u) => Ok(u.clone()),
        crate::args::RepoURL::HTTPS(_) => Err(SyncError::HttpsUnsupported),
    }
}

/// The refspec that updates `branch` on the other side; with `force` it
/// may overwrite history there.
pub fn branch_refspec(branch: &str, force: bool) -> (r: String)
    ensures
        r@ == (if force { "+"@ } else { ""@ }) + "refs/heads/"@ + branch@ + ":refs/heads/"@ + branch@,
{
    push_refspec(branch, branch, force)
}

/// The refspec that updates `branch` on the remote from the local branch
/// `local`; with `force` it may overwrite history there.
pub fn push_refspec(local: &str, branch: &str, force: bool) -> (r: String)
    ensures
        r@ == (if force { "+"@ } else { ""@ }) + "refs/heads/"@ + local@ + ":refs/heads/"@ + branch@,
{
    let head = if force {
        join3("+", "refs/heads/", local)
    } else {
        join2("refs/heads/", local)
    };
    proof {
        if !force {
            reveal_strlit("");
            assert(""@ + "refs/heads/"@ =~= "refs/heads/"@);
        }
    }
    join3(head.as_str(), ":refs/heads/", branch)
}

/// The local reference of `branch`.
pub fn branch_ref(branch: &str) -> (r: String)
    ensures
        r@ == "refs/heads/"@ + branch@,
{
    join2("refs/heads/", branch)
}

/// The reference that tracks `branch` of the remote `origin`.
pub fn remote_branch_ref(branch: &str) -> (r: String)
    ensures
        r@ == "refs/remotes/origin/"@ + branch@,
{
    join2("refs/remotes/origin/", branch)
}

/// The refspec that fetches `branch` of `origin` into its tracking
/// reference, overwriting it.
pub fn fetch_refspec(branch: &str) -> (r: String)
    ensures
        r@ == "+refs/heads/"@ + branch@ + ":refs/remotes/origin/"@ + branch@,
{
    join3(join2("+refs/heads/", branch).as_str(), ":refs/remotes/origin/", branch)
}

} // verus!
