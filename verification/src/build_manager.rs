//! Managed builds of llama.cpp: the steps of an update, the version that runs, and which old
//! builds may go.
use vstd::prelude::*;
use vstd::relations::sorted_by;
use crate::clock::utc_now_rfc3339;
use crate::config::LlamaCppConfig;
use crate::paths::{
    components, is_absolute, is_name, join_path, joined_path, lemma_join_adds_component,
    law_path_text_is_faithful, lemma_last_component, path_components, path_text, render_path, texts,
};
use crate::text::{
    begins_with, chars_of, decimal, from_utf8_lossy, push_decimal, same, starts_with, text_of,
    trim, trimmed, utf8_lossy,
};

verus! {

/// How the last build went.
#[derive(Debug, Clone)]
pub struct BuildStatus {
    pub is_building: bool,
    pub last_build_error: Option<String>,
    pub last_build_at: Option<String>,
}

/// Whether the binary was there, and when that was looked up.
#[derive(Debug, Clone, Copy, PartialEq, Eq, Structural)]
pub struct BinaryExistsCache {
    pub exists: bool,
    /// Nanoseconds on a clock that does not go back.
    pub checked_at: u64,
}

/// How long a lookup of the binary holds, in nanoseconds.
pub const BINARY_CACHE_TTL_NS: u64 = 1_000_000_000;

/// The managed build of a node.
#[derive(Debug)]
pub struct BuildManager {
    pub config: LlamaCppConfig,
    pub current_version: Option<String>,
    pub building: bool,
    pub binary_exists_cache: Option<BinaryExistsCache>,
    /// How often the binary was swapped.
    pub binary_generation: u64,
    pub last_build_error: Option<String>,
    pub last_build_at: Option<String>,
}

/// Where an update stands: what is to be done next, or how it ended.
#[derive(Debug, Clone, Copy, PartialEq, Eq, Structural)]
pub enum BuildStep {
    /// Clone the repository.
    Clone,
    /// Fetch all branches and tags.
    Fetch,
    /// Find out whether the configured branch is a tag.
    DetectTag,
    /// Check out the branch, or the tag.
    Checkout { is_tag: bool },
    /// Reset the branch to its origin. That this fails for a commit does not matter.
    Reset,
    /// Read the hash of the commit.
    ReadCommit,
    /// Find out whether the binary of that commit is there.
    LookForBinary,
    /// Run the binary that is there.
    VerifyExisting,
    /// Find out whether the live link leads to it.
    CompareLink,
    /// Point the live link to it.
    SwapExisting,
    /// Make the directory of the build.
    MakeBuildDir,
    Configure,
    Compile,
    /// Run the binary that was built.
    VerifyNew,
    /// Point the live link to it.
    SwapNew,
    /// Remove old builds. That this fails does not matter.
    Cleanup,
    Finished,
    Aborted,
}

/// What comes after a step that was done, or answered yes (`ok`), or was not.
pub open spec fn next_step(step: BuildStep, ok: bool) -> BuildStep {
    match step {
        BuildStep::DetectTag => BuildStep::Checkout { is_tag: ok },
        BuildStep::Reset => BuildStep::ReadCommit,
        BuildStep::LookForBinary => if ok {
            BuildStep::VerifyExisting
        } else {
            BuildStep::MakeBuildDir
        },
        BuildStep::VerifyExisting => if ok {
            BuildStep::CompareLink
        } else {
            BuildStep::MakeBuildDir
        },
        BuildStep::CompareLink => if ok {
            BuildStep::Finished
        } else {
            BuildStep::SwapExisting
        },
        BuildStep::Cleanup => BuildStep::Finished,
        BuildStep::Finished => BuildStep::Finished,
        BuildStep::Aborted => BuildStep::Aborted,
        _ => if !ok {
            BuildStep::Aborted
        } else {
            match step {
                BuildStep::Clone => BuildStep::Fetch,
                BuildStep::Fetch => BuildStep::DetectTag,
                BuildStep::Checkout { is_tag } => if is_tag {
                    BuildStep::ReadCommit
                } else {
                    BuildStep::Reset
                },
                BuildStep::ReadCommit => BuildStep::LookForBinary,
                BuildStep::MakeBuildDir => BuildStep::Configure,
                BuildStep::Configure => BuildStep::Compile,
                BuildStep::Compile => BuildStep::VerifyNew,
                BuildStep::VerifyNew => BuildStep::SwapNew,
                BuildStep::SwapNew => BuildStep::Cleanup,
                _ => BuildStep::Finished,
            }
        },
    }
}

/// Whether an update is over.
pub open spec fn is_over(step: BuildStep) -> bool {
    step == BuildStep::Finished || step == BuildStep::Aborted
}

/// Whether a build is under way at a step. Looking for updates, or at a binary that is there, is
/// no build.
pub open spec fn is_build_step(step: BuildStep) -> bool {
    step == BuildStep::MakeBuildDir || step == BuildStep::Configure || step == BuildStep::Compile
        || step == BuildStep::VerifyNew || step == BuildStep::SwapNew || step == BuildStep::Cleanup
}

/// Whether a step that was done has swapped the binary.
pub open spec fn swaps(step: BuildStep, ok: bool) -> bool {
    ok && (step == BuildStep::SwapExisting || step == BuildStep::SwapNew)
}

/// Whether after a step that was done the commit is the one that runs.
pub open spec fn goes_live(step: BuildStep, ok: bool) -> bool {
    swaps(step, ok) || ok && step == BuildStep::CompareLink
}

/// The directory and the binary of a build.
#[derive(Debug, Clone)]
pub struct BuildLayout {
    pub build_dir: String,
    pub binary: String,
}

/// Whether a path ends in a name that a build can be called after.
pub open spec fn has_build_name(build_path: Seq<char>) -> bool {
    let c = path_components(build_path);
    c.len() > 0 && is_name(c.last())
}

/// The directory of the build of a commit: beside the configured one, under its name with the
/// commit after it.
pub open spec fn build_dir_text(build_path: Seq<char>, commit: Seq<char>) -> Seq<char> {
    let c = path_components(build_path);
    joined_path(
        path_text(is_absolute(build_path), c.drop_last()),
        c.last() + "-"@ + commit,
    )
}

/// The binary in the directory of a build.
pub open spec fn binary_text(build_dir: Seq<char>) -> Seq<char> {
    joined_path(joined_path(build_dir, "bin"@), "llama-server"@)
}

/// Where the build of a commit goes, if the configured path ends in a name.
pub fn build_layout(build_path: &str, commit: &str) -> (r: Option<BuildLayout>)
    ensures
        match r {
            Some(l) => has_build_name(build_path@) && l.build_dir@ == build_dir_text(
                build_path@,
                commit@,
            ) && l.binary@ == binary_text(l.build_dir@),
            None => !has_build_name(build_path@),
        },
{
    let c = components(build_path);
    if c.len() == 0 {
        assert(texts(c@).len() == 0);
        return None;
    }
    let last = c[c.len() - 1].as_str();
    assert(texts(c@).last() == last@);
    if same(last, ".") || same(last, "..") {
        return None;
    }
    let v = chars_of(build_path);
    let absolute = v.len() > 0 && v[0] == '/';
    let parent = render_path(absolute, &c, c.len() - 1);
    assert(texts(c@).take(c@.len() - 1) =~= texts(c@).drop_last());
    let mut name = last.to_owned();
    name.append("-");
    name.append(commit);
    let build_dir = join_path(parent.as_str(), name.as_str());
    let binary = join_path(join_path(build_dir.as_str(), "bin").as_str(), "llama-server");
    Some(BuildLayout { build_dir, binary })
}

/// The commit in the output of git.
pub fn commit_from_output(stdout: &[u8]) -> (r: String)
    ensures
        r@ == trimmed(utf8_lossy(stdout@)),
{
    trim(from_utf8_lossy(stdout).as_str())
}

/// An update under way.
#[derive(Debug)]
pub struct BuildRun {
    pub step: BuildStep,
    /// The commit, once it is known.
    pub commit: String,
    /// Where its build goes, once it is known.
    pub layout: Option<BuildLayout>,
}

/// What came of a step.
#[derive(Debug, Clone)]
pub struct StepOutcome {
    /// Whether it was done, or answered yes.
    pub ok: bool,
    /// Why it was not.
    pub error: String,
    /// The commit, where it was read.
    pub commit: String,
}

pub const NO_BUILD_NAME: &'static str = "build_path has no valid directory name: ";

/// Whether a step counts as done: a commit counts as read only if its build can be given a name.
pub open spec fn counts_as_done(m: BuildManager, run: BuildRun, outcome: StepOutcome) -> bool {
    outcome.ok && (run.step == BuildStep::ReadCommit ==> has_build_name(m.config.build_path@))
}

/// Why a step was not done.
pub open spec fn step_error(m: BuildManager, run: BuildRun, outcome: StepOutcome) -> Seq<char> {
    if outcome.ok {
        NO_BUILD_NAME@ + m.config.build_path@
    } else {
        outcome.error@
    }
}

/// Whether a manager has changed as a step asks.
pub open spec fn step_recorded(
    before: BuildManager,
    after: BuildManager,
    step: BuildStep,
    ok: bool,
    commit: Seq<char>,
    error: Seq<char>,
    now: Seq<char>,
) -> bool {
    let next = next_step(step, ok);
    &&& after.config == before.config
    &&& after.building == is_build_step(next)
    &&& if goes_live(step, ok) {
        after.current_version is Some && after.current_version->0@ == commit
    } else {
        after.current_version == before.current_version
    }
    &&& if swaps(step, ok) {
        after.binary_exists_cache is None && after.binary_generation == next_generation(
            before.binary_generation,
        )
    } else {
        after.binary_exists_cache == before.binary_exists_cache && after.binary_generation
            == before.binary_generation
    }
    &&& if next == BuildStep::Finished {
        after.last_build_error is None && after.last_build_at is Some && after.last_build_at->0@
            == now
    } else if next == BuildStep::Aborted {
        after.last_build_error is Some && after.last_build_error->0@ == error
            && after.last_build_at is Some && after.last_build_at->0@ == now
    } else {
        after.last_build_error == before.last_build_error && after.last_build_at
            == before.last_build_at
    }
}

/// The generation after a swap.
pub open spec fn next_generation(g: u64) -> u64 {
    if g == u64::MAX {
        0
    } else {
        (g + 1) as u64
    }
}

impl BuildManager {
    /// A manager that knows of no build.
    pub fn new(config: LlamaCppConfig) -> (r: BuildManager)
        ensures
            r.config == config,
            r.current_version is None,
            !r.building,
            r.binary_exists_cache is None,
            r.binary_generation == 0,
            r.last_build_error is None,
            r.last_build_at is None,
    {
        BuildManager {
            config,
            current_version: None,
            building: false,
            binary_exists_cache: None,
            binary_generation: 0,
            last_build_error: None,
            last_build_at: None,
        }
    }

    pub fn binary_generation(&self) -> (r: u64)
        ensures
            r == self.binary_generation,
    {
        self.binary_generation
    }

    pub fn is_building(&self) -> (r: bool)
        ensures
            r == self.building,
    {
        self.building
    }

    /// Whether the binary has to be looked up again.
    pub fn binary_check_due(&self, now: u64) -> (r: bool)
        ensures
            r == cache_stale(self.binary_exists_cache, now),
    {
        match self.binary_exists_cache {
            Some(c) => now.saturating_sub(c.checked_at) >= BINARY_CACHE_TTL_NS,
            None => true,
        }
    }

    /// Whether the binary is there, by a lookup of at most a second ago; `exists` is the answer
    /// of a lookup now, which counts where one is due.
    pub fn is_binary_available_cached(&mut self, now: u64, exists: bool) -> (r: bool)
        ensures
            r == if cache_stale(old(self).binary_exists_cache, now) {
                exists
            } else {
                old(self).binary_exists_cache->0.exists
            },
            *final(self) == (BuildManager {
                binary_exists_cache: if cache_stale(old(self).binary_exists_cache, now) {
                    Some(BinaryExistsCache { exists, checked_at: now })
                } else {
                    old(self).binary_exists_cache
                },
                ..*old(self)
            }),
    {
        if let Some(c) = self.binary_exists_cache {
            if now.saturating_sub(c.checked_at) < BINARY_CACHE_TTL_NS {
                return c.exists;
            }
        }
        self.binary_exists_cache = Some(BinaryExistsCache { exists, checked_at: now });
        exists
    }

    /// Whether the node can serve requests itself: the binary is there. Builds go into
    /// directories of their own, so a build under way makes no difference.
    pub fn can_serve(&self, binary_exists: bool) -> (r: bool)
        ensures
            r == binary_exists,
    {
        binary_exists
    }

    /// Forgets the last lookup of the binary.
    pub fn invalidate_binary_cache(&mut self)
        ensures
            *final(self) == (BuildManager { binary_exists_cache: None, ..*old(self) }),
    {
        self.binary_exists_cache = None;
    }

    /// How the last build went.
    pub fn build_status(&self) -> (r: BuildStatus)
        ensures
            r.is_building == self.building,
            r.last_build_error == self.last_build_error,
            r.last_build_at == self.last_build_at,
    {
        BuildStatus {
            is_building: self.building,
            last_build_error: self.last_build_error.clone(),
            last_build_at: self.last_build_at.clone(),
        }
    }

    /// Takes note at the time `now` that an update went well.
    pub fn record_build_success_at(&mut self, now: String)
        ensures
            *final(self) == (BuildManager {
                last_build_error: None,
                last_build_at: Some(now),
                ..*old(self)
            }),
    {
        self.last_build_error = None;
        self.last_build_at = Some(now);
    }

    /// Takes note that an update went well.
    pub fn record_build_success(&mut self)
        ensures
            final(self).last_build_at is Some,
            *final(self) == (BuildManager {
                last_build_error: None,
                last_build_at: final(self).last_build_at,
                ..*old(self)
            }),
    {
        self.record_build_success_at(utc_now_rfc3339());
    }

    /// Takes note at the time `now` that an update failed.
    pub fn record_build_failure_at(&mut self, error: &str, now: String)
        ensures
            final(self).last_build_error is Some,
            final(self).last_build_error->0@ == error@,
            *final(self) == (BuildManager {
                last_build_error: final(self).last_build_error,
                last_build_at: Some(now),
                ..*old(self)
            }),
    {
        self.last_build_error = Some(error.to_owned());
        self.last_build_at = Some(now);
    }

    /// Takes note that an update failed.
    pub fn record_build_failure(&mut self, error: &str)
        ensures
            final(self).last_build_error is Some,
            final(self).last_build_error->0@ == error@,
            final(self).last_build_at is Some,
            *final(self) == (BuildManager {
                last_build_error: final(self).last_build_error,
                last_build_at: final(self).last_build_at,
                ..*old(self)
            }),
    {
        self.record_build_failure_at(error, utc_now_rfc3339());
    }

    /// The version that runs; `unknown` while none was recorded.
    pub fn get_version(&self) -> (r: String)
        ensures
            r@ == match self.current_version {
                Some(v) => v@,
                None => "unknown"@,
            },
    {
        match &self.current_version {
            Some(v) => v.clone(),
            None => "unknown".to_owned(),
        }
    }

    /// Takes note of the commit that runs now.
    pub fn record_running_version(&mut self, commit: &str)
        ensures
            final(self).current_version is Some,
            final(self).current_version->0@ == commit@,
            *final(self) == (BuildManager {
                current_version: final(self).current_version,
                ..*old(self)
            }),
    {
        self.current_version = Some(commit.to_owned());
    }

    /// Takes note that the binary was swapped.
    pub fn signal_binary_swap(&mut self)
        ensures
            *final(self) == (BuildManager {
                binary_generation: next_generation(old(self).binary_generation),
                ..*old(self)
            }),
    {
        self.binary_generation = self.binary_generation.wrapping_add(1);
    }

    /// Begins an update at the time `now`: with a clone where there is no repository, else with a
    /// fetch. Where builds are turned off there is nothing to do, and that is a success.
    pub fn begin_update_at(&mut self, repo_exists: bool, now: String) -> (r: BuildRun)
        ensures
            r.commit@.len() == 0,
            r.layout is None,
            if !old(self).config.enabled {
                r.step == BuildStep::Finished && *final(self) == (BuildManager {
                    last_build_error: None,
                    last_build_at: Some(now),
                    ..*old(self)
                })
            } else {
                *final(self) == *old(self) && r.step == if repo_exists {
                    BuildStep::Fetch
                } else {
                    BuildStep::Clone
                }
            },
    {
        let step = if !self.config.enabled {
            self.record_build_success_at(now);
            BuildStep::Finished
        } else if repo_exists {
            BuildStep::Fetch
        } else {
            BuildStep::Clone
        };
        BuildRun { step, commit: String::new(), layout: None }
    }

    /// Begins an update.
    pub fn begin_update(&mut self, repo_exists: bool) -> (r: BuildRun)
        ensures
            r.commit@.len() == 0,
            r.layout is None,
            if !old(self).config.enabled {
                r.step == BuildStep::Finished && final(self).last_build_at is Some && *final(self)
                    == (BuildManager {
                    last_build_error: None,
                    last_build_at: final(self).last_build_at,
                    ..*old(self)
                })
            } else {
                *final(self) == *old(self) && r.step == if repo_exists {
                    BuildStep::Fetch
                } else {
                    BuildStep::Clone
                }
            },
    {
        self.begin_update_at(repo_exists, utc_now_rfc3339())
    }

    /// Takes what came of the step that an update was at, at the time `now`, and moves on. The
    /// version and the generation change only when a binary that was verified is live.
    pub fn advance_update_at(&mut self, run: &mut BuildRun, outcome: &StepOutcome, now: String)
        requires
            !is_over(old(run).step),
        ensures
            final(run).step == next_step(
                old(run).step,
                counts_as_done(*old(self), *old(run), *outcome),
            ),
            if old(run).step == BuildStep::ReadCommit && counts_as_done(
                *old(self),
                *old(run),
                *outcome,
            ) {
                &&& final(run).commit@ == outcome.commit@
                &&& final(run).layout is Some
                &&& final(run).layout->0.build_dir@ == build_dir_text(
                    old(self).config.build_path@,
                    outcome.commit@,
                )
                &&& final(run).layout->0.binary@ == binary_text(final(run).layout->0.build_dir@)
            } else {
                final(run).commit == old(run).commit && final(run).layout == old(run).layout
            },
            step_recorded(
                *old(self),
                *final(self),
                old(run).step,
                counts_as_done(*old(self), *old(run), *outcome),
                old(run).commit@,
                step_error(*old(self), *old(run), *outcome),
                now@,
            ),
    {
        let mut ok = outcome.ok;
        let mut error = outcome.error.clone();
        if ok {
            error = NO_BUILD_NAME.to_owned();
            error.append(self.config.build_path.as_str());
        }
        let step = run.step;
        if let BuildStep::ReadCommit = step {
            if ok {
                match build_layout(self.config.build_path.as_str(), outcome.commit.as_str()) {
                    Some(layout) => {
                        run.commit = outcome.commit.clone();
                        run.layout = Some(layout);
                    },
                    None => {
                        ok = false;
                    },
                }
            }
        }
        let next = match step {
            BuildStep::Clone => if ok {
                BuildStep::Fetch
            } else {
                BuildStep::Aborted
            },
            BuildStep::Fetch => if ok {
                BuildStep::DetectTag
            } else {
                BuildStep::Aborted
            },
            BuildStep::DetectTag => BuildStep::Checkout { is_tag: ok },
            BuildStep::Checkout { is_tag } => if !ok {
                BuildStep::Aborted
            } else if is_tag {
                BuildStep::ReadCommit
            } else {
                BuildStep::Reset
            },
            BuildStep::Reset => BuildStep::ReadCommit,
            BuildStep::ReadCommit => if ok {
                BuildStep::LookForBinary
            } else {
                BuildStep::Aborted
            },
            BuildStep::LookForBinary => if ok {
                BuildStep::VerifyExisting
            } else {
                BuildStep::MakeBuildDir
            },
            BuildStep::VerifyExisting => if ok {
                BuildStep::CompareLink
            } else {
                BuildStep::MakeBuildDir
            },
            // The live link leads to this binary already. Builds are never changed once they are
            // there, so whatever runs runs this one, and nothing has to be drained.
            BuildStep::CompareLink => if ok {
                BuildStep::Finished
            } else {
                BuildStep::SwapExisting
            },
            BuildStep::SwapExisting => if ok {
                BuildStep::Finished
            } else {
                BuildStep::Aborted
            },
            BuildStep::MakeBuildDir => if ok {
                BuildStep::Configure
            } else {
                BuildStep::Aborted
            },
            BuildStep::Configure => if ok {
                BuildStep::Compile
            } else {
                BuildStep::Aborted
            },
            BuildStep::Compile => if ok {
                BuildStep::VerifyNew
            } else {
                BuildStep::Aborted
            },
            BuildStep::VerifyNew => if ok {
                BuildStep::SwapNew
            } else {
                BuildStep::Aborted
            },
            BuildStep::SwapNew => if ok {
                BuildStep::Cleanup
            } else {
                BuildStep::Aborted
            },
            BuildStep::Cleanup => BuildStep::Finished,
            BuildStep::Finished => BuildStep::Finished,
            BuildStep::Aborted => BuildStep::Aborted,
        };
        let swapped = ok && match step {
            BuildStep::SwapExisting => true,
            BuildStep::SwapNew => true,
            _ => false,
        };
        let live = swapped || ok && match step {
            BuildStep::CompareLink => true,
            _ => false,
        };
        if swapped {
            self.invalidate_binary_cache();
            self.signal_binary_swap();
        }
        if live {
            self.record_running_version(run.commit.as_str());
        }
        self.building = match next {
            BuildStep::MakeBuildDir => true,
            BuildStep::Configure => true,
            BuildStep::Compile => true,
            BuildStep::VerifyNew => true,
            BuildStep::SwapNew => true,
            BuildStep::Cleanup => true,
            _ => false,
        };
        match next {
            BuildStep::Finished => self.record_build_success_at(now),
            BuildStep::Aborted => self.record_build_failure_at(error.as_str(), now),
            _ => {},
        }
        run.step = next;
    }

    /// Takes what came of the step that an update was at, and moves on.
    pub fn advance_update(&mut self, run: &mut BuildRun, outcome: &StepOutcome)
        requires
            !is_over(old(run).step),
        ensures
            final(run).step == next_step(
                old(run).step,
                counts_as_done(*old(self), *old(run), *outcome),
            ),
            exists|now: Seq<char>| #[trigger]
                step_recorded(
                    *old(self),
                    *final(self),
                    old(run).step,
                    counts_as_done(*old(self), *old(run), *outcome),
                    old(run).commit@,
                    step_error(*old(self), *old(run), *outcome),
                    now,
                ),
            if old(run).step == BuildStep::ReadCommit && counts_as_done(
                *old(self),
                *old(run),
                *outcome,
            ) {
                &&& final(run).commit@ == outcome.commit@
                &&& final(run).layout is Some
                &&& final(run).layout->0.build_dir@ == build_dir_text(
                    old(self).config.build_path@,
                    outcome.commit@,
                )
                &&& final(run).layout->0.binary@ == binary_text(final(run).layout->0.build_dir@)
            } else {
                final(run).commit == old(run).commit && final(run).layout == old(run).layout
            },
    {
        self.advance_update_at(run, outcome, utc_now_rfc3339());
    }
}

/// Whether a lookup is older than it may be.
pub open spec fn cache_stale(cache: Option<BinaryExistsCache>, now: u64) -> bool {
    cache is None || now - cache->0.checked_at >= BINARY_CACHE_TTL_NS
}

/// Whether the live link leads to a binary: both can be resolved, and to the same path.
pub fn symlink_already_current(link: Option<&str>, target: Option<&str>) -> (r: bool)
    ensures
        r == (link is Some && target is Some && link->0@ == target->0@),
{
    match link {
        Some(l) => match target {
            Some(t) => same(l, t),
            None => false,
        },
        None => false,
    }
}

/// How far a step is from the end.
pub open spec fn steps_left(step: BuildStep) -> nat {
    match step {
        BuildStep::Clone => 16,
        BuildStep::Fetch => 15,
        BuildStep::DetectTag => 14,
        BuildStep::Checkout { .. } => 13,
        BuildStep::Reset => 12,
        BuildStep::ReadCommit => 11,
        BuildStep::LookForBinary => 10,
        BuildStep::VerifyExisting => 9,
        BuildStep::CompareLink => 8,
        BuildStep::SwapExisting => 7,
        BuildStep::MakeBuildDir => 6,
        BuildStep::Configure => 5,
        BuildStep::Compile => 4,
        BuildStep::VerifyNew => 3,
        BuildStep::SwapNew => 2,
        BuildStep::Cleanup => 1,
        BuildStep::Finished => 0,
        BuildStep::Aborted => 0,
    }
}

/// Every step brings an update closer to its end, whatever comes of it.
pub proof fn law_update_ends(step: BuildStep, ok: bool)
    requires
        !is_over(step),
    ensures
        steps_left(next_step(step, ok)) < steps_left(step),
        steps_left(next_step(step, ok)) == 0 <==> is_over(next_step(step, ok)),
{
}

/// The version that is reported changes only when a verified binary is live, so a build that
/// fails never shows, and the generation grows only when the binary was swapped.
pub proof fn law_version_is_what_runs(
    before: BuildManager,
    after: BuildManager,
    step: BuildStep,
    ok: bool,
    commit: Seq<char>,
    error: Seq<char>,
    now: Seq<char>,
)
    requires
        step_recorded(before, after, step, ok, commit, error, now),
    ensures
        after.current_version != before.current_version ==> ok && (step == BuildStep::CompareLink
            || step == BuildStep::SwapExisting || step == BuildStep::SwapNew),
        after.binary_generation != before.binary_generation ==> ok && (step
            == BuildStep::SwapExisting || step == BuildStep::SwapNew),
        next_step(step, ok) == BuildStep::Aborted ==> after.current_version
            == before.current_version && after.binary_generation == before.binary_generation,
{
}

/// An update that finds the live link on the binary already swaps nothing, so nothing is drained.
pub proof fn law_no_swap_without_change(
    before: BuildManager,
    after: BuildManager,
    commit: Seq<char>,
    error: Seq<char>,
    now: Seq<char>,
)
    requires
        step_recorded(before, after, BuildStep::CompareLink, true, commit, error, now),
    ensures
        after.binary_generation == before.binary_generation,
        after.binary_exists_cache == before.binary_exists_cache,
        after.current_version is Some,
        after.current_version->0@ == commit,
{
}

/// No build is under way when an update is over, however it ended.
pub proof fn law_not_building_when_over(
    before: BuildManager,
    after: BuildManager,
    step: BuildStep,
    ok: bool,
    commit: Seq<char>,
    error: Seq<char>,
    now: Seq<char>,
)
    requires
        step_recorded(before, after, step, ok, commit, error, now),
        is_over(next_step(step, ok)),
    ensures
        !after.building,
        after.last_build_error is None <==> next_step(step, ok) == BuildStep::Finished,
{
}

/// Only a binary that was run and found good goes live: a link is swapped to a new one right after
/// it was verified, and to one that was there after it was verified and found not to be live.
pub proof fn law_only_verified_binaries_go_live(step: BuildStep, ok: bool)
    ensures
        next_step(step, ok) == BuildStep::SwapNew ==> ok && step == BuildStep::VerifyNew,
        next_step(step, ok) == BuildStep::SwapExisting ==> !ok && step == BuildStep::CompareLink,
        next_step(step, ok) == BuildStep::CompareLink ==> ok && step == BuildStep::VerifyExisting,
{
}

/// Whether a character is a hexadecimal digit.
pub open spec fn is_hex(c: char) -> bool {
    48 <= c as u32 <= 57 || 65 <= c as u32 <= 70 || 97 <= c as u32 <= 102
}

/// What comes after the last `c` of a text, where there is one.
pub open spec fn after_last(s: Seq<char>, c: char) -> Option<Seq<char>>
    decreases s.len(),
{
    if s.len() == 0 {
        None
    } else if s.last() == c {
        Some(Seq::empty())
    } else {
        match after_last(s.drop_last(), c) {
            Some(t) => Some(t.push(s.last())),
            None => None,
        }
    }
}

/// Whether a text may be the hash of a commit.
pub open spec fn is_commit(s: Seq<char>) -> bool {
    s.len() >= 7 && forall|i: int| 0 <= i < s.len() ==> is_hex(#[trigger] s[i])
}

/// The commit in the path of a managed binary, `<base>-<commit>/bin/llama-server`; nothing for any
/// other path.
pub open spec fn commit_in_path(path: Seq<char>) -> Option<Seq<char>> {
    let c = path_components(path);
    if c.len() < 3 || c[c.len() - 1] != "llama-server"@ || c[c.len() - 2] != "bin"@ || !is_name(
        c[c.len() - 3],
    ) {
        None
    } else {
        match after_last(c[c.len() - 3], '-') {
            Some(t) => if is_commit(t) {
                Some(t)
            } else {
                None
            },
            None => None,
        }
    }
}

proof fn lemma_after_last(s: Seq<char>, c: char, i: int)
    requires
        0 <= i < s.len(),
        s[i] == c,
        forall|j: int| i < j < s.len() ==> s[j] != c,
    ensures
        after_last(s, c) == Some(s.skip(i + 1)),
    decreases s.len(),
{
    if i == s.len() - 1 {
        assert(s.skip(i + 1) =~= Seq::<char>::empty());
    } else {
        lemma_after_last(s.drop_last(), c, i);
        assert(s.drop_last().skip(i + 1).push(s.last()) =~= s.skip(i + 1));
    }
}

proof fn lemma_no_last(s: Seq<char>, c: char)
    requires
        forall|j: int| 0 <= j < s.len() ==> s[j] != c,
    ensures
        after_last(s, c) is None,
    decreases s.len(),
{
    if s.len() > 0 {
        lemma_no_last(s.drop_last(), c);
    }
}

fn suffix_after_last(s: &str, c: char) -> (r: Option<String>)
    ensures
        match r {
            Some(t) => after_last(s@, c) == Some(t@),
            None => after_last(s@, c) is None,
        },
{
    let v = chars_of(s);
    let mut i: usize = v.len();
    while i > 0
        invariant
            i <= v@.len(),
            v@ == s@,
            forall|j: int| i <= j < v@.len() ==> v@[j] != c,
        decreases i,
    {
        if v[i - 1] == c {
            proof {
                lemma_after_last(v@, c, i - 1);
                assert(v@.subrange(i as int, v@.len() as int) =~= v@.skip(i as int));
            }
            return Some(text_of(&v, i, v.len()));
        }
        i = i - 1;
    }
    proof {
        lemma_no_last(v@, c);
    }
    None
}

fn looks_like_commit(s: &str) -> (r: bool)
    ensures
        r == is_commit(s@),
{
    let v = chars_of(s);
    if v.len() < 7 {
        return false;
    }
    let mut i: usize = 0;
    while i < v.len()
        invariant
            i <= v@.len(),
            v@ == s@,
            forall|j: int| 0 <= j < i ==> is_hex(#[trigger] v@[j]),
        decreases v@.len() - i,
    {
        let u: u32 = v[i] as u32;
        if !((48 <= u && u <= 57) || (65 <= u && u <= 70) || (97 <= u && u <= 102)) {
            assert(!is_hex(v@[i as int]));
            return false;
        }
        i = i + 1;
    }
    true
}

/// The commit that a managed binary was built from, read off its resolved path; nothing for a
/// binary that was put there by hand.
pub fn version_from_resolved_binary(path: &str) -> (r: Option<String>)
    ensures
        match r {
            Some(t) => commit_in_path(path@) == Some(t@),
            None => commit_in_path(path@) is None,
        },
{
    let c = components(path);
    let n: usize = c.len();
    assert(texts(c@).len() == n);
    if n < 3 {
        return None;
    }
    assert(texts(c@)[n - 1] == c@[n - 1]@);
    assert(texts(c@)[n - 2] == c@[n - 2]@);
    if !same(c[n - 1].as_str(), "llama-server") || !same(c[n - 2].as_str(), "bin") {
        return None;
    }
    let dir = c[n - 3].as_str();
    assert(texts(c@)[n - 3] == dir@);
    if same(dir, ".") || same(dir, "..") {
        return None;
    }
    match suffix_after_last(dir, '-') {
        Some(commit) => if looks_like_commit(commit.as_str()) {
            Some(commit)
        } else {
            None
        },
        None => None,
    }
}

proof fn lemma_fixed_names()
    ensures
        "bin"@.len() > 0,
        "bin"@ != "."@,
        forall|i: int| 0 <= i < "bin"@.len() ==> #[trigger] "bin"@[i] != '/',
        "llama-server"@.len() > 0,
        "llama-server"@ != "."@,
        forall|i: int| 0 <= i < "llama-server"@.len() ==> #[trigger] "llama-server"@[i] != '/',
{
    reveal_strlit(".");
    reveal_strlit("bin");
    reveal_strlit("llama-server");
    assert("bin"@ =~= seq!['b', 'i', 'n']);
    assert("llama-server"@ =~= seq!['l', 'l', 'a', 'm', 'a', '-', 's', 'e', 'r', 'v', 'e', 'r']);
}

/// The commit is read back from the path at which the build of that commit is put.
pub proof fn law_version_is_read_back(build_path: Seq<char>, commit: Seq<char>)
    requires
        has_build_name(build_path),
        is_commit(commit),
    ensures
        commit_in_path(binary_text(build_dir_text(build_path, commit))) == Some(commit),
{
    reveal_strlit("-");
    reveal_strlit(".");
    reveal_strlit("..");
    reveal_strlit("bin");
    reveal_strlit("llama-server");
    let base = path_components(build_path).last();
    let parent = path_text(is_absolute(build_path), path_components(build_path).drop_last());
    let name = base + "-"@ + commit;
    let dir = build_dir_text(build_path, commit);
    lemma_last_component(build_path);
    assert(name[base.len() as int] == '-');
    assert forall|i: int| base.len() < i < name.len() implies #[trigger] name[i] != '-' && name[i]
        != '/' by {
        assert(is_hex(commit[i - base.len() - 1]));
    }
    assert forall|i: int| 0 <= i < name.len() implies #[trigger] name[i] != '/' by {
        if i < base.len() {
            assert(name[i] == base[i]);
        }
    }
    lemma_join_adds_component(parent, name);
    lemma_fixed_names();
    lemma_join_adds_component(dir, "bin"@);
    lemma_join_adds_component(joined_path(dir, "bin"@), "llama-server"@);
    assert(name != "."@ && name != ".."@) by {
        assert(name.len() >= 8);
    }
    lemma_after_last(name, '-', base.len() as int);
    assert(name.skip(base.len() as int + 1) =~= commit);
    let c = path_components(binary_text(dir));
    assert(c[c.len() - 3] == name);
    assert(c[c.len() - 2] == "bin"@);
}

/// A directory beside the managed builds.
#[derive(Debug, Clone)]
pub struct BuildEntry {
    pub name: String,
    /// When it was made, where that is known, in nanoseconds since the Unix epoch.
    pub created: Option<i128>,
    /// Whether the live binary is in it.
    pub active: bool,
}

/// Whether a directory is a managed build that may go.
pub open spec fn may_go(entries: Seq<BuildEntry>, base_name: Seq<char>, i: int) -> bool {
    &&& 0 <= i < entries.len()
    &&& begins_with(entries[i].name@, base_name + "-"@)
    &&& entries[i].created is Some
    &&& !entries[i].active
}

/// Whether a build is at least as old as another; of two made at once the one listed first is
/// older.
pub open spec fn not_younger(entries: Seq<BuildEntry>, i: usize, j: usize) -> bool {
    let a = entries[i as int].created->0;
    let b = entries[j as int].created->0;
    a < b || a == b && i <= j
}

/// Whether these are the builds that may go, the oldest first.
pub open spec fn in_age_order(
    order: Seq<usize>,
    entries: Seq<BuildEntry>,
    base_name: Seq<char>,
) -> bool {
    &&& sorted_by(order, |i: usize, j: usize| not_younger(entries, i, j))
    &&& order.no_duplicates()
    &&& forall|k: int|
        0 <= k < order.len() ==> may_go(entries, base_name, (#[trigger] order[k]) as int)
    &&& forall|i: int| #[trigger]
        may_go(entries, base_name, i) ==> order.contains(i as usize)
}

/// The oldest of some builds, all but the last `keep`.
pub open spec fn all_but_newest(order: Seq<usize>, keep: usize) -> Seq<usize> {
    if order.len() > keep {
        order.take(order.len() - keep)
    } else {
        Seq::empty()
    }
}

/// The builds to remove, the oldest first: of those that are not live all but the `keep` newest.
pub fn old_builds(entries: &Vec<BuildEntry>, base_name: &str, keep: usize) -> (r: Vec<usize>)
    ensures
        exists|order: Seq<usize>| #[trigger]
            in_age_order(order, entries@, base_name@) && r@ == all_but_newest(order, keep),
{
    let mut prefix = base_name.to_owned();
    prefix.append("-");
    let ghost leq = |i: usize, j: usize| not_younger(entries@, i, j);
    let mut order: Vec<usize> = Vec::new();
    let mut i: usize = 0;
    while i < entries.len()
        invariant
            i <= entries@.len(),
            prefix@ == base_name@ + "-"@,
            leq == (|i: usize, j: usize| not_younger(entries@, i, j)),
            sorted_by(order@, leq),
            order@.no_duplicates(),
            forall|k: int|
                0 <= k < order@.len() ==> (#[trigger] order@[k]) < i && may_go(
                    entries@,
                    base_name@,
                    order@[k] as int,
                ),
            forall|k: usize|
                k < i && #[trigger] may_go(entries@, base_name@, k as int) ==> order@.contains(k),
        decreases entries@.len() - i,
    {
        let entry = &entries[i];
        let ghost before = order@;
        if starts_with(entry.name.as_str(), prefix.as_str()) && !entry.active {
            if let Some(created) = entry.created {
                let mut p: usize = order.len();
                while p > 0 && created_at(&entries[order[p - 1]]) > created
                    invariant
                        p <= order@.len(),
                        order@ == before,
                        i < entries@.len(),
                        entries@[i as int].created == Some(created),
                        leq == (|i: usize, j: usize| not_younger(entries@, i, j)),
                        sorted_by(before, leq),
                        forall|k: int|
                            0 <= k < before.len() ==> (#[trigger] before[k]) < i && may_go(
                                entries@,
                                base_name@,
                                before[k] as int,
                            ),
                        forall|k: int| p <= k < before.len() ==> leq(i, #[trigger] before[k]),
                    decreases p,
                {
                    p = p - 1;
                }
                proof {
                    assert forall|k: int| 0 <= k < p implies leq(#[trigger] before[k], i) by {
                        assert(entries@[before[p - 1] as int].created->0 <= created);
                        if k < p - 1 {
                            assert(leq(before[k], before[p - 1]));
                        }
                    }
                    crate::sort::lemma_insert_sorted(before, p as int, i, leq);
                    lemma_insert_elements(before, p as int, i);
                }
                order.insert(p, i);
            }
        }
        proof {
            assert forall|k: usize| k < i + 1 && #[trigger] may_go(
                entries@,
                base_name@,
                k as int,
            ) implies order@.contains(k) by {
                if k < i {
                    assert(before.contains(k));
                }
            }
            assert forall|k: int| 0 <= k < order@.len() implies (#[trigger] order@[k]) < i + 1
                && may_go(entries@, base_name@, order@[k] as int) by {
                assert(order@.contains(order@[k]));
                if order@[k] != i {
                    assert(before.contains(order@[k]));
                }
            }
        }
        i = i + 1;
    }
    proof {
        assert forall|k: int| #[trigger] may_go(entries@, base_name@, k) implies order@.contains(
            k as usize,
        ) by {
            assert(may_go(entries@, base_name@, (k as usize) as int));
        }
        assert(in_age_order(order@, entries@, base_name@));
    }
    let ghost all = order@;
    if order.len() > keep {
        let upto: usize = order.len() - keep;
        order.truncate(upto);
        assert(order@ =~= all.take(all.len() - keep));
    } else {
        order.clear();
    }
    order
}

fn created_at(e: &BuildEntry) -> (r: i128)
    requires
        e.created is Some,
    ensures
        r == e.created->0,
{
    match e.created {
        Some(t) => t,
        None => 0,
    }
}

proof fn lemma_insert_elements(s: Seq<usize>, p: int, x: usize)
    requires
        0 <= p <= s.len(),
        s.no_duplicates(),
        !s.contains(x),
    ensures
        s.insert(p, x).no_duplicates(),
        forall|y: usize| #[trigger] s.insert(p, x).contains(y) <==> s.contains(y) || y == x,
{
    let t = s.insert(p, x);
    assert forall|y: usize| #[trigger] t.contains(y) <==> s.contains(y) || y == x by {
        assert(t[p] == x);
        if s.contains(y) {
            let k = choose|k: int| 0 <= k < s.len() && s[k] == y;
            assert(t[if k < p { k } else { k + 1 }] == y);
        }
        if t.contains(y) && y != x {
            let k = choose|k: int| 0 <= k < t.len() && t[k] == y;
            assert(s[if k < p { k } else { k - 1 }] == y);
        }
    }
    assert forall|a: int, b: int| 0 <= a < t.len() && 0 <= b < t.len() && a != b implies t[a]
        != t[b] by {
        let u = if a < p { a } else { a - 1 };
        let v = if b < p { b } else { b - 1 };
        if a == p {
            assert(t[b] == s[v]);
        } else if b == p {
            assert(t[a] == s[u]);
        } else {
            assert(t[a] == s[u] && t[b] == s[v]);
        }
    }
}

/// The live build is never removed, and of the others the `keep` newest stay, however old the live
/// one is.
pub proof fn law_cleanup_keeps_what_is_needed(
    order: Seq<usize>,
    entries: Seq<BuildEntry>,
    base_name: Seq<char>,
    keep: usize,
    removed: Seq<usize>,
)
    requires
        in_age_order(order, entries, base_name),
        removed == all_but_newest(order, keep),
    ensures
        forall|k: int|
            0 <= k < removed.len() ==> !entries[(#[trigger] removed[k]) as int].active
                && may_go(entries, base_name, removed[k] as int),
        order.len() >= keep ==> removed.len() + keep == order.len(),
        order.len() < keep ==> removed.len() == 0,
        forall|a: int, b: int|
            0 <= a < removed.len() <= b < order.len() ==> not_younger(
                entries,
                #[trigger] removed[a],
                #[trigger] order[b],
            ),
{
    let leq = |i: usize, j: usize| not_younger(entries, i, j);
    assert forall|k: int| 0 <= k < removed.len() implies may_go(
        entries,
        base_name,
        (#[trigger] removed[k]) as int,
    ) by {
        assert(removed[k] == order[k]);
    }
    assert forall|a: int, b: int|
        0 <= a < removed.len() <= b < order.len() implies not_younger(
        entries,
        #[trigger] removed[a],
        #[trigger] order[b],
    ) by {
        assert(removed[a] == order[a]);
        assert(leq(order[a], order[b]));
    }
}

/// Where a swap of the live link stands. A link is made under a temporary name and then renamed,
/// so that there is a link at all times.
#[derive(Debug, Clone, Copy, PartialEq, Eq, Structural)]
pub enum SwapStep {
    /// Make the temporary link.
    Link,
    /// Make it under another name.
    LinkAgain,
    /// Rename the first temporary link.
    Rename,
    /// Rename the second temporary link.
    RenameSecond,
    Swapped,
    /// Nothing was swapped; a temporary link that was made has to go.
    Failed { remove_temporary: bool },
}

/// What comes after a step of a swap.
pub open spec fn swap_step_after(step: SwapStep, ok: bool) -> SwapStep {
    match step {
        SwapStep::Link => if ok {
            SwapStep::Rename
        } else {
            SwapStep::LinkAgain
        },
        SwapStep::LinkAgain => if ok {
            SwapStep::RenameSecond
        } else {
            SwapStep::Failed { remove_temporary: false }
        },
        SwapStep::Rename => if ok {
            SwapStep::Swapped
        } else {
            SwapStep::Failed { remove_temporary: true }
        },
        SwapStep::RenameSecond => if ok {
            SwapStep::Swapped
        } else {
            SwapStep::Failed { remove_temporary: true }
        },
        SwapStep::Swapped => step,
        SwapStep::Failed { .. } => step,
    }
}

/// A swap happens by renaming a link that was made, and by nothing else, so that there is a link
/// at all times; and a link that was made but not renamed is to be removed.
pub proof fn law_swap_is_a_rename(step: SwapStep, ok: bool)
    requires
        step != SwapStep::Swapped,
        !(step is Failed),
    ensures
        swap_step_after(step, ok) == SwapStep::Swapped <==> ok && (step == SwapStep::Rename || step
            == SwapStep::RenameSecond),
        swap_step_after(step, ok) == (SwapStep::Failed { remove_temporary: true }) <==> !ok && (step
            == SwapStep::Rename || step == SwapStep::RenameSecond),
        swap_step_after(step, ok) == SwapStep::Rename <==> ok && step == SwapStep::Link,
        swap_step_after(step, ok) == SwapStep::RenameSecond <==> ok && step == SwapStep::LinkAgain,
{
}

/// Decides what comes after a step of a swap.
pub fn next_swap_step(step: SwapStep, ok: bool) -> (r: SwapStep)
    ensures
        r == swap_step_after(step, ok),
{
    match step {
        SwapStep::Link => if ok {
            SwapStep::Rename
        } else {
            SwapStep::LinkAgain
        },
        SwapStep::LinkAgain => if ok {
            SwapStep::RenameSecond
        } else {
            SwapStep::Failed { remove_temporary: false }
        },
        SwapStep::Rename => if ok {
            SwapStep::Swapped
        } else {
            SwapStep::Failed { remove_temporary: true }
        },
        SwapStep::RenameSecond => if ok {
            SwapStep::Swapped
        } else {
            SwapStep::Failed { remove_temporary: true }
        },
        SwapStep::Swapped => step,
        SwapStep::Failed { .. } => step,
    }
}

/// The extension of a temporary link: the process id, and a number of its own for the second.
pub fn temporary_extension(pid: u32, salt: Option<u32>) -> (r: String)
    ensures
        r@ == "tmp."@ + decimal(pid as nat) + match salt {
            Some(n) => "."@ + decimal(n as nat),
            None => Seq::empty(),
        },
{
    let mut out = "tmp.".to_owned();
    push_decimal(&mut out, pid as u64);
    if let Some(n) = salt {
        out.append(".");
        push_decimal(&mut out, n as u64);
    }
    assert(out@ =~= "tmp."@ + decimal(pid as nat) + match salt {
        Some(n) => "."@ + decimal(n as nat),
        None => Seq::empty(),
    });
    out
}

/// A step that fails ends the update, except the few whose failure is an answer or does not
/// matter; and nothing else aborts it.
pub proof fn law_failure_aborts(step: BuildStep)
    ensures
        step == BuildStep::Clone || step == BuildStep::Fetch || step is Checkout || step
            == BuildStep::ReadCommit || step == BuildStep::SwapExisting || step
            == BuildStep::MakeBuildDir || step == BuildStep::Configure || step == BuildStep::Compile
            || step == BuildStep::VerifyNew || step == BuildStep::SwapNew ==> next_step(step, false)
            == BuildStep::Aborted,
        step == BuildStep::DetectTag || step == BuildStep::Reset || step
            == BuildStep::LookForBinary || step == BuildStep::VerifyExisting || step
            == BuildStep::CompareLink || step == BuildStep::Cleanup ==> next_step(step, false)
            != BuildStep::Aborted,
        step != BuildStep::Aborted ==> next_step(step, true) != BuildStep::Aborted,
{
}

/// An update succeeds only where the binary of the commit is live: it was found there, or the link
/// was swapped to it, or it was built, swapped and the old builds were looked through.
pub proof fn law_success_only_when_live(step: BuildStep, ok: bool)
    requires
        step != BuildStep::Finished,
        step != BuildStep::Aborted,
    ensures
        next_step(step, ok) == BuildStep::Finished <==> step == BuildStep::Cleanup || ok && (step
            == BuildStep::CompareLink || step == BuildStep::SwapExisting),
{
}

/// What has come before each step: read backwards, no step is left out and none comes early.
pub proof fn law_steps_in_order(step: BuildStep, ok: bool)
    ensures
        next_step(step, ok) != BuildStep::Clone,
        next_step(step, ok) == BuildStep::Fetch <==> ok && step == BuildStep::Clone,
        next_step(step, ok) == BuildStep::DetectTag <==> ok && step == BuildStep::Fetch,
        next_step(step, ok) == (BuildStep::Checkout { is_tag: true }) <==> ok && step
            == BuildStep::DetectTag,
        next_step(step, ok) == (BuildStep::Checkout { is_tag: false }) <==> !ok && step
            == BuildStep::DetectTag,
        next_step(step, ok) == BuildStep::Reset <==> ok && step == (BuildStep::Checkout {
            is_tag: false,
        }),
        next_step(step, ok) == BuildStep::ReadCommit <==> step == BuildStep::Reset || ok && step
            == (BuildStep::Checkout { is_tag: true }),
        next_step(step, ok) == BuildStep::LookForBinary <==> ok && step == BuildStep::ReadCommit,
        next_step(step, ok) == BuildStep::VerifyExisting <==> ok && step
            == BuildStep::LookForBinary,
        next_step(step, ok) == BuildStep::CompareLink <==> ok && step == BuildStep::VerifyExisting,
        next_step(step, ok) == BuildStep::SwapExisting <==> !ok && step == BuildStep::CompareLink,
        next_step(step, ok) == BuildStep::MakeBuildDir <==> !ok && (step == BuildStep::LookForBinary
            || step == BuildStep::VerifyExisting),
        next_step(step, ok) == BuildStep::Configure <==> ok && step == BuildStep::MakeBuildDir,
        next_step(step, ok) == BuildStep::Compile <==> ok && step == BuildStep::Configure,
        next_step(step, ok) == BuildStep::VerifyNew <==> ok && step == BuildStep::Compile,
        next_step(step, ok) == BuildStep::SwapNew <==> ok && step == BuildStep::VerifyNew,
        next_step(step, ok) == BuildStep::Cleanup <==> ok && step == BuildStep::SwapNew,
        next_step(BuildStep::Finished, ok) == BuildStep::Finished,
        next_step(BuildStep::Aborted, ok) == BuildStep::Aborted,
{
}

/// How an update ends is what the status says: the error of the step that failed, or none, and the
/// time; until then the status of the last update stands.
pub proof fn law_status_tells_the_end(
    before: BuildManager,
    after: BuildManager,
    step: BuildStep,
    ok: bool,
    commit: Seq<char>,
    error: Seq<char>,
    now: Seq<char>,
)
    requires
        step_recorded(before, after, step, ok, commit, error, now),
        step != BuildStep::Finished,
        step != BuildStep::Aborted,
    ensures
        ({
            let failed = !ok && step != BuildStep::DetectTag && step != BuildStep::Reset && step
                != BuildStep::LookForBinary && step != BuildStep::VerifyExisting && step
                != BuildStep::CompareLink && step != BuildStep::Cleanup;
            let done = step == BuildStep::Cleanup || ok && (step == BuildStep::CompareLink || step
                == BuildStep::SwapExisting);
            &&& failed ==> after.last_build_error is Some && after.last_build_error->0@ == error
            &&& done ==> after.last_build_error is None
            &&& failed || done ==> after.last_build_at is Some && after.last_build_at->0@ == now
                && !after.building
            &&& !failed && !done ==> after.last_build_error == before.last_build_error
                && after.last_build_at == before.last_build_at
        }),
{
}

/// A build is under way from the moment at which a directory for it is to be made, and until old
/// builds were removed or something failed: never while git works or a binary that is there is
/// looked at.
pub proof fn law_building_while_built(
    before: BuildManager,
    after: BuildManager,
    step: BuildStep,
    ok: bool,
    commit: Seq<char>,
    error: Seq<char>,
    now: Seq<char>,
)
    requires
        step_recorded(before, after, step, ok, commit, error, now),
    ensures
        after.building <==> !ok && (step == BuildStep::LookForBinary || step
            == BuildStep::VerifyExisting) || ok && (step == BuildStep::MakeBuildDir || step
            == BuildStep::Configure || step == BuildStep::Compile || step == BuildStep::VerifyNew
            || step == BuildStep::SwapNew),
        after.config == before.config,
{
}

/// The commit is the version that runs once its binary is live, and each swap, and nothing else,
/// counts one generation and has the binary looked up afresh.
pub proof fn law_live_commit_is_recorded(
    before: BuildManager,
    after: BuildManager,
    step: BuildStep,
    ok: bool,
    commit: Seq<char>,
    error: Seq<char>,
    now: Seq<char>,
)
    requires
        step_recorded(before, after, step, ok, commit, error, now),
    ensures
        ({
            let swapped = ok && (step == BuildStep::SwapExisting || step == BuildStep::SwapNew);
            &&& swapped || ok && step == BuildStep::CompareLink ==> after.current_version is Some
                && after.current_version->0@ == commit
            &&& !swapped && !(ok && step == BuildStep::CompareLink) ==> after.current_version
                == before.current_version
            &&& swapped && before.binary_generation < u64::MAX ==> after.binary_generation
                == before.binary_generation + 1
            &&& swapped ==> after.binary_generation != before.binary_generation
                && after.binary_exists_cache is None
            &&& !swapped ==> after.binary_generation == before.binary_generation
                && after.binary_exists_cache == before.binary_exists_cache
        }),
{
}

/// A commit is of no use without a directory to build it in: where the configured path has no
/// name, reading the commit fails, and the error names the path. Nothing else turns a step that
/// was done into one that was not, and the error of a step that was not is its own.
pub proof fn law_commit_needs_a_place(m: BuildManager, run: BuildRun, outcome: StepOutcome)
    ensures
        !outcome.ok ==> !counts_as_done(m, run, outcome) && step_error(m, run, outcome)
            == outcome.error@,
        outcome.ok && run.step != BuildStep::ReadCommit ==> counts_as_done(m, run, outcome),
        outcome.ok && run.step == BuildStep::ReadCommit ==> counts_as_done(m, run, outcome)
            == has_build_name(m.config.build_path@),
        outcome.ok && !counts_as_done(m, run, outcome) ==> step_error(m, run, outcome)
            == "build_path has no valid directory name: "@ + m.config.build_path@,
{
}

/// A path that ends in a name can be built beside, and one that ends in `..` or has no components
/// cannot.
pub proof fn law_which_paths_have_a_name(parent: Seq<char>, name: Seq<char>)
    requires
        name.len() > 0,
        name != "."@,
        forall|i: int| 0 <= i < name.len() ==> #[trigger] name[i] != '/',
    ensures
        has_build_name(joined_path(parent, name)) <==> name != ".."@,
        !has_build_name(Seq::empty()),
        !has_build_name("/"@),
{
    lemma_join_adds_component(parent, name);
    law_path_text_is_faithful(Seq::empty(), 0);
    law_path_text_is_faithful("/"@, 0);
    reveal_strlit("/");
    assert(path_text(true, path_components("/"@).take(0)) =~= "/"@);
    assert(path_text(false, path_components(Seq::<char>::empty()).take(0)) =~= Seq::<
        char,
    >::empty());
}

/// The build of a commit stands beside the configured directory, under its name with a dash and
/// the commit after it, and the binary in its `bin`.
pub proof fn law_build_stands_beside(build_path: Seq<char>, commit: Seq<char>)
    requires
        has_build_name(build_path),
        forall|i: int| 0 <= i < commit.len() ==> #[trigger] commit[i] != '/',
    ensures
        ({
            let c = path_components(build_path);
            let dir = build_dir_text(build_path, commit);
            &&& path_components(dir) == c.drop_last().push(c.last() + seq!['-'] + commit)
            &&& path_components(binary_text(dir)) == path_components(dir).push("bin"@).push(
                "llama-server"@,
            )
        }),
{
    reveal_strlit("-");
    reveal_strlit(".");
    reveal_strlit("bin");
    reveal_strlit("llama-server");
    let c = path_components(build_path);
    let base = c.last();
    let name = base + "-"@ + commit;
    let parent = path_text(is_absolute(build_path), c.drop_last());
    lemma_last_component(build_path);
    assert(c.drop_last() =~= c.take(c.len() - 1));
    law_path_text_is_faithful(build_path, c.len() - 1);
    assert forall|i: int| 0 <= i < name.len() implies #[trigger] name[i] != '/' by {
        if i < base.len() {
            assert(name[i] == base[i]);
        } else if i > base.len() {
            assert(name[i] == commit[i - base.len() - 1]);
        }
    }
    assert(name[base.len() as int] == '-');
    assert(name.len() >= 2);
    lemma_join_adds_component(parent, name);
    assert("-"@ =~= seq!['-']);
    let dir = build_dir_text(build_path, commit);
    lemma_fixed_names();
    lemma_join_adds_component(dir, "bin"@);
    lemma_join_adds_component(joined_path(dir, "bin"@), "llama-server"@);
}

/// A lookup of the binary holds for one second and no longer.
pub proof fn law_lookup_holds_a_second(exists: bool, checked_at: u64, now: u64)
    requires
        checked_at <= now,
    ensures
        cache_stale(None, now),
        cache_stale(Some(BinaryExistsCache { exists, checked_at }), now) <==> now - checked_at
            >= 1_000_000_000,
{
}

/// A commit is read off a path only where what follows the last dash of the third component from
/// the end is at least seven hexadecimal digits, and the path goes on with `bin/llama-server`.
pub proof fn law_commit_is_the_suffix(path: Seq<char>)
    requires
        commit_in_path(path) is Some,
    ensures
        ({
            let c = path_components(path);
            let commit = commit_in_path(path)->0;
            let dir = c[c.len() - 3];
            &&& c.len() >= 3
            &&& c[c.len() - 1] == "llama-server"@
            &&& c[c.len() - 2] == "bin"@
            &&& commit.len() >= 7
            &&& forall|i: int|
                0 <= i < commit.len() ==> 48 <= (#[trigger] commit[i]) as u32 <= 57 || 65
                    <= commit[i] as u32 <= 70 || 97 <= commit[i] as u32 <= 102
            &&& dir.len() > commit.len()
            &&& dir.skip(dir.len() - commit.len()) == commit
            &&& dir[dir.len() - commit.len() - 1] == '-'
        }),
{
    let c = path_components(path);
    lemma_after_last_is_suffix(c[c.len() - 3], '-');
    let commit = commit_in_path(path)->0;
    assert forall|i: int| 0 <= i < commit.len() implies 48 <= (#[trigger] commit[i]) as u32 <= 57
        || 65 <= commit[i] as u32 <= 70 || 97 <= commit[i] as u32 <= 102 by {
        assert(is_hex(commit[i]));
    }
}

proof fn lemma_after_last_is_suffix(s: Seq<char>, c: char)
    ensures
        after_last(s, c) is Some ==> ({
            let t = after_last(s, c)->0;
            s.len() > t.len() && s.skip(s.len() - t.len()) == t && s[s.len() - t.len() - 1] == c
        }),
    decreases s.len(),
{
    if s.len() > 0 && s.last() != c {
        lemma_after_last_is_suffix(s.drop_last(), c);
        if after_last(s, c) is Some {
            let t = after_last(s, c)->0;
            assert(s.skip(s.len() - t.len()) =~= t);
        }
    } else if s.len() > 0 {
        assert(s.skip(s.len() as int) =~= Seq::<char>::empty());
    }
}

/// Which builds go: only directories under the configured name with a dash after it, of known age
/// and not live; no build stays that is older than one that goes; and as many stay as are to be
/// kept, if there are as many.
pub proof fn law_cleanup_in_plain_words(
    order: Seq<usize>,
    entries: Seq<BuildEntry>,
    base_name: Seq<char>,
    keep: usize,
    removed: Seq<usize>,
)
    requires
        in_age_order(order, entries, base_name),
        removed == all_but_newest(order, keep),
    ensures
        removed.no_duplicates(),
        forall|k: int|
            0 <= k < removed.len() ==> (#[trigger] removed[k]) < entries.len() && ({
                let e = entries[removed[k] as int];
                &&& e.name@.len() > base_name.len()
                &&& e.name@.take(base_name.len() as int) == base_name
                &&& e.name@[base_name.len() as int] == '-'
                &&& e.created is Some
                &&& !e.active
            }),
        forall|a: int, b: int|
            0 <= a < b < removed.len() ==> entries[(#[trigger] removed[a]) as int].created->0
                <= entries[(#[trigger] removed[b]) as int].created->0,
        exists|kept: Seq<usize>|
            {
                &&& #[trigger] kept.no_duplicates()
                &&& removed.len() > 0 ==> kept.len() == keep
                &&& kept.len() <= keep
                &&& forall|i: int|
                    0 <= i < entries.len() && entries[i].name@.len() > base_name.len()
                        && entries[i].name@.take(base_name.len() as int) == base_name
                        && entries[i].name@[base_name.len() as int] == '-' && (
                    #[trigger] entries[i]).created is Some && !entries[i].active
                        && !removed.contains(i as usize) ==> kept.contains(i as usize)
                &&& forall|a: int, b: int|
                    0 <= a < removed.len() && 0 <= b < kept.len() ==> kept[b] < entries.len()
                        && entries[(#[trigger] removed[a]) as int].created->0 <= entries[(
                    #[trigger] kept[b]) as int].created->0
            },
{
    reveal_strlit("-");
    let prefix = base_name + "-"@;
    let cut: int = if order.len() > keep {
        order.len() - keep
    } else {
        0
    };
    let kept = order.skip(cut);
    let leq = |i: usize, j: usize| not_younger(entries, i, j);
    assert(removed =~= order.take(cut));
    assert forall|k: int| 0 <= k < order.len() implies (#[trigger] order[k]) < entries.len() && ({
        let e = entries[order[k] as int];
        &&& e.name@.len() > base_name.len()
        &&& e.name@.take(base_name.len() as int) == base_name
        &&& e.name@[base_name.len() as int] == '-'
        &&& e.created is Some
        &&& !e.active
    }) by {
        assert(may_go(entries, base_name, order[k] as int));
        let name = entries[order[k] as int].name@;
        assert(begins_with(name, prefix));
        assert(name.len() >= prefix.len());
        assert(name.take(prefix.len() as int) =~= prefix);
        assert(name.take(prefix.len() as int)[base_name.len() as int] == '-');
        assert(name.take(base_name.len() as int) =~= name.take(prefix.len() as int).take(
            base_name.len() as int,
        ));
        assert(prefix.take(base_name.len() as int) =~= base_name);
    }
    assert forall|a: int, b: int| 0 <= a < b < order.len() implies entries[(
    #[trigger] order[a]) as int].created->0 <= entries[(#[trigger] order[b]) as int].created->0 by {
        assert(leq(order[a], order[b]));
    }
    assert(kept.no_duplicates()) by {
        assert forall|a: int, b: int| 0 <= a < kept.len() && 0 <= b < kept.len() && a != b implies kept[a]
            != kept[b] by {
            assert(kept[a] == order[a + cut] && kept[b] == order[b + cut]);
        }
    }
    assert forall|i: int|
        0 <= i < entries.len() && entries[i].name@.len() > base_name.len() && entries[i].name@.take(
            base_name.len() as int,
        ) == base_name && entries[i].name@[base_name.len() as int] == '-' && (
        #[trigger] entries[i]).created is Some && !entries[i].active && !removed.contains(
            i as usize,
        ) implies kept.contains(i as usize) by {
        let name = entries[i].name@;
        assert(name.take(prefix.len() as int) =~= prefix);
        assert(begins_with(name, prefix));
        assert(may_go(entries, base_name, i));
        assert(order.contains(i as usize));
        let k = choose|k: int| 0 <= k < order.len() && order[k] == i as usize;
        if k < cut {
            assert(removed[k] == i as usize);
        } else {
            assert(kept[k - cut] == i as usize);
        }
    }
    assert forall|a: int, b: int| 0 <= a < removed.len() && 0 <= b < kept.len() implies kept[b]
        < entries.len() && entries[(#[trigger] removed[a]) as int].created->0 <= entries[(
    #[trigger] kept[b]) as int].created->0 by {
        assert(removed[a] == order[a] && kept[b] == order[b + cut]);
    }
}

/// Seven or more hexadecimal digits, in either case, may be the hash of a commit, and nothing else
/// may.
pub proof fn law_which_texts_are_commits(s: Seq<char>)
    ensures
        is_commit(s) <==> s.len() >= 7 && forall|i: int|
            0 <= i < s.len() ==> 48 <= (#[trigger] s[i]) as u32 <= 57 || 65 <= s[i] as u32 <= 70
                || 97 <= s[i] as u32 <= 102,
{
    if is_commit(s) {
        assert forall|i: int| 0 <= i < s.len() implies 48 <= (#[trigger] s[i]) as u32 <= 57 || 65
            <= s[i] as u32 <= 70 || 97 <= s[i] as u32 <= 102 by {
            assert(is_hex(s[i]));
        }
    }
}

/// The commit of a managed binary is read off every path that ends in a directory whose name ends
/// in a dash and the commit, `bin` and `llama-server`.
pub proof fn law_commit_is_found(parent: Seq<char>, base: Seq<char>, commit: Seq<char>)
    requires
        commit.len() >= 7,
        forall|i: int|
            0 <= i < commit.len() ==> 48 <= (#[trigger] commit[i]) as u32 <= 57 || 65
                <= commit[i] as u32 <= 70 || 97 <= commit[i] as u32 <= 102,
        forall|i: int| 0 <= i < base.len() ==> #[trigger] base[i] != '/',
    ensures
        commit_in_path(
            joined_path(
                joined_path(joined_path(parent, base + seq!['-'] + commit), "bin"@),
                "llama-server"@,
            ),
        ) == Some(commit),
{
    reveal_strlit(".");
    reveal_strlit("..");
    reveal_strlit("bin");
    reveal_strlit("llama-server");
    let name = base + seq!['-'] + commit;
    let dir = joined_path(parent, name);
    assert(name[base.len() as int] == '-');
    assert forall|i: int| base.len() < i < name.len() implies #[trigger] name[i] != '-' && name[i]
        != '/' by {
        assert(name[i] == commit[i - base.len() - 1]);
    }
    assert forall|i: int| 0 <= i < name.len() implies #[trigger] name[i] != '/' by {
        if i < base.len() {
            assert(name[i] == base[i]);
        }
    }
    assert(name.len() >= 8);
    lemma_join_adds_component(parent, name);
    lemma_fixed_names();
    lemma_join_adds_component(dir, "bin"@);
    lemma_join_adds_component(joined_path(dir, "bin"@), "llama-server"@);
    lemma_after_last(name, '-', base.len() as int);
    assert(name.skip(base.len() as int + 1) =~= commit);
    law_which_texts_are_commits(commit);
    let c = path_components(joined_path(joined_path(dir, "bin"@), "llama-server"@));
    assert(c[c.len() - 3] == name);
    assert(c[c.len() - 2] == "bin"@);
}

/// The generation counts swaps, and goes on from zero when it is full.
pub proof fn law_generation_counts(g: u64)
    ensures
        g < u64::MAX ==> next_generation(g) == g + 1,
        next_generation(u64::MAX) == 0,
{
}

/// A link that cannot be made is tried once more under another name, and only then the swap fails
/// with nothing to remove; a swap that is over stays as it ended.
pub proof fn law_swap_tries_twice(step: SwapStep, ok: bool, left: bool)
    ensures
        swap_step_after(step, ok) == SwapStep::LinkAgain <==> !ok && step == SwapStep::Link,
        step != (SwapStep::Failed { remove_temporary: false }) ==> (swap_step_after(step, ok) == (
        SwapStep::Failed { remove_temporary: false }) <==> !ok && step == SwapStep::LinkAgain),
        swap_step_after(SwapStep::Swapped, ok) == SwapStep::Swapped,
        swap_step_after(SwapStep::Failed { remove_temporary: left }, ok) == (SwapStep::Failed {
            remove_temporary: left,
        }),
        swap_step_after(step, ok) != SwapStep::Link,
{
}

/// An update is over once it has finished or was aborted, and not before.
pub proof fn law_when_updates_are_over(step: BuildStep)
    ensures
        is_over(BuildStep::Finished) && is_over(BuildStep::Aborted),
        step != BuildStep::Finished && step != BuildStep::Aborted ==> !is_over(step),
{
}

/// Of two builds that were made at once the one that is listed first counts as older.
pub proof fn law_listed_first_is_older(
    order: Seq<usize>,
    entries: Seq<BuildEntry>,
    base_name: Seq<char>,
    a: int,
    b: int,
)
    requires
        in_age_order(order, entries, base_name),
        0 <= a < b < order.len(),
    ensures
        ({
            let x = entries[order[a] as int].created->0;
            let y = entries[order[b] as int].created->0;
            x < y || x == y && order[a] < order[b]
        }),
{
    let leq = |i: usize, j: usize| not_younger(entries, i, j);
    assert(leq(order[a], order[b]));
    assert(order[a] != order[b]);
}

} // verus!
