//! Handle to the coding agent's state root.
//!
//! `AgentHome` points at the directory that holds the agent's project
//! registry file and its state subdirectory. On a default install that is
//! the user's `$HOME`.
use vstd::prelude::*;

verus! {

/// Which phases of the user-scope configuration walk to run.
#[derive(Debug, Clone, Copy, PartialEq, Eq)]
pub struct UserWants {
    pub settings: bool,
    pub memory: bool,
    pub skills: bool,
    pub commands: bool,
    pub agents: bool,
    pub plugins: bool,
}

/// A phase of the user-scope configuration walk.
#[derive(Debug, Clone, Copy, PartialEq, Eq)]
pub enum Phase {
    Settings,
    Memory,
    Skills,
    Commands,
    Agents,
    Plugins,
}

/// Whether `w` runs phase `p`.
pub open spec fn runs(w: UserWants, p: Phase) -> bool {
    match p {
        Phase::Settings => w.settings,
        Phase::Memory => w.memory,
        Phase::Skills => w.skills,
        Phase::Commands => w.commands,
        Phase::Agents => w.agents,
        Phase::Plugins => w.plugins,
    }
}

/// `w` with phase `p` switched to `on`, every other phase as it was.
pub open spec fn with_phase(w: UserWants, p: Phase, on: bool) -> UserWants {
    match p {
        Phase::Settings => UserWants { settings: on, ..w },
        Phase::Memory => UserWants { memory: on, ..w },
        Phase::Skills => UserWants { skills: on, ..w },
        Phase::Commands => UserWants { commands: on, ..w },
        Phase::Agents => UserWants { agents: on, ..w },
        Phase::Plugins => UserWants { plugins: on, ..w },
    }
}

/// Every phase enabled: what `AgentHome::config` starts from.
pub open spec fn all_phases() -> UserWants {
    UserWants { settings: true, memory: true, skills: true, commands: true, agents: true, plugins: true }
}

/// The phases after a chain of setter calls, applied in order.
pub open spec fn after_setters(w: UserWants, calls: Seq<(Phase, bool)>) -> UserWants
    decreases calls.len(),
{
    if calls.len() == 0 {
        w
    } else {
        with_phase(after_setters(w, calls.drop_last()), calls.last().0, calls.last().1)
    }
}

/// The argument of the last call in the chain that sets phase `p`, if any.
pub open spec fn last_setting(calls: Seq<(Phase, bool)>, p: Phase) -> Option<bool>
    decreases calls.len(),
{
    if calls.len() == 0 {
        None
    } else if calls.last().0 == p {
        Some(calls.last().1)
    } else {
        last_setting(calls.drop_last(), p)
    }
}

/// After any chain of setter calls on a fresh finder, each phase runs as
/// the last call that set it says, or runs when no call set it: each
/// setter changes only its own phase.
pub proof fn law_setter_chain(calls: Seq<(Phase, bool)>, p: Phase)
    ensures
        runs(after_setters(all_phases(), calls), p) == match last_setting(calls, p) {
            Some(on) => on,
            None => true,
        },
    decreases calls.len(),
{
    if calls.len() > 0 {
        law_setter_chain(calls.drop_last(), p);
    }
}

/// A user-scope configuration walk: the agent home it starts from and the
/// phases it runs.
#[derive(Debug, Clone)]
pub struct ConfigFiles {
    pub home: String,
    pub wants: UserWants,
}

/// A project the agent has recorded sessions for.
#[derive(Debug, Clone)]
pub struct Project {
    pub path: String,
}

/// A project path from the agent's project registry, with what the file
/// system says of it: whether the path is still a directory, and whether
/// the agent's session directory for it exists.
#[derive(Debug, Clone)]
pub struct ProjectCandidate {
    pub path: String,
    pub cwd_is_dir: bool,
    pub has_sessions: bool,
}

/// Whether `std::path::Path` considers the two paths equal (it compares
/// them component by component).
pub uninterp spec fn same_path(a: Seq<char>, b: Seq<char>) -> bool;

/// Path equality.
///
/// Trusted: compares `std::path::Path::new(a)` with `Path::new(b)` by
/// `==`. The contract claims that the result depends on the two strings
/// alone (named `same_path`) and that equal strings are equal paths; how
/// components are compared is not stated.
#[verifier::external_body]
fn paths_equal(a: &str, b: &str) -> (r: bool)
    ensures
        r == same_path(a@, b@),
        a@ == b@ ==> r,
{
    std::path::Path::new(a) == std::path::Path::new(b)
}

/// A registered project is reported when it is not the agent home itself
/// (which would walk the whole home tree), its directory still exists
/// (dead working directories are routine in the registry), and it has a
/// session directory (nothing to report otherwise).
pub open spec fn project_kept(home: Seq<char>, c: ProjectCandidate) -> bool {
    &&& !same_path(c.path@, home)
    &&& c.cwd_is_dir
    &&& c.has_sessions
}

/// The paths of the candidates that are kept, in order.
pub open spec fn kept_paths(home: Seq<char>, cs: Seq<ProjectCandidate>) -> Seq<Seq<char>>
    decreases cs.len(),
{
    if cs.len() == 0 {
        Seq::empty()
    } else {
        let prev = kept_paths(home, cs.drop_last());
        if project_kept(home, cs.last()) {
            prev.push(cs.last().path@)
        } else {
            prev
        }
    }
}

/// `p` is the path of a candidate that qualifies as a project.
pub open spec fn from_qualifying(home: Seq<char>, cs: Seq<ProjectCandidate>, p: Seq<char>) -> bool {
    exists|j: int| 0 <= j < cs.len() && #[trigger] cs[j].path@ == p && project_kept(home, cs[j])
}

/// Every reported project comes from a candidate that qualifies; in
/// particular the agent home itself is never reported as a project.
pub proof fn law_kept_projects_qualify(home: Seq<char>, cs: Seq<ProjectCandidate>)
    ensures
        forall|i: int|
            0 <= i < kept_paths(home, cs).len() ==> from_qualifying(
                home,
                cs,
                #[trigger] kept_paths(home, cs)[i],
            ),
        forall|i: int|
            0 <= i < kept_paths(home, cs).len() ==> !same_path(#[trigger] kept_paths(home, cs)[i], home),
    decreases cs.len(),
{
    if cs.len() > 0 {
        let init = cs.drop_last();
        law_kept_projects_qualify(home, init);
        let prev = kept_paths(home, init);
        let cur = kept_paths(home, cs);
        assert forall|i: int| 0 <= i < cur.len() implies from_qualifying(home, cs, #[trigger] cur[i])
            && !same_path(cur[i], home) by {
            if i < prev.len() {
                assert(cur[i] == prev[i]);
                assert(from_qualifying(home, init, prev[i]));
                let j = choose|j: int|
                    0 <= j < init.len() && #[trigger] init[j].path@ == prev[i] && project_kept(
                        home,
                        init[j],
                    );
                assert(cs[j] == init[j]);
            } else {
                let j = cs.len() - 1;
                assert(cur[i] == cs[j].path@);
            }
        }
    }
}

/// Every registered project that is not the agent home itself (by path
/// equality), whose directory exists and which has a session directory is
/// reported; a project anywhere under the home directory included.
pub proof fn law_qualifying_projects_are_kept(home: Seq<char>, cs: Seq<ProjectCandidate>, j: int)
    requires
        0 <= j < cs.len(),
        !same_path(cs[j].path@, home),
        cs[j].cwd_is_dir,
        cs[j].has_sessions,
    ensures
        kept_paths(home, cs).contains(cs[j].path@),
    decreases cs.len(),
{
    let init = cs.drop_last();
    let prev = kept_paths(home, init);
    if j < cs.len() - 1 {
        assert(init[j] == cs[j]);
        law_qualifying_projects_are_kept(home, init, j);
        let k = choose|k: int| 0 <= k < prev.len() && prev[k] == cs[j].path@;
        if project_kept(home, cs.last()) {
            assert(kept_paths(home, cs)[k] == prev[k]);
        } else {
            assert(kept_paths(home, cs) == prev);
        }
    } else {
        assert(cs.last() == cs[j]);
        assert(kept_paths(home, cs) == prev.push(cs[j].path@));
        assert(kept_paths(home, cs)[prev.len() as int] == cs[j].path@);
    }
}

/// The paths of a list of projects.
pub open spec fn project_paths(ps: Seq<Project>) -> Seq<Seq<char>> {
    ps.map_values(|p: Project| p.path@)
}

/// Handle to the coding agent's state root.
#[derive(Debug, Clone)]
pub struct AgentHome {
    path: String,
}

impl AgentHome {
    /// The root directory.
    pub closed spec fn root(&self) -> Seq<char> {
        self.path@
    }

    /// A `AgentHome` rooted at an explicit path.
    pub fn new(path: String) -> (h: Self)
        ensures
            h.root() == path@,
    {
        AgentHome { path }
    }

    /// The root directory.
    pub fn path(&self) -> (p: &str)
        ensures
            p@ == self.root(),
    {
        self.path.as_str()
    }

    /// The projects worth reporting among the registry's entries, in
    /// registry order.
    pub fn keep_projects(&self, candidates: &Vec<ProjectCandidate>) -> (r: Vec<Project>)
        ensures
            project_paths(r@) == kept_paths(self.root(), candidates@),
    {
        let mut kept: Vec<Project> = Vec::new();
        let mut i: usize = 0;
        while i < candidates.len()
            invariant
                i <= candidates@.len(),
                project_paths(kept@) == kept_paths(self.path@, candidates@.take(i as int)),
            decreases candidates.len() - i,
        {
            let c = &candidates[i];
            let ghost before = kept@;
            assert(candidates@.take(i + 1).drop_last() =~= candidates@.take(i as int));
            assert(candidates@.take(i + 1).last() == candidates@[i as int]);
            if !paths_equal(c.path.as_str(), self.path.as_str()) && c.cwd_is_dir && c.has_sessions {
                kept.push(Project { path: c.path.clone() });
                assert(project_paths(kept@) =~= project_paths(before).push(c.path@));
            }
            i = i + 1;
        }
        assert(candidates@.take(candidates@.len() as int) =~= candidates@);
        kept
    }

    /// Start a finder for user-scope config files under the agent's state
    /// subdirectory of the root.
    /// Every phase (settings, root memory file, skills, commands, agents,
    /// installed plugins) starts enabled.
    pub fn config(&self) -> (f: AgentHomeFinder)
        ensures
            f.home() == self.root(),
            f.wants() == all_phases(),
    {
        AgentHomeFinder {
            home: self.path.clone(),
            wants: UserWants {
                settings: true,
                memory: true,
                skills: true,
                commands: true,
                agents: true,
                plugins: true,
            },
        }
    }
}

/// Builder for a user-scope configuration walk, returned by
/// `AgentHome::config`. All phases start enabled; chain `.<phase>(false)`
/// calls to disable individual phases, then call `.find()`.
pub struct AgentHomeFinder {
    home: String,
    wants: UserWants,
}

impl AgentHomeFinder {
    /// The agent home the walk starts from.
    pub closed spec fn home(&self) -> Seq<char> {
        self.home@
    }

    /// The phases the walk will run.
    pub closed spec fn wants(&self) -> UserWants {
        self.wants
    }

    pub fn settings(self, on: bool) -> (f: Self)
        ensures
            f.home() == self.home(),
            f.wants() == with_phase(self.wants(), Phase::Settings, on),
    {
        let mut f = self;
        f.wants.settings = on;
        f
    }

    pub fn memory(self, on: bool) -> (f: Self)
        ensures
            f.home() == self.home(),
            f.wants() == with_phase(self.wants(), Phase::Memory, on),
    {
        let mut f = self;
        f.wants.memory = on;
        f
    }

    /// Skills *and* their rule files. Both come out of one directory
    /// listing, so they share a toggle.
    pub fn skills(self, on: bool) -> (f: Self)
        ensures
            f.home() == self.home(),
            f.wants() == with_phase(self.wants(), Phase::Skills, on),
    {
        let mut f = self;
        f.wants.skills = on;
        f
    }

    pub fn commands(self, on: bool) -> (f: Self)
        ensures
            f.home() == self.home(),
            f.wants() == with_phase(self.wants(), Phase::Commands, on),
    {
        let mut f = self;
        f.wants.commands = on;
        f
    }

    pub fn agents(self, on: bool) -> (f: Self)
        ensures
            f.home() == self.home(),
            f.wants() == with_phase(self.wants(), Phase::Agents, on),
    {
        let mut f = self;
        f.wants.agents = on;
        f
    }

    /// The installed-plugins index file *and* every per-plugin walk it
    /// drives: one toggle for both.
    pub fn plugins(self, on: bool) -> (f: Self)
        ensures
            f.home() == self.home(),
            f.wants() == with_phase(self.wants(), Phase::Plugins, on),
    {
        let mut f = self;
        f.wants.plugins = on;
        f
    }

    /// Consumes the builder: the walk to run, from this home with these
    /// phases.
    pub fn find(self) -> (c: ConfigFiles)
        ensures
            c.home@ == self.home(),
            c.wants == self.wants(),
    {
        ConfigFiles { home: self.home, wants: self.wants }
    }
}

/// Each phase toggle touches only its own phase: disabling the skills phase
/// and then the agents phase leaves the others as they were, in either
/// order.
pub proof fn law_phase_toggles_commute(w: UserWants, a: bool, b: bool)
    ensures
        (UserWants { agents: b, ..(UserWants { skills: a, ..w }) }) == (UserWants {
            skills: a,
            ..(UserWants { agents: b, ..w })
        }),
{
}

} // verus!
