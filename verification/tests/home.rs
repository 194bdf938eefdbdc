use gage::home::{AgentHome, ProjectCandidate, UserWants};

#[test]
fn home_keeps_its_path() {
    let h = AgentHome::new("/tmp/agent-home".to_string());
    assert_eq!(h.path(), "/tmp/agent-home");
}

#[test]
fn finder_starts_with_every_phase() {
    let h = AgentHome::new("/h".to_string());
    let files = h.config().find();
    assert_eq!(files.home, "/h");
    assert_eq!(
        files.wants,
        UserWants { settings: true, memory: true, skills: true, commands: true, agents: true, plugins: true }
    );
}

#[test]
fn finder_toggles_phases_independently() {
    let h = AgentHome::new("/h".to_string());
    let files = h.config().skills(false).agents(false).plugins(false).find();
    assert_eq!(
        files.wants,
        UserWants { settings: true, memory: true, skills: false, commands: true, agents: false, plugins: false }
    );
    let files = h.config().settings(false).memory(false).commands(false).settings(true).find();
    assert_eq!(
        files.wants,
        UserWants { settings: true, memory: false, skills: true, commands: false, agents: true, plugins: true }
    );
}

fn candidate(path: &str, cwd_is_dir: bool, has_sessions: bool) -> ProjectCandidate {
    ProjectCandidate { path: path.to_string(), cwd_is_dir, has_sessions }
}

#[test]
fn projects_drop_home_dead_and_sessionless() {
    let home = AgentHome::new("/home/u".to_string());
    let candidates = vec![
        candidate("/home/u", true, true),
        candidate("/home/u/", true, true),
        candidate("/work/gone", false, true),
        candidate("/work/quiet", true, false),
        candidate("/work/a", true, true),
        candidate("/work/b", true, true),
    ];
    let kept: Vec<String> = home.keep_projects(&candidates).into_iter().map(|p| p.path).collect();
    assert_eq!(kept, vec!["/work/a".to_string(), "/work/b".to_string()]);
    assert!(home.keep_projects(&vec![]).is_empty());
}

#[test]
fn last_setter_call_wins_per_phase() {
    let h = AgentHome::new("/h".to_string());
    let w = h.config().skills(false).agents(false).skills(true).plugins(false).plugins(false).find().wants;
    assert_eq!(
        w,
        UserWants { settings: true, memory: true, skills: true, commands: true, agents: false, plugins: false }
    );
}
