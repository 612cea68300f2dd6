//! The data that describes remote targets, their rules and the settings around them.

use vstd::prelude::*;

verus! {

/// Identifies a remote target.
pub type TargetId = u64;

/// Identifies a planned sync session.
pub type SessionId = u64;

/// A remote endpoint: where to connect, as whom, under which base path, and
/// which pairs of directories to keep in agreement.
pub struct RemoteTarget {
    pub id: TargetId,
    pub name: String,
    /// `host` or `host:port`; an IPv6 literal stands in brackets.
    pub host: String,
    pub username: String,
    pub base_path: String,
    pub rules: Vec<SyncRule>,
    pub auth: AuthMethod,
}

/// `user@host` followed by the base path.
pub open spec fn summary_of(username: Seq<char>, host: Seq<char>, base_path: Seq<char>) -> Seq<char> {
    username + seq!['@'] + host + base_path
}

impl RemoteTarget {
    /// A one-line description of where the target points.
    pub fn summary(&self) -> (r: String)
        ensures
            r@ == summary_of(self.username@, self.host@, self.base_path@),
    {
        let mut r = self.username.clone();
        r.append("@");
        r.append(self.host.as_str());
        r.append(self.base_path.as_str());
        proof {
            reveal_strlit("@");
            assert(r@ =~= summary_of(self.username@, self.host@, self.base_path@));
        }
        r
    }
}

/// How the library authenticates against a target.
pub enum AuthMethod {
    Password { secret: String, stored: bool },
    SshKey { private_key: String, passphrase: Option<String>, passphrase_stored: bool },
}

impl AuthMethod {
    /// Password authentication whose secret has not been stored yet.
    pub fn password(secret: String) -> (r: Self)
        ensures
            r == (AuthMethod::Password { secret, stored: false }),
    {
        AuthMethod::Password { secret, stored: false }
    }

    /// Key-file authentication without a passphrase.
    pub fn ssh_key(path: String) -> (r: Self)
        ensures
            r == (AuthMethod::SshKey { private_key: path, passphrase: None, passphrase_stored: false }),
    {
        AuthMethod::SshKey { private_key: path, passphrase: None, passphrase_stored: false }
    }

    pub fn is_password(&self) -> (r: bool)
        ensures
            r == (self is Password),
    {
        match self {
            AuthMethod::Password { .. } => true,
            AuthMethod::SshKey { .. } => false,
        }
    }

    /// The password, or the key's passphrase where there is one.
    pub fn secret(&self) -> (r: Option<&str>)
        ensures
            match self {
                AuthMethod::Password { secret, .. } => r is Some && r->Some_0@ == secret@,
                AuthMethod::SshKey { passphrase, .. } => match passphrase {
                    Some(p) => r is Some && r->Some_0@ == p@,
                    None => r is None,
                },
            },
    {
        match self {
            AuthMethod::Password { secret, .. } => Some(secret.as_str()),
            AuthMethod::SshKey { passphrase, .. } => match passphrase {
                Some(p) => Some(p.as_str()),
                None => None,
            },
        }
    }
}

/// One local root, one remote root and the direction in which they are kept in agreement.
pub struct SyncRule {
    pub local: String,
    pub remote: String,
    pub direction: SyncDirection,
}

impl Clone for SyncRule {
    fn clone(&self) -> (r: Self)
        ensures
            r == *self,
    {
        SyncRule { local: self.local.clone(), remote: self.remote.clone(), direction: self.direction }
    }
}

/// A copy of a list of rules.
pub fn clone_rules(rules: &Vec<SyncRule>) -> (r: Vec<SyncRule>)
    ensures
        r@ == rules@,
{
    let mut out: Vec<SyncRule> = Vec::new();
    let mut i: usize = 0;
    while i < rules.len()
        invariant
            i <= rules@.len(),
            out@ =~= rules@.take(i as int),
        decreases rules@.len() - i,
    {
        out.push(rules[i].clone());
        i = i + 1;
    }
    out
}

impl Clone for AuthMethod {
    fn clone(&self) -> (r: Self)
        ensures
            r == *self,
    {
        match self {
            AuthMethod::Password { secret, stored } => AuthMethod::Password { secret: secret.clone(), stored: *stored },
            AuthMethod::SshKey { private_key, passphrase, passphrase_stored } => AuthMethod::SshKey {
                private_key: private_key.clone(),
                passphrase: match passphrase {
                    Some(p) => Some(p.clone()),
                    None => None,
                },
                passphrase_stored: *passphrase_stored,
            },
        }
    }
}

impl Clone for RemoteTarget {
    fn clone(&self) -> (r: Self)
        ensures
            r.id == self.id,
            r.name == self.name,
            r.host == self.host,
            r.username == self.username,
            r.base_path == self.base_path,
            r.rules@ == self.rules@,
            r.auth == self.auth,
    {
        RemoteTarget {
            id: self.id,
            name: self.name.clone(),
            host: self.host.clone(),
            username: self.username.clone(),
            base_path: self.base_path.clone(),
            rules: clone_rules(&self.rules),
            auth: self.auth.clone(),
        }
    }
}

fn rule_of(local: &str, remote: &str, direction: SyncDirection) -> (r: SyncRule)
    ensures
        r.local@ == local@,
        r.remote@ == remote@,
        r.direction == direction,
{
    SyncRule { local: local.to_owned(), remote: remote.to_owned(), direction }
}

/// The targets offered before any is configured: a production web host pushed to
/// and an analytics host pulled from.
pub fn sample_remote_targets() -> (r: Vec<RemoteTarget>)
    ensures
        r@.len() == 2,
        r@[0].id == 1 && r@[0].name@ == "Production"@ && r@[0].host@ == "prod.example.com:22"@,
        r@[0].username@ == "deploy"@ && r@[0].base_path@ == "/srv/www"@,
        r@[0].rules@.len() == 2,
        r@[0].rules@[0].local@ == "./apps/web"@ && r@[0].rules@[0].remote@ == "/web"@,
        r@[0].rules@[0].direction == SyncDirection::Push,
        r@[0].rules@[1].local@ == "./secrets"@ && r@[0].rules@[1].remote@ == "/config"@,
        r@[0].rules@[1].direction == SyncDirection::Bidirectional,
        r@[1].id == 2 && r@[1].name@ == "Analytics"@ && r@[1].host@ == "analytics.internal:2200"@,
        r@[1].username@ == "etl"@ && r@[1].base_path@ == "/data"@,
        r@[1].rules@.len() == 1,
        r@[1].rules@[0].local@ == "./datasets"@ && r@[1].rules@[0].remote@ == "/incoming"@,
        r@[1].rules@[0].direction == SyncDirection::Pull,
        forall|i: int| 0 <= i < 2 ==> (#[trigger] r@[i]).auth == (AuthMethod::Password { secret: r@[i].auth->Password_secret, stored: false })
            && r@[i].auth->Password_secret@.len() == 0,
{
    let production = RemoteTarget {
        id: 1,
        name: "Production".to_owned(),
        host: "prod.example.com:22".to_owned(),
        username: "deploy".to_owned(),
        base_path: "/srv/www".to_owned(),
        rules: vec![
            rule_of("./apps/web", "/web", SyncDirection::Push),
            rule_of("./secrets", "/config", SyncDirection::Bidirectional),
        ],
        auth: AuthMethod::password(String::new()),
    };
    let analytics = RemoteTarget {
        id: 2,
        name: "Analytics".to_owned(),
        host: "analytics.internal:2200".to_owned(),
        username: "etl".to_owned(),
        base_path: "/data".to_owned(),
        rules: vec![rule_of("./datasets", "/incoming", SyncDirection::Pull)],
        auth: AuthMethod::password(String::new()),
    };
    vec![production, analytics]
}

/// Which side is authoritative.
#[derive(Clone, Copy, PartialEq, Eq, Debug, Structural)]
pub enum SyncDirection {
    Push,
    Pull,
    Bidirectional,
}

/// The caller-facing view of a planned job.
pub struct SyncSession {
    pub id: SessionId,
    pub target_id: TargetId,
    pub status: SyncStatus,
    /// When the plan was made, in nanoseconds since the Unix epoch.
    pub last_run: Option<u64>,
    pub pending_actions: usize,
}

/// Where a session stands.
#[derive(PartialEq, Eq, Debug)]
pub enum SyncStatus {
    Idle,
    Planning,
    AwaitingConfirmation,
    /// Executing; `completed` of `total` actions are done.
    Running { completed: usize, total: usize },
    Failed { reason: String },
    Completed,
}

/// One entry of the transfer log.
pub struct TransferLog {
    /// Nanoseconds since the Unix epoch.
    pub timestamp: u64,
    pub level: LogLevel,
    pub message: String,
}

#[derive(Clone, Copy, PartialEq, Eq, Debug, Structural)]
pub enum LogLevel {
    Info,
    Warn,
    Error,
}

impl LogLevel {
    pub fn as_str(&self) -> (r: &'static str)
        ensures
            r@ == match self {
                LogLevel::Info => "INFO"@,
                LogLevel::Warn => "WARN"@,
                LogLevel::Error => "ERROR"@,
            },
    {
        match self {
            LogLevel::Info => "INFO",
            LogLevel::Warn => "WARN",
            LogLevel::Error => "ERROR",
        }
    }
}

/// How far a planning or executing task has come.
#[derive(Clone, Copy, PartialEq, Eq, Debug, Structural)]
pub struct TaskProgress {
    pub kind: TaskKind,
    pub completed: usize,
    pub total: usize,
}

#[derive(Clone, Copy, PartialEq, Eq, Debug, Structural)]
pub enum TaskKind {
    Planning,
    Executing,
}

impl TaskProgress {
    /// A progress record; a total of zero counts as one, so that a share of it is defined.
    pub fn new(kind: TaskKind, completed: usize, total: usize) -> (r: Self)
        ensures
            r.kind == kind,
            r.completed == completed,
            r.total == if total == 0 { 1 } else { total },
    {
        TaskProgress { kind, completed, total: if total == 0 { 1 } else { total } }
    }
}

#[derive(Clone, Copy, PartialEq, Eq, Debug, Structural)]
pub enum Language {
    English,
    SimplifiedChinese,
    TraditionalChinese,
}

/// What the user has chosen to switch on and off.
#[derive(Clone, Copy, PartialEq, Eq, Debug, Structural)]
pub struct AppSettings {
    pub auto_connect: bool,
    pub watch_local_changes: bool,
    pub confirm_destructive: bool,
    pub limit_bandwidth: bool,
    pub bandwidth_mbps: u32,
    pub language: Language,
}

/// The bandwidth cap, in megabits per second, that settings start from.
pub const DEFAULT_BANDWIDTH_MBPS: u32 = 200;

impl Default for AppSettings {
    fn default() -> (r: Self)
        ensures
            r.auto_connect && r.watch_local_changes && r.confirm_destructive,
            !r.limit_bandwidth,
            r.bandwidth_mbps == DEFAULT_BANDWIDTH_MBPS,
            r.language == Language::English,
    {
        AppSettings {
            auto_connect: true,
            watch_local_changes: true,
            confirm_destructive: true,
            limit_bandwidth: false,
            bandwidth_mbps: DEFAULT_BANDWIDTH_MBPS,
            language: Language::English,
        }
    }
}

#[derive(Clone, Copy, PartialEq, Eq, Debug, Structural)]
pub enum ActiveView {
    Dashboard,
    Settings,
    TargetSettings,
}

#[derive(Clone, Copy, PartialEq, Eq, Debug, Structural)]
pub enum TargetFormMode {
    Create,
    Edit(TargetId),
}

/// The outcome of the last connection test of a target.
pub enum ConnectionTestState {
    InProgress,
    Success(String),
    Failure(String),
}

} // verus!
