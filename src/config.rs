//! The persisted form of targets and settings, and the choices made in moving
//! between it and the running form.

use vstd::prelude::*;
use crate::model::{clone_rules, AuthMethod, Language, RemoteTarget, SyncRule, TargetId, DEFAULT_BANDWIDTH_MBPS};
use crate::secrets::{SecretSlot, SecretUpdate};

verus! {

/// The language code stored when none is given.
pub fn default_language_code() -> (r: String)
    ensures
        r@ == "en"@,
{
    String::from_str("en")
}

/// The value of a switch that is on unless stored otherwise.
pub fn default_true() -> (r: bool)
    ensures
        r,
{
    true
}

/// The bandwidth cap stored when none is given.
pub fn default_bandwidth() -> (r: u32)
    ensures
        r == DEFAULT_BANDWIDTH_MBPS,
{
    DEFAULT_BANDWIDTH_MBPS
}

/// The language a code names: the Simplified and Traditional Chinese codes in their
/// usual spellings, and English for any other.
pub open spec fn language_of(code: Seq<char>) -> Language {
    if code == "zh-Hans"@ || code == "zh_CN"@ || code == "zh-cn"@ || code == "zh_hans"@ || code == "zh"@ {
        Language::SimplifiedChinese
    } else if code == "zh-Hant"@ || code == "zh_TW"@ || code == "zh-tw"@ || code == "zh_hant"@ {
        Language::TraditionalChinese
    } else {
        Language::English
    }
}

/// Whether `code` is the literal `lit`.
fn is_code(code: &String, lit: &str) -> (r: bool)
    ensures
        r == (code@ == lit@),
{
    *code == lit.to_owned()
}

pub fn language_from_code(code: &str) -> (r: Language)
    ensures
        r == language_of(code@),
{
    let c = code.to_owned();
    if is_code(&c, "zh-Hans") || is_code(&c, "zh_CN") || is_code(&c, "zh-cn") || is_code(&c, "zh_hans") || is_code(&c, "zh") {
        Language::SimplifiedChinese
    } else if is_code(&c, "zh-Hant") || is_code(&c, "zh_TW") || is_code(&c, "zh-tw") || is_code(&c, "zh_hant") {
        Language::TraditionalChinese
    } else {
        Language::English
    }
}

/// The code a language is stored under.
pub open spec fn code_of(language: Language) -> Seq<char> {
    match language {
        Language::English => "en"@,
        Language::SimplifiedChinese => "zh-Hans"@,
        Language::TraditionalChinese => "zh-Hant"@,
    }
}

pub fn language_to_code(language: Language) -> (r: &'static str)
    ensures
        r@ == code_of(language),
{
    match language {
        Language::English => "en",
        Language::SimplifiedChinese => "zh-Hans",
        Language::TraditionalChinese => "zh-Hant",
    }
}

/// A stored code reads back as the language it was stored for.
pub proof fn lemma_language_code_round_trip(language: Language)
    ensures
        language_of(code_of(language)) == language,
{
    reveal_strlit("en");
    reveal_strlit("zh-Hans");
    reveal_strlit("zh-Hant");
    reveal_strlit("zh_CN");
    reveal_strlit("zh-cn");
    reveal_strlit("zh_hans");
    reveal_strlit("zh");
    reveal_strlit("zh_TW");
    reveal_strlit("zh-tw");
    reveal_strlit("zh_hant");
    match language {
        Language::English => {
            assert("en"@.len() != "zh-Hans"@.len());
            assert("en"@.len() != "zh_CN"@.len());
            assert("en"@.len() != "zh-cn"@.len());
            assert("en"@.len() != "zh_hans"@.len());
            assert("en"@[0] != "zh"@[0]);
            assert("en"@.len() != "zh-Hant"@.len());
            assert("en"@.len() != "zh_TW"@.len());
            assert("en"@.len() != "zh-tw"@.len());
            assert("en"@.len() != "zh_hant"@.len());
        },
        Language::SimplifiedChinese => {},
        Language::TraditionalChinese => {
            assert("zh-Hant"@[6] != "zh-Hans"@[6]);
            assert("zh-Hant"@.len() != "zh_CN"@.len());
            assert("zh-Hant"@.len() != "zh-cn"@.len());
            assert("zh-Hant"@[2] != "zh_hans"@[2]);
            assert("zh-Hant"@.len() != "zh"@.len());
        },
    }
}

/// How a target authenticates, as stored: secrets themselves stay in the vault.
pub enum PersistedAuth {
    Password { stored: bool },
    SshKey { private_key: String, passphrase_stored: bool },
}

impl Default for PersistedAuth {
    fn default() -> (r: Self)
        ensures
            r == (PersistedAuth::Password { stored: false }),
    {
        PersistedAuth::Password { stored: false }
    }
}

/// A target as stored.
pub struct PersistedRemoteTarget {
    pub id: TargetId,
    pub name: String,
    pub host: String,
    pub username: String,
    pub base_path: String,
    pub rules: Vec<SyncRule>,
    pub auth: PersistedAuth,
}

/// What is stored of a target's authentication, and what the vault must do.
pub open spec fn persisted_auth_of(id: TargetId, auth: AuthMethod) -> (PersistedAuth, SecretUpdateView) {
    match auth {
        AuthMethod::Password { secret, .. } => if secret@.len() == 0 {
            (PersistedAuth::Password { stored: false }, SecretUpdateView::Delete(SecretSlot::Password(id)))
        } else {
            (PersistedAuth::Password { stored: true }, SecretUpdateView::Store(SecretSlot::Password(id), secret@))
        },
        AuthMethod::SshKey { private_key, passphrase, .. } => match passphrase {
            Some(p) => if p@.len() == 0 {
                (
                    PersistedAuth::SshKey { private_key, passphrase_stored: false },
                    SecretUpdateView::Delete(SecretSlot::KeyPassphrase(id)),
                )
            } else {
                (
                    PersistedAuth::SshKey { private_key, passphrase_stored: true },
                    SecretUpdateView::Store(SecretSlot::KeyPassphrase(id), p@),
                )
            },
            None => (
                PersistedAuth::SshKey { private_key, passphrase_stored: false },
                SecretUpdateView::Delete(SecretSlot::KeyPassphrase(id)),
            ),
        },
    }
}

/// The mathematical value of a [`SecretUpdate`].
pub enum SecretUpdateView {
    Store(SecretSlot, Seq<char>),
    Delete(SecretSlot),
}

impl View for SecretUpdate {
    type V = SecretUpdateView;

    open spec fn view(&self) -> SecretUpdateView {
        match self {
            SecretUpdate::Store { slot, secret } => SecretUpdateView::Store(*slot, secret@),
            SecretUpdate::Delete { slot } => SecretUpdateView::Delete(*slot),
        }
    }
}

/// The stored auth of a target's authentication, and the vault change it needs: an
/// empty or absent secret is deleted from the vault, any other is stored there.
pub fn persist_auth(id: TargetId, auth: &AuthMethod) -> (r: (PersistedAuth, SecretUpdate))
    ensures
        r.0 == persisted_auth_of(id, *auth).0,
        r.1@ == persisted_auth_of(id, *auth).1,
{
    match auth {
        AuthMethod::Password { secret, .. } => {
            let slot = SecretSlot::Password(id);
            if secret.as_str().unicode_len() == 0 {
                (PersistedAuth::Password { stored: false }, SecretUpdate::Delete { slot })
            } else {
                (PersistedAuth::Password { stored: true }, SecretUpdate::Store { slot, secret: secret.clone() })
            }
        }
        AuthMethod::SshKey { private_key, passphrase, .. } => {
            let slot = SecretSlot::KeyPassphrase(id);
            match passphrase {
                Some(p) => {
                    if p.as_str().unicode_len() == 0 {
                        (PersistedAuth::SshKey { private_key: private_key.clone(), passphrase_stored: false }, SecretUpdate::Delete { slot })
                    } else {
                        (
                            PersistedAuth::SshKey { private_key: private_key.clone(), passphrase_stored: true },
                            SecretUpdate::Store { slot, secret: p.clone() },
                        )
                    }
                }
                None => (PersistedAuth::SshKey { private_key: private_key.clone(), passphrase_stored: false }, SecretUpdate::Delete { slot }),
            }
        }
    }
}

/// `p` stores `t`, with `auth` for its authentication.
pub open spec fn stores_target(p: PersistedRemoteTarget, t: RemoteTarget) -> bool {
    &&& p.id == t.id
    &&& p.name == t.name
    &&& p.host == t.host
    &&& p.username == t.username
    &&& p.base_path == t.base_path
    &&& p.rules@ == t.rules@
    &&& p.auth == persisted_auth_of(t.id, t.auth).0
}

/// The stored form of each target, with one vault change per target.
pub fn persist_remote_targets(remote_targets: &Vec<RemoteTarget>) -> (r: (Vec<PersistedRemoteTarget>, Vec<SecretUpdate>))
    ensures
        r.0@.len() == remote_targets@.len(),
        r.1@.len() == remote_targets@.len(),
        forall|i: int| 0 <= i < remote_targets@.len() ==> stores_target(#[trigger] r.0@[i], remote_targets@[i]),
        forall|i: int| 0 <= i < remote_targets@.len() ==> (#[trigger] r.1@[i])@ == persisted_auth_of(
            remote_targets@[i].id,
            remote_targets@[i].auth,
        ).1,
{
    let mut targets: Vec<PersistedRemoteTarget> = Vec::new();
    let mut updates: Vec<SecretUpdate> = Vec::new();
    let mut i: usize = 0;
    while i < remote_targets.len()
        invariant
            i <= remote_targets@.len(),
            targets@.len() == i,
            updates@.len() == i,
            forall|k: int| 0 <= k < i ==> stores_target(#[trigger] targets@[k], remote_targets@[k]),
            forall|k: int| 0 <= k < i ==> (#[trigger] updates@[k])@ == persisted_auth_of(
                remote_targets@[k].id,
                remote_targets@[k].auth,
            ).1,
        decreases remote_targets@.len() - i,
    {
        let t = &remote_targets[i];
        let (auth, update) = persist_auth(t.id, &t.auth);
        targets.push(PersistedRemoteTarget {
            id: t.id,
            name: t.name.clone(),
            host: t.host.clone(),
            username: t.username.clone(),
            base_path: t.base_path.clone(),
            rules: clone_rules(&t.rules),
            auth,
        });
        updates.push(update);
        i = i + 1;
    }
    (targets, updates)
}

impl PersistedRemoteTarget {
    /// The vault slot that holds this target's secret.
    pub fn secret_slot(&self) -> (r: SecretSlot)
        ensures
            r == match self.auth {
                PersistedAuth::Password { .. } => SecretSlot::Password(self.id),
                PersistedAuth::SshKey { .. } => SecretSlot::KeyPassphrase(self.id),
            },
    {
        match &self.auth {
            PersistedAuth::Password { .. } => SecretSlot::Password(self.id),
            PersistedAuth::SshKey { .. } => SecretSlot::KeyPassphrase(self.id),
        }
    }

    /// The running target, given what the vault holds in [`Self::secret_slot`]: a
    /// password that is missing reads as empty, a passphrase that is missing stays absent.
    pub fn into_runtime(self, secret: Option<String>) -> (r: RemoteTarget)
        ensures
            r.id == self.id,
            r.name == self.name,
            r.host == self.host,
            r.username == self.username,
            r.base_path == self.base_path,
            r.rules == self.rules,
            r.auth == match self.auth {
                PersistedAuth::Password { stored } => AuthMethod::Password {
                    secret: match secret {
                        Some(s) => s,
                        None => r.auth->Password_secret,
                    },
                    stored,
                },
                PersistedAuth::SshKey { private_key, passphrase_stored } => AuthMethod::SshKey {
                    private_key,
                    passphrase: secret,
                    passphrase_stored,
                },
            },
            (self.auth is Password && secret is None) ==> r.auth->Password_secret@.len() == 0,
    {
        let auth = match self.auth {
            PersistedAuth::Password { stored } => AuthMethod::Password {
                secret: match secret {
                    Some(s) => s,
                    None => String::new(),
                },
                stored,
            },
            PersistedAuth::SshKey { private_key, passphrase_stored } => AuthMethod::SshKey {
                private_key,
                passphrase: secret,
                passphrase_stored,
            },
        };
        RemoteTarget {
            id: self.id,
            name: self.name,
            host: self.host,
            username: self.username,
            base_path: self.base_path,
            rules: self.rules,
            auth,
        }
    }
}

} // verus!
