//! Configuration: repositories, credentials, and the install mode.

use crate::errors::UhpmError;
use crate::text::contains_seq;
use crate::text::contains_str;
use crate::text::is_prefix;
use crate::text::lower_of;
use crate::text::starts_with;
use crate::text::str_to_string;
use crate::text::to_lowercase;
use crate::text::view_opt;
use vstd::prelude::*;

verus! {

/// What a repository serves.
#[derive(Clone, Copy, Debug, PartialEq, Eq, Structural)]
pub enum RepositoryType {
    Binary,
    Source,
    Universal,
    Mixed,
}

impl RepositoryType {
    /// The name of this repository type.
    pub fn to_string(&self) -> (r: String)
        ensures
            *self == RepositoryType::Binary ==> r@ == "binary"@,
            *self == RepositoryType::Source ==> r@ == "source"@,
            *self == RepositoryType::Universal ==> r@ == "universal"@,
            *self == RepositoryType::Mixed ==> r@ == "mixed"@,
    {
        match self {
            RepositoryType::Binary => str_to_string("binary"),
            RepositoryType::Source => str_to_string("source"),
            RepositoryType::Universal => str_to_string("universal"),
            RepositoryType::Mixed => str_to_string("mixed"),
        }
    }
}

impl Default for RepositoryType {
    /// Binary.
    fn default() -> (r: RepositoryType)
        ensures
            r == RepositoryType::Binary,
    {
        RepositoryType::Binary
    }
}

/// Credentials for a repository: a token, or a name and password.
#[derive(Clone, Debug, PartialEq, Eq)]
pub struct RepositoryAuth {
    pub username: Option<String>,
    pub password: Option<String>,
    pub token: Option<String>,
}

impl RepositoryAuth {
    /// Token credentials.
    pub fn token(token: &str) -> (r: RepositoryAuth)
        ensures
            r.username is None,
            r.password is None,
            r.token matches Some(t) && t@ == token@,
    {
        RepositoryAuth { username: None, password: None, token: Some(str_to_string(token)) }
    }

    /// Name-and-password credentials.
    pub fn basic(username: &str, password: &str) -> (r: RepositoryAuth)
        ensures
            r.username matches Some(u) && u@ == username@,
            r.password matches Some(p) && p@ == password@,
            r.token is None,
    {
        RepositoryAuth {
            username: Some(str_to_string(username)),
            password: Some(str_to_string(password)),
            token: None,
        }
    }

    /// A field-by-field copy.
    pub fn duplicate(&self) -> (r: RepositoryAuth)
        ensures
            view_opt(r.username) == view_opt(self.username),
            view_opt(r.password) == view_opt(self.password),
            view_opt(r.token) == view_opt(self.token),
    {
        RepositoryAuth {
            username: match &self.username {
                Some(s) => Some(str_to_string(s.as_str())),
                None => None,
            },
            password: match &self.password {
                Some(s) => Some(str_to_string(s.as_str())),
                None => None,
            },
            token: match &self.token {
                Some(s) => Some(str_to_string(s.as_str())),
                None => None,
            },
        }
    }
}

/// One configured repository.
#[derive(Clone, Debug, PartialEq, Eq)]
pub struct RepositoryConfig {
    pub name: String,
    pub url: String,
    pub repo_type: RepositoryType,
    pub enabled: bool,
    pub priority: u32,
    pub authentication: Option<RepositoryAuth>,
}

/// A local URL: a `file://` form, or a plain path without a scheme.
pub open spec fn url_is_local(url: Seq<char>) -> bool {
    is_prefix(url, "file://"@) || !contains_seq(url, "://"@)
}

/// A remote URL: `http://` or `https://`.
pub open spec fn url_is_remote(url: Seq<char>) -> bool {
    is_prefix(url, "http://"@) || is_prefix(url, "https://"@)
}

impl RepositoryConfig {
    /// An enabled repository at priority 100 without credentials.
    pub fn new(name: &str, url: &str, repo_type: RepositoryType) -> (r: RepositoryConfig)
        ensures
            r.name@ == name@,
            r.url@ == url@,
            r.repo_type == repo_type,
            r.enabled == true,
            r.priority == 100,
            r.authentication is None,
    {
        RepositoryConfig {
            name: str_to_string(name),
            url: str_to_string(url),
            repo_type,
            enabled: true,
            priority: 100,
            authentication: None,
        }
    }

    /// The same repository at another priority.
    pub fn with_priority(self, priority: u32) -> (r: RepositoryConfig)
        ensures
            r.priority == priority,
            r.name@ == self.name@,
            r.url@ == self.url@,
            r.repo_type == self.repo_type,
            r.enabled == self.enabled,
            r.authentication == self.authentication,
    {
        RepositoryConfig { priority, ..self }
    }

    /// The same repository with credentials.
    pub fn with_auth(self, auth: RepositoryAuth) -> (r: RepositoryConfig)
        ensures
            r.authentication == Some(auth),
            r.name@ == self.name@,
            r.url@ == self.url@,
            r.repo_type == self.repo_type,
            r.enabled == self.enabled,
            r.priority == self.priority,
    {
        RepositoryConfig { authentication: Some(auth), ..self }
    }

    /// The same repository, switched off.
    pub fn disabled(self) -> (r: RepositoryConfig)
        ensures
            r.enabled == false,
            r.name@ == self.name@,
            r.url@ == self.url@,
            r.repo_type == self.repo_type,
            r.priority == self.priority,
            r.authentication == self.authentication,
    {
        RepositoryConfig { enabled: false, ..self }
    }

    /// Whether the URL points at the local filesystem.
    pub fn is_local(&self) -> (r: bool)
        ensures
            r == url_is_local(self.url@),
    {
        starts_with(self.url.as_str(), "file://") || !contains_str(self.url.as_str(), "://")
    }

    /// Whether the URL points at a web server.
    pub fn is_remote(&self) -> (r: bool)
        ensures
            r == url_is_remote(self.url@),
    {
        starts_with(self.url.as_str(), "http://") || starts_with(self.url.as_str(), "https://")
    }

    /// The local path of a local URL: the part after `file://`, or the URL
    /// itself when it has no scheme.
    pub fn local_path(&self) -> (r: Option<String>)
        ensures
            is_prefix(self.url@, "file://"@) ==> (r matches Some(p) && p@ == self.url@.skip(7)),
            !is_prefix(self.url@, "file://"@) && !contains_seq(self.url@, "://"@) ==> (r matches
                Some(p) && p@ == self.url@),
            !is_prefix(self.url@, "file://"@) && contains_seq(self.url@, "://"@) ==> r is None,
    {
        proof {
            reveal_strlit("file://");
        }
        if starts_with(self.url.as_str(), "file://") {
            let n = self.url.as_str().unicode_len();
            let rest = self.url.as_str().substring_char(7, n);
            proof {
                assert(rest@ =~= self.url@.skip(7));
            }
            Some(str_to_string(rest))
        } else if !contains_str(self.url.as_str(), "://") {
            Some(str_to_string(self.url.as_str()))
        } else {
            None
        }
    }

    /// A field-by-field copy.
    pub fn duplicate(&self) -> (r: RepositoryConfig)
        ensures
            r.name@ == self.name@,
            r.url@ == self.url@,
            r.repo_type == self.repo_type,
            r.enabled == self.enabled,
            r.priority == self.priority,
            r.authentication is Some <==> self.authentication is Some,
    {
        RepositoryConfig {
            name: str_to_string(self.name.as_str()),
            url: str_to_string(self.url.as_str()),
            repo_type: self.repo_type,
            enabled: self.enabled,
            priority: self.priority,
            authentication: match &self.authentication {
                Some(a) => Some(a.duplicate()),
                None => None,
            },
        }
    }
}

/// How install-list entries are realized.
#[derive(Clone, Copy, Debug, PartialEq, Eq, Hash, Structural)]
pub enum InstallMode {
    Symlink,
    Direct,
    Auto,
}

impl InstallMode {
    pub fn is_direct(&self) -> (r: bool)
        ensures
            r == (*self == InstallMode::Direct),
    {
        match self {
            InstallMode::Direct => true,
            _ => false,
        }
    }

    pub fn is_symlink(&self) -> (r: bool)
        ensures
            r == (*self == InstallMode::Symlink),
    {
        match self {
            InstallMode::Symlink => true,
            _ => false,
        }
    }

    pub fn is_auto(&self) -> (r: bool)
        ensures
            r == (*self == InstallMode::Auto),
    {
        match self {
            InstallMode::Auto => true,
            _ => false,
        }
    }

    /// Whether links are used: always for `Symlink`, never for `Direct`,
    /// and as the platform allows for `Auto`.
    pub fn should_use_symlinks(&self, platform_supports_symlinks: bool) -> (r: bool)
        ensures
            *self == InstallMode::Symlink ==> r == true,
            *self == InstallMode::Direct ==> r == false,
            *self == InstallMode::Auto ==> r == platform_supports_symlinks,
    {
        match self {
            InstallMode::Symlink => true,
            InstallMode::Direct => false,
            InstallMode::Auto => platform_supports_symlinks,
        }
    }

    /// The name of this install mode.
    pub fn to_string(&self) -> (r: String)
        ensures
            *self == InstallMode::Symlink ==> r@ == "symlink"@,
            *self == InstallMode::Direct ==> r@ == "direct"@,
            *self == InstallMode::Auto ==> r@ == "auto"@,
    {
        match self {
            InstallMode::Symlink => str_to_string("symlink"),
            InstallMode::Direct => str_to_string("direct"),
            InstallMode::Auto => str_to_string("auto"),
        }
    }

    /// Reads an install mode, case-insensitively, accepting the synonyms
    /// `symbolic` and `link`, `copy` and `hard`, and `automatic`.
    pub fn try_from(value: &str) -> (r: Result<InstallMode, UhpmError>)
        ensures
            ({
                let low = lower_of(value@);
                match r {
                    Ok(m) => (m == InstallMode::Symlink <==> (low == "symlink"@ || low
                        == "symbolic"@ || low == "link"@)) && (m == InstallMode::Direct <==> (low
                        == "direct"@ || low == "copy"@ || low == "hard"@)) && (m
                        == InstallMode::Auto <==> (low == "auto"@ || low == "automatic"@)),
                    Err(e) => !(low == "symlink"@ || low == "symbolic"@ || low == "link"@ || low
                        == "direct"@ || low == "copy"@ || low == "hard"@ || low == "auto"@ || low
                        == "automatic"@) && e matches UhpmError::ValidationError(_),
                }
            }),
    {
        proof {
            reveal_strlit("symlink");
            reveal_strlit("symbolic");
            reveal_strlit("link");
            reveal_strlit("direct");
            reveal_strlit("copy");
            reveal_strlit("hard");
            reveal_strlit("auto");
            reveal_strlit("automatic");
            assert("symlink"@.len() == 7 && "symbolic"@.len() == 8 && "link"@.len() == 4
                && "direct"@.len() == 6 && "copy"@.len() == 4 && "hard"@.len() == 4 && "auto"@.len()
                == 4 && "automatic"@.len() == 9);
            assert("link"@[0] == 'l' && "copy"@[0] == 'c' && "hard"@[0] == 'h' && "auto"@[0]
                == 'a');
        }
        let low = to_lowercase(value);
        let ls = low.as_str();
        if crate::text::str_eq(ls, "symlink") || crate::text::str_eq(ls, "symbolic")
            || crate::text::str_eq(ls, "link") {
            Ok(InstallMode::Symlink)
        } else if crate::text::str_eq(ls, "direct") || crate::text::str_eq(ls, "copy")
            || crate::text::str_eq(ls, "hard") {
            Ok(InstallMode::Direct)
        } else if crate::text::str_eq(ls, "auto") || crate::text::str_eq(ls, "automatic") {
            Ok(InstallMode::Auto)
        } else {
            Err(UhpmError::validation("invalid install mode: use symlink, direct, or auto"))
        }
    }
}

impl Default for InstallMode {
    /// Auto.
    fn default() -> (r: InstallMode)
        ensures
            r == InstallMode::Auto,
    {
        InstallMode::Auto
    }
}

/// The whole configuration.
#[derive(Clone, Debug)]
pub struct UhpmConfig {
    pub update_source: String,
    pub default_install_mode: InstallMode,
    pub repositories: Vec<RepositoryConfig>,
}

} // verus!
