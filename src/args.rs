//! The command surface: the three commands and the repository URL.
use vstd::prelude::*;
use vstd::string::*;
use crate::text::{starts_with, has_prefix, join2};

verus! {

/// The whole invocation.
pub struct App {
    /// Verbose output.
    pub verbose: bool,
    pub cmd: Command,
}

pub enum Command {
    /// Set up the manager for a repository.
    Init(InitCommand),
    /// Mirror this device's dotfiles into the repository and push them.
    Merge(MergeCommand),
    /// Bring the repository's dotfiles to this device.
    Pull(PullCommand),
}

/// Where the dotfile repository lives, by transport.
pub enum RepoURL {
    SSH(String),
    HTTPS(String),
}

/// A repository URL of a form that names no known transport.
pub enum UrlError {
    NeitherSshNorHttps(String),
}

pub ghost enum UrlModel {
    Ssh(Seq<char>),
    Https(Seq<char>),
}

impl View for RepoURL {
    type V = UrlModel;

    open spec fn view(&self) -> UrlModel {
        match self {
            RepoURL::SSH(s) => UrlModel::Ssh(s@),
            RepoURL::HTTPS(s) => UrlModel::Https(s@),
        }
    }
}

/// The transport of a URL by its literal prefix, if it has a known one.
pub open spec fn url_spec(url: Seq<char>) -> Option<UrlModel> {
    if starts_with(url, "git@"@) {
        Some(UrlModel::Ssh(url))
    } else if starts_with(url, "https://"@) {
        Some(UrlModel::Https(url))
    } else {
        None
    }
}

pub open spec fn url_text(u: UrlModel) -> Seq<char> {
    match u {
        UrlModel::Ssh(s) => s,
        UrlModel::Https(s) => s,
    }
}

impl RepoURL {
    /// Reads a URL: `git@...` is SSH, `https://...` is HTTPS, and any other
    /// form is refused.
    pub fn parse(url: &str) -> (r: Result<RepoURL, UrlError>)
        ensures
            match r {
                Ok(u) => url_spec(url@) == Some(u@),
                Err(UrlError::NeitherSshNorHttps(s)) => url_spec(url@) is None && s@ == url@,
            },
    {
        if has_prefix(url, "git@") {
            Ok(RepoURL::SSH(String::from_str(url)))
        } else if has_prefix(url, "https://") {
            Ok(RepoURL::HTTPS(String::from_str(url)))
        } else {
            Err(UrlError::NeitherSshNorHttps(String::from_str(url)))
        }
    }

    /// The URL as written, for the configuration file.
    pub fn to_string(&self) -> (r: String)
        ensures
            r@ == url_text(self@),
    {
        match self {
            RepoURL::SSH(url) => url.clone(),
            RepoURL::HTTPS(url) => url.clone(),
        }
    }
}

impl UrlError {
    /// A sentence that says what was wrong.
    pub fn message(&self) -> (r: String)
        ensures
            match self {
                UrlError::NeitherSshNorHttps(u) =>
                    r@ == "Invalid repo URL format (neither SSH nor HTTPS): "@ + u@,
            },
    {
        match self {
            UrlError::NeitherSshNorHttps(u) =>
                join2("Invalid repo URL format (neither SSH nor HTTPS): ", u.as_str()),
        }
    }
}

/// Arguments of `init`.
pub struct InitCommand {
    /// URL of the repository, either HTTPS or SSH.
    pub url: RepoURL,
    /// Target branch; the default branch for a new repository.
    pub target_branch: String,
}

/// Arguments of `sync`.
pub struct MergeCommand {
    /// Skip the divergence check.
    pub skipdiff: bool,
    /// Go on even where the branches have diverged.
    pub force: bool,
    /// Target branch; empty for this device's branch.
    pub target_branch: String,
}

/// Arguments of `pull`.
pub struct PullCommand {
    /// Skip the divergence check.
    pub skipdiff: bool,
    /// Go on even where the branches have diverged.
    pub force: bool,
    /// Target branch; empty for this device's branch.
    pub target_branch: String,
}

} // verus!
