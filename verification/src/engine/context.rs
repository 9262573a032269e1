//! The context of one invocation: the configuration, the backend, the lock
//! and the interactive policies.

use vstd::prelude::*;
use crate::backend::fedora::{fresh_backend, BackendView, FedoraBackend};
use crate::config::{Config, ConfigView};
use crate::engine::errors::{ErrorView, RatpmError};
use crate::engine::lock::FileLockManager;
use crate::text::{chars_of, trim, trimmed};

verus! {

/// Taken on trust of `nix`: `unistd::geteuid().is_root()` says whether the
/// effective user of this process is the user 0. Nothing is claimed of the
/// answer.
#[verifier::external_body]
fn effective_user_is_root() -> bool {
    nix::unistd::geteuid().is_root()
}

/// The context of one invocation.
pub struct Context {
    config: Config,
    backend: FedoraBackend,
    lock_manager: FileLockManager,
    assume_yes: bool,
    color: bool,
    is_root: bool,
}

/// The mathematical content of a [`Context`].
pub struct ContextView {
    pub config: ConfigView,
    pub backend: BackendView,
    pub lock_path: Seq<char>,
    pub assume_yes: bool,
    pub color: bool,
    pub is_root: bool,
}

impl View for Context {
    type V = ContextView;

    closed spec fn view(&self) -> ContextView {
        ContextView {
            config: self.config@,
            backend: self.backend@,
            lock_path: self.lock_manager.path(),
            assume_yes: self.assume_yes,
            color: self.color,
            is_root: self.is_root,
        }
    }
}

/// Whether an answer to the confirmation prompt is a yes: trimmed, it is the
/// letter `y`, small or capital.
pub open spec fn is_yes(response: Seq<char>) -> bool {
    trimmed(response) == seq!['y'] || trimmed(response) == seq!['Y']
}

/// The context that `config` describes for a user who is root or not: its
/// backend is the one that the configuration describes, with nothing loaded.
pub open spec fn initial_context(config: ConfigView, is_root: bool) -> ContextView {
    ContextView {
        config,
        backend: fresh_backend(config),
        lock_path: config.system.lock_file,
        assume_yes: config.system.assume_yes,
        color: config.system.color,
        is_root,
    }
}

/// Whether an answer to the confirmation prompt is a yes.
pub fn accepts(response: &str) -> (r: bool)
    ensures
        r == is_yes(response@),
{
    let answer = trim(&chars_of(response));
    let r = answer.len() == 1 && (answer[0] == 'y' || answer[0] == 'Y');
    proof {
        if r {
            assert(answer@ =~= seq![answer@[0]]);
        }
    }
    r
}

impl Context {
    /// The context that `config` describes, for the effective user of this
    /// process.
    pub fn new(config: Config) -> (r: Result<Self, RatpmError>)
        ensures
            r matches Ok(c) && exists|is_root: bool|
                c@ == #[trigger] initial_context(config@, is_root),
    {
        let is_root = effective_user_is_root();
        let r = Self::with_privilege(config, is_root);
        proof {
            if r is Ok {
                let c = r->Ok_0;
                assert(c@ == initial_context(config@, is_root));
            }
        }
        r
    }

    /// The context that `config` describes, for a user who is root or not
    /// as `is_root` says. Its backend is as `FedoraBackend::new` makes it.
    pub fn with_privilege(config: Config, is_root: bool) -> (r: Result<Self, RatpmError>)
        ensures
            r matches Ok(c) && c@ == initial_context(config@, is_root),
    {
        let lock_manager = FileLockManager::new(config.system.lock_file.clone());
        let backend = match FedoraBackend::new(&config) {
            Ok(b) => b,
            Err(e) => {
                return Err(e);
            },
        };
        Ok(
            Self {
                assume_yes: config.system.assume_yes,
                color: config.system.color,
                backend,
                lock_manager,
                config,
                is_root,
            },
        )
    }

    /// Refuses to go on unless the user is root.
    pub fn require_root(&self) -> (r: Result<(), RatpmError>)
        ensures
            match r {
                Ok(_) => self@.is_root,
                Err(e) => !self@.is_root && e@ == ErrorView::PermissionDenied,
            },
    {
        if !self.is_root {
            return Err(RatpmError::PermissionDenied);
        }
        Ok(())
    }

    /// The lock of this invocation.
    pub fn lock_manager(&self) -> (r: &FileLockManager)
        ensures
            r.path() == self@.lock_path,
    {
        &self.lock_manager
    }

    /// The backend.
    pub fn backend(&self) -> (r: &FedoraBackend)
        ensures
            r@ == self@.backend,
    {
        &self.backend
    }

    /// The backend, to change it.
    pub fn backend_mut(&mut self) -> (r: &mut FedoraBackend)
        ensures
            r@ == old(self)@.backend,
            final(self)@ == (ContextView { backend: final(r)@, ..old(self)@ }),
    {
        &mut self.backend
    }

    /// The configuration.
    pub fn config(&self) -> (r: &Config)
        ensures
            r@ == self@.config,
    {
        &self.config
    }

    /// Sets whether prompts are answered with yes without asking.
    pub fn set_assume_yes(&mut self, value: bool)
        ensures
            final(self)@ == (ContextView { assume_yes: value, ..old(self)@ }),
    {
        self.assume_yes = value;
    }

    /// Sets whether output is coloured.
    pub fn set_color(&mut self, value: bool)
        ensures
            final(self)@ == (ContextView { color: value, ..old(self)@ }),
    {
        self.color = value;
    }

    /// Whether output is coloured.
    pub fn color_enabled(&self) -> (r: bool)
        ensures
            r == self@.color,
    {
        self.color
    }

    /// Whether prompts are answered with yes without asking.
    pub fn assume_yes(&self) -> (r: bool)
        ensures
            r == self@.assume_yes,
    {
        self.assume_yes
    }

    /// Whether the transaction goes ahead, given the user's answer to the
    /// prompt: always when prompts are answered with yes without asking,
    /// otherwise when the answer is a yes.
    pub fn confirm_transaction(&self, response: &str) -> (r: Result<bool, RatpmError>)
        ensures
            r matches Ok(go) && go == (self@.assume_yes || is_yes(response@)),
    {
        if self.assume_yes {
            return Ok(true);
        }
        Ok(accepts(response))
    }
}

} // verus!
