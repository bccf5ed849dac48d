//! The routine definition: the parsed, immutable representation of a
//! routine's definition file, exactly as its schema declares it.

use vstd::prelude::*;

verus! {

/// The contents of a `String` option, at the specification level.
pub open spec fn view_opt(o: Option<String>) -> Option<Seq<char>> {
    match o {
        Some(s) => Some(s@),
        None => None,
    }
}

/// The contents of a vector of strings, at the specification level.
pub open spec fn view_strings(v: Seq<String>) -> Seq<Seq<char>> {
    v.map_values(|s: String| s@)
}

/// Interval configuration of a routine: how often and how it synchronizes.
#[derive(Debug)]
pub struct BaseInterval {
    pub timestamp: bool,
    pub commit_interval: String,
    pub sync_method: String,
    pub time_zone: String,
    pub last_sync_time: Option<String>,
}

/// Core identity of a routine: its display title and the directory tracked.
#[derive(Debug)]
pub struct Base {
    pub title: String,
    pub path: String,
    pub interval: BaseInterval,
}

/// Encryption metadata: a flag, and optionally a plaintext password or a
/// command whose evaluation yields the password.
#[derive(Debug)]
pub struct Encrypt {
    pub encrypt: bool,
    pub password: Option<String>,
    pub password_eval: Option<String>,
}

/// Compression metadata: a free-form method identifier.
#[derive(Debug)]
pub struct Compress {
    pub compression: String,
}

/// Advanced settings: exclude patterns and the sync-on-startup flag.
#[derive(Debug)]
pub struct Advanced {
    pub exclude: Vec<String>,
    pub sync_on_startup: bool,
}

/// Notification metadata: the topic and when to notify.
#[derive(Debug)]
pub struct Ntfy {
    pub ntfy_topic: String,
    pub notification_on_success: bool,
    pub notification_on_failure: bool,
}

/// Remote repository metadata: URL, branch, and the force-push flag.
#[derive(Debug)]
pub struct Git {
    pub remote: String,
    pub branch: String,
    pub force_push: bool,
}

/// A routine definition, immutable once loaded.
#[derive(Debug)]
pub struct Routine {
    pub base: Base,
    pub crypt: Encrypt,
    pub press: Compress,
    pub advanced: Advanced,
    pub ntfy: Ntfy,
    pub git: Git,
}

#[verifier::ext_equal]
pub struct BaseIntervalV {
    pub timestamp: bool,
    pub commit_interval: Seq<char>,
    pub sync_method: Seq<char>,
    pub time_zone: Seq<char>,
    pub last_sync_time: Option<Seq<char>>,
}

#[verifier::ext_equal]
pub struct BaseV {
    pub title: Seq<char>,
    pub path: Seq<char>,
    pub interval: BaseIntervalV,
}

#[verifier::ext_equal]
pub struct EncryptV {
    pub encrypt: bool,
    pub password: Option<Seq<char>>,
    pub password_eval: Option<Seq<char>>,
}

#[verifier::ext_equal]
pub struct CompressV {
    pub compression: Seq<char>,
}

#[verifier::ext_equal]
pub struct AdvancedV {
    pub exclude: Seq<Seq<char>>,
    pub sync_on_startup: bool,
}

#[verifier::ext_equal]
pub struct NtfyV {
    pub ntfy_topic: Seq<char>,
    pub notification_on_success: bool,
    pub notification_on_failure: bool,
}

#[verifier::ext_equal]
pub struct GitV {
    pub remote: Seq<char>,
    pub branch: Seq<char>,
    pub force_push: bool,
}

#[verifier::ext_equal]
pub struct RoutineV {
    pub base: BaseV,
    pub crypt: EncryptV,
    pub press: CompressV,
    pub advanced: AdvancedV,
    pub ntfy: NtfyV,
    pub git: GitV,
}

impl View for BaseInterval {
    type V = BaseIntervalV;

    open spec fn view(&self) -> BaseIntervalV {
        BaseIntervalV {
            timestamp: self.timestamp,
            commit_interval: self.commit_interval@,
            sync_method: self.sync_method@,
            time_zone: self.time_zone@,
            last_sync_time: view_opt(self.last_sync_time),
        }
    }
}

impl View for Base {
    type V = BaseV;

    open spec fn view(&self) -> BaseV {
        BaseV { title: self.title@, path: self.path@, interval: self.interval@ }
    }
}

impl View for Encrypt {
    type V = EncryptV;

    open spec fn view(&self) -> EncryptV {
        EncryptV {
            encrypt: self.encrypt,
            password: view_opt(self.password),
            password_eval: view_opt(self.password_eval),
        }
    }
}

impl View for Compress {
    type V = CompressV;

    open spec fn view(&self) -> CompressV {
        CompressV { compression: self.compression@ }
    }
}

impl View for Advanced {
    type V = AdvancedV;

    open spec fn view(&self) -> AdvancedV {
        AdvancedV {
            exclude: view_strings(self.exclude@),
            sync_on_startup: self.sync_on_startup,
        }
    }
}

impl View for Ntfy {
    type V = NtfyV;

    open spec fn view(&self) -> NtfyV {
        NtfyV {
            ntfy_topic: self.ntfy_topic@,
            notification_on_success: self.notification_on_success,
            notification_on_failure: self.notification_on_failure,
        }
    }
}

impl View for Git {
    type V = GitV;

    open spec fn view(&self) -> GitV {
        GitV { remote: self.remote@, branch: self.branch@, force_push: self.force_push }
    }
}

impl View for Routine {
    type V = RoutineV;

    open spec fn view(&self) -> RoutineV {
        RoutineV {
            base: self.base@,
            crypt: self.crypt@,
            press: self.press@,
            advanced: self.advanced@,
            ntfy: self.ntfy@,
            git: self.git@,
        }
    }
}

} // verus!
