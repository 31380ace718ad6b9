//! The two backends and the choice between them.

use crate::text::same_text;
use vstd::prelude::*;
use vstd::string::*;

verus! {

/// The backend that runs the external downloader.
pub struct YtDlpBackend;

/// Where the program stands that makes tokens.
#[derive(Debug, Clone, Copy, PartialEq, Eq)]
pub enum BotguardPlace {
    BesideProgram,
    WorkingDirectory,
    Nowhere,
}

/// The backend that talks to the video site itself.
pub struct PureRustBackend {
    pub botguard: BotguardPlace,
}

/// Which backend a request asks for.
pub enum BackendType {
    YtDlp,
    PureRust,
}

/// A backend on loan.
pub enum BackendRef<'a> {
    YtDlp(&'a YtDlpBackend),
    PureRust(&'a PureRustBackend),
}

impl YtDlpBackend {
    /// The name of the backend for the user.
    pub fn name(&self) -> (name: &'static str)
        ensures
            name@ == "yt-dlp + ffmpeg"@,
    {
        "yt-dlp + ffmpeg"
    }

    /// The name of the backend in requests.
    pub fn backend_id(&self) -> (id: &'static str)
        ensures
            id@ == "ytdlp"@,
    {
        "ytdlp"
    }
}

impl PureRustBackend {
    /// A backend that uses the program that makes tokens beside this program, or else the one in
    /// the working directory, as far as they exist.
    pub fn new(beside_program: bool, in_working_directory: bool) -> (backend: Self)
        ensures
            backend.botguard == if beside_program {
                BotguardPlace::BesideProgram
            } else if in_working_directory {
                BotguardPlace::WorkingDirectory
            } else {
                BotguardPlace::Nowhere
            },
    {
        let botguard = if beside_program {
            BotguardPlace::BesideProgram
        } else if in_working_directory {
            BotguardPlace::WorkingDirectory
        } else {
            BotguardPlace::Nowhere
        };
        PureRustBackend { botguard }
    }

    /// The name of the backend for the user.
    pub fn name(&self) -> (name: &'static str)
        ensures
            name@ == "Pure Rust (rustypipe)"@,
    {
        "Pure Rust (rustypipe)"
    }

    /// The name of the backend in requests.
    pub fn backend_id(&self) -> (id: &'static str)
        ensures
            id@ == "purerust"@,
    {
        "purerust"
    }
}

impl BackendType {
    /// The backend that goes by the name `s` in requests; any other name means the downloader.
    pub fn from_str(s: &str) -> (kind: Self)
        ensures
            kind == if s@ == "purerust"@ {
                BackendType::PureRust
            } else {
                BackendType::YtDlp
            },
    {
        if same_text(s, "purerust") {
            BackendType::PureRust
        } else {
            BackendType::YtDlp
        }
    }

    /// Picks the backend of this type out of the two.
    pub fn backend<'a>(
        &self,
        ytdlp: &'a YtDlpBackend,
        purerust: &'a PureRustBackend,
    ) -> (backend: BackendRef<'a>)
        ensures
            backend == match self {
                BackendType::YtDlp => BackendRef::YtDlp(ytdlp),
                BackendType::PureRust => BackendRef::PureRust(purerust),
            },
    {
        match self {
            BackendType::YtDlp => BackendRef::YtDlp(ytdlp),
            BackendType::PureRust => BackendRef::PureRust(purerust),
        }
    }
}

} // verus!
