//! How the editor is started: options and what the command line asks for.
use crate::execution::{DigestMode, ExecutionMode, GifMode};
use vstd::prelude::*;

verus! {

/// How the editor is started.
#[derive(Clone, Debug)]
pub struct Options {
    pub width: u32,
    pub height: u32,
    pub resizable: bool,
    pub headless: bool,
    /// A script to initialize the session with.
    pub source: Option<String>,
    pub execution: ExecutionMode,
    pub debug: bool,
}

/// The default window width.
pub const DEFAULT_WIDTH: u32 = 1280;

/// The default window height.
pub const DEFAULT_HEIGHT: u32 = 720;

impl Options {
    /// A resizable window of the default size, executing normally.
    pub fn default() -> (o: Self)
        ensures
            o.width == DEFAULT_WIDTH,
            o.height == DEFAULT_HEIGHT,
            o.resizable,
            !o.headless,
            o.source is None,
            o.execution is Normal,
            !o.debug,
    {
        Options {
            width: DEFAULT_WIDTH,
            height: DEFAULT_HEIGHT,
            resizable: true,
            headless: false,
            source: None,
            execution: ExecutionMode::Normal,
            debug: false,
        }
    }
}

/// The flags given on the command line.
#[derive(Clone, Debug)]
pub struct Flags {
    pub help: bool,
    pub version: bool,
    pub verbose: bool,
    pub debug: bool,
    pub width: Option<u32>,
    pub height: Option<u32>,
    pub record_digests: bool,
    pub record_gif: bool,
    pub verify_digests: bool,
    pub headless: bool,
    /// `-u`: a script to initialize the session with.
    pub source: Option<String>,
    /// `--replay`: the recording to replay.
    pub replay: Option<String>,
    /// `--record`: where to record to.
    pub record: Option<String>,
}

/// What the command line asks for.
#[derive(Clone, Debug)]
pub enum Invocation {
    /// Print the help.
    Help,
    /// Print the version.
    Version,
    /// Run the editor.
    Run(Options),
}

/// Why the flags given do not go together.
#[derive(Clone, Copy, Debug, PartialEq, Eq, Structural)]
pub enum FlagError {
    RecordAndReplay,
    RecordAndVerifyDigests,
    GifWithoutRecording,
    DigestsWithoutRecording,
}

impl FlagError {
    pub open spec fn text(self) -> Seq<char> {
        match self {
            FlagError::RecordAndReplay => "'--replay' and '--record' can't both be specified"@,
            FlagError::RecordAndVerifyDigests => "'--record-digests' and '--verify-digests' can't both be specified"@,
            FlagError::GifWithoutRecording => "'--record-gif' has no effect without '--record' or '--replay'"@,
            FlagError::DigestsWithoutRecording => "'--record-digests' has no effect without '--record' or '--replay'"@,
        }
    }

    /// The message shown to the user.
    pub fn message(&self) -> (m: &'static str)
        ensures
            m@ == self.text(),
    {
        match self {
            FlagError::RecordAndReplay => "'--replay' and '--record' can't both be specified",
            FlagError::RecordAndVerifyDigests => "'--record-digests' and '--verify-digests' can't both be specified",
            FlagError::GifWithoutRecording => "'--record-gif' has no effect without '--record' or '--replay'",
            FlagError::DigestsWithoutRecording => "'--record-digests' has no effect without '--record' or '--replay'",
        }
    }
}

/// The digest mode that the flags ask for, unless they ask for two.
pub open spec fn digest_mode_of(record: bool, verify: bool) -> Option<DigestMode> {
    if record && !verify {
        Some(DigestMode::Record)
    } else if verify && !record {
        Some(DigestMode::Verify)
    } else if !verify && !record {
        Some(DigestMode::Ignore)
    } else {
        None
    }
}

/// What the flags ask for: help and the version come first; then the flags
/// must go together; then the editor runs, in a window of the given size or
/// the default one, resizable unless a size is given or inputs are recorded
/// or replayed.
pub open spec fn invocation_of(f: Flags) -> Result<Invocation, FlagError> {
    if f.help {
        Ok(Invocation::Help)
    } else if f.version {
        Ok(Invocation::Version)
    } else if f.replay is Some && f.record is Some {
        Err(FlagError::RecordAndReplay)
    } else if digest_mode_of(f.record_digests, f.verify_digests) is None {
        Err(FlagError::RecordAndVerifyDigests)
    } else if f.record_gif && f.record is None && f.replay is None {
        Err(FlagError::GifWithoutRecording)
    } else if f.record_digests && f.record is None && f.replay is None {
        Err(FlagError::DigestsWithoutRecording)
    } else {
        let digest = digest_mode_of(f.record_digests, f.verify_digests)->Some_0;
        let gif = if f.record_gif { GifMode::Record } else { GifMode::Ignore };
        Ok(Invocation::Run(Options {
            width: match f.width { Some(w) => w, None => DEFAULT_WIDTH },
            height: match f.height { Some(h) => h, None => DEFAULT_HEIGHT },
            resizable: f.width is None && f.height is None && f.replay is None && f.record is None,
            headless: f.headless,
            source: f.source,
            execution: match f.replay {
                Some(p) => ExecutionMode::Replay(p, digest),
                None => match f.record {
                    Some(p) => ExecutionMode::Record(p, digest, gif),
                    None => ExecutionMode::Normal,
                },
            },
            debug: f.debug,
        }))
    }
}

/// What the command line asks for.
pub fn invocation(f: Flags) -> (r: Result<Invocation, FlagError>)
    ensures
        r == invocation_of(f),
{
    if f.help {
        return Ok(Invocation::Help);
    }
    if f.version {
        return Ok(Invocation::Version);
    }
    if f.replay.is_some() && f.record.is_some() {
        return Err(FlagError::RecordAndReplay);
    }
    let digest = if f.record_digests && !f.verify_digests {
        DigestMode::Record
    } else if f.verify_digests && !f.record_digests {
        DigestMode::Verify
    } else if !f.verify_digests && !f.record_digests {
        DigestMode::Ignore
    } else {
        return Err(FlagError::RecordAndVerifyDigests);
    };
    let gif = if f.record_gif {
        GifMode::Record
    } else {
        GifMode::Ignore
    };
    if f.record_gif && f.record.is_none() && f.replay.is_none() {
        return Err(FlagError::GifWithoutRecording);
    }
    if f.record_digests && f.record.is_none() && f.replay.is_none() {
        return Err(FlagError::DigestsWithoutRecording);
    }
    let resizable = f.width.is_none() && f.height.is_none() && f.replay.is_none() && f.record.is_none();
    let width = match f.width {
        Some(w) => w,
        None => DEFAULT_WIDTH,
    };
    let height = match f.height {
        Some(h) => h,
        None => DEFAULT_HEIGHT,
    };
    let execution = match f.replay {
        Some(p) => ExecutionMode::Replay(p, digest),
        None => match f.record {
            Some(p) => ExecutionMode::Record(p, digest, gif),
            None => ExecutionMode::Normal,
        },
    };
    Ok(Invocation::Run(Options { width, height, resizable, headless: f.headless, source: f.source, execution, debug: f.debug }))
}

} // verus!
