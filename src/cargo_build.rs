//! Following a `cargo run --message-format json` build until it finishes.
use vstd::prelude::*;

verus! {

/// How a build ended.
#[derive(Debug)]
pub enum CargoBuildStatus {
    /// The build succeeded; the path of the last executable it reported, if any.
    Success(Option<String>),
    Failed,
    /// The build output ended before the build reported its end.
    Aborted,
}

/// The build messages that matter here: an artifact (possibly an executable) and the end
/// of the build.
#[derive(Debug)]
pub enum CargoBuildMessage {
    CompilerArtifact { package_id: String, executable: Option<String> },
    BuildFinished { success: bool },
}

pub open spec fn opt_view(o: Option<String>) -> Option<Seq<char>> {
    match o {
        Some(s) => Some(s@),
        None => None,
    }
}

/// What has been learned of a build so far.
pub struct CargoBuildTracker {
    /// The last executable path that an artifact reported.
    pub found_elf_path: Option<String>,
}

impl CargoBuildTracker {
    pub fn new() -> (r: Self)
        ensures
            r.found_elf_path is None,
    {
        CargoBuildTracker { found_elf_path: None }
    }

    /// Takes in one build message; returns the build's outcome once it has finished.
    pub fn handle_message(&mut self, message: CargoBuildMessage) -> (r: Option<CargoBuildStatus>)
        ensures
            match message {
                CargoBuildMessage::CompilerArtifact { executable, .. } => {
                    &&& r is None
                    &&& opt_view(final(self).found_elf_path) == if executable is Some {
                        opt_view(executable)
                    } else {
                        opt_view(old(self).found_elf_path)
                    }
                },
                CargoBuildMessage::BuildFinished { success } => {
                    &&& success ==> (r matches Some(CargoBuildStatus::Success(p)) && opt_view(p)
                        == opt_view(old(self).found_elf_path))
                    &&& success ==> final(self).found_elf_path is None
                    &&& !success ==> final(self).found_elf_path == old(self).found_elf_path
                    &&& !success ==> (r matches Some(CargoBuildStatus::Failed))
                },
            },
    {
        match message {
            CargoBuildMessage::CompilerArtifact { package_id: _, executable } => {
                if let Some(exe_path) = executable {
                    self.found_elf_path = Some(exe_path);
                }
                None
            },
            CargoBuildMessage::BuildFinished { success } => {
                if success {
                    let path = self.found_elf_path.take();
                    Some(CargoBuildStatus::Success(path))
                } else {
                    Some(CargoBuildStatus::Failed)
                }
            },
        }
    }

    /// The outcome when the build output ends without a finishing message.
    pub fn handle_closed(self) -> (r: CargoBuildStatus)
        ensures
            r matches CargoBuildStatus::Aborted,
    {
        CargoBuildStatus::Aborted
    }
}

} // verus!
