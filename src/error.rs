use vstd::prelude::*;

verus! {

/// What can stop a build from an install document.
#[derive(Debug, Clone)]
pub enum Error {
    /// The input document could not be read; holds the reason.
    InputIo(String),
    /// The document's structure is not understood; holds the reason.
    ParseMd(String),
    /// The build engine could not be started or fed; holds the reason.
    DockerSpawn(String),
    /// The build engine exited unsuccessfully; holds its exit code, if it had one.
    DockerBuild(Option<i32>),
}

} // verus!
