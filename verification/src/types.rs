//! The data the runner works with: the resolved process-wide configuration,
//! a container instance, a command's settings, the write mode of a run, and
//! the mount operations handed to the namespace layer.

use vstd::prelude::*;

verus! {

/// Process-wide resolved configuration, immutable for the whole invocation.
pub struct Environ {
    /// Absolute path of the project root.
    pub project_root: String,
    /// Absolute path of the per-project state directory.
    pub local_vagga: String,
    /// Absolute path of the default working directory.
    pub work_dir: String,
    /// Path of the runner's own executable, re-invoked by the deletion engine.
    pub vagga_exe: String,
}

/// The settings of one command that this crate reads.
pub struct Command {
    /// Working directory relative to the project root, when the command
    /// declares one.
    pub work_dir: Option<String>,
}

/// A named root filesystem instance.
pub struct Container {
    pub name: String,
    /// The resolved root path; replaced, never mutated in place, when a
    /// transient copy is substituted for the original root.
    pub container_root: Option<String>,
    /// Declared tmpfs volumes: absolute in-container path and mount options.
    pub tmpfs_volumes: Vec<(String, String)>,
    /// Declared mutable bind-mount directories: absolute in-container paths.
    pub mutable_dirs: Vec<String>,
}

impl Container {
    /// Replaces the root path. The previous value is dropped; deleting the
    /// old directory, if warranted, is the retention policy engine's job.
    pub fn replace_root(&mut self, path: String)
        ensures
            final(self).container_root == Some(path),
            final(self).name == old(self).name,
            final(self).tmpfs_volumes == old(self).tmpfs_volumes,
            final(self).mutable_dirs == old(self).mutable_dirs,
    {
        self.container_root = Some(path);
    }
}

/// Whether a container root is used directly or cloned first.
#[derive(Clone, Copy, Debug, PartialEq, Eq, Structural)]
pub enum WriteMode {
    ReadOnly,
    TransientHardLinkCopy,
}

/// A mount operation to perform; purely descriptive.
#[derive(Debug)]
pub enum Mount {
    /// A pseudo-filesystem mount: filesystem type, target path, options.
    Pseudo(String, String, String),
    /// A bind mount: source path, target path.
    Bind(String, String),
}

} // verus!
