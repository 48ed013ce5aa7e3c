//! Hot-swap orchestration decisions: which located artifact to deploy,
//! where it lives locally and remotely, and the exact live-patch command
//! handed to the remote execution channel.

use vstd::prelude::*;

use crate::HotSwapError;
use crate::confit_utils::class_full_path_spec;
use crate::confit_utils::get_class_full_path;
use crate::jar_utils::ClassInfoDTO;
use crate::text::path_join_spec;

verus! {

/// The live-patch command for a deployed artifact: it feeds a redefine
/// directive and a stop to the remote tool attached to the target process.
pub open spec fn hot_update_command_spec(remote_path: Seq<char>, pid: Seq<char>) -> Seq<char> {
    "echo -e 'redefine "@ + remote_path + "\nstop' | java -jar /root/arthas/arthas-boot.jar "@
        + pid
}

/// Compose the live-patch command, verbatim, for the remote channel.
pub fn compose_hot_update_command(remote_path: &str, java_process_pid: &str) -> (r: String)
    ensures
        r@ == hot_update_command_spec(remote_path@, java_process_pid@),
{
    String::from_str("echo -e 'redefine ").concat(remote_path).concat(
        "\nstop' | java -jar /root/arthas/arthas-boot.jar ",
    ).concat(java_process_pid)
}

/// The fixed well-known remote directory an artifact is uploaded into.
pub open spec fn remote_class_path_spec(class_name: Seq<char>) -> Seq<char> {
    "/root/poodle/"@ + class_name
}

/// The remote upload target for an artifact, by its base name.
pub fn remote_class_path(class_name: &str) -> (r: String)
    ensures
        r@ == remote_class_path_spec(class_name@),
{
    String::from_str("/root/poodle/").concat(class_name)
}

/// Pick the artifact to deploy from the manifest of one search. Zero
/// matches is the not-found failure — no upload may be attempted then.
/// With several matches the last one wins, matching the flat extraction
/// sink, where the last-written file of a base name is the one on disk.
pub fn select_artifact(matches: &Vec<ClassInfoDTO>) -> (r: Result<String, HotSwapError>)
    ensures
        matches@.len() == 0 ==> r == Err::<String, HotSwapError>(
            HotSwapError::ArtifactNotFoundError,
        ),
        matches@.len() > 0 ==> (r matches Ok(name) && name@ == matches@[matches@.len()
            - 1]@.class_file_name),
{
    if matches.len() == 0 {
        Err(HotSwapError::ArtifactNotFoundError)
    } else {
        Ok(matches[matches.len() - 1].class_file_name.clone())
    }
}

/// Everything the transport layer needs to deploy one artifact.
pub struct DeploymentPlan {
    /// Where the extracted artifact lies on disk.
    pub local_class_path: String,
    /// Where it is uploaded to on the remote host.
    pub remote_class_path: String,
    /// The live-patch command to execute after the upload.
    pub command: String,
}

/// Derive the full deployment plan for an artifact and a target process.
pub fn plan_hot_update(class_name: &str, java_process_pid: &str, exe_dir: &str) -> (p:
    DeploymentPlan)
    ensures
        p.local_class_path@ == class_full_path_spec(exe_dir@, class_name@),
        p.remote_class_path@ == remote_class_path_spec(class_name@),
        p.command@ == hot_update_command_spec(
            remote_class_path_spec(class_name@),
            java_process_pid@,
        ),
{
    let local = get_class_full_path(exe_dir, class_name);
    let remote = remote_class_path(class_name);
    let command = compose_hot_update_command(remote.as_str(), java_process_pid);
    DeploymentPlan { local_class_path: local, remote_class_path: remote, command: command }
}

} // verus!
