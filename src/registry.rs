//! Names of images in a GCP Artifact Registry repository.

use vstd::prelude::*;

use crate::text::{before_first, prefix_before};
use crate::versioning::{after_last, tag_suffix};

verus! {

/// The registry host of a region.
pub open spec fn registry_host(region: Seq<char>) -> Seq<char> {
    region + "-docker.pkg.dev"@
}

/// The repository path `{region}-docker.pkg.dev/{project}/{repository}`.
pub open spec fn repository_path(project: Seq<char>, region: Seq<char>, repository: Seq<char>) -> Seq<
    char,
> {
    registry_host(region) + "/"@ + project + "/"@ + repository
}

/// The remote name under which the local image `image` is pushed: its name
/// before the first `:`, tagged `tag` if given, else with the local tag
/// (what follows the last `:`, or the whole name when it has no tag).
pub fn remote_image_name(
    image: &str,
    project: &str,
    region: &str,
    repository: &str,
    tag: Option<&str>,
) -> (r: String)
    ensures
        r@ == repository_path(project@, region@, repository@) + "/"@ + before_first(image@, ':')
            + ":"@ + match tag {
            Some(t) => t@,
            None => after_last(image@, ':'),
        },
{
    let mut r = remote_repository(project, region, repository);
    r.append("/");
    let name = prefix_before(image, ':');
    r.append(name.as_str());
    r.append(":");
    match tag {
        Some(t) => r.append(t),
        None => {
            let local = tag_suffix(image);
            r.append(local.as_str());
        },
    }
    r
}

/// The repository path `{region}-docker.pkg.dev/{project}/{repository}`.
pub fn remote_repository(project: &str, region: &str, repository: &str) -> (r: String)
    ensures
        r@ == repository_path(project@, region@, repository@),
{
    let mut r = String::from_str(region);
    r.append("-docker.pkg.dev");
    r.append("/");
    r.append(project);
    r.append("/");
    r.append(repository);
    r
}

/// The remote name `{region}-docker.pkg.dev/{project}/{repository}/{image}`
/// of an image to pull.
pub fn remote_pull_name(image: &str, project: &str, region: &str, repository: &str) -> (r: String)
    ensures
        r@ == repository_path(project@, region@, repository@) + "/"@ + image@,
{
    let mut r = remote_repository(project, region, repository);
    r.append("/");
    r.append(image);
    r
}

} // verus!
