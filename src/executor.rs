use vstd::prelude::*;
use vstd::string::*;

use crate::config::{GitLabCustomExecutorConfig, GitLabExecutorPullPolicy};
use crate::text::{concat, join_path, joined_path, owned, str_equal, views};

verus! {

/// Position `i` holds the first `c` of `s`.
pub open spec fn is_first(s: Seq<char>, c: char, i: int) -> bool {
    0 <= i < s.len() && s[i] == c && forall|j: int| 0 <= j < i ==> s[j] != c
}

/// Position `i` holds the last `c` of `s`.
pub open spec fn is_last(s: Seq<char>, c: char, i: int) -> bool {
    0 <= i < s.len() && s[i] == c && forall|j: int| i < j < s.len() ==> s[j] != c
}

/// The position of the first `c` in `s`, or -1.
pub open spec fn first_index(s: Seq<char>, c: char) -> int {
    if s.contains(c) {
        choose|i: int| is_first(s, c, i)
    } else {
        -1
    }
}

/// The position of the last `c` in `s`, or -1.
pub open spec fn last_index(s: Seq<char>, c: char) -> int {
    if s.contains(c) {
        choose|i: int| is_last(s, c, i)
    } else {
        -1
    }
}

fn find_first(s: &str, c: char) -> (r: Option<usize>)
    ensures
        match r {
            Some(i) => i < s@.len() && first_index(s@, c) == i,
            None => first_index(s@, c) == -1,
        },
{
    let n = s.unicode_len();
    let mut i: usize = 0;
    while i < n
        invariant
            n == s@.len(),
            i <= n,
            forall|j: int| 0 <= j < i ==> s@[j] != c,
        decreases n - i,
    {
        if s.get_char(i) == c {
            proof {
                assert(s@.contains(c));
                let k = choose|k: int| is_first(s@, c, k);
                assert(is_first(s@, c, i as int));
                if k < i {
                } else if k > i {
                }
            }
            return Some(i);
        }
        i += 1;
    }
    None
}

fn find_last(s: &str, c: char) -> (r: Option<usize>)
    ensures
        match r {
            Some(i) => i < s@.len() && last_index(s@, c) == i,
            None => last_index(s@, c) == -1,
        },
{
    let n = s.unicode_len();
    let mut i: usize = n;
    while i > 0
        invariant
            n == s@.len(),
            i <= n,
            forall|j: int| i <= j < n ==> s@[j] != c,
        decreases i,
    {
        if s.get_char(i - 1) == c {
            proof {
                assert(s@.contains(c));
                let k = choose|k: int| is_last(s@, c, k);
                assert(is_last(s@, c, i - 1));
                if k < i - 1 {
                } else if k > i - 1 {
                }
            }
            return Some(i - 1);
        }
        i -= 1;
    }
    None
}

/// Image URL schemes that the container runtime pulls from directly.
pub open spec fn is_pull_protocol(p: Seq<char>) -> bool {
    ||| p == "library"@
    ||| p == "shub"@
    ||| p == "docker"@
    ||| p == "docker-archive"@
    ||| p == "docker-daemon"@
    ||| p == "oci"@
    ||| p == "oci-archive"@
    ||| p == "http"@
    ||| p == "https"@
    ||| p == "oras"@
}

/// Where an image is pulled from: the image name itself when it starts with
/// a known scheme and `:`, else the name as a docker image.
pub open spec fn pull_url(image: Seq<char>) -> Seq<char> {
    let p = first_index(image, ':');
    if p >= 0 && is_pull_protocol(image.take(p)) {
        image
    } else {
        "docker://"@ + image
    }
}

fn is_pull_protocol_exec(p: &str) -> (r: bool)
    ensures
        r == is_pull_protocol(p@),
{
    str_equal(p, "library") || str_equal(p, "shub") || str_equal(p, "docker") || str_equal(p, "docker-archive")
        || str_equal(p, "docker-daemon") || str_equal(p, "oci") || str_equal(p, "oci-archive")
        || str_equal(p, "http") || str_equal(p, "https") || str_equal(p, "oras")
}

/// The URL that an image is pulled from (see `pull_url`).
pub fn build_image_pull_url(image_name: &str) -> (r: String)
    ensures
        r@ == pull_url(image_name@),
{
    if let Some(p) = find_first(image_name, ':') {
        if is_pull_protocol_exec(image_name.substring_char(0, p)) {
            return owned(image_name);
        }
    }
    concat("docker://", image_name)
}

/// The part of `s` before position `i`, and the part after it; all of `s`
/// and nothing when `i` is -1.
pub open spec fn before(s: Seq<char>, i: int) -> Seq<char> {
    if i >= 0 { s.take(i) } else { s }
}

pub open spec fn after(s: Seq<char>, i: int) -> Seq<char> {
    if i >= 0 { s.skip(i + 1) } else { s }
}

/// The file name under which an image is stored: for an http(s) URL its last
/// path segment; otherwise `<name>_<tag>.sif`, where the name is the last
/// path segment up to its first `:`, and the tag follows its last `:` up to a
/// `,` (`latest` when there is no tag).
pub open spec fn image_filename(image: Seq<char>) -> Seq<char> {
    let p = first_index(image, ':');
    let protocol = if p >= 0 { image.take(p) } else { Seq::empty() };
    let path = after(image, p);
    let base = after(path, last_index(path, '/'));
    if protocol == "http"@ || protocol == "https"@ {
        base
    } else {
        let name = before(base, first_index(base, ':'));
        let tag = if first_index(base, ':') >= 0 {
            let last = after(base, last_index(base, ':'));
            before(last, first_index(last, ','))
        } else {
            "latest"@
        };
        name + "_"@ + tag + ".sif"@
    }
}

fn before_exec(s: &str, i: Option<usize>) -> (r: &str)
    requires
        i matches Some(k) ==> k < s@.len(),
    ensures
        r@ == before(s@, match i { Some(k) => k as int, None => -1 }),
{
    match i {
        Some(k) => s.substring_char(0, k),
        None => s,
    }
}

fn after_exec(s: &str, i: Option<usize>) -> (r: &str)
    requires
        i matches Some(k) ==> k < s@.len(),
    ensures
        r@ == after(s@, match i { Some(k) => k as int, None => -1 }),
{
    match i {
        Some(k) => {
            let n = s.unicode_len();
            let r = s.substring_char(k + 1, n);
            assert(r@ =~= s@.skip(k + 1));
            r
        },
        None => s,
    }
}

/// The file name under which an image is stored (see `image_filename`).
pub fn build_image_filename(image_name: &str) -> (r: String)
    ensures
        r@ == image_filename(image_name@),
{
    let p = find_first(image_name, ':');
    let path = after_exec(image_name, p);
    let slash = find_last(path, '/');
    let base = after_exec(path, slash);
    let is_http = match p {
        Some(k) => {
            let protocol = image_name.substring_char(0, k);
            str_equal(protocol, "http") || str_equal(protocol, "https")
        },
        None => false,
    };
    if is_http {
        return owned(base);
    }
    let colon = find_first(base, ':');
    let name = before_exec(base, colon);
    let tag = match colon {
        Some(_) => {
            let last_colon = find_last(base, ':');
            let last = after_exec(base, last_colon);
            let comma = find_first(last, ',');
            owned(before_exec(last, comma))
        },
        None => owned("latest"),
    };
    proof {
        if p is None {
            assert("http"@.len() == 4) by {
                reveal_strlit("http");
            }
            assert("https"@.len() == 5) by {
                reveal_strlit("https");
            }
        }
    }
    let with_name = concat(name, "_");
    let with_tag = concat(with_name.as_str(), tag.as_str());
    concat(with_tag.as_str(), ".sif")
}

/// Why the prepare stage cannot go on.
#[derive(Debug, Clone, Copy, PartialEq, Eq, Structural)]
pub enum PullError {
    /// The pull policy forbids pulling and the image file is missing.
    ImageMissing,
}

/// Whether the image has to be pulled, given the policy and whether its file
/// is present; with policy `Never` a missing file is an error.
pub fn pull_needed(policy: GitLabExecutorPullPolicy, image_exists: bool) -> (r: Result<bool, PullError>)
    ensures
        r == match policy {
            GitLabExecutorPullPolicy::Always => Ok::<bool, PullError>(true),
            GitLabExecutorPullPolicy::IfNotPresent => Ok(!image_exists),
            GitLabExecutorPullPolicy::Never => if image_exists {
                Ok(false)
            } else {
                Err(PullError::ImageMissing)
            },
        },
{
    match policy {
        GitLabExecutorPullPolicy::Always => Ok(true),
        GitLabExecutorPullPolicy::IfNotPresent => Ok(!image_exists),
        GitLabExecutorPullPolicy::Never => {
            if image_exists {
                Ok(false)
            } else {
                Err(PullError::ImageMissing)
            }
        },
    }
}

/// The driver name that the config stage reports.
pub open spec fn driver_name_of(description: Option<String>) -> Seq<char> {
    match description {
        None => "gitlab-meta-runner custom executor"@,
        Some(d) => "gitlab-meta-runner custom executor"@ + " ("@ + d@ + ")"@,
    }
}

/// The driver name that the config stage reports: the program's name, and
/// the executor's description in parentheses when there is one.
pub fn driver_name(config: &GitLabCustomExecutorConfig) -> (r: String)
    ensures
        r@ == driver_name_of(config.description),
{
    let base = owned("gitlab-meta-runner custom executor");
    match &config.description {
        None => base,
        Some(d) => {
            let open = concat(base.as_str(), " (");
            let with_description = concat(open.as_str(), d.as_str());
            concat(with_description.as_str(), ")")
        },
    }
}

/// The builds directory of one job: the configured one, with the job id
/// appended so that every job gets a directory of its own.
pub fn job_builds_dir(config: &GitLabCustomExecutorConfig, job_id: &str) -> (r: String)
    ensures
        r@ == joined_path(config.builds_dir@, job_id@),
{
    join_path(config.builds_dir.as_str(), job_id)
}

/// The arguments of the container runtime for one run step.
pub open spec fn run_arguments(
    config: GitLabCustomExecutorConfig,
    builds_dir: Seq<char>,
    script_path: Seq<char>,
    step_name: Seq<char>,
    image: Seq<char>,
) -> Seq<Seq<char>> {
    let mounts = seq![script_path, builds_dir, config.cache_dir@] + views(config.mount@);
    seq!["exec"@, "--no-home"@, "--writable-tmpfs"@, "--cleanenv"@] + bind_flags(mounts) + (if config.gpu_amd {
        seq!["--rocm"@]
    } else {
        Seq::empty()
    }) + (if config.gpu_nvidia {
        seq!["--nv"@]
    } else {
        Seq::empty()
    }) + seq![
        joined_path(config.image_dir@, image_filename(image)),
        "bash"@,
        "-l"@,
        script_path,
        step_name,
    ]
}

/// `--bind` before each mount.
pub open spec fn bind_flags(mounts: Seq<Seq<char>>) -> Seq<Seq<char>>
    decreases mounts.len(),
{
    if mounts.len() == 0 {
        Seq::empty()
    } else {
        bind_flags(mounts.drop_last()) + seq!["--bind"@, mounts.last()]
    }
}

fn push_str(v: &mut Vec<String>, s: &str)
    ensures
        views(final(v)@) == views(old(v)@).push(s@),
{
    let ghost before = v@;
    v.push(owned(s));
    assert(views(v@) =~= views(before).push(s@));
}

/// The arguments of the container runtime for one run step: the image is
/// run without home and environment, with the script, the builds directory,
/// the cache directory and the configured mounts bound, GPU flags as
/// configured, and the script run with the step's name.
pub fn run_step_arguments(
    config: &GitLabCustomExecutorConfig,
    builds_dir: &str,
    script_path: &str,
    step_name: &str,
    image: &str,
) -> (r: Vec<String>)
    ensures
        views(r@) == run_arguments(*config, builds_dir@, script_path@, step_name@, image@),
{
    let mut r: Vec<String> = Vec::new();
    push_str(&mut r, "exec");
    push_str(&mut r, "--no-home");
    push_str(&mut r, "--writable-tmpfs");
    push_str(&mut r, "--cleanenv");
    let ghost head = views(r@);
    assert(head =~= seq!["exec"@, "--no-home"@, "--writable-tmpfs"@, "--cleanenv"@]);
    let mut mounts: Vec<String> = Vec::new();
    push_str(&mut mounts, script_path);
    push_str(&mut mounts, builds_dir);
    push_str(&mut mounts, config.cache_dir.as_str());
    let mut k: usize = 0;
    while k < config.mount.len()
        invariant
            k <= config.mount@.len(),
            views(mounts@) == seq![script_path@, builds_dir@, config.cache_dir@] + views(config.mount@).take(k as int),
        decreases config.mount@.len() - k,
    {
        let ghost before = views(mounts@);
        push_str(&mut mounts, config.mount[k].as_str());
        assert(views(config.mount@).take(k + 1) =~= views(config.mount@).take(k as int).push(config.mount@[k as int]@));
        assert(views(mounts@) =~= seq![script_path@, builds_dir@, config.cache_dir@] + views(config.mount@).take(k + 1));
        k += 1;
    }
    assert(views(config.mount@).take(config.mount@.len() as int) =~= views(config.mount@));
    let ghost mv = views(mounts@);
    let mut i: usize = 0;
    while i < mounts.len()
        invariant
            i <= mounts@.len(),
            mv == views(mounts@),
            views(r@) == head + bind_flags(mv.take(i as int)),
        decreases mounts@.len() - i,
    {
        push_str(&mut r, "--bind");
        push_str(&mut r, mounts[i].as_str());
        proof {
            assert(mv.take(i + 1).drop_last() =~= mv.take(i as int));
            assert(mv[i as int] == mounts@[i as int]@);
            assert(views(r@) =~= head + bind_flags(mv.take(i + 1)));
        }
        i += 1;
    }
    assert(mv.take(mounts@.len() as int) =~= mv);
    let ghost with_binds = views(r@);
    if config.gpu_amd {
        push_str(&mut r, "--rocm");
    }
    if config.gpu_nvidia {
        push_str(&mut r, "--nv");
    }
    let ghost with_flags = views(r@);
    let filename = build_image_filename(image);
    let image_path = join_path(config.image_dir.as_str(), filename.as_str());
    push_str(&mut r, image_path.as_str());
    push_str(&mut r, "bash");
    push_str(&mut r, "-l");
    push_str(&mut r, script_path);
    push_str(&mut r, step_name);
    proof {
        assert(views(r@) =~= with_flags + seq![image_path@, "bash"@, "-l"@, script_path@, step_name@]);
        assert(with_flags =~= with_binds + (if config.gpu_amd { seq!["--rocm"@] } else { Seq::empty() }) + (if config.gpu_nvidia {
            seq!["--nv"@]
        } else {
            Seq::empty()
        }));
    }
    r
}

} // verus!
