use gitlab_meta_runner::config::{GitLabCustomExecutorConfig, GitLabExecutorPullPolicy};
use gitlab_meta_runner::executor::{
    build_image_filename, build_image_pull_url, driver_name, job_builds_dir, pull_needed,
    run_step_arguments, PullError,
};

fn executor_config(description: Option<&str>, amd: bool, nvidia: bool) -> GitLabCustomExecutorConfig {
    GitLabCustomExecutorConfig {
        image_dir: "/images".into(),
        image_cache_dir: None,
        image_tmp_dir: None,
        pull_policy: GitLabExecutorPullPolicy::IfNotPresent,
        apptainer_executable: "apptainer".into(),
        gpu_amd: amd,
        gpu_nvidia: nvidia,
        mount: vec!["/data".into()],
        builds_dir: "/builds".into(),
        cache_dir: "/cache".into(),
        description: description.map(|d| d.to_string()),
    }
}

#[test]
fn image_filenames() {
    assert_eq!(build_image_filename("ubuntu:22.04"), "22.04_latest.sif");
    assert_eq!(build_image_filename("ubuntu"), "ubuntu_latest.sif");
    assert_eq!(build_image_filename("docker://alpine:3.19"), "alpine_3.19.sif");
    assert_eq!(build_image_filename("docker://library/alpine"), "alpine_latest.sif");
    assert_eq!(build_image_filename("https://example.com/images/tool.sif"), "tool.sif");
    assert_eq!(build_image_filename("oras://reg/img:v1,extra"), "img_v1.sif");
}

#[test]
fn image_pull_urls() {
    assert_eq!(build_image_pull_url("ubuntu"), "docker://ubuntu");
    assert_eq!(build_image_pull_url("ubuntu:22.04"), "docker://ubuntu:22.04");
    assert_eq!(build_image_pull_url("docker://alpine"), "docker://alpine");
    assert_eq!(build_image_pull_url("oras://reg/img"), "oras://reg/img");
    assert_eq!(build_image_pull_url("myreg:5000/img"), "docker://myreg:5000/img");
}

#[test]
fn pull_decisions() {
    assert_eq!(pull_needed(GitLabExecutorPullPolicy::Always, true), Ok(true));
    assert_eq!(pull_needed(GitLabExecutorPullPolicy::IfNotPresent, true), Ok(false));
    assert_eq!(pull_needed(GitLabExecutorPullPolicy::IfNotPresent, false), Ok(true));
    assert_eq!(pull_needed(GitLabExecutorPullPolicy::Never, true), Ok(false));
    assert_eq!(pull_needed(GitLabExecutorPullPolicy::Never, false), Err(PullError::ImageMissing));
}

#[test]
fn driver_names() {
    assert_eq!(driver_name(&executor_config(None, false, false)), "gitlab-meta-runner custom executor");
    assert_eq!(driver_name(&executor_config(Some("job 5"), false, false)), "gitlab-meta-runner custom executor (job 5)");
}

#[test]
fn job_directory() {
    assert_eq!(job_builds_dir(&executor_config(None, false, false), "42"), "/builds/42");
}

#[test]
fn run_arguments() {
    let args = run_step_arguments(&executor_config(None, true, false), "/builds/42", "/tmp/script", "build", "docker://ubuntu:22.04");
    assert_eq!(
        args,
        vec![
            "exec", "--no-home", "--writable-tmpfs", "--cleanenv", "--bind", "/tmp/script", "--bind", "/builds/42",
            "--bind", "/cache", "--bind", "/data", "--rocm", "/images/ubuntu_22.04.sif", "bash", "-l", "/tmp/script",
            "build",
        ]
    );
}
