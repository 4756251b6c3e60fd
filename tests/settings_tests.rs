use geoengine::gpu::{parse_device_names, GpuConfig, GpuType};
use geoengine::registry::{remote_image_name, remote_pull_name, remote_repository};
use geoengine::report::run_result;
use geoengine::server::ProxyServer;
use geoengine::settings::{get_pid_file, get_settings_file, Settings, SettingsError};
use geoengine::versioning::{
    compare_versions, compare_worker_version, get_latest_worker_version, validate_version,
};
use std::cmp::Ordering;

fn s(x: &str) -> String {
    x.to_string()
}

#[test]
fn register_and_list_projects_sorted() {
    let mut st = Settings::new();
    st.register_project("zeta", "/p/zeta").ok().unwrap();
    st.register_project("alpha", "/p/alpha").ok().unwrap();
    assert_eq!(st.list_projects(), vec![(s("alpha"), s("/p/alpha")), (s("zeta"), s("/p/zeta"))]);
}

#[test]
fn register_same_path_twice_is_fine() {
    let mut st = Settings::new();
    st.register_project("a", "/p/a").ok().unwrap();
    assert!(st.register_project("a", "/p/a").is_ok());
    assert_eq!(st.list_projects().len(), 1);
}

#[test]
fn register_conflicting_path_is_refused() {
    let mut st = Settings::new();
    st.register_project("a", "/p/a").ok().unwrap();
    match st.register_project("a", "/q/a") {
        Err(e) => {
            assert!(matches!(e, SettingsError::AlreadyRegistered(_, _)));
            assert_eq!(e.message(), "Project 'a' already registered at /p/a. Unregister it first.");
        }
        Ok(()) => panic!("expected a refusal"),
    }
    assert_eq!(st.registered_path("a"), Some(s("/p/a")));
}

#[test]
fn unregister_projects() {
    let mut st = Settings::new();
    st.register_project("a", "/p/a").ok().unwrap();
    st.register_project("b", "/p/b").ok().unwrap();
    assert!(st.unregister_project("a").is_ok());
    assert_eq!(st.list_projects(), vec![(s("b"), s("/p/b"))]);
    match st.unregister_project("a") {
        Err(e) => assert_eq!(e.message(), "Project 'a' is not registered"),
        Ok(()) => panic!("expected an error"),
    }
}

#[test]
fn project_path_lookup() {
    let mut st = Settings::new();
    st.register_project("a", "/p/a").ok().unwrap();
    assert_eq!(st.get_project_path("a", Some(s("/elsewhere"))).ok().unwrap(), "/p/a");
    assert_eq!(st.get_project_path("./b", Some(s("/home/b"))).ok().unwrap(), "/home/b");
    match st.get_project_path("c", None) {
        Err(e) => assert_eq!(
            e.message(),
            "Project 'c' not found. Register it with: geoengine project register <path>"
        ),
        Ok(_) => panic!("expected not found"),
    }
}

#[test]
fn settings_paths() {
    assert_eq!(get_settings_file("/home/u/.geoengine"), "/home/u/.geoengine/settings.yaml");
    assert_eq!(get_pid_file("/home/u/.geoengine"), "/home/u/.geoengine/service.pid");
}

#[test]
fn gpu_availability() {
    let none = GpuConfig::none();
    assert!(!none.is_available());
    assert!(!none.is_nvidia());
    let nv = GpuConfig { gpu_type: GpuType::Nvidia, count: 2, devices: vec![s("a"), s("b")] };
    assert!(nv.is_available());
    assert!(nv.is_nvidia());
    let metal = GpuConfig { gpu_type: GpuType::Metal, count: 1, devices: vec![s("m")] };
    assert!(metal.is_available());
    assert!(!metal.is_nvidia());
    let empty = GpuConfig { gpu_type: GpuType::Nvidia, count: 0, devices: Vec::new() };
    assert!(!empty.is_available());
}

#[test]
fn proxy_server_settings() {
    let p = ProxyServer::new(8765, 4);
    assert_eq!(p.port(), 8765);
    assert_eq!(p.max_workers(), 4);
}

#[test]
fn run_results() {
    let ok = run_result(0, Some(s("/out")), Vec::new());
    assert_eq!(ok.status, "completed");
    assert!(ok.error.is_none());
    let bad = run_result(2, None, Vec::new());
    assert_eq!(bad.status, "failed");
    assert_eq!(bad.error, Some(s("Container exited with code 2")));
}

#[test]
fn latest_worker_version() {
    let tags = vec![
        s("geoengine-local/ndvi:1.0.0"),
        s("geoengine-local/ndvi:1.2.0"),
        s("geoengine-local/other:9.9.9"),
        s("geoengine-local/ndvi:1.10.0"),
    ];
    assert_eq!(get_latest_worker_version("ndvi", &tags), Some(s("1.2.0")));
    assert_eq!(get_latest_worker_version("missing", &tags), None);
    assert_eq!(get_latest_worker_version("ndvi", &Vec::new()), None);
}

#[test]
fn version_validation() {
    assert!(validate_version("1.2.3").is_ok());
    assert!(validate_version("1.2.*").is_ok());
    assert!(validate_version("7").is_ok());
    assert_eq!(
        validate_version("abc"),
        Err(s("Invalid version 'abc'. Version numbers should follow semantic versioning."))
    );
    assert!(validate_version("1.2.3.4").is_err());
    assert!(validate_version("").is_err());
}

#[test]
fn version_comparison() {
    assert_eq!(compare_versions("1.2.3", "1.10.0"), Ok(Ordering::Less));
    assert_eq!(compare_versions("2.0.0", "1.9.9"), Ok(Ordering::Greater));
    assert_eq!(compare_versions("1.0.0", "1.0.0"), Ok(Ordering::Equal));
    assert_eq!(
        compare_versions("1.2", "1.2.0"),
        Err(s("Invalid version '1.2'. Please ensure your version number follows 'MAJOR.MINOR.PATCH'."))
    );
    assert_eq!(
        compare_versions("1.0.0", "1.2"),
        Err(s("Invalid version '1.0.0'. Please ensure your version number follows 'MAJOR.MINOR.PATCH'."))
    );
    assert_eq!(
        compare_versions("1.0.0", "x"),
        Err(s("Invalid version 'x'. Version numbers should follow semantic versioning."))
    );
}

#[test]
fn worker_version_comparison() {
    let tags = vec![s("geoengine-local/ndvi:1.0.0"), s("geoengine-local/ndvi:1.2.0")];
    assert_eq!(compare_worker_version("ndvi", "2.0.0", &tags), Ok(Ordering::Greater));
    assert_eq!(compare_worker_version("ndvi", "1.0.0", &tags), Ok(Ordering::Less));
    assert_eq!(compare_worker_version("ndvi", "1.2.0", &tags), Ok(Ordering::Equal));
    assert_eq!(compare_worker_version("other", "0.0.1", &tags), Ok(Ordering::Greater));
    assert!(compare_worker_version("ndvi", "bad", &tags).is_err());
}

#[test]
fn gpu_query_output_parsing() {
    let out = "NVIDIA A100-SXM4, GPU-1234\nTesla T4 , GPU-9\r\n\n  Quadro\t\n";
    assert_eq!(parse_device_names(out), vec![s("NVIDIA A100-SXM4"), s("Tesla T4"), s("Quadro")]);
    assert!(parse_device_names("").is_empty());
    assert!(parse_device_names("\n\r\n").is_empty());
    assert_eq!(parse_device_names("last line\r"), vec![s("last line")]);
    assert_eq!(parse_device_names(",uuid"), vec![s("")]);
}

#[test]
fn registry_names() {
    assert_eq!(
        remote_image_name("geoengine-demo:latest", "proj", "us-central1", "geoengine", None),
        "us-central1-docker.pkg.dev/proj/geoengine/geoengine-demo:latest"
    );
    assert_eq!(
        remote_image_name("geoengine-demo:latest", "proj", "europe-west1", "repo", Some("v2")),
        "europe-west1-docker.pkg.dev/proj/repo/geoengine-demo:v2"
    );
    assert_eq!(
        remote_image_name("plain", "p", "r", "x", None),
        "r-docker.pkg.dev/p/x/plain:plain"
    );
    assert_eq!(remote_repository("p", "us-west1", "geo"), "us-west1-docker.pkg.dev/p/geo");
    assert_eq!(
        remote_pull_name("img:1", "p", "us-east1", "geoengine"),
        "us-east1-docker.pkg.dev/p/geoengine/img:1"
    );
}
