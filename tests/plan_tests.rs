use geoengine::gpu::{GpuConfig, GpuType};
use geoengine::plan::{
    build_plan, build_request, build_tool_plan, declared_mount_host, parse_inputs, tool_arguments,
    Mount, PathProbe, PlanError, RunOptions,
};
use geoengine::project::{
    BuildConfig, MountConfig, ParameterDefinition, ProjectConfig, RuntimeConfig, ToolDefinition,
};

fn s(x: &str) -> String {
    x.to_string()
}

fn param(name: &str, map_to: Option<&str>) -> ParameterDefinition {
    ParameterDefinition {
        name: s(name),
        label: None,
        map_to: map_to.map(s),
        param_type: s("string"),
        required: None,
        description: None,
        choices: None,
    }
}

fn classify_tool() -> ToolDefinition {
    ToolDefinition {
        name: s("classify"),
        label: Some(s("Classify raster")),
        description: None,
        script: s("classify"),
        inputs: Some(vec![param("raster", None), param("threshold", Some("min-score"))]),
        outputs: None,
    }
}

fn demo_config() -> ProjectConfig {
    ProjectConfig {
        name: s("demo"),
        version: Some(s("1.0.0")),
        base_image: None,
        scripts: vec![(s("classify"), s("python classify.py")), (s("train"), s("python train.py"))],
        runtime: Some(RuntimeConfig {
            gpu: false,
            memory: Some(s("4g")),
            cpus: Some(s("2")),
            shm_size: None,
            workdir: Some(s("/app")),
            mounts: vec![
                MountConfig { host: s("./data"), container: s("/data"), readonly: Some(true) },
                MountConfig { host: s("/srv/cache"), container: s("/cache"), readonly: None },
            ],
            environment: vec![(s("MODE"), s("fast")), (s("LEVEL"), s("1"))],
        }),
        build: None,
        tools: vec![classify_tool()],
    }
}

fn demo_hosts() -> Vec<Option<String>> {
    vec![Some(s("/home/u/demo/data")), Some(s("/srv/cache"))]
}

fn strings(v: &[&str]) -> Vec<String> {
    v.iter().map(|x| x.to_string()).collect()
}

fn mount_triples(m: &[Mount]) -> Vec<(String, String, bool)> {
    m.iter().map(|m| (m.host.clone(), m.container.clone(), m.read_only)).collect()
}

#[test]
fn parse_inputs_sorts_by_key() {
    let r = parse_inputs(&strings(&["zeta=1", "alpha=2", "mid=x=y"])).ok().unwrap();
    assert_eq!(r, vec![(s("alpha"), s("2")), (s("mid"), s("x=y")), (s("zeta"), s("1"))]);
}

#[test]
fn parse_inputs_last_binding_wins() {
    let r = parse_inputs(&strings(&["k=first", "other=o", "k=second"])).ok().unwrap();
    assert_eq!(r, vec![(s("k"), s("second")), (s("other"), s("o"))]);
}

#[test]
fn parse_inputs_ignores_order() {
    let a = parse_inputs(&strings(&["b=2", "a=1", "c=3"])).ok().unwrap();
    let b = parse_inputs(&strings(&["c=3", "b=2", "a=1", "a=1"])).ok().unwrap();
    assert_eq!(a, b);
    let tool = classify_tool();
    let probes = vec![PathProbe::Plain, PathProbe::Plain, PathProbe::Plain];
    assert_eq!(tool_arguments(&tool, &a, &probes).0, tool_arguments(&tool, &b, &probes).0);
}

#[test]
fn parse_inputs_empty_list() {
    let r = parse_inputs(&Vec::new()).ok().unwrap();
    assert!(r.is_empty());
}

#[test]
fn parse_inputs_reports_first_malformed() {
    match parse_inputs(&strings(&["a=1", "bad", "worse"])) {
        Err(PlanError::InvalidInput(t)) => assert_eq!(t, "bad"),
        _ => panic!("expected an invalid input"),
    }
}

#[test]
fn parse_inputs_empty_key_and_value() {
    let r = parse_inputs(&strings(&["=v", "k="])).ok().unwrap();
    assert_eq!(r, vec![(s(""), s("v")), (s("k"), s(""))]);
}

#[test]
fn tool_arguments_maps_flags_and_mounts() {
    let tool = classify_tool();
    let inputs = vec![
        (s("dem"), s("/data/dir")),
        (s("extra"), s("plain value")),
        (s("raster"), s("/tmp/in.tif")),
        (s("second"), s("/data/other")),
        (s("threshold"), s("0.5")),
    ];
    let probes = vec![
        PathProbe::Directory { host: s("/data/dir") },
        PathProbe::Plain,
        PathProbe::File { host: s("/tmp/in.tif"), file_name: s("in.tif") },
        PathProbe::Directory { host: s("/data/other") },
        PathProbe::Plain,
    ];
    let (args, mounts) = tool_arguments(&tool, &inputs, &probes);
    assert_eq!(
        args,
        strings(&[
            "--dem", "/mnt/input_0", "--extra", "plain value", "--raster", "/inputs/in.tif",
            "--second", "/mnt/input_1", "--min-score", "0.5",
        ])
    );
    assert_eq!(
        mount_triples(&mounts),
        vec![
            (s("/data/dir"), s("/mnt/input_0"), true),
            (s("/tmp/in.tif"), s("/inputs/in.tif"), true),
            (s("/data/other"), s("/mnt/input_1"), true),
        ]
    );
}

#[test]
fn file_input_is_rewritten_and_mounted_read_only() {
    let config = demo_config();
    let inputs = parse_inputs(&strings(&["raster=/tmp/in.tif"])).ok().unwrap();
    let probes = vec![PathProbe::File { host: s("/tmp/in.tif"), file_name: s("in.tif") }];
    let plan = build_tool_plan(&config, "/p", &demo_hosts(), "classify", &inputs, &probes, None, false, None)
        .ok()
        .unwrap();
    assert!(plan.command[2].contains("--raster /inputs/in.tif"));
    assert!(!plan.command[2].contains("/tmp/in.tif"));
    assert!(mount_triples(&plan.mounts).contains(&(s("/tmp/in.tif"), s("/inputs/in.tif"), true)));
}

#[test]
fn scenario_classify_plan() {
    let config = demo_config();
    let inputs = parse_inputs(&strings(&["raster=/tmp/in.tif"])).ok().unwrap();
    let probes = vec![PathProbe::File { host: s("/tmp/in.tif"), file_name: s("in.tif") }];
    let plan = build_tool_plan(&config, "/home/u/demo", &demo_hosts(), "classify",
        &inputs,
        &probes,
        Some(s("/tmp/out")),
        true,
        None,
    )
    .ok()
    .unwrap();
    assert_eq!(plan.image, "geoengine-demo:latest");
    assert_eq!(
        plan.command,
        strings(&["/bin/sh", "-c", "python classify.py --raster /inputs/in.tif"])
    );
    assert_eq!(
        mount_triples(&plan.mounts),
        vec![
            (s("/home/u/demo/data"), s("/data"), true),
            (s("/srv/cache"), s("/cache"), false),
            (s("/tmp/out"), s("/output"), false),
            (s("/tmp/in.tif"), s("/inputs/in.tif"), true),
        ]
    );
    assert_eq!(
        plan.env_vars,
        vec![
            (s("GEOENGINE_OUTPUT_DIR"), s("/output")),
            (s("LEVEL"), s("1")),
            (s("MODE"), s("fast")),
        ]
    );
    assert!(!plan.tty);
    assert!(!plan.detach);
    assert!(plan.remove_on_exit);
    assert_eq!(plan.memory, Some(s("4g")));
    assert_eq!(plan.cpus, Some(s("2")));
    assert_eq!(plan.workdir, Some(s("/app")));
    assert!(plan.gpu_config.is_none());
}

#[test]
fn build_plan_escapes_arguments() {
    let config = demo_config();
    let options = RunOptions { extra_mounts: Vec::new(), extra_env: Vec::new(), json_output: false };
    let plan = build_plan(&config, "/p", &demo_hosts(), "train", &strings(&["a b", "it's", "plain"]), options, None)
        .ok()
        .unwrap();
    assert_eq!(plan.command[2], "python train.py 'a b' 'it'\\''s' plain");
    assert!(plan.tty);
}

#[test]
fn build_plan_without_arguments_keeps_template() {
    let config = demo_config();
    let options = RunOptions { extra_mounts: Vec::new(), extra_env: Vec::new(), json_output: false };
    let plan = build_plan(&config, "/p", &demo_hosts(), "train", &Vec::new(), options, None).ok().unwrap();
    assert_eq!(plan.command[2], "python train.py");
}

#[test]
fn build_plan_request_env_overrides_project_env() {
    let config = demo_config();
    let options = RunOptions {
        extra_mounts: vec![Mount { host: s("/x"), container: s("/y"), read_only: true }],
        extra_env: vec![(s("MODE"), s("slow")), (s("NEW"), s("n"))],
        json_output: false,
    };
    let plan = build_plan(&config, "/p", &demo_hosts(), "train", &Vec::new(), options, None).ok().unwrap();
    assert_eq!(
        plan.env_vars,
        vec![(s("LEVEL"), s("1")), (s("MODE"), s("slow")), (s("NEW"), s("n"))]
    );
    assert_eq!(mount_triples(&plan.mounts).last().unwrap(), &(s("/x"), s("/y"), true));
}

#[test]
fn build_plan_unknown_script() {
    let config = demo_config();
    let options = RunOptions { extra_mounts: Vec::new(), extra_env: Vec::new(), json_output: false };
    match build_plan(&config, "/p", &demo_hosts(), "missing", &Vec::new(), options, None) {
        Err(PlanError::ScriptNotFound(n)) => assert_eq!(n, "missing"),
        _ => panic!("expected a missing script"),
    }
}

#[test]
fn build_tool_plan_unknown_tool() {
    let config = demo_config();
    match build_tool_plan(&config, "/p", &demo_hosts(), "nope", &Vec::new(), &Vec::new(), None, false, None) {
        Err(PlanError::ToolNotFound(n)) => assert_eq!(n, "nope"),
        _ => panic!("expected a missing tool"),
    }
}

#[test]
fn gpu_used_only_when_project_asks() {
    let gpu = || GpuConfig { gpu_type: GpuType::Nvidia, count: 1, devices: vec![s("A100")] };
    let mut config = demo_config();
    let options = || RunOptions { extra_mounts: Vec::new(), extra_env: Vec::new(), json_output: false };
    let plan = build_plan(&config, "/p", &demo_hosts(), "train", &Vec::new(), options(), Some(gpu())).ok().unwrap();
    assert!(plan.gpu_config.is_none());
    config.runtime.as_mut().unwrap().gpu = true;
    let plan = build_plan(&config, "/p", &demo_hosts(), "train", &Vec::new(), options(), Some(gpu())).ok().unwrap();
    assert!(plan.gpu_config.unwrap().is_nvidia());
}

#[test]
fn build_request_merges_arguments() {
    let mut config = demo_config();
    config.build = Some(BuildConfig {
        dockerfile: Some(s("docker/Dockerfile.gpu")),
        context: None,
        args: vec![(s("VERSION"), s("1")), (s("BASE"), s("ubuntu"))],
    });
    let r = build_request(&config, "/home/u/demo", &strings(&["VERSION=2", "broken", "EXTRA=a=b"]));
    assert_eq!(r.dockerfile, "/home/u/demo/docker/Dockerfile.gpu");
    assert_eq!(r.context, "/home/u/demo/.");
    assert_eq!(r.image_tag, "geoengine-demo:latest");
    assert_eq!(
        r.args,
        vec![(s("BASE"), s("ubuntu")), (s("EXTRA"), s("a=b")), (s("VERSION"), s("2"))]
    );
}

#[test]
fn build_request_defaults() {
    let config = demo_config();
    let r = build_request(&config, "/p/", &Vec::new());
    assert_eq!(r.dockerfile, "/p/Dockerfile");
    assert!(r.args.is_empty());
}

#[test]
fn request_mounts_override_project_mounts() {
    let config = demo_config();
    let options = RunOptions {
        extra_mounts: vec![Mount { host: s("/mine"), container: s("/data"), read_only: false }],
        extra_env: Vec::new(),
        json_output: false,
    };
    let plan = build_plan(&config, "/p", &demo_hosts(), "train", &Vec::new(), options, None)
        .ok()
        .unwrap();
    assert_eq!(
        mount_triples(&plan.mounts),
        vec![(s("/srv/cache"), s("/cache"), false), (s("/mine"), s("/data"), false)]
    );
}

#[test]
fn output_dir_overrides_project_mount_at_same_path() {
    let mut config = demo_config();
    config.runtime.as_mut().unwrap().mounts[1].container = s("/output");
    let plan = build_tool_plan(&config, "/p", &demo_hosts(), "classify", &Vec::new(), &Vec::new(), Some(s("/tmp/out")), false, None)
        .ok()
        .unwrap();
    assert_eq!(
        mount_triples(&plan.mounts),
        vec![(s("/home/u/demo/data"), s("/data"), true), (s("/tmp/out"), s("/output"), false)]
    );
}

#[test]
fn missing_mount_host_is_an_error() {
    let config = demo_config();
    let options = RunOptions { extra_mounts: Vec::new(), extra_env: Vec::new(), json_output: false };
    let hosts = vec![None, Some(s("/srv/cache"))];
    match build_plan(&config, "/home/u/demo", &hosts, "train", &Vec::new(), options, None) {
        Err(PlanError::MountUnavailable(p)) => assert_eq!(p, "/home/u/demo/data"),
        _ => panic!("expected an unavailable mount"),
    }
    let options = RunOptions { extra_mounts: Vec::new(), extra_env: Vec::new(), json_output: false };
    assert!(matches!(
        build_plan(&config, "/p", &vec![None, None], "missing", &Vec::new(), options, None),
        Err(PlanError::ScriptNotFound(_))
    ));
}

#[test]
fn mount_hosts_come_from_the_probe() {
    assert_eq!(declared_mount_host("/home/u/demo", "./data"), "/home/u/demo/data");
    assert_eq!(declared_mount_host("/home/u/demo", "data"), "data");
    assert_eq!(declared_mount_host("/home/u/demo", "/abs"), "/abs");
    let config = demo_config();
    let options = RunOptions { extra_mounts: Vec::new(), extra_env: Vec::new(), json_output: false };
    let hosts = vec![Some(s("/real/data")), Some(s("/real/cache"))];
    let plan = build_plan(&config, "/p", &hosts, "train", &Vec::new(), options, None).ok().unwrap();
    assert_eq!(
        mount_triples(&plan.mounts),
        vec![(s("/real/data"), s("/data"), true), (s("/real/cache"), s("/cache"), false)]
    );
}

#[test]
fn tool_plan_ignores_input_order() {
    let config = demo_config();
    let build = |raw: &[&str]| {
        let inputs = parse_inputs(&strings(raw)).ok().unwrap();
        let probes: Vec<PathProbe> = inputs.iter().map(|_| PathProbe::Plain).collect();
        build_tool_plan(&config, "/p", &demo_hosts(), "classify", &inputs, &probes, None, false, None)
            .ok()
            .unwrap()
    };
    let a = build(&["threshold=0.5", "raster=a b", "mode=x"]);
    let b = build(&["mode=x", "raster=a b", "threshold=0.5", "mode=x"]);
    assert_eq!(a.command, b.command);
    assert_eq!(a.command[2], "python classify.py --mode x --raster 'a b' --min-score 0.5");
    assert_eq!(a.env_vars, b.env_vars);
    assert_eq!(mount_triples(&a.mounts), mount_triples(&b.mounts));
}

#[test]
fn empty_input_value_stays_one_word() {
    let config = demo_config();
    let inputs = parse_inputs(&strings(&["raster=", "threshold=1"])).ok().unwrap();
    let probes = vec![PathProbe::Plain, PathProbe::Plain];
    let plan = build_tool_plan(&config, "/p", &demo_hosts(), "classify", &inputs, &probes, None, false, None)
        .ok()
        .unwrap();
    assert_eq!(plan.command[2], "python classify.py --raster '' --min-score 1");
}
