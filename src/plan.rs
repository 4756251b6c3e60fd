//! The execution plan builder: from a script or tool, raw `KEY=VALUE`
//! inputs and a project's configuration to the container invocation.
//!
//! What only the file system can tell (whether an input names a file or a
//! directory, and its canonical path; the canonical output directory) is
//! found by the caller and handed in as plain values.

use vstd::prelude::*;

use crate::gpu::GpuConfig;
use crate::pairs::{
    bind_all, consistent, keys_sorted, lemma_lookup_concat, lemma_sorted_form_entries,
    lemma_sorted_form_unique, lemma_sorted_same_entries, lookup, pairs_view, sorted_form, upsert,
    Binding,
};
use crate::project::{
    copy_opt, first_tool, flag_of, script_of, BuildConfig, MountConfig, ProjectConfig,
    ToolDefinition,
};
use crate::text::{
    decimal, decimal_string, has_prefix, join_path, joined_path, same_text, shell_escape,
    shell_escaped, split_key_value, split_once_eq,
};

verus! {

/// A binding of a host path into the container.
pub struct Mount {
    pub host: String,
    pub container: String,
    pub read_only: bool,
}

/// A mount as host path, container path and read-only flag.
pub type MountView = (Seq<char>, Seq<char>, bool);

pub open spec fn mount_view(m: Mount) -> MountView {
    (m.host@, m.container@, m.read_only)
}

pub open spec fn mounts_view(v: Seq<Mount>) -> Seq<MountView> {
    v.map_values(|m: Mount| mount_view(m))
}

pub open spec fn strings_view(v: Seq<String>) -> Seq<Seq<char>> {
    v.map_values(|s: String| s@)
}

/// What the file system says of an input value.
pub enum PathProbe {
    /// Not an existing file or directory: the value passes through unchanged.
    Plain,
    /// An existing regular file, with its canonical path and base name.
    File { host: String, file_name: String },
    /// An existing directory, with its canonical path.
    Directory { host: String },
}

/// Why a plan could not be built.
pub enum PlanError {
    /// A raw input that is not of the form `KEY=VALUE`.
    InvalidInput(String),
    /// The project declares no tool of this name.
    ToolNotFound(String),
    /// The project declares no script of this name.
    ScriptNotFound(String),
    /// A mount the project declares has a host path that does not exist or
    /// cannot be resolved; the path is named.
    MountUnavailable(String),
}

/// `i` is the first raw input that holds no `=`.
pub open spec fn first_malformed(raw: Seq<Seq<char>>, i: int) -> bool {
    0 <= i < raw.len() && split_key_value(raw[i]).is_none() && forall|j: int|
        0 <= j < i ==> split_key_value(#[trigger] raw[j]).is_some()
}

/// Every raw input is of the form `KEY=VALUE`.
pub open spec fn well_formed_inputs(raw: Seq<Seq<char>>) -> bool {
    forall|i: int| 0 <= i < raw.len() ==> split_key_value(#[trigger] raw[i]).is_some()
}

/// The raw inputs split into key and value.
pub open spec fn split_inputs(raw: Seq<Seq<char>>) -> Seq<Binding> {
    raw.map_values(|s: Seq<char>| split_key_value(s).unwrap())
}

/// Parses `KEY=VALUE` inputs into bindings sorted by key; of two inputs with
/// one key the later wins. The first malformed input is reported.
pub fn parse_inputs(raw: &Vec<String>) -> (r: Result<Vec<(String, String)>, PlanError>)
    ensures
        r.is_ok() == well_formed_inputs(strings_view(raw@)),
        r.is_ok() ==> sorted_form(pairs_view(r->Ok_0@), split_inputs(strings_view(raw@))),
        r.is_err() ==> (r->Err_0 is InvalidInput && exists|i: int|
            first_malformed(strings_view(raw@), i) && (r->Err_0)->InvalidInput_0@ == raw@[i]@),
{
    let ghost rv = strings_view(raw@);
    let mut out: Vec<(String, String)> = Vec::new();
    let n = raw.len();
    let mut i: usize = 0;
    while i < n
        invariant
            n == raw@.len(),
            rv == strings_view(raw@),
            i <= n,
            forall|j: int| 0 <= j < i ==> split_key_value(#[trigger] rv[j]).is_some(),
            keys_sorted(pairs_view(out@)),
            forall|k: Seq<char>|
                #[trigger] lookup(pairs_view(out@), k) == lookup(
                    split_inputs(rv.subrange(0, i as int)),
                    k,
                ),
        decreases n - i,
    {
        match split_once_eq(raw[i].as_str()) {
            None => {
                assert(first_malformed(rv, i as int));
                return Err(PlanError::InvalidInput(raw[i].clone()));
            },
            Some(kv) => {
                let ghost b: Binding = (kv.0@, kv.1@);
                upsert(&mut out, kv.0, kv.1);
                assert forall|k: Seq<char>|
                    #[trigger] lookup(pairs_view(out@), k) == lookup(
                        split_inputs(rv.subrange(0, i + 1)),
                        k,
                    ) by {
                    let longer = split_inputs(rv.subrange(0, i + 1));
                    assert(longer.drop_last() =~= split_inputs(rv.subrange(0, i as int)));
                    assert(longer.last() == b);
                }
            },
        }
        i = i + 1;
    }
    assert(rv.subrange(0, n as int) =~= rv);
    Ok(out)
}

/// How many of the first `i` probes found a directory.
pub open spec fn dirs_before(q: Seq<PathProbe>, i: int) -> nat
    decreases i,
{
    if i <= 0 {
        0
    } else {
        dirs_before(q, i - 1) + if q[i - 1] is Directory {
            1nat
        } else {
            0nat
        }
    }
}

/// The container path of the `d`-th directory input.
pub open spec fn dir_mount_point(d: nat) -> Seq<char> {
    "/mnt/input_"@ + decimal(d)
}

/// The container path of a file input with base name `name`.
pub open spec fn file_mount_point(name: Seq<char>) -> Seq<char> {
    "/inputs/"@ + name
}

/// The value passed to the script for an input whose probe is `p`, where
/// `d` directory inputs came before it.
pub open spec fn probed_value(p: PathProbe, v: Seq<char>, d: nat) -> Seq<char> {
    match p {
        PathProbe::Plain => v,
        PathProbe::File { host, file_name } => file_mount_point(file_name@),
        PathProbe::Directory { host } => dir_mount_point(d),
    }
}

/// The read-only mount an input with probe `p` needs.
pub open spec fn input_mount(p: PathProbe, d: nat) -> Seq<MountView> {
    match p {
        PathProbe::Plain => Seq::empty(),
        PathProbe::File { host, file_name } => seq![(host@, file_mount_point(file_name@), true)],
        PathProbe::Directory { host } => seq![(host@, dir_mount_point(d), true)],
    }
}

/// The mounts of the first `i` inputs, in order.
pub open spec fn input_mounts(q: Seq<PathProbe>, i: int) -> Seq<MountView>
    decreases i,
{
    if i <= 0 {
        Seq::empty()
    } else {
        input_mounts(q, i - 1) + input_mount(q[i - 1], dirs_before(q, i - 1))
    }
}

/// The script arguments for sorted inputs `p` with probes `q`: for each
/// input in order, its flag and then its value.
pub open spec fn tool_args(tool: ToolDefinition, p: Seq<Binding>, q: Seq<PathProbe>) -> Seq<Seq<char>> {
    Seq::new(
        2 * p.len(),
        |j: int|
            if j % 2 == 0 {
                "--"@ + flag_of(tool, p[j / 2].0)
            } else {
                probed_value(q[j / 2], p[j / 2].1, dirs_before(q, j / 2))
            },
    )
}

/// Turns sorted inputs into script arguments, and the inputs that name files
/// or directories into read-only mounts at fixed container paths.
pub fn tool_arguments(
    tool: &ToolDefinition,
    inputs: &Vec<(String, String)>,
    probes: &Vec<PathProbe>,
) -> (r: (Vec<String>, Vec<Mount>))
    requires
        inputs@.len() == probes@.len(),
    ensures
        strings_view(r.0@) == tool_args(*tool, pairs_view(inputs@), probes@),
        mounts_view(r.1@) == input_mounts(probes@, probes@.len() as int),
{
    let ghost p = pairs_view(inputs@);
    let ghost want = tool_args(*tool, p, probes@);
    let mut args: Vec<String> = Vec::new();
    let mut mounts: Vec<Mount> = Vec::new();
    let mut dirs: usize = 0;
    let n = inputs.len();
    let mut i: usize = 0;
    while i < n
        invariant
            n == inputs@.len(),
            n == probes@.len(),
            p == pairs_view(inputs@),
            want == tool_args(*tool, p, probes@),
            i <= n,
            dirs as nat == dirs_before(probes@, i as int),
            dirs <= i,
            strings_view(args@) == want.subrange(0, 2 * i),
            mounts_view(mounts@) == input_mounts(probes@, i as int),
        decreases n - i,
    {
        let key = inputs[i].0.as_str();
        let mut flag = String::from_str("--");
        let name = tool.flag_for(key);
        flag.append(name.as_str());
        let ghost mounts_before = mounts_view(mounts@);
        let ghost args_before = strings_view(args@);
        let ghost d = dirs as nat;
        assert(p[i as int] == (inputs@[i as int].0@, inputs@[i as int].1@));
        let value = match &probes[i] {
            PathProbe::Plain => {
                assert(mounts_view(mounts@) =~= mounts_before + Seq::empty());
                inputs[i].1.clone()
            },
            PathProbe::File { host, file_name } => {
                let mut point = String::from_str("/inputs/");
                point.append(file_name.as_str());
                mounts.push(Mount { host: host.clone(), container: point.clone(), read_only: true });
                assert(mounts_view(mounts@) =~= mounts_before + seq![(host@, file_mount_point(file_name@), true)]);
                point
            },
            PathProbe::Directory { host } => {
                let mut point = String::from_str("/mnt/input_");
                let digits = decimal_string(dirs as u64);
                point.append(digits.as_str());
                mounts.push(Mount { host: host.clone(), container: point.clone(), read_only: true });
                assert(mounts_view(mounts@) =~= mounts_before + seq![(host@, dir_mount_point(dirs as nat), true)]);
                dirs = dirs + 1;
                point
            },
        };
        assert(value@ == probed_value(probes@[i as int], p[i as int].1, d));
        assert(flag@ == "--"@ + flag_of(*tool, p[i as int].0));
        args.push(flag);
        args.push(value);
        assert(mounts_view(mounts@) =~= mounts_before + input_mount(probes@[i as int], dirs_before(probes@, i as int)));
        assert(strings_view(args@) =~= args_before.push(flag@).push(value@));
        assert(strings_view(args@) =~= want.subrange(0, 2 * i + 2)) by {
            let j = 2 * i;
            assert(j % 2 == 0 && j / 2 == i) by (nonlinear_arith) requires j == 2 * i;
            assert((j + 1) % 2 == 1 && (j + 1) / 2 == i) by (nonlinear_arith) requires j == 2 * i;
            assert(want[2 * i] == "--"@ + flag_of(*tool, p[i as int].0));
            assert(want[2 * i + 1] == probed_value(probes@[i as int], p[i as int].1, dirs_before(probes@, i as int)));
        }
        i = i + 1;
    }
    assert(want.subrange(0, 2 * n) =~= want);
    (args, mounts)
}


/// Options of a run beyond what the project declares.
pub struct RunOptions {
    /// Mounts added after the project's own.
    pub extra_mounts: Vec<Mount>,
    /// Environment bindings that override the project's.
    pub extra_env: Vec<(String, String)>,
    /// Structured output mode: the container gets no TTY.
    pub json_output: bool,
}

/// A fully resolved container invocation.
pub struct ExecutionPlan {
    pub image: String,
    pub command: Vec<String>,
    /// Environment, sorted by name, one binding per name.
    pub env_vars: Vec<(String, String)>,
    pub mounts: Vec<Mount>,
    pub gpu_config: Option<GpuConfig>,
    pub memory: Option<String>,
    pub cpus: Option<String>,
    pub shm_size: Option<String>,
    pub workdir: Option<String>,
    pub name: Option<String>,
    pub remove_on_exit: bool,
    pub detach: bool,
    pub tty: bool,
}

/// Words separated by single spaces.
pub open spec fn joined_words(ws: Seq<Seq<char>>) -> Seq<char>
    decreases ws.len(),
{
    if ws.len() == 0 {
        Seq::empty()
    } else if ws.len() == 1 {
        ws[0]
    } else {
        joined_words(ws.drop_last()) + seq![' '] + ws.last()
    }
}

/// The script template followed by each argument as one escaped shell word.
pub open spec fn command_line(template: Seq<char>, args: Seq<Seq<char>>) -> Seq<char> {
    if args.len() == 0 {
        template
    } else {
        template + seq![' '] + joined_words(args.map_values(|a: Seq<char>| shell_escaped(a)))
    }
}

/// A declared mount's host path: one starting with `./` is taken relative
/// to the project directory `dir`.
pub open spec fn mount_host(dir: Seq<char>, host: Seq<char>) -> Seq<char> {
    if has_prefix(host, seq!['.', '/']) {
        joined_path(dir, host.subrange(2, host.len() as int))
    } else {
        host
    }
}

/// The mounts a project declares.
pub open spec fn declared_mounts(config: ProjectConfig) -> Seq<MountConfig> {
    match config.runtime {
        Some(rt) => rt.mounts@,
        None => Seq::empty(),
    }
}

/// `i` is the first declared mount whose host path the file system could
/// not resolve.
pub open spec fn first_unavailable(hosts: Seq<Option<String>>, i: int) -> bool {
    0 <= i < hosts.len() && hosts[i].is_none() && forall|j: int|
        0 <= j < i ==> (#[trigger] hosts[j]).is_some()
}

/// Every declared mount's host path was resolved.
pub open spec fn all_available(hosts: Seq<Option<String>>) -> bool {
    forall|i: int| 0 <= i < hosts.len() ==> (#[trigger] hosts[i]).is_some()
}

/// Some mount of `extra` has the container path `c`.
pub open spec fn shadowed(c: Seq<char>, extra: Seq<MountView>) -> bool {
    exists|j: int| 0 <= j < extra.len() && (#[trigger] extra[j]).1 == c
}

/// The first `i` declared mounts `ms`, bound at the resolved host paths
/// `hosts`, less those whose container path a mount of `extra` takes.
pub open spec fn project_mounts(
    ms: Seq<MountConfig>,
    hosts: Seq<Option<String>>,
    extra: Seq<MountView>,
    i: int,
) -> Seq<MountView>
    decreases i,
{
    if i <= 0 {
        Seq::empty()
    } else {
        project_mounts(ms, hosts, extra, i - 1) + if shadowed(ms[i - 1].container@, extra) {
            Seq::<MountView>::empty()
        } else {
            seq![
                (
                    hosts[i - 1].unwrap()@,
                    ms[i - 1].container@,
                    match ms[i - 1].readonly {
                        Some(b) => b,
                        None => false,
                    },
                ),
            ]
        }
    }
}

/// The environment a project declares.
pub open spec fn config_env(config: ProjectConfig) -> Seq<Binding> {
    match config.runtime {
        Some(rt) => pairs_view(rt.environment@),
        None => Seq::empty(),
    }
}

/// The image a project's runs use.
pub open spec fn image_tag(name: Seq<char>) -> Seq<char> {
    "geoengine-"@ + name + ":latest"@
}

/// `plan` runs `template` with `args` for the project `config`, whose
/// declared mounts resolved to `hosts`. Request mounts and environment take
/// precedence over the project's on an equal container path or name.
pub open spec fn plan_spec(
    config: ProjectConfig,
    hosts: Seq<Option<String>>,
    template: Seq<char>,
    args: Seq<Seq<char>>,
    extra_mounts: Seq<MountView>,
    extra_env: Seq<Binding>,
    json_output: bool,
    gpu: Option<GpuConfig>,
    plan: ExecutionPlan,
) -> bool {
    &&& plan.image@ == image_tag(config.name@)
    &&& strings_view(plan.command@) == seq!["/bin/sh"@, "-c"@, command_line(template, args)]
    &&& sorted_form(pairs_view(plan.env_vars@), config_env(config) + extra_env)
    &&& mounts_view(plan.mounts@) == project_mounts(
        declared_mounts(config),
        hosts,
        extra_mounts,
        declared_mounts(config).len() as int,
    ) + extra_mounts
    &&& plan.gpu_config == match config.runtime {
        Some(rt) => if rt.gpu {
            gpu
        } else {
            None
        },
        None => None,
    }
    &&& plan.memory == match config.runtime {
        Some(rt) => rt.memory,
        None => None,
    }
    &&& plan.cpus == match config.runtime {
        Some(rt) => rt.cpus,
        None => None,
    }
    &&& plan.shm_size == match config.runtime {
        Some(rt) => rt.shm_size,
        None => None,
    }
    &&& plan.workdir == match config.runtime {
        Some(rt) => rt.workdir,
        None => None,
    }
    &&& plan.name.is_none()
    &&& plan.remove_on_exit
    &&& !plan.detach
    &&& plan.tty == !json_output
}

/// The host path of a declared mount, before the file system resolves it.
pub fn declared_mount_host(dir: &str, host: &str) -> (r: String)
    ensures
        r@ == mount_host(dir@, host@),
{
    let n = host.unicode_len();
    if n >= 2 && host.get_char(0) == '.' && host.get_char(1) == '/' {
        assert(host@.subrange(0, 2) =~= seq!['.', '/']);
        join_path(dir, host.substring_char(2, n))
    } else {
        assert(!has_prefix(host@, seq!['.', '/']) || (n >= 2 && host@[0] == '.' && host@[1] == '/')) by {
            if has_prefix(host@, seq!['.', '/']) {
                assert(host@.subrange(0, 2)[0] == '.' && host@.subrange(0, 2)[1] == '/');
            }
        }
        String::from_str(host)
    }
}

fn command_text(template: &str, args: &Vec<String>) -> (r: String)
    ensures
        r@ == command_line(template@, strings_view(args@)),
{
    let ghost a = strings_view(args@);
    let ghost esc = a.map_values(|x: Seq<char>| shell_escaped(x));
    let mut r = String::from_str(template);
    let n = args.len();
    let mut i: usize = 0;
    while i < n
        invariant
            n == args@.len(),
            a == strings_view(args@),
            esc == a.map_values(|x: Seq<char>| shell_escaped(x)),
            i <= n,
            i == 0 ==> r@ == template@,
            i > 0 ==> r@ == template@ + seq![' '] + joined_words(esc.subrange(0, i as int)),
        decreases n - i,
    {
        proof {
            reveal_strlit(" ");
        }
        let word = shell_escape(args[i].as_str());
        let ghost before = r@;
        r.append(" ");
        r.append(word.as_str());
        assert(esc[i as int] == word@);
        if i == 0 {
            assert(esc.subrange(0, 1) =~= seq![word@]);
            assert(r@ =~= template@ + seq![' '] + joined_words(esc.subrange(0, 1)));
        } else {
            let ghost ws = esc.subrange(0, i + 1);
            assert(ws.drop_last() =~= esc.subrange(0, i as int));
            assert(ws.last() == word@);
            assert(r@ =~= template@ + seq![' '] + joined_words(esc.subrange(0, i + 1)));
        }
        i = i + 1;
    }
    assert(esc.subrange(0, n as int) =~= esc);
    r
}

fn shadowed_by(c: &str, extra: &Vec<Mount>) -> (r: bool)
    ensures
        r == shadowed(c@, mounts_view(extra@)),
{
    let n = extra.len();
    let mut j: usize = 0;
    while j < n
        invariant
            n == extra@.len(),
            j <= n,
            forall|k: int| 0 <= k < j ==> (#[trigger] mounts_view(extra@)[k]).1 != c@,
        decreases n - j,
    {
        if same_text(extra[j].container.as_str(), c) {
            assert(mounts_view(extra@)[j as int].1 == c@);
            return true;
        }
        j = j + 1;
    }
    false
}

fn copy_mount(m: &Mount) -> (r: Mount)
    ensures
        mount_view(r) == mount_view(*m),
{
    Mount { host: m.host.clone(), container: m.container.clone(), read_only: m.read_only }
}

/// Builds the plan that runs the project's script `script` with `args`
/// appended, in the project directory `project_path`. `gpu` is what the
/// host's probe found; it is used only where the project asks for a GPU.
/// `mount_hosts` holds, for each mount the project declares, the canonical
/// form of its host path (`declared_mount_host`), or nothing where that path
/// does not exist or cannot be resolved.
pub fn build_plan(
    config: &ProjectConfig,
    project_path: &str,
    mount_hosts: &Vec<Option<String>>,
    script: &str,
    args: &Vec<String>,
    options: RunOptions,
    gpu: Option<GpuConfig>,
) -> (r: Result<ExecutionPlan, PlanError>)
    requires
        mount_hosts@.len() == declared_mounts(*config).len(),
    ensures
        script_of(*config, script@).is_none() ==> (r.is_err() && r->Err_0 is ScriptNotFound && (
        r->Err_0)->ScriptNotFound_0@ == script@),
        script_of(*config, script@).is_some() ==> (r.is_err() == !all_available(mount_hosts@)),
        script_of(*config, script@).is_some() && r.is_err() ==> (r->Err_0 is MountUnavailable
            && exists|i: int|
            first_unavailable(mount_hosts@, i) && (r->Err_0)->MountUnavailable_0@ == mount_host(
                project_path@,
                declared_mounts(*config)[i].host@,
            )),
        r.is_ok() ==> plan_spec(
            *config,
            mount_hosts@,
            script_of(*config, script@).unwrap(),
            strings_view(args@),
            mounts_view(options.extra_mounts@),
            pairs_view(options.extra_env@),
            options.json_output,
            gpu,
            r->Ok_0,
        ),
{
    let template = match config.script(script) {
        Some(t) => t,
        None => {
            return Err(PlanError::ScriptNotFound(String::from_str(script)));
        },
    };
    let ghost base = config_env(*config);
    let ghost extra = pairs_view(options.extra_env@);
    let mut env: Vec<(String, String)> = Vec::new();
    match &config.runtime {
        Some(rt) => {
            bind_all(&mut env, &rt.environment);
            assert(pairs_view(Seq::<(String, String)>::empty()) + pairs_view(rt.environment@) =~= base);
        },
        None => {
            assert forall|k: Seq<char>| #[trigger] lookup(pairs_view(env@), k) == lookup(base, k) by {
                assert(pairs_view(env@) =~= base);
            }
        },
    }
    let ghost first = pairs_view(env@);
    bind_all(&mut env, &options.extra_env);
    assert forall|k: Seq<char>|
        #[trigger] lookup(pairs_view(env@), k) == lookup(base + extra, k) by {
        lemma_lookup_concat(first, extra, k);
        lemma_lookup_concat(base, extra, k);
    }
    let ghost ms = declared_mounts(*config);
    let ghost extra_view = mounts_view(options.extra_mounts@);
    let mut mounts: Vec<Mount> = Vec::new();
    let n = mount_hosts.len();
    let mut i: usize = 0;
    while i < n
        invariant
            n == mount_hosts@.len(),
            n == ms.len(),
            ms == declared_mounts(*config),
            script_of(*config, script@).is_some(),
            extra_view == mounts_view(options.extra_mounts@),
            i <= n,
            forall|j: int| 0 <= j < i ==> (#[trigger] mount_hosts@[j]).is_some(),
            mounts_view(mounts@) == project_mounts(ms, mount_hosts@, extra_view, i as int),
        decreases n - i,
    {
        let m = match &config.runtime {
            Some(rt) => &rt.mounts[i],
            None => {
                assert(false);
                return Err(PlanError::ScriptNotFound(String::from_str(script)));
            },
        };
        assert(*m == ms[i as int]);
        match &mount_hosts[i] {
            None => {
                assert(first_unavailable(mount_hosts@, i as int));
                return Err(
                    PlanError::MountUnavailable(declared_mount_host(project_path, m.host.as_str())),
                );
            },
            Some(host) => {
                let ghost before = mounts_view(mounts@);
                if !shadowed_by(m.container.as_str(), &options.extra_mounts) {
                    let read_only = match m.readonly {
                        Some(b) => b,
                        None => false,
                    };
                    let mnt = Mount { host: host.clone(), container: m.container.clone(), read_only };
                    mounts.push(mnt);
                    assert(mounts_view(mounts@) =~= before.push(mount_view(mnt)));
                } else {
                    assert(mounts_view(mounts@) =~= before + Seq::<MountView>::empty());
                }
            },
        }
        i = i + 1;
    }
    let ghost own = mounts_view(mounts@);
    let k = options.extra_mounts.len();
    let mut j: usize = 0;
    while j < k
        invariant
            k == options.extra_mounts@.len(),
            j <= k,
            mounts_view(mounts@) == own + mounts_view(options.extra_mounts@).subrange(0, j as int),
        decreases k - j,
    {
        let m = copy_mount(&options.extra_mounts[j]);
        let ghost before = mounts_view(mounts@);
        mounts.push(m);
        assert(mounts_view(mounts@) =~= before.push(mount_view(m)));
        assert(mounts_view(mounts@) =~= own + mounts_view(options.extra_mounts@).subrange(0, j + 1));
        j = j + 1;
    }
    assert(mounts_view(options.extra_mounts@).subrange(0, k as int) =~= mounts_view(options.extra_mounts@));
    let mut image = String::from_str("geoengine-");
    image.append(config.name.as_str());
    image.append(":latest");
    let mut command: Vec<String> = Vec::new();
    command.push(String::from_str("/bin/sh"));
    command.push(String::from_str("-c"));
    command.push(command_text(template.as_str(), args));
    assert(strings_view(command@) =~= seq!["/bin/sh"@, "-c"@, command_line(template@, strings_view(args@))]);
    let (gpu_config, memory, cpus, shm_size, workdir) = match &config.runtime {
        Some(rt) => (
            if rt.gpu {
                gpu
            } else {
                None
            },
            copy_opt(&rt.memory),
            copy_opt(&rt.cpus),
            copy_opt(&rt.shm_size),
            copy_opt(&rt.workdir),
        ),
        None => (None, None, None, None, None),
    };
    Ok(
        ExecutionPlan {
            image,
            command,
            env_vars: env,
            mounts,
            gpu_config,
            memory,
            cpus,
            shm_size,
            workdir,
            name: None,
            remove_on_exit: true,
            detach: false,
            tty: !options.json_output,
        },
    )
}


/// The read-write mount of the output directory, if one was given.
pub open spec fn output_mounts(output_dir: Option<String>) -> Seq<MountView> {
    match output_dir {
        Some(d) => seq![(d@, "/output"@, false)],
        None => Seq::empty(),
    }
}

/// The environment that tells the tool where its output goes.
pub open spec fn output_env(output_dir: Option<String>) -> Seq<Binding> {
    match output_dir {
        Some(d) => seq![("GEOENGINE_OUTPUT_DIR"@, "/output"@)],
        None => Seq::empty(),
    }
}

/// `r` is what running the tool `tool_name` of `config` gives, for sorted
/// inputs `p` with probes `q` and the canonical output directory `output_dir`.
pub open spec fn tool_plan_spec(
    config: ProjectConfig,
    dir: Seq<char>,
    hosts: Seq<Option<String>>,
    tool_name: Seq<char>,
    p: Seq<Binding>,
    q: Seq<PathProbe>,
    output_dir: Option<String>,
    json_output: bool,
    gpu: Option<GpuConfig>,
    r: Result<ExecutionPlan, PlanError>,
) -> bool {
    match first_tool(config.tools@, tool_name) {
        None => r.is_err() && r->Err_0 is ToolNotFound && (r->Err_0)->ToolNotFound_0@ == tool_name,
        Some(t) => {
            let tool = config.tools@[t];
            &&& script_of(config, tool.script@).is_none() ==> (r.is_err() && r->Err_0 is ScriptNotFound
                && (r->Err_0)->ScriptNotFound_0@ == tool.script@)
            &&& script_of(config, tool.script@).is_some() ==> (r.is_err() == !all_available(hosts))
            &&& script_of(config, tool.script@).is_some() && r.is_err() ==> (r->Err_0 is MountUnavailable
                && exists|i: int|
                first_unavailable(hosts, i) && (r->Err_0)->MountUnavailable_0@ == mount_host(
                    dir,
                    declared_mounts(config)[i].host@,
                ))
            &&& r.is_ok() ==> plan_spec(
                config,
                hosts,
                script_of(config, tool.script@).unwrap(),
                tool_args(tool, p, q),
                output_mounts(output_dir) + input_mounts(q, q.len() as int),
                output_env(output_dir),
                json_output,
                gpu,
                r->Ok_0,
            )
        },
    }
}

/// Builds the plan that runs the tool `tool_name` on sorted `inputs`, whose
/// values the file system described as `probes`. File and directory inputs
/// are mounted read-only and passed as their container paths; the output
/// directory, if given, is mounted read-write at `/output`. `mount_hosts`
/// is as for `build_plan`.
pub fn build_tool_plan(
    config: &ProjectConfig,
    project_path: &str,
    mount_hosts: &Vec<Option<String>>,
    tool_name: &str,
    inputs: &Vec<(String, String)>,
    probes: &Vec<PathProbe>,
    output_dir: Option<String>,
    json_output: bool,
    gpu: Option<GpuConfig>,
) -> (r: Result<ExecutionPlan, PlanError>)
    requires
        inputs@.len() == probes@.len(),
        mount_hosts@.len() == declared_mounts(*config).len(),
    ensures
        tool_plan_spec(
            *config,
            project_path@,
            mount_hosts@,
            tool_name@,
            pairs_view(inputs@),
            probes@,
            output_dir,
            json_output,
            gpu,
            r,
        ),
{
    let t = match config.find_tool(tool_name) {
        Some(t) => t,
        None => {
            return Err(PlanError::ToolNotFound(String::from_str(tool_name)));
        },
    };
    let tool = &config.tools[t];
    let mut extra_mounts: Vec<Mount> = Vec::new();
    let mut extra_env: Vec<(String, String)> = Vec::new();
    match &output_dir {
        Some(d) => {
            extra_mounts.push(
                Mount { host: d.clone(), container: String::from_str("/output"), read_only: false },
            );
            extra_env.push(
                (String::from_str("GEOENGINE_OUTPUT_DIR"), String::from_str("/output")),
            );
        },
        None => {},
    }
    assert(mounts_view(extra_mounts@) =~= output_mounts(output_dir));
    assert(pairs_view(extra_env@) =~= output_env(output_dir));
    let ghost own = mounts_view(extra_mounts@);
    let (args, mounts) = tool_arguments(tool, inputs, probes);
    let k = mounts.len();
    let mut j: usize = 0;
    while j < k
        invariant
            k == mounts@.len(),
            j <= k,
            mounts_view(extra_mounts@) == own + mounts_view(mounts@).subrange(0, j as int),
        decreases k - j,
    {
        let m = copy_mount(&mounts[j]);
        let ghost before = mounts_view(extra_mounts@);
        extra_mounts.push(m);
        assert(mounts_view(extra_mounts@) =~= before.push(mount_view(m)));
        assert(mounts_view(extra_mounts@) =~= own + mounts_view(mounts@).subrange(0, j + 1));
        j = j + 1;
    }
    assert(mounts_view(mounts@).subrange(0, k as int) =~= mounts_view(mounts@));
    let options = RunOptions { extra_mounts, extra_env, json_output };
    build_plan(config, project_path, mount_hosts, tool.script.as_str(), &args, options, gpu)
}


/// Parsing well-formed inputs, in which no key is bound to two values,
/// recovers exactly the (key, value) pairs that were given.
pub proof fn lemma_parse_recovers_pairs(raw: Seq<Seq<char>>, r: Seq<Binding>)
    requires
        well_formed_inputs(raw),
        consistent(split_inputs(raw)),
        sorted_form(r, split_inputs(raw)),
    ensures
        r.to_set() == split_inputs(raw).to_set(),
{
    let s = split_inputs(raw);
    lemma_sorted_form_entries(r, s);
    assert forall|x: Binding| r.to_set().contains(x) <==> s.to_set().contains(x) by {
        if r.to_set().contains(x) {
            let i = choose|i: int| 0 <= i < r.len() && r[i] == x;
            assert(s.contains(r[i]));
        }
        if s.to_set().contains(x) {
            let j = choose|j: int| 0 <= j < s.len() && s[j] == x;
            assert(r.contains(s[j]));
        }
    }
    assert(r.to_set() =~= s.to_set());
}

/// The order and repetition of the inputs do not matter: two lists of the
/// same well-formed inputs, in which no key is bound to two values, parse to
/// the same bindings, and so rebuild the same flag pairs for any tool.
pub proof fn lemma_parse_order_independent(
    a: Seq<Seq<char>>,
    b: Seq<Seq<char>>,
    ra: Seq<Binding>,
    rb: Seq<Binding>,
    tool: ToolDefinition,
    q: Seq<PathProbe>,
)
    requires
        well_formed_inputs(a),
        well_formed_inputs(b),
        a.to_set() == b.to_set(),
        consistent(split_inputs(a)),
        sorted_form(ra, split_inputs(a)),
        sorted_form(rb, split_inputs(b)),
    ensures
        ra == rb,
        tool_args(tool, ra, q) == tool_args(tool, rb, q),
{
    let sa = split_inputs(a);
    let sb = split_inputs(b);
    assert forall|j: int| 0 <= j < sb.len() implies sa.contains(#[trigger] sb[j]) by {
        assert(a.to_set().contains(b[j]));
        let i = choose|i: int| 0 <= i < a.len() && a[i] == b[j];
        assert(sa[i] == sb[j]);
    }
    assert forall|i: int| 0 <= i < sa.len() implies sb.contains(#[trigger] sa[i]) by {
        assert(b.to_set().contains(a[i]));
        let j = choose|j: int| 0 <= j < b.len() && b[j] == a[i];
        assert(sa[i] == sb[j]);
    }
    assert(consistent(sb)) by {
        assert forall|x: int, y: int|
            0 <= x < sb.len() && 0 <= y < sb.len() && (#[trigger] sb[x]).0 == (#[trigger] sb[y]).0
                implies sb[x] == sb[y] by {
            assert(sa.contains(sb[x]) && sa.contains(sb[y]));
        }
    }
    lemma_sorted_form_entries(ra, sa);
    lemma_sorted_form_entries(rb, sb);
    assert forall|i: int| 0 <= i < ra.len() implies rb.contains(#[trigger] ra[i]) by {
        let x = choose|x: int| 0 <= x < sa.len() && sa[x] == ra[i];
        assert(sb.contains(sa[x]));
        let y = choose|y: int| 0 <= y < sb.len() && sb[y] == sa[x];
        assert(rb.contains(sb[y]));
    }
    assert forall|j: int| 0 <= j < rb.len() implies ra.contains(#[trigger] rb[j]) by {
        let y = choose|y: int| 0 <= y < sb.len() && sb[y] == rb[j];
        assert(sa.contains(sb[y]));
        let x = choose|x: int| 0 <= x < sa.len() && sa[x] == sb[y];
        assert(ra.contains(sa[x]));
    }
    lemma_sorted_same_entries(ra, rb);
}

/// The plan built for a tool does not depend on the order or repetition of
/// its inputs: two lists of the same well-formed inputs, in which no key is
/// bound to two values, parsed and probed alike, give plans with the same
/// image, command, environment and mounts.
pub proof fn lemma_tool_plan_order_independent(
    a: Seq<Seq<char>>,
    b: Seq<Seq<char>>,
    ra: Seq<Binding>,
    rb: Seq<Binding>,
    config: ProjectConfig,
    dir: Seq<char>,
    hosts: Seq<Option<String>>,
    tool_name: Seq<char>,
    q: Seq<PathProbe>,
    output_dir: Option<String>,
    json_output: bool,
    gpu: Option<GpuConfig>,
    r1: Result<ExecutionPlan, PlanError>,
    r2: Result<ExecutionPlan, PlanError>,
)
    requires
        well_formed_inputs(a),
        well_formed_inputs(b),
        a.to_set() == b.to_set(),
        consistent(split_inputs(a)),
        sorted_form(ra, split_inputs(a)),
        sorted_form(rb, split_inputs(b)),
        tool_plan_spec(config, dir, hosts, tool_name, ra, q, output_dir, json_output, gpu, r1),
        tool_plan_spec(config, dir, hosts, tool_name, rb, q, output_dir, json_output, gpu, r2),
    ensures
        r1.is_ok() == r2.is_ok(),
        r1.is_ok() ==> {
            let p1 = r1->Ok_0;
            let p2 = r2->Ok_0;
            &&& p1.image@ == p2.image@
            &&& strings_view(p1.command@) == strings_view(p2.command@)
            &&& pairs_view(p1.env_vars@) == pairs_view(p2.env_vars@)
            &&& mounts_view(p1.mounts@) == mounts_view(p2.mounts@)
            &&& p1.tty == p2.tty
        },
{
    if first_tool(config.tools@, tool_name).is_some() {
        let tool = config.tools@[first_tool(config.tools@, tool_name).unwrap()];
        lemma_parse_order_independent(a, b, ra, rb, tool, q);
    }
    if r1.is_ok() && r2.is_ok() {
        lemma_sorted_form_unique(
            pairs_view(r1->Ok_0.env_vars@),
            pairs_view(r2->Ok_0.env_vars@),
            config_env(config) + output_env(output_dir),
        );
    }
}

proof fn lemma_input_mounts_hold(q: Seq<PathProbe>, n: int, i: int)
    requires
        0 <= i < n <= q.len(),
        !(q[i] is Plain),
    ensures
        input_mounts(q, n).contains(input_mount(q[i], dirs_before(q, i))[0]),
    decreases n,
{
    let m = input_mount(q[i], dirs_before(q, i));
    let prev = input_mounts(q, n - 1);
    let last = input_mount(q[n - 1], dirs_before(q, n - 1));
    if i == n - 1 {
        assert((prev + last)[prev.len() as int] == m[0]);
    } else {
        lemma_input_mounts_hold(q, n - 1, i);
        let x = choose|x: int| 0 <= x < prev.len() && prev[x] == m[0];
        assert((prev + last)[x] == m[0]);
    }
}

/// A file-valued input is passed to the script as its container path, and
/// the built plan mounts the file there read-only.
pub proof fn lemma_file_input_mounted(
    config: ProjectConfig,
    dir: Seq<char>,
    hosts: Seq<Option<String>>,
    tool_name: Seq<char>,
    p: Seq<Binding>,
    q: Seq<PathProbe>,
    output_dir: Option<String>,
    json_output: bool,
    gpu: Option<GpuConfig>,
    r: Result<ExecutionPlan, PlanError>,
    i: int,
)
    requires
        tool_plan_spec(config, dir, hosts, tool_name, p, q, output_dir, json_output, gpu, r),
        r.is_ok(),
        p.len() == q.len(),
        0 <= i < q.len(),
        q[i] is File,
    ensures
        tool_args(config.tools@[first_tool(config.tools@, tool_name).unwrap()], p, q)[2 * i + 1]
            == file_mount_point(q[i]->file_name@),
        mounts_view(r->Ok_0.mounts@).contains(
            (q[i]->File_host@, file_mount_point(q[i]->file_name@), true),
        ),
{
    let tool = config.tools@[first_tool(config.tools@, tool_name).unwrap()];
    let j = 2 * i + 1;
    assert(j % 2 == 1 && j / 2 == i) by (nonlinear_arith)
        requires
            j == 2 * i + 1,
            i >= 0,
    ;
    lemma_input_mounts_hold(q, q.len() as int, i);
    let ins = input_mounts(q, q.len() as int);
    let m = (q[i]->File_host@, file_mount_point(q[i]->file_name@), true);
    assert(input_mount(q[i], dirs_before(q, i))[0] == m);
    let x = choose|x: int| 0 <= x < ins.len() && ins[x] == m;
    let extra = output_mounts(output_dir) + ins;
    let own = project_mounts(declared_mounts(config), hosts, extra, declared_mounts(config).len() as int);
    let front = own + output_mounts(output_dir);
    assert(own + extra =~= front + ins);
    assert((front + ins)[front.len() + x] == m);
}


/// What building a project's image takes.
pub struct BuildRequest {
    pub dockerfile: String,
    pub context: String,
    pub image_tag: String,
    /// Build arguments, sorted by name, one per name.
    pub args: Vec<(String, String)>,
}

/// The bindings of the raw `KEY=VALUE` arguments that have an `=`, in order;
/// the others are skipped.
pub open spec fn present_splits(raw: Seq<Seq<char>>) -> Seq<Binding>
    decreases raw.len(),
{
    if raw.len() == 0 {
        Seq::empty()
    } else {
        present_splits(raw.drop_last()) + match split_key_value(raw.last()) {
            Some(b) => seq![b],
            None => Seq::empty(),
        }
    }
}

/// The build arguments a project declares.
pub open spec fn config_build_args(config: ProjectConfig) -> Seq<Binding> {
    match config.build {
        Some(b) => pairs_view(b.args@),
        None => Seq::empty(),
    }
}

/// The Dockerfile a project names, relative to its directory.
pub open spec fn dockerfile_name(config: ProjectConfig) -> Seq<char> {
    match config.build {
        Some(b) => match b.dockerfile {
            Some(d) => d@,
            None => "Dockerfile"@,
        },
        None => "Dockerfile"@,
    }
}

/// The build context a project names, relative to its directory.
pub open spec fn context_name(config: ProjectConfig) -> Seq<char> {
    match config.build {
        Some(b) => match b.context {
            Some(c) => c@,
            None => "."@,
        },
        None => "."@,
    }
}

/// What building the image of the project `config` in `project_path` takes:
/// the project's build arguments, overridden by the `KEY=VALUE` arguments
/// given, of which those without `=` are skipped.
pub fn build_request(config: &ProjectConfig, project_path: &str, build_args: &Vec<String>) -> (r:
    BuildRequest)
    ensures
        r.dockerfile@ == joined_path(project_path@, dockerfile_name(*config)),
        r.context@ == joined_path(project_path@, context_name(*config)),
        r.image_tag@ == image_tag(config.name@),
        sorted_form(
            pairs_view(r.args@),
            config_build_args(*config) + present_splits(strings_view(build_args@)),
        ),
{
    let (dockerfile, context) = match &config.build {
        Some(b) => {
            let d = match &b.dockerfile {
                Some(d) => join_path(project_path, d.as_str()),
                None => join_path(project_path, "Dockerfile"),
            };
            let c = match &b.context {
                Some(c) => join_path(project_path, c.as_str()),
                None => join_path(project_path, "."),
            };
            (d, c)
        },
        None => (join_path(project_path, "Dockerfile"), join_path(project_path, ".")),
    };
    let mut image = String::from_str("geoengine-");
    image.append(config.name.as_str());
    image.append(":latest");
    let ghost base = config_build_args(*config);
    let mut args: Vec<(String, String)> = Vec::new();
    match &config.build {
        Some(b) => {
            bind_all(&mut args, &b.args);
            assert(pairs_view(Seq::<(String, String)>::empty()) + pairs_view(b.args@) =~= base);
        },
        None => {
            assert(pairs_view(args@) =~= base);
        },
    }
    let ghost raw = strings_view(build_args@);
    let n = build_args.len();
    let mut i: usize = 0;
    assert(present_splits(raw.subrange(0, 0)) =~= Seq::<Binding>::empty());
    assert(base + Seq::<Binding>::empty() =~= base);
    while i < n
        invariant
            n == build_args@.len(),
            raw == strings_view(build_args@),
            i <= n,
            keys_sorted(pairs_view(args@)),
            forall|k: Seq<char>|
                #[trigger] lookup(pairs_view(args@), k) == lookup(
                    base + present_splits(raw.subrange(0, i as int)),
                    k,
                ),
        decreases n - i,
    {
        let ghost prev = base + present_splits(raw.subrange(0, i as int));
        assert(raw.subrange(0, i + 1).drop_last() =~= raw.subrange(0, i as int));
        assert(raw.subrange(0, i + 1).last() == build_args@[i as int]@);
        match split_once_eq(build_args[i].as_str()) {
            Some(kv) => {
                let ghost b: Binding = (kv.0@, kv.1@);
                upsert(&mut args, kv.0, kv.1);
                assert(base + present_splits(raw.subrange(0, i + 1)) =~= prev.push(b));
                assert forall|k: Seq<char>|
                    #[trigger] lookup(pairs_view(args@), k) == lookup(
                        base + present_splits(raw.subrange(0, i + 1)),
                        k,
                    ) by {
                    assert(prev.push(b).drop_last() =~= prev);
                }
            },
            None => {
                assert(base + present_splits(raw.subrange(0, i + 1)) =~= prev);
            },
        }
        i = i + 1;
    }
    assert(raw.subrange(0, n as int) =~= raw);
    BuildRequest { dockerfile, context, image_tag: image, args }
}

} // verus!
