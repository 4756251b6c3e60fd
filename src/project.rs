//! A project's declarative configuration and the resolution of tools and
//! scripts within it.

use vstd::prelude::*;

use crate::pairs::{lookup, pairs_view};
use crate::text::same_text;

verus! {

/// A mount declared in a project's runtime configuration.
pub struct MountConfig {
    /// Host path; one that starts with `./` is relative to the project directory.
    pub host: String,
    /// Path inside the container.
    pub container: String,
    /// Read-only flag; absent means read-write.
    pub readonly: Option<bool>,
}

/// Runtime defaults of a project.
pub struct RuntimeConfig {
    pub gpu: bool,
    pub memory: Option<String>,
    /// CPU limit, as the decimal text the container engine takes.
    pub cpus: Option<String>,
    pub shm_size: Option<String>,
    pub workdir: Option<String>,
    pub mounts: Vec<MountConfig>,
    /// Environment bindings; a later binding of a name wins.
    pub environment: Vec<(String, String)>,
}

/// How a project's image is built.
pub struct BuildConfig {
    pub dockerfile: Option<String>,
    pub context: Option<String>,
    /// Build arguments; a later binding of a name wins.
    pub args: Vec<(String, String)>,
}

/// One input or output parameter of a tool.
pub struct ParameterDefinition {
    pub name: String,
    pub label: Option<String>,
    /// The script flag this parameter is passed as, when it is not its name.
    pub map_to: Option<String>,
    pub param_type: String,
    pub required: Option<bool>,
    pub description: Option<String>,
    pub choices: Option<Vec<String>>,
}

/// A named operation of a project: a script and its parameter schema.
pub struct ToolDefinition {
    pub name: String,
    pub label: Option<String>,
    pub description: Option<String>,
    pub script: String,
    pub inputs: Option<Vec<ParameterDefinition>>,
    pub outputs: Option<Vec<ParameterDefinition>>,
}

/// A project's configuration, as loaded from its configuration file.
pub struct ProjectConfig {
    pub name: String,
    pub version: Option<String>,
    pub base_image: Option<String>,
    /// Named scripts: name and command template; a later binding of a name wins.
    pub scripts: Vec<(String, String)>,
    pub runtime: Option<RuntimeConfig>,
    pub build: Option<BuildConfig>,
    pub tools: Vec<ToolDefinition>,
}

impl ParameterDefinition {
    /// A parameter is required unless it says otherwise.
    pub fn is_required(&self) -> (r: bool)
        ensures
            r == match self.required {
                Some(b) => b,
                None => true,
            },
    {
        match self.required {
            Some(b) => b,
            None => true,
        }
    }
}

/// The first parameter in `ps` named `key`.
pub open spec fn first_param(ps: Seq<ParameterDefinition>, key: Seq<char>) -> Option<ParameterDefinition>
    decreases ps.len(),
{
    if ps.len() == 0 {
        None
    } else if ps[0].name@ == key {
        Some(ps[0])
    } else {
        first_param(ps.drop_first(), key)
    }
}

/// The flag under which the input `key` is passed to the tool's script: the
/// parameter's alias if it has one, else its name; an input the tool does
/// not declare passes under its own name.
pub open spec fn flag_of(tool: ToolDefinition, key: Seq<char>) -> Seq<char> {
    match tool.inputs {
        Some(ps) => match first_param(ps@, key) {
            Some(p) => match p.map_to {
                Some(m) => m@,
                None => p.name@,
            },
            None => key,
        },
        None => key,
    }
}

/// The position of the first tool in `ts` named `name`, counted from `from`.
pub open spec fn first_tool_from(ts: Seq<ToolDefinition>, name: Seq<char>, from: int) -> Option<int>
    decreases ts.len() - from,
{
    if from < 0 || from >= ts.len() {
        None
    } else if ts[from].name@ == name {
        Some(from)
    } else {
        first_tool_from(ts, name, from + 1)
    }
}

pub proof fn lemma_first_tool_from(ts: Seq<ToolDefinition>, name: Seq<char>, from: int)
    ensures
        first_tool_from(ts, name, from).is_some() ==> {
            let i = first_tool_from(ts, name, from).unwrap();
            from <= i < ts.len() && ts[i].name@ == name
        },
    decreases ts.len() - from,
{
    if 0 <= from < ts.len() && ts[from].name@ != name {
        lemma_first_tool_from(ts, name, from + 1);
    }
}

pub open spec fn first_tool(ts: Seq<ToolDefinition>, name: Seq<char>) -> Option<int> {
    first_tool_from(ts, name, 0)
}

/// The command template of the script `name`.
pub open spec fn script_of(config: ProjectConfig, name: Seq<char>) -> Option<Seq<char>> {
    lookup(pairs_view(config.scripts@), name)
}

/// Copies an optional string.
pub fn copy_opt(o: &Option<String>) -> (r: Option<String>)
    ensures
        r == *o,
{
    match o {
        Some(s) => Some(s.clone()),
        None => None,
    }
}

impl ToolDefinition {
    /// The script flag for the input `key`.
    pub fn flag_for(&self, key: &str) -> (r: String)
        ensures
            r@ == flag_of(*self, key@),
    {
        match &self.inputs {
            None => String::from_str(key),
            Some(ps) => {
                let n = ps.len();
                let mut i: usize = 0;
                assert(ps@.subrange(0, n as int) =~= ps@);
                while i < n
                    invariant
                        self.inputs == Some(*ps),
                        n == ps@.len(),
                        i <= n,
                        first_param(ps@, key@) == first_param(ps@.subrange(i as int, n as int), key@),
                    decreases n - i,
                {
                    assert(ps@.subrange(i as int, n as int).drop_first() =~= ps@.subrange(i + 1, n as int));
                    assert(ps@.subrange(i as int, n as int)[0] == ps@[i as int]);
                    if same_text(ps[i].name.as_str(), key) {
                        let alias = copy_opt(&ps[i].map_to);
                        return match alias {
                            Some(m) => m,
                            None => ps[i].name.clone(),
                        };
                    }
                    i = i + 1;
                }
                String::from_str(key)
            },
        }
    }
}

impl ProjectConfig {
    /// The position of the tool named `name`.
    pub fn find_tool(&self, name: &str) -> (r: Option<usize>)
        ensures
            r.is_some() == first_tool(self.tools@, name@).is_some(),
            r.is_some() ==> r.unwrap() as int == first_tool(self.tools@, name@).unwrap(),
            r.is_some() ==> r.unwrap() < self.tools@.len(),
    {
        proof {
            lemma_first_tool_from(self.tools@, name@, 0);
        }
        let n = self.tools.len();
        let mut i: usize = 0;
        while i < n
            invariant
                n == self.tools@.len(),
                i <= n,
                first_tool(self.tools@, name@) == first_tool_from(self.tools@, name@, i as int),
            decreases n - i,
        {
            if same_text(self.tools[i].name.as_str(), name) {
                return Some(i);
            }
            i = i + 1;
        }
        None
    }

    /// The command template of the script `name`.
    pub fn script(&self, name: &str) -> (r: Option<String>)
        ensures
            r.is_some() == script_of(*self, name@).is_some(),
            r.is_some() ==> r.unwrap()@ == script_of(*self, name@).unwrap(),
    {
        let ghost s = pairs_view(self.scripts@);
        let mut i: usize = self.scripts.len();
        assert(s.subrange(0, i as int) =~= s);
        while i > 0
            invariant
                i <= self.scripts@.len(),
                s == pairs_view(self.scripts@),
                script_of(*self, name@) == lookup(s.subrange(0, i as int), name@),
            decreases i,
        {
            assert(s.subrange(0, i as int).drop_last() =~= s.subrange(0, i - 1));
            assert(s[i - 1] == (self.scripts@[i - 1].0@, self.scripts@[i - 1].1@));
            assert(s.subrange(0, i as int).last() == s[i - 1]);
            if same_text(self.scripts[i - 1].0.as_str(), name) {
                return Some(self.scripts[i - 1].1.clone());
            }
            i = i - 1;
        }
        None
    }
}

} // verus!
