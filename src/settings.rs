//! User settings: the registry of projects by name, and service defaults.
//! Reading and writing the settings file is left to the caller.

use vstd::prelude::*;

use crate::pairs::{
    keys_sorted, lemma_lookup_absent, lemma_lookup_sorted_all, lookup, pairs_view, upsert, Binding,
};
use crate::text::{join_path, joined_path, same_text};

verus! {

/// Why a change to the project registry was refused.
pub enum SettingsError {
    /// The name is registered at another path: name and that path.
    AlreadyRegistered(String, String),
    /// The name is not registered.
    NotRegistered(String),
    /// The name is neither registered nor a project directory.
    ProjectNotFound(String),
}

impl SettingsError {
    /// The message shown to the user.
    pub fn message(&self) -> (r: String)
        ensures
            r@ == match *self {
                SettingsError::AlreadyRegistered(name, path) => "Project '"@ + name@
                    + "' already registered at "@ + path@ + ". Unregister it first."@,
                SettingsError::NotRegistered(name) => "Project '"@ + name@ + "' is not registered"@,
                SettingsError::ProjectNotFound(name) => "Project '"@ + name@
                    + "' not found. Register it with: geoengine project register <path>"@,
            },
    {
        let mut r = String::from_str("Project '");
        match self {
            SettingsError::AlreadyRegistered(name, path) => {
                r.append(name.as_str());
                r.append("' already registered at ");
                r.append(path.as_str());
                r.append(". Unregister it first.");
            },
            SettingsError::NotRegistered(name) => {
                r.append(name.as_str());
                r.append("' is not registered");
            },
            SettingsError::ProjectNotFound(name) => {
                r.append(name.as_str());
                r.append("' not found. Register it with: geoengine project register <path>");
            },
        }
        r
    }
}

/// Global settings.
pub struct Settings {
    /// Registered projects: name and directory, sorted by name, one entry
    /// per name. Changed through `register_project` and `unregister_project`.
    pub projects: Vec<(String, String)>,
    /// Default GCP project ID.
    pub gcp_project: Option<String>,
    /// Default GCP region.
    pub gcp_region: Option<String>,
    /// Service port, while the service runs.
    pub service_port: Option<u16>,
    /// Maximum concurrent containers of the proxy service.
    pub max_workers: Option<usize>,
}

impl Settings {
    /// The registered projects, sorted by name.
    pub open spec fn registered(&self) -> Seq<Binding> {
        pairs_view(self.projects@)
    }

    pub open spec fn wf(&self) -> bool {
        keys_sorted(pairs_view(self.projects@))
    }

    /// Settings with no project registered and no defaults.
    pub fn new() -> (r: Settings)
        ensures
            r.wf(),
            r.registered().len() == 0,
            r.gcp_project.is_none(),
            r.gcp_region.is_none(),
            r.service_port.is_none(),
            r.max_workers.is_none(),
    {
        let r = Settings {
            projects: Vec::new(),
            gcp_project: None,
            gcp_region: None,
            service_port: None,
            max_workers: None,
        };
        assert(pairs_view(r.projects@) =~= Seq::<Binding>::empty());
        r
    }

    fn position(&self, name: &str) -> (r: Option<usize>)
        ensures
            r.is_some() ==> r.unwrap() < self.projects@.len() && self.projects@[r.unwrap() as int].0@
                == name@,
            r.is_none() ==> forall|j: int|
                0 <= j < self.projects@.len() ==> (#[trigger] self.projects@[j]).0@ != name@,
    {
        let n = self.projects.len();
        let mut i: usize = 0;
        while i < n
            invariant
                n == self.projects@.len(),
                i <= n,
                forall|j: int| 0 <= j < i ==> (#[trigger] self.projects@[j]).0@ != name@,
            decreases n - i,
        {
            if same_text(self.projects[i].0.as_str(), name) {
                return Some(i);
            }
            i = i + 1;
        }
        None
    }

    /// The directory registered under `name`.
    pub fn registered_path(&self, name: &str) -> (r: Option<String>)
        requires
            self.wf(),
        ensures
            r.is_some() == lookup(self.registered(), name@).is_some(),
            r.is_some() ==> r.unwrap()@ == lookup(self.registered(), name@).unwrap(),
    {
        let ghost s = pairs_view(self.projects@);
        proof {
            lemma_lookup_sorted_all(s);
        }
        match self.position(name) {
            Some(i) => {
                assert(s[i as int].0 == name@);
                Some(self.projects[i].1.clone())
            },
            None => {
                assert forall|j: int| 0 <= j < s.len() implies (#[trigger] s[j]).0 != name@ by {
                    assert(s[j].0 == self.projects@[j].0@);
                }
                None
            },
        }
    }

    /// Registers the project directory `path` under `name`. A name already
    /// registered at another path is refused; registering it again at the
    /// same path changes nothing.
    pub fn register_project(&mut self, name: &str, path: &str) -> (r: Result<(), SettingsError>)
        requires
            old(self).wf(),
        ensures
            final(self).wf(),
            final(self).gcp_project == old(self).gcp_project,
            final(self).gcp_region == old(self).gcp_region,
            final(self).service_port == old(self).service_port,
            final(self).max_workers == old(self).max_workers,
            match lookup(old(self).registered(), name@) {
                Some(p) if p != path@ => {
                    &&& r.is_err()
                    &&& r->Err_0 is AlreadyRegistered
                    &&& (r->Err_0)->AlreadyRegistered_0@ == name@
                    &&& (r->Err_0)->AlreadyRegistered_1@ == p
                    &&& final(self).registered() == old(self).registered()
                },
                _ => {
                    &&& r.is_ok()
                    &&& forall|k: Seq<char>|
                        #[trigger] lookup(final(self).registered(), k) == if k == name@ {
                            Some(path@)
                        } else {
                            lookup(old(self).registered(), k)
                        }
                },
            },
    {
        match self.registered_path(name) {
            Some(existing) => {
                if !same_text(existing.as_str(), path) {
                    return Err(SettingsError::AlreadyRegistered(String::from_str(name), existing));
                }
            },
            None => {},
        }
        upsert(&mut self.projects, String::from_str(name), String::from_str(path));
        Ok(())
    }

    /// Removes the project registered under `name`.
    pub fn unregister_project(&mut self, name: &str) -> (r: Result<(), SettingsError>)
        requires
            old(self).wf(),
        ensures
            final(self).wf(),
            final(self).gcp_project == old(self).gcp_project,
            final(self).gcp_region == old(self).gcp_region,
            final(self).service_port == old(self).service_port,
            final(self).max_workers == old(self).max_workers,
            lookup(old(self).registered(), name@).is_none() ==> {
                &&& r.is_err()
                &&& r->Err_0 is NotRegistered
                &&& (r->Err_0)->NotRegistered_0@ == name@
                &&& final(self).registered() == old(self).registered()
            },
            lookup(old(self).registered(), name@).is_some() ==> {
                &&& r.is_ok()
                &&& forall|k: Seq<char>|
                    #[trigger] lookup(final(self).registered(), k) == if k == name@ {
                        None
                    } else {
                        lookup(old(self).registered(), k)
                    }
            },
    {
        let ghost s = pairs_view(self.projects@);
        proof {
            lemma_lookup_sorted_all(s);
        }
        let i = match self.position(name) {
            Some(i) => i,
            None => {
                assert forall|j: int| 0 <= j < s.len() implies (#[trigger] s[j]).0 != name@ by {
                    assert(s[j].0 == self.projects@[j].0@);
                }
                return Err(SettingsError::NotRegistered(String::from_str(name)));
            },
        };
        assert(s[i as int].0 == name@);
        self.projects.remove(i);
        let ghost t = pairs_view(self.projects@);
        assert(t =~= s.remove(i as int));
        assert forall|x: int, y: int| 0 <= x < y < t.len() implies crate::text::seq_lt(
            #[trigger] t[x].0,
            #[trigger] t[y].0,
        ) by {
            if x < i && y < i {
                assert(t[x] == s[x] && t[y] == s[y]);
            } else if x < i {
                assert(t[x] == s[x] && t[y] == s[y + 1]);
            } else {
                assert(t[x] == s[x + 1] && t[y] == s[y + 1]);
            }
        }
        proof {
            lemma_lookup_sorted_all(t);
        }
        assert forall|k: Seq<char>|
            #[trigger] lookup(t, k) == if k == name@ {
                None
            } else {
                lookup(s, k)
            } by {
            if k == name@ {
                assert forall|j: int| 0 <= j < t.len() implies (#[trigger] t[j]).0 != k by {
                    if j < i {
                        assert(t[j] == s[j]);
                        assert(crate::text::seq_lt(s[j].0, s[i as int].0));
                        crate::text::lemma_seq_lt_irreflexive(k);
                    } else {
                        assert(t[j] == s[j + 1]);
                        assert(crate::text::seq_lt(s[i as int].0, s[j + 1].0));
                        crate::text::lemma_seq_lt_irreflexive(k);
                    }
                }
            } else if exists|j: int| 0 <= j < s.len() && (#[trigger] s[j]).0 == k {
                let j = choose|j: int| 0 <= j < s.len() && (#[trigger] s[j]).0 == k;
                if j < i {
                    assert(t[j] == s[j]);
                } else {
                    assert(t[j - 1] == s[j]);
                }
            } else {
                assert forall|j: int| 0 <= j < t.len() implies (#[trigger] t[j]).0 != k by {
                    if j < i {
                        assert(t[j] == s[j]);
                    } else {
                        assert(t[j] == s[j + 1]);
                    }
                }
            }
        }
        Ok(())
    }

    /// The directory of the project `name`: the registered one, else
    /// `as_directory`, which the caller sets to the canonical form of `name`
    /// when `name` is itself a project directory.
    pub fn get_project_path(&self, name: &str, as_directory: Option<String>) -> (r: Result<
        String,
        SettingsError,
    >)
        requires
            self.wf(),
        ensures
            match lookup(self.registered(), name@) {
                Some(p) => r.is_ok() && r->Ok_0@ == p,
                None => match as_directory {
                    Some(d) => r.is_ok() && r->Ok_0 == d,
                    None => r.is_err() && r->Err_0 is ProjectNotFound && (r->Err_0)->ProjectNotFound_0@
                        == name@,
                },
            },
    {
        match self.registered_path(name) {
            Some(p) => Ok(p),
            None => match as_directory {
                Some(d) => Ok(d),
                None => Err(SettingsError::ProjectNotFound(String::from_str(name))),
            },
        }
    }

    /// All registered projects, name and directory, sorted by name.
    pub fn list_projects(&self) -> (r: Vec<(String, String)>)
        ensures
            pairs_view(r@) == self.registered(),
    {
        let mut r: Vec<(String, String)> = Vec::new();
        let n = self.projects.len();
        let mut i: usize = 0;
        while i < n
            invariant
                n == self.projects@.len(),
                i <= n,
                pairs_view(r@) == pairs_view(self.projects@).subrange(0, i as int),
            decreases n - i,
        {
            let ghost before = pairs_view(r@);
            let entry = (self.projects[i].0.clone(), self.projects[i].1.clone());
            r.push(entry);
            assert(pairs_view(r@) =~= before.push((entry.0@, entry.1@)));
            assert(pairs_view(r@) =~= pairs_view(self.projects@).subrange(0, i + 1));
            i = i + 1;
        }
        assert(pairs_view(self.projects@).subrange(0, n as int) =~= pairs_view(self.projects@));
        r
    }
}

/// The settings file inside the configuration directory.
pub fn get_settings_file(config_dir: &str) -> (r: String)
    ensures
        r@ == joined_path(config_dir@, "settings.yaml"@),
{
    join_path(config_dir, "settings.yaml")
}

/// The service's PID file inside the configuration directory.
pub fn get_pid_file(config_dir: &str) -> (r: String)
    ensures
        r@ == joined_path(config_dir@, "service.pid"@),
{
    join_path(config_dir, "service.pid")
}

} // verus!
