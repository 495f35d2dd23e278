//! Layout of the local file store: where each kind of state lives under the root.

use vstd::prelude::*;
use crate::errors::StateError;
use crate::fs_path::{FsPath, FsPathView};
use crate::delete_report::DeleteThreadPhase;
use crate::ids::{lemma_uuid_text_injective, parse_uuid, parsed_uuid, uuid_text, uuid_to_string};
use crate::numbers::{lemma_parse_padded_decimal, padded_decimal, parse_u64, parse_u64_spec, sort_steps, sorted, strictly_sorted, u64_to_padded_decimal};
use crate::path_safety::{is_safe_thread_id, sanitize_thread_id};
use crate::text::{chars_between, suffix_from};

verus! {

/// A path under `root` made of the given components.
pub open spec fn under(root: Seq<char>, components: Seq<Seq<char>>) -> FsPathView {
    FsPathView { base: root, components }
}

fn path2(root: &String, a: &str, b: &str) -> (r: FsPath)
    ensures
        r@ == under(root@, seq![a@, b@]),
{
    let r = FsPath::new(root.clone()).join_str(a).join_str(b);
    assert(r@.components =~= seq![a@, b@]);
    r
}

fn path3(root: &String, a: &str, b: &str, c: &str) -> (r: FsPath)
    ensures
        r@ == under(root@, seq![a@, b@, c@]),
{
    let r = FsPath::new(root.clone()).join_str(a).join_str(b).join_str(c);
    assert(r@.components =~= seq![a@, b@, c@]);
    r
}

fn concat3(a: &str, b: &str, c: &str) -> (r: String)
    ensures
        r@ == a@ + b@ + c@,
{
    let mut s = a.to_string();
    s.append(b);
    s.append(c);
    s
}

/// Directory layout rooted at `root`.
pub struct LocalFsLayout {
    pub root: String,
}

impl LocalFsLayout {
    pub fn new(root: &str) -> (r: Self)
        ensures
            r.root@ == root@,
    {
        LocalFsLayout { root: root.to_string() }
    }

    /// The directories that must exist: config, tasks, threads, uploads, artifacts, memory.
    pub fn base_dirs(&self) -> (r: Vec<FsPath>)
        ensures
            r@.len() == 6,
            r@[0]@ == under(self.root@, seq!["config"@]),
            r@[1]@ == under(self.root@, seq!["tasks"@]),
            r@[2]@ == under(self.root@, seq!["threads"@]),
            r@[3]@ == under(self.root@, seq!["uploads"@]),
            r@[4]@ == under(self.root@, seq!["artifacts"@]),
            r@[5]@ == under(self.root@, seq!["memory"@]),
    {
        let mut r: Vec<FsPath> = Vec::new();
        let names = ["config", "tasks", "threads", "uploads", "artifacts", "memory"];
        let mut i: usize = 0;
        while i < 6
            invariant
                i <= 6,
                r@.len() == i,
                forall|j: int| 0 <= j < i ==> #[trigger] r@[j]@ == under(self.root@, seq![names@[j]@]),
            decreases 6 - i,
        {
            let p = FsPath::new(self.root.clone()).join_str(names[i]);
            assert(p@.components =~= seq![names@[i as int]@]);
            r.push(p);
            i = i + 1;
        }
        r
    }

    /// The directory of one thread: `<root>/threads/<thread_id>`.
    pub fn thread_dir(&self, thread_id: &str) -> (r: FsPath)
        ensures
            r@ == under(self.root@, seq!["threads"@, thread_id@]),
    {
        path2(&self.root, "threads", thread_id)
    }
}

/// State store on the local file system, rooted at `root`.
pub struct LocalFsStateStore {
    pub root: String,
}

/// The file name of a checkpoint step: the step zero-padded to 20 digits, then `.json`.
pub open spec fn step_file_name(step: u64) -> Seq<char> {
    padded_decimal(step as nat, 20) + ".json"@
}

/// The step number in a checkpoint file name: the name minus `.json`, parsed as `u64`.
pub open spec fn step_of_file_name(name: Seq<char>) -> Option<u64> {
    if name.len() >= 5 && name.skip(name.len() - 5) == ".json"@ {
        parse_u64_spec(name.take(name.len() - 5))
    } else {
        None
    }
}

/// `name` without a trailing `.json`, if it has one.
pub fn strip_json_suffix(name: &str) -> (r: Option<String>)
    ensures
        name@.len() >= 5 && name@.skip(name@.len() - 5) == ".json"@ ==> (r matches Some(s) && s@
            == name@.take(name@.len() - 5)),
        !(name@.len() >= 5 && name@.skip(name@.len() - 5) == ".json"@) ==> r is None,
{
    let n = name.unicode_len();
    if n < 5 {
        return None;
    }
    let tail = suffix_from(name, n - 5);
    if crate::text::str_eq(tail.as_str(), ".json") {
        Some(chars_between(name, 0, n - 5))
    } else {
        None
    }
}

/// The thread a memory file name is of: the name minus `.json`, parsed as a UUID.
pub open spec fn memory_file_thread(name: Seq<char>) -> Option<u128> {
    if name.len() >= 5 && name.skip(name.len() - 5) == ".json"@ {
        parsed_uuid(name.take(name.len() - 5))
    } else {
        None
    }
}

/// The threads named by memory files, in order; other names are skipped. The file name
/// that [`LocalFsLayout::memory_path`] gives a thread names that thread.
pub fn memory_file_thread_ids(names: &Vec<String>) -> (r: Vec<u128>)
    ensures
        r@ == names@.filter_map(|n: String| memory_file_thread(n@)),
        forall|j: int, id: u128| #![trigger names@[j], uuid_text(id)] 0 <= j < names@.len() && names@[j]@ == uuid_text(id) + ".json"@ ==> memory_file_thread(names@[j]@) == Some(id),
{
    let ghost f = |n: String| memory_file_thread(n@);
    let mut out: Vec<u128> = Vec::new();
    let mut i: usize = 0;
    while i < names.len()
        invariant
            i <= names@.len(),
            f == (|n: String| memory_file_thread(n@)),
            out@ == names@.take(i as int).filter_map(f),
            forall|j: int, id: u128| #![trigger names@[j], uuid_text(id)] 0 <= j < i && names@[j]@ == uuid_text(id) + ".json"@ ==> memory_file_thread(names@[j]@) == Some(id),
        decreases names@.len() - i,
    {
        proof {
            names@.lemma_filter_map_take_succ(f, i as int);
            reveal_strlit(".json");
        }
        let ghost name = names@[i as int]@;
        match strip_json_suffix(names[i].as_str()) {
            Some(stem) => {
                let parsed = parse_uuid(stem.as_str());
                proof {
                    assert forall|id: u128| name == uuid_text(id) + ".json"@ implies memory_file_thread(name) == Some(id) by {
                        assert(name.take(name.len() - 5) =~= uuid_text(id));
                    }
                }
                match parsed {
                    Some(id) => {
                        out.push(id);
                    },
                    None => {},
                }
            },
            None => {
                proof {
                    assert forall|id: u128| name == uuid_text(id) + ".json"@ implies memory_file_thread(name) == Some(id) by {
                        assert(name.skip(name.len() - 5) =~= ".json"@);
                    }
                }
            },
        }
        i = i + 1;
    }
    assert(names@.take(names@.len() as int) =~= names@);
    out
}

/// The step number of a checkpoint file name, if it is one.
pub fn step_from_file_name(name: &str) -> (r: Option<u64>)
    ensures
        r == step_of_file_name(name@),
{
    match strip_json_suffix(name) {
        Some(stem) => parse_u64(stem.as_str()),
        None => None,
    }
}

/// The steps named by checkpoint files, in ascending order; other names are skipped.
pub fn steps_from_file_names(names: &Vec<String>) -> (r: Vec<u64>)
    ensures
        sorted(r@),
        r@.to_multiset() == names@.filter_map(|n: String| step_of_file_name(n@)).to_multiset(),
{
    let ghost f = |n: String| step_of_file_name(n@);
    let mut steps: Vec<u64> = Vec::new();
    let mut i: usize = 0;
    while i < names.len()
        invariant
            i <= names@.len(),
            f == (|n: String| step_of_file_name(n@)),
            steps@ == names@.take(i as int).filter_map(f),
        decreases names@.len() - i,
    {
        proof {
            names@.lemma_filter_map_take_succ(f, i as int);
        }
        match step_from_file_name(names[i].as_str()) {
            Some(s) => {
                steps.push(s);
            },
            None => {},
        }
        i = i + 1;
    }
    assert(names@.take(names@.len() as int) =~= names@);
    sort_steps(steps)
}

impl LocalFsStateStore {
    pub fn new(root: String) -> (r: Self)
        ensures
            r.root == root,
    {
        LocalFsStateStore { root }
    }

    /// `<root>/state/thread_meta.json`
    pub fn thread_meta_path(&self) -> (r: FsPath)
        ensures
            r@ == under(self.root@, seq!["state"@, "thread_meta.json"@]),
    {
        path2(&self.root, "state", "thread_meta.json")
    }

    /// `<root>/state/checkpoints/<thread>`: everything checkpointed for one thread.
    pub fn checkpoint_thread_dir(&self, thread_id: u128) -> (r: FsPath)
        ensures
            r@ == under(self.root@, seq!["state"@, "checkpoints"@, uuid_text(thread_id)]),
    {
        let t = uuid_to_string(thread_id);
        path3(&self.root, "state", "checkpoints", t.as_str())
    }

    /// `<root>/state/checkpoints/<thread>/<run>`
    pub fn checkpoint_run_dir(&self, thread_id: u128, run_id: u128) -> (r: FsPath)
        ensures
            r@ == under(
                self.root@,
                seq!["state"@, "checkpoints"@, uuid_text(thread_id), uuid_text(run_id)],
            ),
    {
        let r = self.checkpoint_thread_dir(thread_id).join(uuid_to_string(run_id));
        assert(r@.components =~= seq!["state"@, "checkpoints"@, uuid_text(thread_id), uuid_text(run_id)]);
        r
    }

    /// `<root>/state/checkpoints/<thread>/<run>/steps`
    pub fn checkpoint_steps_dir(&self, thread_id: u128, run_id: u128) -> (r: FsPath)
        ensures
            r@ == under(
                self.root@,
                seq!["state"@, "checkpoints"@, uuid_text(thread_id), uuid_text(run_id), "steps"@],
            ),
    {
        let r = self.checkpoint_run_dir(thread_id, run_id).join_str("steps");
        assert(r@.components =~= seq!["state"@, "checkpoints"@, uuid_text(thread_id), uuid_text(run_id), "steps"@]);
        r
    }

    /// `<root>/state/checkpoints/<thread>/<run>/steps/<step:020>.json`
    pub fn checkpoint_step_path(&self, thread_id: u128, run_id: u128, step: u64) -> (r: FsPath)
        ensures
            r@ == under(
                self.root@,
                seq![
                    "state"@,
                    "checkpoints"@,
                    uuid_text(thread_id),
                    uuid_text(run_id),
                    "steps"@,
                    step_file_name(step),
                ],
            ),
    {
        let mut name = u64_to_padded_decimal(step, 20);
        name.append(".json");
        let r = self.checkpoint_steps_dir(thread_id, run_id).join(name);
        assert(r@.components =~= seq![
            "state"@,
            "checkpoints"@,
            uuid_text(thread_id),
            uuid_text(run_id),
            "steps"@,
            step_file_name(step),
        ]);
        r
    }

    /// `<root>/state/checkpoints/<thread>/<run>/latest.json`
    pub fn checkpoint_latest_path(&self, thread_id: u128, run_id: u128) -> (r: FsPath)
        ensures
            r@ == under(
                self.root@,
                seq!["state"@, "checkpoints"@, uuid_text(thread_id), uuid_text(run_id), "latest.json"@],
            ),
    {
        let r = self.checkpoint_run_dir(thread_id, run_id).join_str("latest.json");
        assert(r@.components =~= seq!["state"@, "checkpoints"@, uuid_text(thread_id), uuid_text(run_id), "latest.json"@]);
        r
    }

    /// `<root>/memory`
    pub fn memory_dir(&self) -> (r: FsPath)
        ensures
            r@ == under(self.root@, seq!["memory"@]),
    {
        let r = FsPath::new(self.root.clone()).join_str("memory");
        assert(r@.components =~= seq!["memory"@]);
        r
    }

    /// `<root>/memory/<thread>.json`
    pub fn memory_path(&self, thread_id: u128) -> (r: FsPath)
        ensures
            r@ == under(self.root@, seq!["memory"@, uuid_text(thread_id) + ".json"@]),
    {
        let mut name = uuid_to_string(thread_id);
        name.append(".json");
        let r = self.memory_dir().join(name);
        assert(r@.components =~= seq!["memory"@, uuid_text(thread_id) + ".json"@]);
        r
    }

    /// `<root>/config/skills.json`
    pub fn skills_path(&self) -> (r: FsPath)
        ensures
            r@ == under(self.root@, seq!["config"@, "skills.json"@]),
    {
        path2(&self.root, "config", "skills.json")
    }

    /// `<root>/config/mcp_servers.json`
    pub fn mcp_servers_path(&self) -> (r: FsPath)
        ensures
            r@ == under(self.root@, seq!["config"@, "mcp_servers.json"@]),
    {
        path2(&self.root, "config", "mcp_servers.json")
    }

    /// `<root>/tasks`
    pub fn tasks_dir(&self) -> (r: FsPath)
        ensures
            r@ == under(self.root@, seq!["tasks"@]),
    {
        let r = FsPath::new(self.root.clone()).join_str("tasks");
        assert(r@.components =~= seq!["tasks"@]);
        r
    }

    fn task_file(&self, prefix: &str, id: &str) -> (r: FsPath)
        ensures
            r@ == under(self.root@, seq!["tasks"@, prefix@ + id@ + ".json"@]),
    {
        let r = self.tasks_dir().join(concat3(prefix, id, ".json"));
        assert(r@.components =~= seq!["tasks"@, prefix@ + id@ + ".json"@]);
        r
    }

    /// `<root>/tasks/tools-<thread>.json`
    pub fn tools_path(&self, thread_id: u128) -> (r: FsPath)
        ensures
            r@ == under(self.root@, seq!["tasks"@, "tools-"@ + uuid_text(thread_id) + ".json"@]),
    {
        let t = uuid_to_string(thread_id);
        self.task_file("tools-", t.as_str())
    }

    /// `<root>/tasks/subagents-<thread>.json`
    pub fn subagent_path(&self, thread_id: u128) -> (r: FsPath)
        ensures
            r@ == under(self.root@, seq!["tasks"@, "subagents-"@ + uuid_text(thread_id) + ".json"@]),
    {
        let t = uuid_to_string(thread_id);
        self.task_file("subagents-", t.as_str())
    }

    /// `<root>/tasks/sandbox-<thread>.json`
    pub fn sandbox_path(&self, thread_id: u128) -> (r: FsPath)
        ensures
            r@ == under(self.root@, seq!["tasks"@, "sandbox-"@ + uuid_text(thread_id) + ".json"@]),
    {
        let t = uuid_to_string(thread_id);
        self.task_file("sandbox-", t.as_str())
    }

    /// `<root>/tasks/manage-<thread>.json`
    pub fn manage_task_path(&self, thread_id: &str) -> (r: FsPath)
        ensures
            r@ == under(self.root@, seq!["tasks"@, "manage-"@ + thread_id@ + ".json"@]),
    {
        self.task_file("manage-", thread_id)
    }

    /// What the phase `phase` of the deletion of `thread_id` removes: a directory with
    /// everything under it (`true`) or a file (`false`); nothing for the thread record,
    /// which is an entry of the thread index.
    pub fn deletion_target(&self, thread_id: u128, phase: DeleteThreadPhase) -> (r: Option<(FsPath, bool)>)
        ensures
            match r {
                Some((p, is_dir)) => phase_target(self.root@, thread_id, phase) == Some((p@, is_dir)),
                None => phase_target(self.root@, thread_id, phase) is None,
            },
    {
        match phase {
            DeleteThreadPhase::Checkpoints => Some((self.checkpoint_thread_dir(thread_id), true)),
            DeleteThreadPhase::Memory => Some((self.memory_path(thread_id), false)),
            DeleteThreadPhase::Tools => Some((self.tools_path(thread_id), false)),
            DeleteThreadPhase::Subagents => Some((self.subagent_path(thread_id), false)),
            DeleteThreadPhase::Sandbox => Some((self.sandbox_path(thread_id), false)),
            DeleteThreadPhase::ManageTasks => {
                let t = uuid_to_string(thread_id);
                Some((self.manage_task_path(t.as_str()), false))
            },
            DeleteThreadPhase::Artifacts => Some((self.artifacts_dir(thread_id), true)),
            DeleteThreadPhase::Uploads => Some((self.uploads_dir(thread_id), true)),
            DeleteThreadPhase::ThreadMeta => None,
        }
    }

    /// `Ok` for a safe thread id, else a backend error naming it.
    pub fn require_valid_thread_id(thread_id: &str) -> (r: Result<(), StateError>)
        ensures
            is_safe_thread_id(thread_id@) ==> r is Ok,
            !is_safe_thread_id(thread_id@) ==> (r matches Err(StateError::Backend(m)) && m@
                == "invalid thread_id: "@ + thread_id@),
    {
        require_thread_id(thread_id)
    }

    /// `<root>/artifacts/<thread>`
    pub fn artifacts_dir(&self, thread_id: u128) -> (r: FsPath)
        ensures
            r@ == under(self.root@, seq!["artifacts"@, uuid_text(thread_id)]),
    {
        let t = uuid_to_string(thread_id);
        path2(&self.root, "artifacts", t.as_str())
    }

    /// `<root>/artifacts/<thread>/<name>`
    pub fn artifact_path(&self, thread_id: u128, name: &str) -> (r: FsPath)
        ensures
            r@ == under(self.root@, seq!["artifacts"@, uuid_text(thread_id), name@]),
    {
        let r = self.artifacts_dir(thread_id).join_str(name);
        assert(r@.components =~= seq!["artifacts"@, uuid_text(thread_id), name@]);
        r
    }

    /// `<root>/uploads/<thread>`
    pub fn uploads_dir(&self, thread_id: u128) -> (r: FsPath)
        ensures
            r@ == under(self.root@, seq!["uploads"@, uuid_text(thread_id)]),
    {
        let t = uuid_to_string(thread_id);
        path2(&self.root, "uploads", t.as_str())
    }

    /// `<root>/uploads/<thread>/<filename>`
    pub fn upload_path(&self, thread_id: u128, filename: &str) -> (r: FsPath)
        ensures
            r@ == under(self.root@, seq!["uploads"@, uuid_text(thread_id), filename@]),
    {
        let r = self.uploads_dir(thread_id).join_str(filename);
        assert(r@.components =~= seq!["uploads"@, uuid_text(thread_id), filename@]);
        r
    }

    /// `<root>/config/manage_app.json`
    pub fn manage_app_config_path(&self) -> (r: FsPath)
        ensures
            r@ == under(self.root@, seq!["config"@, "manage_app.json"@]),
    {
        path2(&self.root, "config", "manage_app.json")
    }

    /// `<root>/config/unified_config.json`
    pub fn unified_config_path(&self) -> (r: FsPath)
        ensures
            r@ == under(self.root@, seq!["config"@, "unified_config.json"@]),
    {
        path2(&self.root, "config", "unified_config.json")
    }

    /// `<root>/state/thread_ops/<thread>/last.json`: the last deletion report of a thread.
    pub fn thread_ops_last_path(&self, thread_id: u128) -> (r: FsPath)
        ensures
            r@ == under(self.root@, seq!["state"@, "thread_ops"@, uuid_text(thread_id), "last.json"@]),
    {
        let t = uuid_to_string(thread_id);
        let r = path3(&self.root, "state", "thread_ops", t.as_str()).join_str("last.json");
        assert(r@.components =~= seq!["state"@, "thread_ops"@, uuid_text(thread_id), "last.json"@]);
        r
    }
}

/// `Ok` for a safe thread id, else a backend error naming it.
pub fn require_thread_id(thread_id: &str) -> (r: Result<(), StateError>)
    ensures
        is_safe_thread_id(thread_id@) ==> r is Ok,
        !is_safe_thread_id(thread_id@) ==> (r matches Err(StateError::Backend(m)) && m@
            == "invalid thread_id: "@ + thread_id@),
{
    match sanitize_thread_id(thread_id) {
        Some(_) => Ok(()),
        None => {
            let mut m = "invalid thread_id: ".to_string();
            m.append(thread_id);
            Err(StateError::Backend(m))
        },
    }
}

/// A thread whose manage-task file is addressed by an unsafe id never escapes the tasks
/// directory: writes are refused before any path is built.
pub proof fn law_unsafe_thread_ids_are_refused(thread_id: Seq<char>)
    requires
        thread_id.contains('/') || thread_id.contains('.') || thread_id.len() == 0,
    ensures
        !is_safe_thread_id(thread_id),
{
    if thread_id.len() > 0 {
        if thread_id.contains('/') {
            let k = choose|k: int| 0 <= k < thread_id.len() && thread_id[k] == '/';
            assert(!crate::path_safety::is_thread_id_char(thread_id[k]));
        } else {
            let k = choose|k: int| 0 <= k < thread_id.len() && thread_id[k] == '.';
            assert(!crate::path_safety::is_thread_id_char(thread_id[k]));
        }
    }
}

/// A checkpoint saved at a step is listed back at that step: the step's file name parses
/// to the step.
pub proof fn law_checkpoint_step_names_round_trip(step: u64)
    ensures
        step_of_file_name(step_file_name(step)) == Some(step),
{
    reveal_strlit(".json");
    let digits = padded_decimal(step as nat, 20);
    let name = step_file_name(step);
    assert(name.skip(name.len() - 5) =~= ".json"@);
    assert(name.take(name.len() - 5) =~= digits);
    lemma_parse_padded_decimal(step, 20);
}


/// The file names of the checkpoints saved at `steps`.
pub open spec fn step_file_names(steps: Seq<u64>) -> Seq<Seq<char>> {
    steps.map_values(|s: u64| step_file_name(s))
}

/// The texts of the names.
pub open spec fn name_texts(names: Seq<String>) -> Seq<Seq<char>> {
    names.map_values(|n: String| n@)
}

proof fn lemma_step_files_list_their_steps(saved: Seq<u64>, names: Seq<String>)
    requires
        name_texts(names) == step_file_names(saved),
    ensures
        names.filter_map(|n: String| step_of_file_name(n@)) == saved,
    decreases saved.len(),
{
    assert(names.len() == name_texts(names).len());
    assert(saved.len() == step_file_names(saved).len());
    if saved.len() > 0 {
        let k = saved.len() - 1;
        assert(name_texts(names.drop_last()) =~= name_texts(names).drop_last());
        assert(step_file_names(saved.drop_last()) =~= step_file_names(saved).drop_last());
        lemma_step_files_list_their_steps(saved.drop_last(), names.drop_last());
        assert(name_texts(names)[k] == step_file_names(saved)[k]);
        assert(names.last()@ == step_file_name(saved.last()));
        law_checkpoint_step_names_round_trip(saved.last());
        assert(saved.drop_last() + seq![saved.last()] =~= saved);
    }
}

/// After checkpoints are saved at some steps, a run's steps directory holds one file per
/// saved step, and listing it (what [`steps_from_file_names`] returns for those names)
/// gives each saved step exactly once, in strictly ascending order.
pub proof fn law_listed_steps_are_the_saved_steps(saved: Seq<u64>, names: Seq<String>, listed: Seq<u64>)
    requires
        saved.no_duplicates(),
        name_texts(names) == step_file_names(saved),
        sorted(listed),
        listed.to_multiset() == names.filter_map(|n: String| step_of_file_name(n@)).to_multiset(),
    ensures
        strictly_sorted(listed),
        listed.to_set() == saved.to_set(),
{
    lemma_step_files_list_their_steps(saved, names);
    assert(listed.to_multiset() == saved.to_multiset());
    listed.to_multiset_ensures();
    saved.to_multiset_ensures();
    saved.lemma_multiset_has_no_duplicates();
    listed.lemma_multiset_has_no_duplicates_conv();
    assert forall|i: int, j: int| 0 <= i < j < listed.len() implies listed[i] < listed[j] by {
        assert(listed[i] <= listed[j]);
        assert(listed[i] != listed[j]);
    }
    assert forall|x: u64| listed.to_set().contains(x) <==> saved.to_set().contains(x) by {
        assert(listed.to_multiset().count(x) == saved.to_multiset().count(x));
    }
    assert(listed.to_set() =~= saved.to_set());
}


/// What one phase of a thread's deletion removes in the local file store under `root`: a
/// directory with everything under it (`true`) or a file (`false`); the thread-record
/// phase removes the thread's entry from the thread index and no path.
pub open spec fn phase_target(root: Seq<char>, t: u128, phase: DeleteThreadPhase) -> Option<(FsPathView, bool)> {
    match phase {
        DeleteThreadPhase::Checkpoints => Some((under(root, seq!["state"@, "checkpoints"@, uuid_text(t)]), true)),
        DeleteThreadPhase::Memory => Some((under(root, seq!["memory"@, uuid_text(t) + ".json"@]), false)),
        DeleteThreadPhase::Tools => Some((under(root, seq!["tasks"@, "tools-"@ + uuid_text(t) + ".json"@]), false)),
        DeleteThreadPhase::Subagents => Some((under(root, seq!["tasks"@, "subagents-"@ + uuid_text(t) + ".json"@]), false)),
        DeleteThreadPhase::Sandbox => Some((under(root, seq!["tasks"@, "sandbox-"@ + uuid_text(t) + ".json"@]), false)),
        DeleteThreadPhase::ManageTasks => Some((under(root, seq!["tasks"@, "manage-"@ + uuid_text(t) + ".json"@]), false)),
        DeleteThreadPhase::Artifacts => Some((under(root, seq!["artifacts"@, uuid_text(t)]), true)),
        DeleteThreadPhase::Uploads => Some((under(root, seq!["uploads"@, uuid_text(t)]), true)),
        DeleteThreadPhase::ThreadMeta => None,
    }
}

/// `p` is `q` or a directory that `q` lies under.
pub open spec fn path_prefix(p: FsPathView, q: FsPathView) -> bool {
    &&& p.base == q.base
    &&& p.components.len() <= q.components.len()
    &&& q.components.take(p.components.len() as int) == p.components
}

/// `q` holds data of thread `u`: it lies under (or is) what a phase of `u`'s deletion
/// removes, or it is `u`'s deletion record.
pub open spec fn holds_thread_data(root: Seq<char>, u: u128, q: FsPathView) -> bool {
    ||| exists|p: DeleteThreadPhase| #[trigger] phase_target(root, u, p) matches Some((a, _)) && path_prefix(a, q)
    ||| q == under(root, seq!["state"@, "thread_ops"@, uuid_text(u), "last.json"@])
}

/// The files of state shared by all threads: the thread index, the skills, the MCP
/// servers, the manage application config and the unified config.
pub open spec fn shared_state_paths(root: Seq<char>) -> Seq<FsPathView> {
    seq![
        under(root, seq!["state"@, "thread_meta.json"@]),
        under(root, seq!["config"@, "skills.json"@]),
        under(root, seq!["config"@, "mcp_servers.json"@]),
        under(root, seq!["config"@, "manage_app.json"@]),
        under(root, seq!["config"@, "unified_config.json"@]),
    ]
}

proof fn lemma_uuid_text_len(t: u128)
    ensures
        uuid_text(t).len() == 36,
{
    reveal_strlit("-");
}

proof fn lemma_named_files_differ(p: Seq<char>, q: Seq<char>, t: u128, u: u128)
    requires
        t != u || p != q,
        p.len() == q.len() ==> p == q,
    ensures
        p + uuid_text(t) + ".json"@ != q + uuid_text(u) + ".json"@,
{
    lemma_uuid_text_len(t);
    lemma_uuid_text_len(u);
    let a = p + uuid_text(t) + ".json"@;
    let b = q + uuid_text(u) + ".json"@;
    reveal_strlit(".json");
    if a == b {
        assert(a.len() == p.len() + 41);
        assert(b.len() == q.len() + 41);
        assert(a.subrange(p.len() as int, p.len() + 36int) =~= uuid_text(t));
        assert(b.subrange(q.len() as int, q.len() + 36int) =~= uuid_text(u));
        assert(uuid_text(t) == uuid_text(u));
        lemma_uuid_text_injective(t, u);
        assert(p == q);
    }
}

proof fn lemma_targets_not_nested(root: Seq<char>, t: u128, u: u128, p1: DeleteThreadPhase, p2: DeleteThreadPhase)
    requires
        t != u,
    ensures
        phase_target(root, t, p1) matches Some((a, _)) ==> phase_target(root, u, p2) matches Some((b, _))
            ==> !path_prefix(a, b),
{
    reveal_strlit("state");
    reveal_strlit("memory");
    reveal_strlit("tasks");
    reveal_strlit("artifacts");
    reveal_strlit("uploads");
    reveal_strlit("checkpoints");
    reveal_strlit("tools-");
    reveal_strlit("subagents-");
    reveal_strlit("sandbox-");
    reveal_strlit("manage-");
    reveal_strlit(".json");
    lemma_uuid_text_len(t);
    lemma_uuid_text_len(u);
    if uuid_text(t) == uuid_text(u) {
        lemma_uuid_text_injective(t, u);
    }
    let e = Seq::<char>::empty();
    assert(e + uuid_text(t) =~= uuid_text(t));
    assert(e + uuid_text(u) =~= uuid_text(u));
    lemma_named_files_differ(e, e, t, u);
    let names = seq!["tools-"@, "subagents-"@, "sandbox-"@, "manage-"@];
    assert forall|i: int, j: int| 0 <= i < 4 && 0 <= j < 4 implies
        #[trigger] names[i] + uuid_text(t) + ".json"@ != #[trigger] names[j] + uuid_text(u) + ".json"@ by {
        lemma_named_files_differ(names[i], names[j], t, u);
    }
    match (phase_target(root, t, p1), phase_target(root, u, p2)) {
        (Some((a, _)), Some((b, _))) => {
            if path_prefix(a, b) {
                assert(b.components.take(a.components.len() as int)[0] == b.components[0]);
                if a.components.len() >= 2 {
                    assert(b.components.take(a.components.len() as int)[1] == b.components[1]);
                }
                assert(names[0] == "tools-"@ && names[1] == "subagents-"@ && names[2] == "sandbox-"@ && names[3] == "manage-"@);
            }
        },
        _ => {},
    }
}

proof fn lemma_top_dirs_differ()
    ensures
        "state"@ != "tasks"@,
        "memory"@ != "config"@,
        "state"@ != "config"@,
        "tasks"@ != "config"@,
        "checkpoints"@ != "thread_ops"@,
{
    reveal_strlit("state");
    reveal_strlit("tasks");
    reveal_strlit("memory");
    reveal_strlit("config");
    reveal_strlit("checkpoints");
    reveal_strlit("thread_ops");
    assert("state"@[0] != "tasks"@[0]);
    assert("memory"@[0] != "config"@[0]);
    assert("state"@[0] != "config"@[0]);
    assert("tasks"@[0] != "config"@[0]);
    assert("checkpoints"@[0] != "thread_ops"@[0]);
}

proof fn lemma_target_components(root: Seq<char>, t: u128, phase: DeleteThreadPhase)
    ensures
        phase_target(root, t, phase) matches Some((a, _)) ==> {
            &&& a.base == root
            &&& 2 <= a.components.len() <= 3
            &&& a.components[0] == "state"@ || a.components[0] == "memory"@ || a.components[0] == "tasks"@
                || a.components[0] == "artifacts"@ || a.components[0] == "uploads"@
        },
{
    reveal_strlit("state");
    reveal_strlit("memory");
    reveal_strlit("tasks");
    reveal_strlit("artifacts");
    reveal_strlit("uploads");
    reveal_strlit("checkpoints");
    lemma_top_dirs_differ();
    match phase {
        DeleteThreadPhase::ThreadMeta => {},
        _ => {
            let a = phase_target(root, t, phase).unwrap().0;
            assert(a.components.len() == 2 || a.components.len() == 3);
        },
    }
}

/// Deleting thread `t` in the local file store removes nothing that holds another
/// thread's data and none of the shared state files: no phase of it removes such a path
/// or a directory it lies under.
pub proof fn law_thread_deletion_spares_other_data(root: Seq<char>, t: u128, u: u128, phase: DeleteThreadPhase, q: FsPathView)
    requires
        t != u,
        holds_thread_data(root, u, q) || shared_state_paths(root).contains(q),
    ensures
        phase_target(root, t, phase) matches Some((a, _)) ==> !path_prefix(a, q),
{
    reveal_strlit("state");
    reveal_strlit("config");
    reveal_strlit("memory");
    reveal_strlit("tasks");
    reveal_strlit("artifacts");
    reveal_strlit("uploads");
    reveal_strlit("checkpoints");
    reveal_strlit("thread_ops");
    reveal_strlit("thread_meta.json");
    lemma_top_dirs_differ();
    if let Some((a, _)) = phase_target(root, t, phase) {
        if path_prefix(a, q) {
            assert(q.components.take(a.components.len() as int)[0] == q.components[0]);
            assert(q.components.take(a.components.len() as int)[1] == q.components[1]);
            if shared_state_paths(root).contains(q) {
                let k = choose|k: int| 0 <= k < 5 && shared_state_paths(root)[k] == q;
                lemma_target_components(root, t, phase);
                assert(q.components.len() == 2);
                assert(a.components[0] == q.components[0]);
                assert(a.components[1] == q.components[1]);
                assert(false);
            } else if q == under(root, seq!["state"@, "thread_ops"@, uuid_text(u), "last.json"@]) {
                lemma_target_components(root, t, phase);
                assert(a.components[0] == q.components[0]);
                assert(a.components[1] == q.components[1]);
                assert(false);
            } else {
                let p2 = choose|p: DeleteThreadPhase| #[trigger] phase_target(root, u, p) matches Some((b, _)) && path_prefix(b, q);
                let b = phase_target(root, u, p2).unwrap().0;
                lemma_targets_not_nested(root, t, u, phase, p2);
                lemma_targets_not_nested(root, u, t, p2, phase);
                if a.components.len() <= b.components.len() {
                    assert(b.components.take(a.components.len() as int) =~= q.components.take(a.components.len() as int));
                } else {
                    assert(a.components.take(b.components.len() as int) =~= q.components.take(b.components.len() as int));
                }
            }
        }
    }
}

} // verus!
