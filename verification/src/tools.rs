//! Tools: the registry of tools by name and its agreement with the tool manifests, the
//! arguments of a clarification request, and JSON-schema validation of tool arguments.

use vstd::prelude::*;
use crate::errors::ToolError;
use crate::json::{
    json_as_array, json_as_object, json_elements, json_entries, json_fields, json_from_object, json_from_opt_string, json_from_string, json_from_strings,
    json_object_get, json_object_insert, json_object_keys, json_object_new, json_object_of, json_opt_text, json_text, json_texts,
    str_elements, str_member, string_elements, string_member,
};
use crate::text::str_eq;

verus! {

/// Tools by name; registering a name again replaces its tool.
pub struct ToolRegistry<T> {
    tools: Vec<(String, T)>,
}

impl<T> ToolRegistry<T> {
    /// The registered names, in registration order.
    pub closed spec fn names(&self) -> Seq<Seq<char>> {
        self.tools@.map_values(|e: (String, T)| e.0@)
    }

    /// The tool registered under a name, if any.
    pub closed spec fn tool(&self, name: Seq<char>) -> Option<T> {
        tool_in(self.tools@, name)
    }

    /// No name is registered twice.
    pub closed spec fn wf(&self) -> bool {
        forall|i: int, j: int| 0 <= i < j < self.tools@.len() ==> self.tools@[i].0@ != self.tools@[j].0@
    }

    pub fn new() -> (r: Self)
        ensures
            r.wf(),
            r.names() == Seq::<Seq<char>>::empty(),
    {
        let r = ToolRegistry { tools: Vec::new() };
        assert(r.names() =~= Seq::<Seq<char>>::empty());
        r
    }

    fn position(&self, name: &str) -> (r: Option<usize>)
        ensures
            match r {
                Some(i) => i < self.tools@.len() && self.tools@[i as int].0@ == name@,
                None => forall|i: int| 0 <= i < self.tools@.len() ==> self.tools@[i].0@ != name@,
            },
    {
        let mut i: usize = 0;
        while i < self.tools.len()
            invariant
                i <= self.tools@.len(),
                forall|j: int| 0 <= j < i ==> self.tools@[j].0@ != name@,
            decreases self.tools@.len() - i,
        {
            if str_eq(self.tools[i].0.as_str(), name) {
                return Some(i);
            }
            i = i + 1;
        }
        None
    }

    /// Registers `tool` under `name`, replacing any tool registered under it.
    pub fn register(&mut self, name: String, tool: T)
        requires
            old(self).wf(),
        ensures
            final(self).wf(),
            final(self).tool(name@) == Some(tool),
            forall|n: Seq<char>| n != name@ ==> #[trigger] final(self).tool(n) == old(self).tool(n),
            final(self).names().to_set() == old(self).names().to_set().insert(name@),
    {
        let ghost before = self.tools@;
        let ghost nv = name@;
        let ghost entry = (name, tool);
        match self.position(name.as_str()) {
            Some(i) => {
                self.tools.set(i, (name, tool));
                assert(self.tools@ == before.update(i as int, entry));
                assert forall|a: int, b: int| 0 <= a < b < self.tools@.len() implies self.tools@[a].0@
                    != self.tools@[b].0@ by {
                    assert(self.tools@[a].0@ == before[a].0@);
                    assert(self.tools@[b].0@ == before[b].0@);
                }
                assert(self.tools@[i as int].0@ == nv);
                proof {
                    lemma_tool_at(self.tools@, i as int);
                    assert forall|n: Seq<char>| n != nv implies #[trigger] self.tool(n) == old(self).tool(n) by {
                        if exists|k: int| 0 <= k < before.len() && before[k].0@ == n {
                            let k = choose|k: int| 0 <= k < before.len() && before[k].0@ == n;
                            assert(k != i);
                            lemma_tool_at(before, k);
                            assert(self.tools@[k] == before[k]);
                            lemma_tool_at(self.tools@, k);
                        } else {
                            assert forall|k: int| 0 <= k < self.tools@.len() implies self.tools@[k].0@ != n by {
                                if k != i {
                                    assert(self.tools@[k] == before[k]);
                                }
                            }
                        }
                    }
                }
                assert(self.names() =~= old(self).names().update(i as int, nv));
                assert(self.names().to_set() =~= old(self).names().to_set().insert(nv)) by {
                    assert(old(self).names()[i as int] == nv);
                    assert(self.names()[i as int] == nv);
                    assert forall|n: Seq<char>| self.names().to_set().contains(n) <==> old(self).names().to_set().insert(nv).contains(n) by {
                        if n == nv {
                            assert(self.names()[i as int] == n);
                            assert(self.names().contains(n));
                        }
                        if old(self).names().contains(n) && n != nv {
                            let k = choose|k: int| 0 <= k < old(self).names().len() && old(self).names()[k] == n;
                            assert(self.names()[k] == n);
                        }
                        if self.names().contains(n) {
                            let k = choose|k: int| 0 <= k < self.names().len() && self.names()[k] == n;
                            if k != i {
                                assert(old(self).names()[k] == n);
                            }
                        }
                    }
                }
            },
            None => {
                self.tools.push((name, tool));
                assert(self.tools@ == before.push(entry));
                assert(self.tools@[before.len() as int].0@ == nv);
                assert forall|a: int, b: int| 0 <= a < b < self.tools@.len() implies self.tools@[a].0@
                    != self.tools@[b].0@ by {
                    if b == before.len() {
                        assert(self.tools@[a] == before[a]);
                    } else {
                        assert(self.tools@[a] == before[a] && self.tools@[b] == before[b]);
                    }
                }
                proof {
                    lemma_tool_at(self.tools@, before.len() as int);
                    assert forall|n: Seq<char>| n != nv implies #[trigger] self.tool(n) == old(self).tool(n) by {
                        if exists|k: int| 0 <= k < before.len() && before[k].0@ == n {
                            let k = choose|k: int| 0 <= k < before.len() && before[k].0@ == n;
                            lemma_tool_at(before, k);
                            assert(self.tools@[k] == before[k]);
                            lemma_tool_at(self.tools@, k);
                        } else {
                            assert forall|k: int| 0 <= k < self.tools@.len() implies self.tools@[k].0@ != n by {
                                if k < before.len() {
                                    assert(self.tools@[k] == before[k]);
                                }
                            }
                        }
                    }
                }
                assert(self.names() =~= old(self).names().push(nv));
                assert(self.names().to_set() =~= old(self).names().to_set().insert(nv)) by {
                    assert forall|n: Seq<char>| self.names().to_set().contains(n) <==> old(self).names().to_set().insert(nv).contains(n) by {
                        if old(self).names().contains(n) {
                            let k = choose|k: int| 0 <= k < old(self).names().len() && old(self).names()[k] == n;
                            assert(self.names()[k] == n);
                        }
                        if n == nv {
                            assert(self.names()[before.len() as int] == n);
                        }
                        if self.names().contains(n) {
                            let k = choose|k: int| 0 <= k < self.names().len() && self.names()[k] == n;
                            if k < before.len() {
                                assert(old(self).names()[k] == n);
                            }
                        }
                    }
                }
            },
        }
    }

    /// The tool registered under `name`; an error naming it when there is none.
    pub fn get(&self, name: &str) -> (r: Result<&T, ToolError>)
        requires
            self.wf(),
        ensures
            match self.tool(name@) {
                Some(t) => r matches Ok(u) && *u == t,
                None => r matches Err(ToolError::Execution(m)) && m@ == "unknown tool "@ + name@,
            },
    {
        match self.position(name) {
            Some(i) => {
                proof {
                    lemma_tool_at(self.tools@, i as int);
                }
                Ok(&self.tools[i].1)
            },
            None => {
                let mut m = "unknown tool ".to_string();
                m.append(name);
                Err(ToolError::Execution(m))
            },
        }
    }

    /// The registered names, in registration order.
    pub fn registered_names(&self) -> (r: Vec<String>)
        ensures
            r@.map_values(|s: String| s@) == self.names(),
    {
        let mut out: Vec<String> = Vec::new();
        let mut i: usize = 0;
        while i < self.tools.len()
            invariant
                i <= self.tools@.len(),
                out@.map_values(|s: String| s@) == self.names().take(i as int),
            decreases self.tools@.len() - i,
        {
            let ghost before = out@.map_values(|s: String| s@);
            out.push(self.tools[i].0.clone());
            assert(out@.map_values(|s: String| s@) =~= before.push(self.names()[i as int]));
            assert(self.names().take(i + 1) =~= self.names().take(i as int).push(self.names()[i as int]));
            i = i + 1;
        }
        assert(self.names().take(self.tools@.len() as int) =~= self.names());
        out
    }

    /// Every registered tool is listed in the manifests and every listed tool is
    /// registered; otherwise an error naming the first tool, registered ones first, that
    /// breaks this.
    pub fn ensure_consistent_with_manifest_list(&self, manifest_tool_names: &Vec<String>) -> (r: Result<(), ToolError>)
        ensures
            match consistency_problem(self.names(), manifest_tool_names@.map_values(|s: String| s@)) {
                Some(m) => r matches Err(ToolError::Execution(t)) && t@ == m,
                None => r is Ok,
            },
    {
        let names = self.registered_names();
        check_tool_lists(&names, manifest_tool_names)
    }
}

/// The tool of the entry named `name`, if any.
pub open spec fn tool_in<T>(tools: Seq<(String, T)>, name: Seq<char>) -> Option<T> {
    if exists|i: int| 0 <= i < tools.len() && tools[i].0@ == name {
        Some(tools[choose|i: int| 0 <= i < tools.len() && tools[i].0@ == name].1)
    } else {
        None
    }
}

/// With distinct names, the entry at `i` is the one found by its name.
proof fn lemma_tool_at<T>(tools: Seq<(String, T)>, i: int)
    requires
        forall|a: int, b: int| 0 <= a < b < tools.len() ==> tools[a].0@ != tools[b].0@,
        0 <= i < tools.len(),
    ensures
        tool_in(tools, tools[i].0@) == Some(tools[i].1),
{
    let name = tools[i].0@;
    let k = choose|k: int| 0 <= k < tools.len() && tools[k].0@ == name;
    if k != i {
        if k < i {
            assert(tools[k].0@ != tools[i].0@);
        } else {
            assert(tools[i].0@ != tools[k].0@);
        }
    }
}

/// The first position of `s` whose element `bad` holds, if any.
pub open spec fn first_where(s: Seq<Seq<char>>, bad: spec_fn(Seq<char>) -> bool) -> Option<int> {
    if exists|i: int| 0 <= i < s.len() && bad(s[i]) {
        Some(choose|i: int| 0 <= i < s.len() && bad(s[i]) && forall|j: int| 0 <= j < i ==> !bad(s[j]))
    } else {
        None
    }
}

/// What the consistency check finds wrong with registered and listed names: the first
/// registered name not listed, else the first listed name not registered.
pub open spec fn consistency_problem(registered: Seq<Seq<char>>, listed: Seq<Seq<char>>) -> Option<Seq<char>> {
    match first_where(registered, |n: Seq<char>| !listed.contains(n)) {
        Some(i) => Some("registry has tool "@ + registered[i] + " not listed in governance tool manifests"@),
        None => match first_where(listed, |n: Seq<char>| !registered.contains(n)) {
            Some(i) => Some("tools.yaml lists tool "@ + listed[i] + " but it is not registered in ToolRegistry"@),
            None => None,
        },
    }
}

proof fn lemma_first_where(s: Seq<Seq<char>>, bad: spec_fn(Seq<char>) -> bool, i: int)
    requires
        0 <= i < s.len(),
        bad(s[i]),
        forall|j: int| 0 <= j < i ==> !bad(s[j]),
    ensures
        first_where(s, bad) == Some(i),
{
    let k = choose|k: int| 0 <= k < s.len() && bad(s[k]) && forall|j: int| 0 <= j < k ==> !bad(s[j]);
    if k < i {
        assert(!bad(s[k]));
    }
    if k > i {
        assert(!bad(s[i]));
    }
}

fn contains_text(items: &Vec<String>, t: &str) -> (r: bool)
    ensures
        r == items@.map_values(|s: String| s@).contains(t@),
{
    let ghost views = items@.map_values(|s: String| s@);
    let mut i: usize = 0;
    while i < items.len()
        invariant
            i <= items@.len(),
            views == items@.map_values(|s: String| s@),
            forall|j: int| 0 <= j < i ==> views[j] != t@,
        decreases items@.len() - i,
    {
        if str_eq(items[i].as_str(), t) {
            assert(views[i as int] == t@);
            return true;
        }
        i = i + 1;
    }
    false
}

/// Compares registered tool names with the names the manifests list.
pub fn check_tool_lists(registered: &Vec<String>, listed: &Vec<String>) -> (r: Result<(), ToolError>)
    ensures
        match consistency_problem(registered@.map_values(|s: String| s@), listed@.map_values(|s: String| s@)) {
            Some(m) => r matches Err(ToolError::Execution(t)) && t@ == m,
            None => r is Ok,
        },
{
    let ghost rv = registered@.map_values(|s: String| s@);
    let ghost lv = listed@.map_values(|s: String| s@);
    let ghost not_listed = |n: Seq<char>| !lv.contains(n);
    let ghost not_registered = |n: Seq<char>| !rv.contains(n);
    let mut i: usize = 0;
    while i < registered.len()
        invariant
            i <= registered@.len(),
            rv == registered@.map_values(|s: String| s@),
            lv == listed@.map_values(|s: String| s@),
            not_listed == (|n: Seq<char>| !lv.contains(n)),
            forall|j: int| 0 <= j < i ==> !not_listed(rv[j]),
        decreases registered@.len() - i,
    {
        if !contains_text(listed, registered[i].as_str()) {
            proof {
                lemma_first_where(rv, not_listed, i as int);
            }
            let mut m = "registry has tool ".to_string();
            m.append(registered[i].as_str());
            m.append(" not listed in governance tool manifests");
            return Err(ToolError::Execution(m));
        }
        i = i + 1;
    }
    assert(first_where(rv, not_listed) is None);
    let mut k: usize = 0;
    while k < listed.len()
        invariant
            k <= listed@.len(),
            rv == registered@.map_values(|s: String| s@),
            lv == listed@.map_values(|s: String| s@),
            not_registered == (|n: Seq<char>| !rv.contains(n)),
            not_listed == (|n: Seq<char>| !lv.contains(n)),
            first_where(rv, not_listed) is None,
            forall|j: int| 0 <= j < k ==> !not_registered(lv[j]),
        decreases listed@.len() - k,
    {
        if !contains_text(registered, listed[k].as_str()) {
            proof {
                lemma_first_where(lv, not_registered, k as int);
            }
            let mut m = "tools.yaml lists tool ".to_string();
            m.append(listed[k].as_str());
            m.append(" but it is not registered in ToolRegistry");
            return Err(ToolError::Execution(m));
        }
        k = k + 1;
    }
    assert(first_where(lv, not_registered) is None);
    Ok(())
}

/// A request to ask the user for clarification.
#[derive(Debug, Clone, PartialEq, Eq)]
pub struct ClarificationRequest {
    pub question: String,
    pub clarification_type: String,
    pub context: Option<String>,
    pub options: Vec<String>,
}

impl ClarificationRequest {
    /// Reads a request from tool arguments: `question` (default "Please clarify"),
    /// `clarification_type` (default "missing_info"), an optional `context`, and the string
    /// elements of `options`.
    pub fn from_args(args: &serde_json::Value) -> (r: Self)
        ensures
            r.question@ == match str_member(*args, "question"@) {
                Some(q) => q,
                None => "Please clarify"@,
            },
            r.clarification_type@ == match str_member(*args, "clarification_type"@) {
                Some(t) => t,
                None => "missing_info"@,
            },
            match str_member(*args, "context"@) {
                Some(c) => r.context matches Some(s) && s@ == c,
                None => r.context is None,
            },
            r.options@.map_values(|o: String| o@) == str_elements(*args, "options"@),
    {
        proof {
            reveal_strlit("question");
            reveal_strlit("clarification_type");
            reveal_strlit("context");
            reveal_strlit("options");
        }
        let question = match string_member(args, "question") {
            Some(q) => q,
            None => "Please clarify".to_string(),
        };
        let clarification_type = match string_member(args, "clarification_type") {
            Some(t) => t,
            None => "missing_info".to_string(),
        };
        let context = string_member(args, "context");
        let options = string_elements(args, "options");
        ClarificationRequest { question, clarification_type, context, options }
    }

    /// The answer of the clarification tool when no handler takes the request: the
    /// request itself, marked as a pending clarification request.
    pub fn pending_response(&self) -> (r: serde_json::Value)
        ensures
            r == json_object_of(Map::<Seq<char>, serde_json::Value>::empty().insert(
                "type"@,
                json_text("clarification_request"@),
            ).insert("question"@, json_text(self.question@)).insert(
                "clarification_type"@,
                json_text(self.clarification_type@),
            ).insert(
                "context"@,
                json_opt_text(
                    match self.context {
                        Some(c) => Some(c@),
                        None => None,
                    },
                ),
            ).insert("options"@, json_texts(self.options@.map_values(|o: String| o@))).insert(
                "status"@,
                json_text("pending_user_response"@),
            )),
    {
        let mut m = json_object_new();
        json_object_insert(&mut m, "type".to_string(), json_from_string("clarification_request".to_string()));
        json_object_insert(&mut m, "question".to_string(), json_from_string(self.question.clone()));
        json_object_insert(
            &mut m,
            "clarification_type".to_string(),
            json_from_string(self.clarification_type.clone()),
        );
        json_object_insert(&mut m, "context".to_string(), json_from_opt_string(self.context.clone()));
        let options = self.options.clone();
        assert(options@.map_values(|o: String| o@) =~= self.options@.map_values(|o: String| o@));
        json_object_insert(&mut m, "options".to_string(), json_from_strings(options));
        json_object_insert(&mut m, "status".to_string(), json_from_string("pending_user_response".to_string()));
        assert(json_entries(m) =~= Map::<Seq<char>, serde_json::Value>::empty().insert(
            "type"@,
            json_text("clarification_request"@),
        ).insert("question"@, json_text(self.question@)).insert(
            "clarification_type"@,
            json_text(self.clarification_type@),
        ).insert(
            "context"@,
            json_opt_text(
                match self.context {
                    Some(c) => Some(c@),
                    None => None,
                },
            ),
        ).insert("options"@, json_texts(self.options@.map_values(|o: String| o@))).insert(
            "status"@,
            json_text("pending_user_response"@),
        ));
        json_from_object(m)
    }
}

/// How deeply a schema may nest for validation: values inside values, counting the
/// schema itself as the first level.
pub const MAX_SCHEMA_DEPTH: usize = 32;

/// `v` nests at most `depth` levels deep and no object in it has a `$ref` key.
pub open spec fn ref_free_within(v: serde_json::Value, depth: nat) -> bool
    decreases depth,
{
    &&& depth > 0
    &&& match json_elements(v) {
        Some(items) => forall|i: int| #![trigger items[i]] 0 <= i < items.len() ==> ref_free_within(items[i], (depth - 1) as nat),
        None => true,
    }
    &&& match json_fields(v) {
        Some(f) => !f.contains_key("$ref"@) && forall|k: Seq<char>| #![trigger f[k]] f.contains_key(k) ==> ref_free_within(f[k], (depth - 1) as nat),
        None => true,
    }
}

/// A schema that validation handles without following references: no `$ref` anywhere
/// (a reference may lead back to itself, and resolving it again never ends) and at most
/// [`MAX_SCHEMA_DEPTH`] levels deep.
pub open spec fn plain_schema(schema: serde_json::Value) -> bool {
    ref_free_within(schema, MAX_SCHEMA_DEPTH as nat)
}

fn check_ref_free(v: &serde_json::Value, depth: usize) -> (r: bool)
    ensures
        r == ref_free_within(*v, depth as nat),
    decreases depth,
{
    if depth == 0 {
        return false;
    }
    let ghost d: nat = (depth as nat - 1) as nat;
    match json_as_array(v) {
        Some(items) => {
            let mut i: usize = 0;
            while i < items.len()
                invariant
                    0 < depth,
                    d == depth - 1,
                    json_elements(*v) == Some(items@),
                    i <= items@.len(),
                    forall|j: int| #![trigger items@[j]] 0 <= j < i ==> ref_free_within(items@[j], d),
                decreases items@.len() - i,
            {
                let ok = check_ref_free(&items[i], depth - 1);
                if !ok {
                    assert(!ref_free_within(items@[i as int], d));
                    assert(json_elements(*v)->0[i as int] == items@[i as int]);
                    assert(!ref_free_within(*v, depth as nat));
                    return false;
                }
                i = i + 1;
            }
        },
        None => {},
    }
    match json_as_object(v) {
        Some(m) => {
            if json_object_get(m, "$ref").is_some() {
                return false;
            }
            let keys = json_object_keys(m);
            let mut i: usize = 0;
            while i < keys.len()
                invariant
                    0 < depth,
                    d == depth - 1,
                    json_fields(*v) == Some(json_entries(*m)),
                    i <= keys@.len(),
                    forall|j: int| 0 <= j < i ==> json_entries(*m).contains_key(#[trigger] keys@[j]@)
                        ==> ref_free_within(json_entries(*m)[keys@[j]@], d),
                decreases keys@.len() - i,
            {
                match json_object_get(m, keys[i].as_str()) {
                    Some(val) => {
                        let ok = check_ref_free(val, depth - 1);
                        if !ok {
                            assert(!ref_free_within(json_entries(*m)[keys@[i as int]@], d));
                            return false;
                        }
                    },
                    None => {},
                }
                i = i + 1;
            }
            assert forall|k: Seq<char>| #![trigger json_entries(*m)[k]] json_entries(*m).contains_key(k) implies ref_free_within(json_entries(*m)[k], d) by {
                let j = choose|j: int| 0 <= j < keys@.len() && #[trigger] keys@[j]@ == k;
            }
        },
        None => {},
    }
    true
}

/// Whether a schema is plain: no `$ref` anywhere and at most [`MAX_SCHEMA_DEPTH`] levels.
pub fn is_plain_schema(schema: &serde_json::Value) -> (r: bool)
    ensures
        r == plain_schema(*schema),
{
    check_ref_free(schema, MAX_SCHEMA_DEPTH)
}

/// Whether `schema` compiles as a JSON Schema.
pub uninterp spec fn schema_compiles(schema: serde_json::Value) -> bool;

/// The first error of validating `instance` against a compiling `schema`, as text.
pub uninterp spec fn schema_first_error(schema: serde_json::Value, instance: serde_json::Value) -> Option<Seq<char>>;

/// Whether a plain schema compiles.
///
/// Calls `jsonschema::JSONSchema::compile` and reports whether it succeeded.
#[verifier::external_body]
fn compile_schema_check(schema: &serde_json::Value) -> (r: bool)
    requires
        plain_schema(*schema),
    ensures
        r == schema_compiles(*schema),
{
    jsonschema::JSONSchema::compile(schema).is_ok()
}

/// The first error of validating `instance` against a plain `schema`, as its display
/// text.
///
/// Calls `jsonschema::JSONSchema::validate` on the compiled schema and reads the first
/// error the validation reports.
#[verifier::external_body]
fn first_schema_error(schema: &serde_json::Value, instance: &serde_json::Value) -> (r: Option<String>)
    requires
        plain_schema(*schema),
        schema_compiles(*schema),
    ensures
        match r {
            Some(m) => schema_first_error(*schema, *instance) == Some(m@),
            None => schema_first_error(*schema, *instance) is None,
        },
{
    match jsonschema::JSONSchema::compile(schema) {
        Ok(compiled) => match compiled.validate(instance) {
            Ok(()) => None,
            Err(mut errors) => errors.next().map(|e| e.to_string()),
        },
        Err(_) => None,
    }
}

/// Validates tool arguments against the tool's schema: an error with the first
/// violation's text, or success.
pub fn validate_instance(schema: &serde_json::Value, instance: &serde_json::Value) -> (r: Result<(), ToolError>)
    requires
        plain_schema(*schema),
        schema_compiles(*schema),
    ensures
        match schema_first_error(*schema, *instance) {
            Some(m) => r matches Err(ToolError::Validation(t)) && t@ == m,
            None => r is Ok,
        },
{
    match first_schema_error(schema, instance) {
        Some(m) => Err(ToolError::Validation(m)),
        None => Ok(()),
    }
}

/// Validates tool arguments against a schema that is first checked: `None` when the
/// schema is not plain (it holds a `$ref` or nests too deeply) or does not compile, else
/// the outcome of [`validate_instance`].
pub fn validate_instance_checked(schema: &serde_json::Value, instance: &serde_json::Value) -> (r: Option<Result<(), ToolError>>)
    ensures
        !(plain_schema(*schema) && schema_compiles(*schema)) ==> r is None,
        plain_schema(*schema) && schema_compiles(*schema) ==> (r matches Some(v) && match schema_first_error(*schema, *instance) {
            Some(m) => v matches Err(ToolError::Validation(t)) && t@ == m,
            None => v is Ok,
        }),
{
    if is_plain_schema(schema) && compile_schema_check(schema) {
        Some(validate_instance(schema, instance))
    } else {
        None
    }
}

} // verus!
