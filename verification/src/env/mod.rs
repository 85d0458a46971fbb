//! Environments: named sets of variables, secrets, hooks and settings. An
//! environment named `a/b` inherits from `a`, and one without a `/` in its name
//! from the base environment; what an environment defines itself takes precedence
//! over what it inherits.
use vstd::prelude::*;

use crate::json::{json_document, parse_json};
use crate::map::OrderedMap;
use crate::runner::value::{ValueView, json_value};
use crate::space::Lapse;
use error::EnvError;
use hook::{Event, enabled_hooks, enabled_scripts};
use crate::runner::value::Value;
use crate::text::{chars_of, slice_of, string_from, string_views};
use config::EnvConfig;
use hook::{EventMap, HookEntry};

pub mod config;
pub mod error;
pub mod hook;

verus! {

/// An environment: its variables and secrets, its hooks by event, and its settings.
#[derive(Debug, PartialEq, Eq)]
pub struct Env {
    pub variables: OrderedMap<Value>,
    pub secrets: OrderedMap<Value>,
    pub hooks: EventMap<HookEntry>,
    pub config: EnvConfig,
}

impl Default for Env {
    fn default() -> (e: Env)
        ensures
            e.variables.view() == Map::<Seq<char>, Value>::empty(),
            e.secrets.view() == Map::<Seq<char>, Value>::empty(),
            e.hooks.view() == Map::<hook::Event, HookEntry>::empty(),
            e.config.default_scheme == config::DefaultScheme::Http,
    {
        Env {
            variables: OrderedMap::new(),
            secrets: OrderedMap::new(),
            hooks: EventMap::new(),
            config: EnvConfig::default(),
        }
    }
}

impl Env {
    /// `self` with `rhs` laid over it: each variable, secret and hook of `rhs`
    /// replaces the one of `self` under the same name or event, and the settings are
    /// those of `rhs`.
    pub fn add(self, rhs: Env) -> (r: Env)
        ensures
            r.variables.view() == self.variables.view().union_prefer_right(rhs.variables.view()),
            r.secrets.view() == self.secrets.view().union_prefer_right(rhs.secrets.view()),
            r.hooks.view() == self.hooks.view().union_prefer_right(rhs.hooks.view()),
            r.config == rhs.config,
    {
        let Env { mut variables, mut secrets, mut hooks, config: _ } = self;
        let Env { variables: rv, secrets: rs, hooks: rh, config } = rhs;
        variables.extend(rv);
        secrets.extend(rs);
        hooks.extend(rh);
        Env { variables, secrets, hooks, config }
    }
}

/// The variables of `envs` laid over one another, the last on top.
pub open spec fn merged_variables(envs: Seq<Env>) -> Map<Seq<char>, Value>
    decreases envs.len(),
{
    if envs.len() == 0 {
        Map::empty()
    } else {
        merged_variables(envs.drop_last()).union_prefer_right(envs.last().variables.view())
    }
}

/// The secrets of `envs` laid over one another, the last on top.
pub open spec fn merged_secrets(envs: Seq<Env>) -> Map<Seq<char>, Value>
    decreases envs.len(),
{
    if envs.len() == 0 {
        Map::empty()
    } else {
        merged_secrets(envs.drop_last()).union_prefer_right(envs.last().secrets.view())
    }
}

/// The hooks of `envs` laid over one another, the last on top.
pub open spec fn merged_hooks(envs: Seq<Env>) -> Map<hook::Event, HookEntry>
    decreases envs.len(),
{
    if envs.len() == 0 {
        Map::empty()
    } else {
        merged_hooks(envs.drop_last()).union_prefer_right(envs.last().hooks.view())
    }
}

/// The environments of `envs` added up in order, the last taking precedence; the
/// empty environment when there are none.
pub fn merge_envs(envs: Vec<Env>) -> (r: Env)
    ensures
        r.variables.view() == merged_variables(envs@),
        r.secrets.view() == merged_secrets(envs@),
        r.hooks.view() == merged_hooks(envs@),
        envs@.len() > 0 ==> r.config == envs@.last().config,
        envs@.len() == 0 ==> r.config.default_scheme == config::DefaultScheme::Http,
{
    let ghost all = envs@;
    let mut rest = envs;
    let mut acc = Env::default();
    let ghost mut n: int = 0;
    proof {
        assert(all.take(0) =~= Seq::<Env>::empty());
        assert(rest@ =~= all.skip(0));
    }
    while rest.len() > 0
        invariant
            0 <= n <= all.len(),
            rest@ == all.skip(n),
            acc.variables.view() == merged_variables(all.take(n)),
            acc.secrets.view() == merged_secrets(all.take(n)),
            acc.hooks.view() == merged_hooks(all.take(n)),
            n > 0 ==> acc.config == all[n - 1].config,
            n == 0 ==> acc.config.default_scheme == config::DefaultScheme::Http,
        decreases rest.len(),
    {
        let ghost old_rest = rest@;
        proof {
            assert(old_rest.len() == all.len() - n);
            assert(old_rest[0] == all[n]);
        }
        let e = rest.remove(0);
        proof {
            assert(rest@ =~= all.skip(n + 1));
            assert(all.take(n + 1).drop_last() =~= all.take(n));
            assert(all.take(n + 1).last() == e);
        }
        acc = acc.add(e);
        proof {
            n = n + 1;
        }
    }
    proof {
        assert(all.take(n) =~= all);
    }
    acc
}

/// What an environment sees of a variable: its own value where it defines one, and
/// otherwise what it inherits from the environments before it.
pub proof fn law_inheritance(envs: Seq<Env>, k: Seq<char>)
    requires
        envs.len() > 0,
    ensures
        envs.last().variables.view().dom().contains(k) ==> merged_variables(envs).dom().contains(k)
            && merged_variables(envs)[k] == envs.last().variables.view()[k],
        !envs.last().variables.view().dom().contains(k) ==> (merged_variables(envs).dom().contains(
            k,
        ) <==> merged_variables(envs.drop_last()).dom().contains(k)),
        !envs.last().variables.view().dom().contains(k) && merged_variables(
            envs.drop_last(),
        ).dom().contains(k) ==> merged_variables(envs)[k] == merged_variables(envs.drop_last())[k],
{
}

/// The index of the last `/` of `s`, or -1 where it has none.
pub open spec fn last_slash(s: Seq<char>) -> int
    decreases s.len(),
{
    if s.len() == 0 {
        -1
    } else if s.last() == '/' {
        s.len() - 1
    } else {
        last_slash(s.drop_last())
    }
}

pub proof fn lemma_last_slash(s: Seq<char>)
    ensures
        -1 <= last_slash(s) < s.len(),
        last_slash(s) >= 0 ==> s[last_slash(s)] == '/',
        forall|i: int| last_slash(s) < i < s.len() ==> s[i] != '/',
    decreases s.len(),
{
    if s.len() > 0 && s.last() != '/' {
        lemma_last_slash(s.drop_last());
        assert forall|i: int| last_slash(s) < i < s.len() implies s[i] != '/' by {
            if i < s.len() - 1 {
                assert(s[i] == s.drop_last()[i]);
            }
        }
    }
}

/// The environment that the environment `name` inherits from: the name before its
/// last `/`, or the base environment (`None`) for a name without `/`.
pub open spec fn env_parent(name: Seq<char>) -> Option<Seq<char>> {
    if last_slash(name) >= 0 {
        Some(name.take(last_slash(name)))
    } else {
        None
    }
}

/// The environments that make up the environment `name`, outermost first: the base
/// environment (the empty name), each environment it inherits from, and `name`.
pub open spec fn env_chain(name: Seq<char>) -> Seq<Seq<char>>
    decreases name.len(),
{
    if last_slash(name) >= 0 {
        proof {
            lemma_last_slash(name);
        }
        env_chain(name.take(last_slash(name))).push(name)
    } else {
        seq![Seq::<char>::empty(), name]
    }
}

/// The index of the last `/` of `s`.
fn find_last_slash(s: &Vec<char>) -> (r: Option<usize>)
    ensures
        r is None <==> last_slash(s@) < 0,
        r matches Some(i) ==> i == last_slash(s@),
{
    proof {
        lemma_last_slash(s@);
    }
    let mut i = s.len();
    while i > 0
        invariant
            i <= s.len(),
            forall|j: int| i <= j < s.len() ==> s@[j] != '/',
            -1 <= last_slash(s@) < s@.len(),
            last_slash(s@) >= 0 ==> s@[last_slash(s@)] == '/',
            forall|j: int| last_slash(s@) < j < s@.len() ==> s@[j] != '/',
        decreases i,
    {
        if s[i - 1] == '/' {
            return Some(i - 1);
        }
        i = i - 1;
    }
    None
}

fn chain_of(name: &Vec<char>) -> (r: Vec<String>)
    ensures
        string_views(r@) == env_chain(name@),
    decreases name.len(),
{
    match find_last_slash(name) {
        Some(j) => {
            proof {
                lemma_last_slash(name@);
            }
            let parent = slice_of(name, 0, j);
            assert(parent@ == name@.take(last_slash(name@)));
            let mut r = chain_of(&parent);
            let ghost before = r@;
            r.push(string_from(name));
            assert(string_views(r@) =~= string_views(before).push(name@));
            r
        },
        None => {
            let mut r: Vec<String> = Vec::new();
            r.push(String::new());
            r.push(string_from(name));
            assert(string_views(r@) =~= seq![Seq::<char>::empty(), name@]);
            r
        },
    }
}

/// The names of the environments that make up the environment `name`, outermost
/// first: the base environment (the empty name), each one it inherits from, and
/// `name` itself. Reading each and adding them up in this order gives the
/// environment `name`.
pub fn env_chain_names(name: &str) -> (r: Vec<String>)
    ensures
        string_views(r@) == env_chain(name@),
{
    chain_of(&chars_of(name))
}

/// The key of the state entry that holds the name of the current environment.
pub open spec fn env_state_key() -> Seq<char> {
    seq!['e', 'n', 'v']
}

/// What the space's key-value state holds under the key of the current environment.
pub open spec fn stored_env(state: Map<Seq<char>, String>) -> Option<Seq<char>> {
    if state.contains_key(env_state_key()) {
        Some(state[env_state_key()]@)
    } else {
        None
    }
}

/// Switching and then asking for the current environment gives the one switched to:
/// once the entry that `switch_env` returns for `name` (the key `key` and the value
/// `value`) is stored in the state, whatever the state held before, the current
/// environment read from it is `name`.
pub proof fn law_switch_then_current(state: Map<Seq<char>, String>, key: String, value: String, name: Seq<char>)
    requires
        key@ == env_state_key(),
        value@ == name,
    ensures
        stored_env(state.insert(key@, value)) == Some(name),
{
}

impl Lapse {
    /// Switching to the environment `name`: `NonExistentEnv` when the space has no
    /// environment of that name (`env_exists`); otherwise the state entry to store,
    /// the key `env` and the name.
    pub fn switch_env(&self, name: &str, env_exists: bool) -> (r: Result<(String, String), EnvError>)
        ensures
            env_exists ==> (r matches Ok((k, v)) && k@ == env_state_key() && v@ == name@),
            !env_exists ==> (r matches Err(EnvError::NonExistentEnv(n)) && n@ == name@),
    {
        if !env_exists {
            return Err(EnvError::NonExistentEnv(name.to_owned()));
        }
        let key = "env".to_owned();
        proof {
            reveal_strlit("env");
        }
        Ok((key, name.to_owned()))
    }

    /// The current environment: the name stored under the key `env` of the space's
    /// key-value state, if any.
    pub fn current_env(&self, state: &OrderedMap<String>) -> (r: Option<String>)
        ensures
            match r {
                Some(n) => stored_env(state.view()) == Some(n@),
                None => stored_env(state.view()) is None,
            },
    {
        let key = "env";
        proof {
            reveal_strlit("env");
            assert(key@ == env_state_key());
        }
        match state.get(key) {
            Some(v) => Some(v.clone()),
            None => None,
        }
    }

    /// The scripts that the hooks of the current environment run, by event: those
    /// of each enabled hook, named relative to the scripts directory; a disabled
    /// hook runs none.
    pub fn get_hooks_scripts(&self, env: Env) -> (r: hook::EventMap<Vec<String>>)
        ensures
            forall|e: Event| #[trigger] r.slot(e) == enabled_scripts(env.hooks.slot(e)),
    {
        let Env { variables: _, secrets: _, hooks, config: _ } = env;
        enabled_hooks(hooks)
    }
}

/// The environments that make up the environment `name` start with the base
/// environment and end with `name` itself, each inheriting from the one before it.
pub proof fn law_env_chain(name: Seq<char>)
    ensures
        env_chain(name).len() >= 2,
        env_chain(name)[0] == Seq::<char>::empty(),
        env_chain(name).last() == name,
        forall|k: int|
            1 <= k < env_chain(name).len() - 1 ==> env_parent(#[trigger] env_chain(name)[k + 1])
                == Some(env_chain(name)[k]),
        env_parent(env_chain(name)[1]) is None,
    decreases name.len(),
{
    lemma_last_slash(name);
    if last_slash(name) >= 0 {
        let p = name.take(last_slash(name));
        law_env_chain(p);
        let c = env_chain(p);
        assert(env_chain(name) == c.push(name));
        assert forall|k: int| 1 <= k < env_chain(name).len() - 1 implies env_parent(
            #[trigger] env_chain(name)[k + 1],
        ) == Some(env_chain(name)[k]) by {
            if k + 1 < c.len() {
                assert(env_chain(name)[k + 1] == c[k + 1]);
                assert(env_chain(name)[k] == c[k]);
            } else {
                assert(env_chain(name)[k + 1] == name);
                assert(env_chain(name)[k] == c.last());
            }
        }
    }
}

/// The fields a variables (or secrets) file holds: those of its JSON object, when
/// the text is a JSON object whose fields all are values; nothing otherwise, as for
/// a missing file.
pub open spec fn file_fields(text: Seq<char>) -> Seq<(Seq<char>, ValueView)> {
    match json_document(text) {
        Some(m) => match json_value(m) {
            Some(ValueView::Object(fs)) => fs,
            _ => Seq::empty(),
        },
        None => Seq::empty(),
    }
}

/// Reads a variables (or secrets) file (see [`file_fields`]).
pub fn values_from_json(text: &str) -> (r: OrderedMap<Value>)
    ensures
        r.field_views() == file_fields(text@),
{
    match parse_json(text) {
        Ok(node) => match Value::from_json(&node) {
            Some(Value::Object(fields)) => fields,
            _ => crate::runner::value::empty_fields(),
        },
        Err(_) => crate::runner::value::empty_fields(),
    }
}

} // verus!
