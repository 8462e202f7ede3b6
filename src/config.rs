//! Resolution of a run's configuration from a parsed configuration document
//! and the overrides that the environment supplies.

use vstd::prelude::*;

verus! {

/// A value of a parsed configuration document, as far as resolution reads it.
#[derive(Debug)]
pub enum DocValue {
    Str(String),
    /// A non-negative integer.
    UInt(u64),
    Bool(bool),
    List(Vec<DocValue>),
    /// A mapping, its entries in document order with unique keys.
    Table(Vec<(DocValue, DocValue)>),
    /// Anything else: null, a negative or fractional number.
    Other,
}

/// The fields of a configuration document.
#[derive(Debug, Clone, Copy, PartialEq, Eq, Structural)]
pub enum Field {
    Name,
    Service,
    Run,
    Setup,
    Teardown,
    Timeout,
    Iterations,
    Instructions,
    Env,
    Variants,
}

/// Why a configuration could not be resolved.
#[derive(Debug, Clone, Copy, PartialEq, Eq, Structural)]
pub enum ConfigError {
    /// The document, or the selected variant, is not a mapping.
    NotAMapping,
    /// The field must hold a string.
    NotAString(Field),
    /// The field's command line has malformed quoting.
    MalformedCommand(Field),
    /// `timeout` is not a non-negative integer.
    BadTimeout,
    /// `iterations` is not an integer of at least 1.
    BadIterations,
    /// `instructions` is not a boolean.
    BadInstructions,
    /// `env` is not a mapping.
    EnvNotMapping,
    /// A value under `env` is not a string.
    EnvValueNotString,
    /// A name under `env` is not a string.
    EnvNameNotString,
    /// `variants` is neither a list nor a mapping.
    BadVariants,
    /// A key of the `variants` mapping is not a string.
    VariantKeyNotString,
    /// The selected variant is not an index of the `variants` list.
    BadVariantIndex,
    /// The selected index is past the end of the `variants` list.
    VariantIndexMissing,
    /// The selected key is not in the `variants` mapping.
    VariantKeyMissing,
    /// No command to run was given.
    MissingRun,
}

/// The key under which a field stands in the document.
pub open spec fn field_key(f: Field) -> Seq<char> {
    match f {
        Field::Name => "name"@,
        Field::Service => "service"@,
        Field::Run => "run"@,
        Field::Setup => "setup"@,
        Field::Teardown => "teardown"@,
        Field::Timeout => "timeout"@,
        Field::Iterations => "iterations"@,
        Field::Instructions => "instructions"@,
        Field::Env => "env"@,
        Field::Variants => "variants"@,
    }
}

/// The key of a field, as text.
pub fn field_name(f: Field) -> (r: &'static str)
    ensures
        r@ == field_key(f),
{
    match f {
        Field::Name => "name",
        Field::Service => "service",
        Field::Run => "run",
        Field::Setup => "setup",
        Field::Teardown => "teardown",
        Field::Timeout => "timeout",
        Field::Iterations => "iterations",
        Field::Instructions => "instructions",
        Field::Env => "env",
        Field::Variants => "variants",
    }
}

/// Whether a document value is the string `key`.
pub open spec fn is_key(v: DocValue, key: Seq<char>) -> bool {
    match v {
        DocValue::Str(s) => s@ == key,
        _ => false,
    }
}

/// The position of the first entry from `i` on whose key is the string
/// `key`, or the number of entries where none is.
pub open spec fn key_index_from(t: Seq<(DocValue, DocValue)>, key: Seq<char>, i: int) -> int
    decreases t.len() - i,
{
    if i >= t.len() {
        t.len() as int
    } else if is_key(t[i].0, key) {
        i
    } else {
        key_index_from(t, key, i + 1)
    }
}

/// The value under the string key `key` in the entries `t`.
pub open spec fn table_get(t: Seq<(DocValue, DocValue)>, key: Seq<char>) -> Option<DocValue> {
    let i = key_index_from(t, key, 0);
    if 0 <= i < t.len() {
        Some(t[i].1)
    } else {
        None
    }
}

/// The position of the entry under the string key `key`, if there is one.
pub fn find_key(t: &Vec<(DocValue, DocValue)>, key: &str) -> (r: Option<usize>)
    ensures
        match r {
            Some(i) => i == key_index_from(t@, key@, 0) && i < t@.len(),
            None => key_index_from(t@, key@, 0) == t@.len(),
        },
{
    let wanted = String::from_str(key);
    let mut i: usize = 0;
    while i < t.len()
        invariant
            i <= t@.len(),
            wanted@ == key@,
            key_index_from(t@, key@, i as int) == key_index_from(t@, key@, 0),
        decreases t@.len() - i,
    {
        let found = match &t[i].0 {
            DocValue::Str(k) => *k == wanted,
            _ => false,
        };
        assert(found == is_key(t@[i as int].0, key@));
        if found {
            return Some(i);
        }
        i = i + 1;
    }
    None
}

/// Names what shlex::split returns for a command line: its words, or `None`
/// where the quoting is malformed.
pub uninterp spec fn shell_words(s: Seq<char>) -> Option<Seq<Seq<char>>>;

pub open spec fn words_view(v: Vec<String>) -> Seq<Seq<char>> {
    v@.map_values(|w: String| w@)
}

/// Relies on shlex::split to break a command line into words as a POSIX
/// shell would; its result depends on the text alone.
#[verifier::external_body]
fn split_words(s: &str) -> (r: Option<Vec<String>>)
    ensures
        match r {
            Some(v) => shell_words(s@) == Some(words_view(v)),
            None => shell_words(s@) is None,
        },
{
    shlex::split(s)
}

/// The command held by a field's value: a string, split into words.
pub open spec fn command_of(v: DocValue, f: Field) -> Result<Seq<Seq<char>>, ConfigError> {
    match v {
        DocValue::Str(s) => match shell_words(s@) {
            Some(w) => Ok(w),
            None => Err(ConfigError::MalformedCommand(f)),
        },
        _ => Err(ConfigError::NotAString(f)),
    }
}

/// Reads the command that the field `f` holds.
pub fn get_shell_command(value: &DocValue, f: Field) -> (r: Result<Vec<String>, ConfigError>)
    ensures
        match r {
            Ok(w) => command_of(*value, f) == Ok::<Seq<Seq<char>>, ConfigError>(words_view(w)),
            Err(e) => command_of(*value, f) == Err::<Seq<Seq<char>>, ConfigError>(e),
        },
{
    match value {
        DocValue::Str(s) => match split_words(s.as_str()) {
            Some(w) => Ok(w),
            None => Err(ConfigError::MalformedCommand(f)),
        },
        _ => Err(ConfigError::NotAString(f)),
    }
}

/// Environment variables with unique names, in the order of first setting.
pub type EnvView = Seq<(Seq<char>, Seq<char>)>;

pub open spec fn env_view(env: Vec<(String, String)>) -> EnvView {
    env@.map_values(|p: (String, String)| (p.0@, p.1@))
}

/// Sets `name` to `value`: in place where the name is set already, else at the end.
pub open spec fn env_set(env: EnvView, name: Seq<char>, value: Seq<char>) -> EnvView {
    if exists|i: int| 0 <= i < env.len() && env[i].0 == name {
        let i = choose|i: int| 0 <= i < env.len() && env[i].0 == name;
        env.update(i, (name, value))
    } else {
        env.push((name, value))
    }
}

/// The names of `env` are unique.
pub open spec fn env_unique(env: EnvView) -> bool {
    forall|i: int, j: int| 0 <= i < j < env.len() ==> env[i].0 != env[j].0
}

/// Sets the variable `name` to `value` in `env`.
pub fn set_env_var(env: &mut Vec<(String, String)>, name: String, value: String)
    requires
        env_unique(env_view(*old(env))),
    ensures
        env_view(*final(env)) == env_set(env_view(*old(env)), name@, value@),
        env_unique(env_view(*final(env))),
{
    let ghost ev = env_view(*env);
    assert(env_unique(ev));
    let mut i: usize = 0;
    while i < env.len()
        invariant
            i <= env@.len(),
            *env == *old(env),
            ev == env_view(*env),
            env_unique(ev),
            forall|k: int| 0 <= k < i ==> ev[k].0 != name@,
        decreases env@.len() - i,
    {
        if env[i].0 == name {
            proof {
                assert(ev[i as int].0 == name@);
                assert forall|k: int| 0 <= k < ev.len() && ev[k].0 == name@ implies k == i by {
                    if k != i as int {
                        if k < i {
                        } else {
                            assert(ev[i as int].0 != ev[k].0);
                        }
                    }
                }
            }
            let ghost chosen = choose|k: int| 0 <= k < ev.len() && ev[k].0 == name@;
            env.set(i, (name, value));
            proof {
                assert(chosen == i);
                assert(env_view(*env) =~= ev.update(i as int, (name@, value@)));
                let nv = env_view(*env);
                assert forall|a: int, b: int| 0 <= a < b < nv.len() implies nv[a].0 != nv[b].0 by {
                    assert(ev[a].0 != ev[b].0);
                }
            }
            return;
        }
        i = i + 1;
    }
    env.push((name, value));
    proof {
        assert(env_view(*env) =~= ev.push((name@, value@)));
        let nv = env_view(*env);
        assert forall|a: int, b: int| 0 <= a < b < nv.len() implies nv[a].0 != nv[b].0 by {
            if b < ev.len() {
                assert(ev[a].0 != ev[b].0);
            } else {
                assert(ev[a].0 != name@);
            }
        }
    }
}

/// The names and values of one `env` entry, value checked first.
pub open spec fn env_entry_of(entry: (DocValue, DocValue)) -> Result<
    (Seq<char>, Seq<char>),
    ConfigError,
> {
    match entry.1 {
        DocValue::Str(v) => match entry.0 {
            DocValue::Str(n) => Ok((n@, v@)),
            _ => Err(ConfigError::EnvNameNotString),
        },
        _ => Err(ConfigError::EnvValueNotString),
    }
}

/// `env` after the entries `t` are set in order, or the first entry's error.
pub open spec fn env_apply(env: EnvView, t: Seq<(DocValue, DocValue)>) -> Result<
    EnvView,
    ConfigError,
>
    decreases t.len(),
{
    if t.len() == 0 {
        Ok(env)
    } else {
        match env_apply(env, t.drop_last()) {
            Err(e) => Err(e),
            Ok(e2) => match env_entry_of(t.last()) {
                Ok((n, v)) => Ok(env_set(e2, n, v)),
                Err(e) => Err(e),
            },
        }
    }
}

/// `env` with the variables of the document value `v` set, which must be a
/// mapping of strings to strings.
pub open spec fn env_of(env: EnvView, v: DocValue) -> Result<EnvView, ConfigError> {
    match v {
        DocValue::Table(t) => env_apply(env, t@),
        _ => Err(ConfigError::EnvNotMapping),
    }
}

/// Sets in `env` the variables that the `env` field's value holds.
pub fn get_env(env: &mut Vec<(String, String)>, value: &DocValue) -> (r: Result<(), ConfigError>)
    requires
        env_unique(env_view(*old(env))),
    ensures
        env_unique(env_view(*final(env))),
        match r {
            Ok(()) => env_of(env_view(*old(env)), *value) == Ok::<EnvView, ConfigError>(
                env_view(*final(env)),
            ),
            Err(e) => env_of(env_view(*old(env)), *value) is Err && env_of(
                env_view(*old(env)),
                *value,
            )->Err_0 == e,
        },
{
    let t = match value {
        DocValue::Table(t) => t,
        _ => {
            return Err(ConfigError::EnvNotMapping);
        },
    };
    let mut i: usize = 0;
    while i < t.len()
        invariant
            i <= t@.len(),
            env_of(env_view(*old(env)), *value) == env_apply(env_view(*old(env)), t@),
            env_unique(env_view(*env)),
            env_apply(env_view(*old(env)), t@.subrange(0, i as int)) == Ok::<
                EnvView,
                ConfigError,
            >(env_view(*env)),
        decreases t@.len() - i,
    {
        let ghost before = env_view(*env);
        assert(t@.subrange(0, i + 1).drop_last() =~= t@.subrange(0, i as int));
        assert(t@.subrange(0, i + 1).last() == t@[i as int]);
        let value = match &t[i].1 {
            DocValue::Str(v) => v.clone(),
            _ => {
                proof {
                    assert(env_entry_of(t@[i as int]) == Err::<(Seq<char>, Seq<char>), ConfigError>(
                        ConfigError::EnvValueNotString,
                    ));
                    assert(env_apply(env_view(*old(env)), t@.subrange(0, i + 1)) == Err::<
                        EnvView,
                        ConfigError,
                    >(ConfigError::EnvValueNotString));
                    lemma_env_apply_err_persists(env_view(*old(env)), t@, i as int + 1);
                }
                return Err(ConfigError::EnvValueNotString);
            },
        };
        let name = match &t[i].0 {
            DocValue::Str(n) => n.clone(),
            _ => {
                proof {
                    assert(env_entry_of(t@[i as int]) == Err::<(Seq<char>, Seq<char>), ConfigError>(
                        ConfigError::EnvNameNotString,
                    ));
                    assert(env_apply(env_view(*old(env)), t@.subrange(0, i + 1)) == Err::<
                        EnvView,
                        ConfigError,
                    >(ConfigError::EnvNameNotString));
                    lemma_env_apply_err_persists(env_view(*old(env)), t@, i as int + 1);
                }
                return Err(ConfigError::EnvNameNotString);
            },
        };
        set_env_var(env, name, value);
        i = i + 1;
    }
    assert(t@.subrange(0, t@.len() as int) =~= t@);
    Ok(())
}

/// Once the entries up to `k` give an error, all of them give the same one.
proof fn lemma_env_apply_err_persists(env: EnvView, t: Seq<(DocValue, DocValue)>, k: int)
    requires
        0 <= k <= t.len(),
        env_apply(env, t.subrange(0, k)) is Err,
    ensures
        env_apply(env, t) == env_apply(env, t.subrange(0, k)),
    decreases t.len() - k,
{
    if k < t.len() {
        assert(t.subrange(0, k + 1).drop_last() =~= t.subrange(0, k));
        lemma_env_apply_err_persists(env, t, k + 1);
    } else {
        assert(t.subrange(0, k) =~= t);
    }
}

/// A resolved run description.
#[derive(Debug, Clone)]
pub struct Config {
    pub name: Option<String>,
    /// The selected variant, by index or key.
    pub variant: Option<String>,
    /// A command kept running beside each iteration.
    pub service: Option<Vec<String>>,
    pub setup: Option<Vec<String>>,
    pub teardown: Option<Vec<String>>,
    /// The measured command.
    pub run: Vec<String>,
    /// Seconds after which a measured command aborts the invocation.
    pub timeout: Option<u64>,
    /// Variables set for the commands, names unique.
    pub env: Vec<(String, String)>,
    pub iterations: u64,
    /// Whether to count the instructions of the measured command.
    pub instructions: bool,
    /// The variants to run one after another, where none was selected.
    pub variants: Option<Vec<String>>,
}

/// A `Config` as plain values.
pub struct ConfigView {
    pub name: Option<Seq<char>>,
    pub variant: Option<Seq<char>>,
    pub service: Option<Seq<Seq<char>>>,
    pub setup: Option<Seq<Seq<char>>>,
    pub teardown: Option<Seq<Seq<char>>>,
    pub run: Seq<Seq<char>>,
    pub timeout: Option<u64>,
    pub env: EnvView,
    pub iterations: u64,
    pub instructions: bool,
    pub variants: Option<Seq<Seq<char>>>,
}

pub open spec fn opt_str(o: Option<String>) -> Option<Seq<char>> {
    match o {
        Some(s) => Some(s@),
        None => None,
    }
}

pub open spec fn opt_words(o: Option<Vec<String>>) -> Option<Seq<Seq<char>>> {
    match o {
        Some(v) => Some(words_view(v)),
        None => None,
    }
}

impl View for Config {
    type V = ConfigView;

    open spec fn view(&self) -> ConfigView {
        ConfigView {
            name: opt_str(self.name),
            variant: opt_str(self.variant),
            service: opt_words(self.service),
            setup: opt_words(self.setup),
            teardown: opt_words(self.teardown),
            run: words_view(self.run),
            timeout: self.timeout,
            env: env_view(self.env),
            iterations: self.iterations,
            instructions: self.instructions,
            variants: opt_words(self.variants),
        }
    }
}

impl Config {
    pub open spec fn wf(&self) -> bool {
        env_unique(self@.env)
    }
}

/// The description before any document is read.
pub open spec fn default_view() -> ConfigView {
    ConfigView {
        name: None,
        variant: None,
        service: None,
        setup: None,
        teardown: None,
        run: Seq::empty(),
        timeout: None,
        env: Seq::empty(),
        iterations: 1,
        instructions: false,
        variants: None,
    }
}

pub open spec fn step_name(c: ConfigView, t: Seq<(DocValue, DocValue)>, over: Option<Seq<char>>) -> Result<ConfigView, ConfigError> {
    match over {
        Some(n) => Ok(ConfigView { name: Some(n), ..c }),
        None => match table_get(t, field_key(Field::Name)) {
            None => Ok(c),
            Some(DocValue::Str(n)) => Ok(ConfigView { name: Some(n@), ..c }),
            Some(_) => Err(ConfigError::NotAString(Field::Name)),
        },
    }
}

pub open spec fn with_command(c: ConfigView, f: Field, w: Seq<Seq<char>>) -> ConfigView {
    match f {
        Field::Service => ConfigView { service: Some(w), ..c },
        Field::Run => ConfigView { run: w, ..c },
        Field::Setup => ConfigView { setup: Some(w), ..c },
        _ => ConfigView { teardown: Some(w), ..c },
    }
}

pub open spec fn step_command(c: ConfigView, t: Seq<(DocValue, DocValue)>, f: Field) -> Result<ConfigView, ConfigError> {
    match table_get(t, field_key(f)) {
        None => Ok(c),
        Some(v) => match command_of(v, f) {
            Ok(w) => Ok(with_command(c, f, w)),
            Err(e) => Err(e),
        },
    }
}

pub open spec fn step_timeout(c: ConfigView, t: Seq<(DocValue, DocValue)>) -> Result<ConfigView, ConfigError> {
    match table_get(t, field_key(Field::Timeout)) {
        None => Ok(c),
        Some(DocValue::UInt(n)) => Ok(ConfigView { timeout: Some(n), ..c }),
        Some(_) => Err(ConfigError::BadTimeout),
    }
}

pub open spec fn step_iterations(c: ConfigView, t: Seq<(DocValue, DocValue)>) -> Result<ConfigView, ConfigError> {
    match table_get(t, field_key(Field::Iterations)) {
        None => Ok(c),
        Some(DocValue::UInt(n)) => if n >= 1 {
            Ok(ConfigView { iterations: n, ..c })
        } else {
            Err(ConfigError::BadIterations)
        },
        Some(_) => Err(ConfigError::BadIterations),
    }
}

pub open spec fn step_instructions(c: ConfigView, t: Seq<(DocValue, DocValue)>) -> Result<ConfigView, ConfigError> {
    match table_get(t, field_key(Field::Instructions)) {
        None => Ok(c),
        Some(DocValue::Bool(b)) => Ok(ConfigView { instructions: b, ..c }),
        Some(_) => Err(ConfigError::BadInstructions),
    }
}

pub open spec fn step_env(c: ConfigView, t: Seq<(DocValue, DocValue)>) -> Result<ConfigView, ConfigError> {
    match table_get(t, field_key(Field::Env)) {
        None => Ok(c),
        Some(v) => match env_of(c.env, v) {
            Ok(e) => Ok(ConfigView { env: e, ..c }),
            Err(e) => Err(e),
        },
    }
}

/// `c` with the fields of the document value `doc` laid over it, in the
/// order name, service, run, setup, teardown, timeout, iterations,
/// instructions, env; or the first error. `over` replaces the document's name.
pub open spec fn apply_spec(c: ConfigView, doc: DocValue, over: Option<Seq<char>>) -> Result<ConfigView, ConfigError> {
    match doc {
        DocValue::Table(t) => match step_name(c, t@, over) {
            Err(e) => Err(e),
            Ok(c) => match step_command(c, t@, Field::Service) {
                Err(e) => Err(e),
                Ok(c) => match step_command(c, t@, Field::Run) {
                    Err(e) => Err(e),
                    Ok(c) => match step_command(c, t@, Field::Setup) {
                        Err(e) => Err(e),
                        Ok(c) => match step_command(c, t@, Field::Teardown) {
                            Err(e) => Err(e),
                            Ok(c) => match step_timeout(c, t@) {
                                Err(e) => Err(e),
                                Ok(c) => match step_iterations(c, t@) {
                                    Err(e) => Err(e),
                                    Ok(c) => match step_instructions(c, t@) {
                                        Err(e) => Err(e),
                                        Ok(c) => step_env(c, t@),
                                    },
                                },
                            },
                        },
                    },
                },
            },
        },
        _ => Err(ConfigError::NotAMapping),
    }
}

pub open spec fn matches_result(r: Result<(), ConfigError>, spec_r: Result<ConfigView, ConfigError>, after: ConfigView) -> bool {
    match r {
        Ok(()) => spec_r == Ok::<ConfigView, ConfigError>(after),
        Err(e) => spec_r == Err::<ConfigView, ConfigError>(e),
    }
}

fn apply_name(config: &mut Config, t: &Vec<(DocValue, DocValue)>, over: &Option<String>) -> (r: Result<(), ConfigError>)
    requires
        old(config).wf(),
    ensures
        final(config).wf(),
        matches_result(r, step_name(old(config)@, t@, opt_str(*over)), final(config)@),
{
    match over {
        Some(n) => {
            config.name = Some(n.clone());
            Ok(())
        },
        None => match find_key(t, field_name(Field::Name)) {
            None => Ok(()),
            Some(i) => match &t[i].1 {
                DocValue::Str(n) => {
                    config.name = Some(n.clone());
                    Ok(())
                },
                _ => Err(ConfigError::NotAString(Field::Name)),
            },
        },
    }
}

fn apply_command(config: &mut Config, t: &Vec<(DocValue, DocValue)>, f: Field) -> (r: Result<(), ConfigError>)
    requires
        old(config).wf(),
        f == Field::Service || f == Field::Run || f == Field::Setup || f == Field::Teardown,
    ensures
        final(config).wf(),
        matches_result(r, step_command(old(config)@, t@, f), final(config)@),
{
    match find_key(t, field_name(f)) {
        None => Ok(()),
        Some(i) => match get_shell_command(&t[i].1, f) {
            Ok(w) => {
                match f {
                    Field::Service => config.service = Some(w),
                    Field::Run => config.run = w,
                    Field::Setup => config.setup = Some(w),
                    _ => config.teardown = Some(w),
                }
                Ok(())
            },
            Err(e) => Err(e),
        },
    }
}

fn apply_scalars(config: &mut Config, t: &Vec<(DocValue, DocValue)>) -> (r: Result<(), ConfigError>)
    requires
        old(config).wf(),
    ensures
        final(config).wf(),
        matches_result(
            r,
            match step_timeout(old(config)@, t@) {
                Err(e) => Err(e),
                Ok(c) => match step_iterations(c, t@) {
                    Err(e) => Err(e),
                    Ok(c) => step_instructions(c, t@),
                },
            },
            final(config)@,
        ),
{
    if let Some(i) = find_key(t, field_name(Field::Timeout)) {
        match &t[i].1 {
            DocValue::UInt(n) => config.timeout = Some(*n),
            _ => return Err(ConfigError::BadTimeout),
        }
    }
    if let Some(i) = find_key(t, field_name(Field::Iterations)) {
        match &t[i].1 {
            DocValue::UInt(n) => {
                if *n == 0 {
                    return Err(ConfigError::BadIterations);
                }
                config.iterations = *n;
            },
            _ => return Err(ConfigError::BadIterations),
        }
    }
    if let Some(i) = find_key(t, field_name(Field::Instructions)) {
        match &t[i].1 {
            DocValue::Bool(b) => config.instructions = *b,
            _ => return Err(ConfigError::BadInstructions),
        }
    }
    Ok(())
}

/// Lays the fields of the document value `doc` over `config`; `name_override`
/// replaces the document's name.
pub fn apply_config(config: &mut Config, doc: &DocValue, name_override: &Option<String>) -> (r: Result<(), ConfigError>)
    requires
        old(config).wf(),
    ensures
        final(config).wf(),
        matches_result(r, apply_spec(old(config)@, *doc, opt_str(*name_override)), final(config)@),
{
    let t = match doc {
        DocValue::Table(t) => t,
        _ => return Err(ConfigError::NotAMapping),
    };
    match apply_name(config, t, name_override) {
        Err(e) => return Err(e),
        Ok(()) => {},
    }
    match apply_command(config, t, Field::Service) {
        Err(e) => return Err(e),
        Ok(()) => {},
    }
    match apply_command(config, t, Field::Run) {
        Err(e) => return Err(e),
        Ok(()) => {},
    }
    match apply_command(config, t, Field::Setup) {
        Err(e) => return Err(e),
        Ok(()) => {},
    }
    match apply_command(config, t, Field::Teardown) {
        Err(e) => return Err(e),
        Ok(()) => {},
    }
    match apply_scalars(config, t) {
        Err(e) => return Err(e),
        Ok(()) => {},
    }
    match find_key(t, field_name(Field::Env)) {
        None => Ok(()),
        Some(i) => get_env(&mut config.env, &t[i].1),
    }
}

/// The decimal digit `d` (below 10) as a character.
pub open spec fn digit_char(d: nat) -> char {
    if d == 0 { '0' } else if d == 1 { '1' } else if d == 2 { '2' } else if d == 3 { '3' }
    else if d == 4 { '4' } else if d == 5 { '5' } else if d == 6 { '6' } else if d == 7 { '7' }
    else if d == 8 { '8' } else { '9' }
}

pub open spec fn is_digit(c: char) -> bool {
    '0' <= c <= '9'
}

pub open spec fn digit_value(c: char) -> nat {
    (c as int - '0' as int) as nat
}

/// `n` written in decimal, without leading zeros.
pub open spec fn decimal(n: nat) -> Seq<char>
    decreases n,
{
    if n < 10 {
        seq![digit_char(n)]
    } else {
        decimal(n / 10).push(digit_char(n % 10))
    }
}

/// The number that the decimal digits `s` write.
pub open spec fn digits_value(s: Seq<char>) -> nat
    decreases s.len(),
{
    if s.len() == 0 {
        0
    } else {
        digits_value(s.drop_last()) * 10 + digit_value(s.last())
    }
}

pub open spec fn all_digits(s: Seq<char>) -> bool {
    forall|i: int| 0 <= i < s.len() ==> is_digit(#[trigger] s[i])
}

/// The index that the text `s` selects: an optional `+`, then one or more
/// decimal digits, of a value that fits in a `usize`.
pub open spec fn index_value(s: Seq<char>) -> Option<nat> {
    let d = if s.len() > 0 && s[0] == '+' {
        s.drop_first()
    } else {
        s
    };
    if d.len() > 0 && all_digits(d) && digits_value(d) <= usize::MAX {
        Some(digits_value(d))
    } else {
        None
    }
}

proof fn lemma_digits_value_grows(s: Seq<char>, c: char)
    requires
        is_digit(c),
    ensures
        digits_value(s.push(c)) >= digits_value(s),
        digits_value(s.push(c)) == digits_value(s) * 10 + digit_value(c),
{
    assert(s.push(c).drop_last() =~= s);
}

proof fn lemma_step_overflows(acc: nat, dv: nat)
    requires
        dv < 10,
        acc > (usize::MAX - dv) / 10,
    ensures
        acc * 10 + dv > usize::MAX,
{
    assert(acc * 10 + dv > usize::MAX) by (nonlinear_arith)
        requires
            dv < 10,
            acc > (usize::MAX - dv) / 10,
    ;
}

proof fn lemma_step_fits(acc: nat, dv: nat)
    requires
        dv < 10,
        acc <= (usize::MAX - dv) / 10,
    ensures
        acc * 10 + dv <= usize::MAX,
{
    assert(acc * 10 + dv <= usize::MAX) by (nonlinear_arith)
        requires
            dv < 10,
            acc <= (usize::MAX - dv) / 10,
    ;
}

/// Reads the index that `s` selects.
pub fn parse_index(s: &str) -> (r: Option<usize>)
    ensures
        match r {
            Some(n) => index_value(s@) == Some(n as nat),
            None => index_value(s@) is None,
        },
{
    let n = s.unicode_len();
    let start: usize = if n > 0 && s.get_char(0) == '+' {
        1
    } else {
        0
    };
    let ghost d = if s@.len() > 0 && s@[0] == '+' {
        s@.drop_first()
    } else {
        s@
    };
    assert(d =~= s@.subrange(start as int, n as int));
    if start == n {
        return None;
    }
    let mut acc: usize = 0;
    let mut overflow = false;
    let mut k: usize = start;
    while k < n
        invariant
            start <= k <= n == s@.len(),
            d == (if s@.len() > 0 && s@[0] == '+' {
                s@.drop_first()
            } else {
                s@
            }),
            d =~= s@.subrange(start as int, n as int),
            all_digits(s@.subrange(start as int, k as int)),
            !overflow ==> acc == digits_value(s@.subrange(start as int, k as int)),
            overflow ==> digits_value(s@.subrange(start as int, k as int)) > usize::MAX,
        decreases n - k,
    {
        let c = s.get_char(k);
        if !('0' <= c && c <= '9') {
            assert(!is_digit(d[k - start]));
            return None;
        }
        let ghost pre = s@.subrange(start as int, k as int);
        assert(s@.subrange(start as int, k + 1) =~= pre.push(c));
        proof {
            lemma_digits_value_grows(pre, c);
            assert forall|i: int| 0 <= i < pre.push(c).len() implies is_digit(
                #[trigger] pre.push(c)[i],
            ) by {
                if i < pre.len() {
                    assert(pre.push(c)[i] == pre[i]);
                }
            }
        }
        let dv: usize = (c as u32 - '0' as u32) as usize;
        assert(dv == digit_value(c));
        if !overflow {
            if acc > (usize::MAX - dv) / 10 {
                proof {
                    lemma_step_overflows(acc as nat, dv as nat);
                }
                overflow = true;
            } else {
                proof {
                    lemma_step_fits(acc as nat, dv as nat);
                }
                acc = acc * 10 + dv;
            }
        }
        k = k + 1;
    }
    assert(s@.subrange(start as int, n as int) =~= d);
    if overflow {
        None
    } else {
        Some(acc)
    }
}

/// The decimal digit `d` as text.
fn digit_str(d: usize) -> (r: &'static str)
    requires
        d < 10,
    ensures
        r@ == seq![digit_char(d as nat)],
{
    proof {
        reveal_strlit("0");
        reveal_strlit("1");
        reveal_strlit("2");
        reveal_strlit("3");
        reveal_strlit("4");
        reveal_strlit("5");
        reveal_strlit("6");
        reveal_strlit("7");
        reveal_strlit("8");
        reveal_strlit("9");
    }
    let r = if d == 0 {
        "0"
    } else if d == 1 {
        "1"
    } else if d == 2 {
        "2"
    } else if d == 3 {
        "3"
    } else if d == 4 {
        "4"
    } else if d == 5 {
        "5"
    } else if d == 6 {
        "6"
    } else if d == 7 {
        "7"
    } else if d == 8 {
        "8"
    } else {
        "9"
    };
    assert(r@ =~= seq![digit_char(d as nat)]);
    r
}

/// Writes `i` in decimal.
fn index_text(i: usize) -> (r: String)
    ensures
        r@ == decimal(i as nat),
{
    let mut n: usize = i;
    let mut acc = String::new();
    assert(decimal(i as nat) =~= decimal(n as nat) + acc@);
    while n >= 10
        invariant
            decimal(i as nat) == decimal(n as nat) + acc@,
        decreases n,
    {
        let d = digit_str(n % 10);
        let ghost before = acc@;
        acc = String::from_str(d).concat(acc.as_str());
        assert(decimal(n as nat) == decimal((n / 10) as nat).push(digit_char((n % 10) as nat)));
        assert(decimal(n as nat) + before =~= decimal((n / 10) as nat) + acc@);
        n = n / 10;
    }
    let r = String::from_str(digit_str(n)).concat(acc.as_str());
    assert(decimal(n as nat) == seq![digit_char(n as nat)]);
    r
}

proof fn lemma_digit_char(d: nat)
    requires
        d < 10,
    ensures
        is_digit(digit_char(d)),
        digit_value(digit_char(d)) == d,
        digit_char(d) != '+',
{
}

proof fn lemma_decimal_digits(n: nat)
    ensures
        all_digits(decimal(n)),
        decimal(n).len() > 0,
        decimal(n)[0] != '+',
        digits_value(decimal(n)) == n,
    decreases n,
{
    if n < 10 {
        lemma_digit_char(n);
        assert(seq![digit_char(n)] =~= Seq::<char>::empty().push(digit_char(n)));
        lemma_digits_value_grows(Seq::<char>::empty(), digit_char(n));
    } else {
        lemma_digit_char(n % 10);
        assert(n == (n / 10) * 10 + n % 10);
        lemma_decimal_digits(n / 10);
        let p = decimal(n / 10);
        lemma_digits_value_grows(p, digit_char(n % 10));
        assert(p.push(digit_char(n % 10)).drop_last() =~= p);
        assert forall|i: int| 0 <= i < decimal(n).len() implies is_digit(#[trigger] decimal(n)[i]) by {
            if i < p.len() {
                assert(decimal(n)[i] == p[i]);
            }
        }
    }
}

/// Writing an index in decimal and reading it back gives the index: the
/// names under which the variants of a list run select those variants.
pub proof fn lemma_index_round_trip(n: nat)
    requires
        n <= usize::MAX,
    ensures
        index_value(decimal(n)) == Some(n),
{
    lemma_decimal_digits(n);
}

/// The names of the variants of a list of `n`: their indexes in decimal.
pub open spec fn index_names(n: nat) -> Seq<Seq<char>> {
    Seq::new(n, |i: int| decimal(i as nat))
}

/// The keys of a variants mapping, which must all be strings.
pub open spec fn keys_of(m: Seq<(DocValue, DocValue)>) -> Option<Seq<Seq<char>>>
    decreases m.len(),
{
    if m.len() == 0 {
        Some(Seq::empty())
    } else {
        match (keys_of(m.drop_last()), m.last().0) {
            (Some(ks), DocValue::Str(k)) => Some(ks.push(k@)),
            _ => None,
        }
    }
}

/// The names of the variants that `vs` holds, in order.
pub open spec fn variant_names(vs: DocValue) -> Result<Seq<Seq<char>>, ConfigError> {
    match vs {
        DocValue::List(l) => Ok(index_names(l@.len())),
        DocValue::Table(m) => match keys_of(m@) {
            Some(ks) => Ok(ks),
            None => Err(ConfigError::VariantKeyNotString),
        },
        _ => Err(ConfigError::BadVariants),
    }
}

/// The variant of `vs` that `key` selects.
pub open spec fn selected_variant(vs: DocValue, key: Seq<char>) -> Result<DocValue, ConfigError> {
    match vs {
        DocValue::List(l) => match index_value(key) {
            None => Err(ConfigError::BadVariantIndex),
            Some(i) => if i < l@.len() {
                Ok(l@[i as int])
            } else {
                Err(ConfigError::VariantIndexMissing)
            },
        },
        DocValue::Table(m) => match table_get(m@, key) {
            Some(v) => Ok(v),
            None => Err(ConfigError::VariantKeyMissing),
        },
        _ => Err(ConfigError::BadVariants),
    }
}

/// A run needs a command.
pub open spec fn require_run(c: ConfigView) -> Result<ConfigView, ConfigError> {
    if c.run.len() == 0 {
        Err(ConfigError::MissingRun)
    } else {
        Ok(c)
    }
}

/// The configuration that a document resolves to, given the name and the
/// variant that the environment selects. Where the document has variants
/// and none is selected, it lists their names and needs no command, as each
/// variant is then resolved on its own.
pub open spec fn resolve_spec(doc: DocValue, name: Option<Seq<char>>, variant: Option<Seq<char>>) -> Result<ConfigView, ConfigError> {
    match apply_spec(default_view(), doc, name) {
        Err(e) => Err(e),
        Ok(base) => match doc {
            DocValue::Table(t) => match table_get(t@, field_key(Field::Variants)) {
                None => require_run(base),
                Some(vs) => match variant {
                    None => match variant_names(vs) {
                        Ok(names) => Ok(ConfigView { variants: Some(names), ..base }),
                        Err(e) => Err(e),
                    },
                    Some(key) => match selected_variant(vs, key) {
                        Err(e) => Err(e),
                        Ok(v) => match apply_spec(ConfigView { variant: Some(key), ..base }, v, name) {
                            Err(e) => Err(e),
                            Ok(c) => require_run(c),
                        },
                    },
                },
            },
            _ => Err(ConfigError::NotAMapping),
        },
    }
}

fn empty_config() -> (r: Config)
    ensures
        r@ == default_view(),
        r.wf(),
{
    let r = Config {
        name: None,
        variant: None,
        service: None,
        setup: None,
        teardown: None,
        run: Vec::new(),
        timeout: None,
        env: Vec::new(),
        iterations: 1,
        instructions: false,
        variants: None,
    };
    assert(r@.run =~= Seq::<Seq<char>>::empty());
    assert(r@.env =~= Seq::<(Seq<char>, Seq<char>)>::empty());
    r
}

/// The names of the variants that `vs` holds.
fn get_variant_names(vs: &DocValue) -> (r: Result<Vec<String>, ConfigError>)
    ensures
        match r {
            Ok(names) => variant_names(*vs) == Ok::<Seq<Seq<char>>, ConfigError>(words_view(names)),
            Err(e) => variant_names(*vs) == Err::<Seq<Seq<char>>, ConfigError>(e),
        },
{
    match vs {
        DocValue::List(l) => {
            let mut names: Vec<String> = Vec::new();
            let mut i: usize = 0;
            while i < l.len()
                invariant
                    i <= l@.len(),
                    variant_names(*vs) == Ok::<Seq<Seq<char>>, ConfigError>(index_names(l@.len())),
                    words_view(names) =~= index_names(i as nat),
                decreases l@.len() - i,
            {
                let ghost before = words_view(names);
                names.push(index_text(i));
                assert(words_view(names) =~= before.push(decimal(i as nat)));
                assert(index_names((i + 1) as nat) =~= index_names(i as nat).push(decimal(i as nat)));
                i = i + 1;
            }
            Ok(names)
        },
        DocValue::Table(m) => {
            let mut names: Vec<String> = Vec::new();
            let mut i: usize = 0;
            while i < m.len()
                invariant
                    i <= m@.len(),
                    variant_names(*vs) == (match keys_of(m@) {
                        Some(ks) => Ok(ks),
                        None => Err(ConfigError::VariantKeyNotString),
                    }),
                    keys_of(m@.subrange(0, i as int)) == Some(words_view(names)),
                decreases m@.len() - i,
            {
                assert(m@.subrange(0, i + 1).drop_last() =~= m@.subrange(0, i as int));
                assert(m@.subrange(0, i + 1).last() == m@[i as int]);
                match &m[i].0 {
                    DocValue::Str(k) => {
                        let ghost before = words_view(names);
                        names.push(k.clone());
                        assert(words_view(names) =~= before.push(k@));
                    },
                    _ => {
                        proof {
                            lemma_keys_of_none_persists(m@, i as int + 1);
                        }
                        return Err(ConfigError::VariantKeyNotString);
                    },
                }
                i = i + 1;
            }
            assert(m@.subrange(0, m@.len() as int) =~= m@);
            Ok(names)
        },
        _ => Err(ConfigError::BadVariants),
    }
}

proof fn lemma_keys_of_none_persists(m: Seq<(DocValue, DocValue)>, k: int)
    requires
        0 <= k <= m.len(),
        keys_of(m.subrange(0, k)) is None,
    ensures
        keys_of(m) is None,
    decreases m.len() - k,
{
    if k < m.len() {
        assert(m.subrange(0, k + 1).drop_last() =~= m.subrange(0, k));
        lemma_keys_of_none_persists(m, k + 1);
    } else {
        assert(m.subrange(0, k) =~= m);
    }
}

/// The variant of `vs` that `key` selects.
fn get_selected_variant<'a>(vs: &'a DocValue, key: &String) -> (r: Result<&'a DocValue, ConfigError>)
    ensures
        match r {
            Ok(v) => selected_variant(*vs, key@) == Ok::<DocValue, ConfigError>(*v),
            Err(e) => selected_variant(*vs, key@) == Err::<DocValue, ConfigError>(e),
        },
{
    match vs {
        DocValue::List(l) => match parse_index(key.as_str()) {
            None => Err(ConfigError::BadVariantIndex),
            Some(i) => if i < l.len() {
                Ok(&l[i])
            } else {
                Err(ConfigError::VariantIndexMissing)
            },
        },
        DocValue::Table(m) => match find_key(m, key.as_str()) {
            Some(i) => Ok(&m[i].1),
            None => Err(ConfigError::VariantKeyMissing),
        },
        _ => Err(ConfigError::BadVariants),
    }
}

/// Resolves the configuration of a parsed document. `name_override` and
/// `variant_override` are what the environment selects (`SIRUN_NAME`,
/// `SIRUN_VARIANT`).
pub fn resolve_config(doc: &DocValue, name_override: &Option<String>, variant_override: &Option<String>) -> (r: Result<Config, ConfigError>)
    ensures
        match r {
            Ok(c) => resolve_spec(*doc, opt_str(*name_override), opt_str(*variant_override))
                == Ok::<ConfigView, ConfigError>(c@) && c.wf(),
            Err(e) => resolve_spec(*doc, opt_str(*name_override), opt_str(*variant_override))
                == Err::<ConfigView, ConfigError>(e),
        },
{
    let mut config = empty_config();
    match apply_config(&mut config, doc, name_override) {
        Err(e) => return Err(e),
        Ok(()) => {},
    }
    let t = match doc {
        DocValue::Table(t) => t,
        _ => return Err(ConfigError::NotAMapping),
    };
    let vs = match find_key(t, field_name(Field::Variants)) {
        None => {
            if config.run.len() == 0 {
                return Err(ConfigError::MissingRun);
            }
            return Ok(config);
        },
        Some(i) => &t[i].1,
    };
    match variant_override {
        None => match get_variant_names(vs) {
            Ok(names) => {
                config.variants = Some(names);
                Ok(config)
            },
            Err(e) => Err(e),
        },
        Some(key) => match get_selected_variant(vs, key) {
            Err(e) => Err(e),
            Ok(v) => {
                config.variant = Some(key.clone());
                match apply_config(&mut config, v, name_override) {
                    Err(e) => return Err(e),
                    Ok(()) => {},
                }
                if config.run.len() == 0 {
                    return Err(ConfigError::MissingRun);
                }
                Ok(config)
            },
        },
    }
}

/// Selecting the variant of a list by the decimal name of its index `i`
/// resolves to the base configuration with that variant, and that one
/// alone, laid over it; an index past the list fails.
pub proof fn lemma_variant_by_index(doc: DocValue, name: Option<Seq<char>>, i: nat)
    requires
        i <= usize::MAX,
        apply_spec(default_view(), doc, name) is Ok,
        doc matches DocValue::Table(t) && table_get(t@, field_key(Field::Variants)) matches Some(
            DocValue::List(_),
        ),
    ensures
        ({
            let base = apply_spec(default_view(), doc, name)->Ok_0;
            let t = doc->Table_0;
            let l = table_get(t@, field_key(Field::Variants))->Some_0->List_0;
            &&& i < l@.len() ==> resolve_spec(doc, name, Some(decimal(i))) == match apply_spec(
                ConfigView { variant: Some(decimal(i)), ..base },
                l@[i as int],
                name,
            ) {
                Err(e) => Err(e),
                Ok(c) => require_run(c),
            }
            &&& i >= l@.len() ==> resolve_spec(doc, name, Some(decimal(i))) == Err::<
                ConfigView,
                ConfigError,
            >(ConfigError::VariantIndexMissing)
        }),
{
    lemma_index_round_trip(i);
}

} // verus!
