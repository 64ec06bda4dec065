//! Sections, their order, and the run of a configuration as a state machine:
//! the runner decides, and its driver performs the commands it asks for.

use vstd::prelude::*;
use crate::config_model::{
    deref_opt, Block, Config, ExecutionPolicy, GlobalConfig, LocalConfig, PlatformCommands,
};
use crate::environment::{
    lemma_upserts_at_key, loaded, merged, sections_view, upserts, writes_to, EnvVariableSource,
    Environment, VarMap, VarTable, VarWrite,
};
use crate::error::RunnerError;
use crate::text::{is_white_space, str_eq, trim_str, trimmed};

verus! {

/// The eight lifecycle phases, in the order in which they run.
#[derive(Debug, Clone, Copy, PartialEq, Eq, Structural, Hash)]
pub enum Section {
    PreBuild,
    Build,
    PostBuild,
    Test,
    PreDeploy,
    Deploy,
    PostDeploy,
    Clean,
}

impl Section {
    /// The section at position `i` of the run order.
    pub open spec fn at(i: int) -> Section {
        if i <= 0 {
            Section::PreBuild
        } else if i == 1 {
            Section::Build
        } else if i == 2 {
            Section::PostBuild
        } else if i == 3 {
            Section::Test
        } else if i == 4 {
            Section::PreDeploy
        } else if i == 5 {
            Section::Deploy
        } else if i == 6 {
            Section::PostDeploy
        } else {
            Section::Clean
        }
    }

    /// The display name of the section.
    pub open spec fn name(self) -> Seq<char> {
        match self {
            Section::PreBuild => "PreBuild"@,
            Section::Build => "Build"@,
            Section::PostBuild => "PostBuild"@,
            Section::Test => "Test"@,
            Section::PreDeploy => "PreDeploy"@,
            Section::Deploy => "Deploy"@,
            Section::PostDeploy => "PostDeploy"@,
            Section::Clean => "Clean"@,
        }
    }
}

/// The section that the configuration key `key` names, if any.
pub open spec fn section_for_key(key: Seq<char>) -> Option<Section> {
    if key == "prebuild"@ {
        Some(Section::PreBuild)
    } else if key == "build"@ {
        Some(Section::Build)
    } else if key == "postbuild"@ {
        Some(Section::PostBuild)
    } else if key == "test"@ {
        Some(Section::Test)
    } else if key == "predeploy"@ {
        Some(Section::PreDeploy)
    } else if key == "deploy"@ {
        Some(Section::Deploy)
    } else if key == "postdeploy"@ {
        Some(Section::PostDeploy)
    } else if key == "clean"@ {
        Some(Section::Clean)
    } else {
        None
    }
}

impl Section {
    pub fn as_str(&self) -> (r: &'static str)
        ensures
            r@ == self.name(),
    {
        match self {
            Section::PreBuild => "PreBuild",
            Section::Build => "Build",
            Section::PostBuild => "PostBuild",
            Section::Test => "Test",
            Section::PreDeploy => "PreDeploy",
            Section::Deploy => "Deploy",
            Section::PostDeploy => "PostDeploy",
            Section::Clean => "Clean",
        }
    }

    /// The section that a configuration key names.
    pub fn for_key(key: &str) -> (r: Option<Section>)
        ensures
            r == section_for_key(key@),
    {
        if str_eq(key, "prebuild") {
            Some(Section::PreBuild)
        } else if str_eq(key, "build") {
            Some(Section::Build)
        } else if str_eq(key, "postbuild") {
            Some(Section::PostBuild)
        } else if str_eq(key, "test") {
            Some(Section::Test)
        } else if str_eq(key, "predeploy") {
            Some(Section::PreDeploy)
        } else if str_eq(key, "deploy") {
            Some(Section::Deploy)
        } else if str_eq(key, "postdeploy") {
            Some(Section::PostDeploy)
        } else if str_eq(key, "clean") {
            Some(Section::Clean)
        } else {
            None
        }
    }

    /// The display name for a configuration key, or `Unknown`.
    pub fn map_section(yml_name: &str) -> (r: &str)
        ensures
            r@ == match section_for_key(yml_name@) {
                Some(s) => s.name(),
                None => "Unknown"@,
            },
    {
        match Section::for_key(yml_name) {
            Some(s) => s.as_str(),
            None => "Unknown",
        }
    }

    /// The section with display name `name`.
    pub fn get_section(name: &str) -> (r: Section)
        requires
            exists|s: Section| s.name() == name@,
        ensures
            r.name() == name@,
    {
        let ghost s = choose|s: Section| s.name() == name@;
        if str_eq(name, "PreBuild") {
            Section::PreBuild
        } else if str_eq(name, "Build") {
            Section::Build
        } else if str_eq(name, "PostBuild") {
            Section::PostBuild
        } else if str_eq(name, "Test") {
            Section::Test
        } else if str_eq(name, "PreDeploy") {
            Section::PreDeploy
        } else if str_eq(name, "Deploy") {
            Section::Deploy
        } else if str_eq(name, "PostDeploy") {
            Section::PostDeploy
        } else {
            assert(s == Section::Clean);
            Section::Clean
        }
    }

    /// The section at position `i` of the run order.
    pub fn from_index(i: usize) -> (r: Section)
        requires
            i < 8,
        ensures
            r == Section::at(i as int),
    {
        if i == 0 {
            Section::PreBuild
        } else if i == 1 {
            Section::Build
        } else if i == 2 {
            Section::PostBuild
        } else if i == 3 {
            Section::Test
        } else if i == 4 {
            Section::PreDeploy
        } else if i == 5 {
            Section::Deploy
        } else if i == 6 {
            Section::PostDeploy
        } else {
            Section::Clean
        }
    }
}

/// The platform whose step lists run.
#[derive(Debug, Clone, Copy, PartialEq, Eq, Structural, Hash)]
pub enum Os {
    Windows,
    Linux,
    Macos,
}

/// Whether section `s` runs: with a section filter, when the filter names it;
/// without one, for every section but Clean.
pub open spec fn runs_section(env: Environment, s: Section) -> bool {
    match sections_view(env.sections) {
        Some(f) => f.contains(s),
        None => s != Section::Clean,
    }
}

/// Decides whether section `s` runs under `env`'s section filter.
pub fn section_selected(env: &Environment, s: Section) -> (r: bool)
    ensures
        r == runs_section(*env, s),
{
    match &env.sections {
        Some(f) => {
            let mut i: usize = 0;
            while i < f.len()
                invariant
                    i <= f@.len(),
                    sections_view(env.sections) == Some(f@),
                    forall|j: int| 0 <= j < i ==> f@[j] != s,
                decreases f@.len() - i,
            {
                if f[i] == s {
                    proof {
                        assert(f@[i as int] == s);
                        assert(f@.contains(s));
                    }
                    return true;
                }
                i += 1;
            }
            false
        },
        None => s != Section::Clean,
    }
}

/// The writes of a table of pairs, all from `source`.
pub open spec fn pair_writes(pairs: Seq<(String, String)>, source: EnvVariableSource) -> Seq<VarWrite> {
    pairs.map_values(|p: (String, String)| (p.0@, (p.1@, source)))
}

/// The writes of a local `env` table, all from the Local source.
pub open spec fn local_writes(pairs: Seq<(String, String)>) -> Seq<VarWrite> {
    pair_writes(pairs, EnvVariableSource::Local)
}

/// Writes each pair of `pairs`, in order, from `source`.
pub fn write_pairs(env: &mut Environment, pairs: &Vec<(String, String)>, source: EnvVariableSource)
    requires
        old(env).wf(),
    ensures
        final(env).wf(),
        final(env).vars() == upserts(old(env).vars(), pair_writes(pairs@, source)),
        final(env).same_settings(&*old(env)),
{
    let mut i: usize = 0;
    proof {
        assert(pair_writes(pairs@.take(0), source) =~= Seq::<VarWrite>::empty());
    }
    while i < pairs.len()
        invariant
            i <= pairs@.len(),
            env.wf(),
            env.vars() == upserts(old(env).vars(), pair_writes(pairs@.take(i as int), source)),
            env.same_settings(&*old(env)),
        decreases pairs@.len() - i,
    {
        let k = pairs[i].0.clone();
        let v = pairs[i].1.clone();
        proof {
            let w = pair_writes(pairs@.take(i as int), source);
            assert(pair_writes(pairs@.take(i as int + 1), source) =~= w.push((k@, (v@, source))));
            assert(w.push((k@, (v@, source))).drop_last() =~= w);
        }
        env.upsert_variable(k, v, source);
        i += 1;
    }
    proof {
        assert(pairs@.take(pairs@.len() as int) =~= pairs@);
    }
}

/// `m` with the variables of local settings `lc` written from the Local source.
pub open spec fn with_local_vars(m: VarMap, lc: Option<LocalConfig>) -> VarMap {
    match lc {
        Some(l) => match l.env {
            Some(e) => upserts(m, local_writes(e@)),
            None => m,
        },
        None => m,
    }
}

/// The policy in force once local settings `lc` apply over `p`.
pub open spec fn with_local_policy(p: ExecutionPolicy, lc: Option<LocalConfig>) -> ExecutionPolicy {
    match lc {
        Some(l) => match l.execution_policy {
            Some(q) => q,
            None => p,
        },
        None => p,
    }
}

/// `inner` is `outer` with local settings `lc` applied.
pub open spec fn scoped_env(outer: Environment, lc: Option<LocalConfig>, inner: Environment) -> bool {
    &&& inner.wf()
    &&& inner.vars() == with_local_vars(outer.vars(), lc)
    &&& inner.execution_policy == with_local_policy(outer.execution_policy, lc)
    &&& inner.same_options(&outer)
}

/// Applies local settings: their variables from the Local source, their policy if given.
fn apply_local_config(env: &mut Environment, lc: &Option<LocalConfig>)
    requires
        old(env).wf(),
    ensures
        scoped_env(*old(env), *lc, *final(env)),
{
    if let Some(l) = lc {
        if let Some(pairs) = &l.env {
            write_pairs(env, pairs, EnvVariableSource::Local);
        }
        if let Some(p) = l.execution_policy {
            env.execution_policy = p;
        }
    }
}

/// `m` with the variables of global settings `g` written from the Global source.
pub open spec fn with_global_vars(m: VarMap, g: Option<GlobalConfig>) -> VarMap {
    match g {
        Some(c) => match c.env {
            Some(e) => upserts(m, pair_writes(e@, EnvVariableSource::Global)),
            None => m,
        },
        None => m,
    }
}

/// The policy in force once global settings `g` apply over `p`.
pub open spec fn with_global_policy(p: ExecutionPolicy, g: Option<GlobalConfig>) -> ExecutionPolicy {
    match g {
        Some(c) => match c.execution_policy {
            Some(q) => q,
            None => p,
        },
        None => p,
    }
}

/// Applies the global settings of `config`: its policy, if given, and its
/// variables from the Global source.
pub fn apply_global_config(env: &mut Environment, config: &Config)
    requires
        old(env).wf(),
    ensures
        final(env).wf(),
        final(env).vars() == with_global_vars(old(env).vars(), config.global_config),
        final(env).execution_policy == with_global_policy(old(env).execution_policy, config.global_config),
        final(env).same_options(&*old(env)),
{
    if let Some(g) = &config.global_config {
        if let Some(pairs) = &g.env {
            write_pairs(env, pairs, EnvVariableSource::Global);
        }
        if let Some(p) = g.execution_policy {
            env.execution_policy = p;
        }
    }
}

/// The sections that the global settings list to skip; an error names the
/// first entry that is not a section key.
pub fn skipped_sections(config: &Config) -> (r: Result<Option<Vec<Section>>, RunnerError>)
    ensures
        match config.global_config {
            Some(g) => match g.banned_sections {
                Some(names) => match r {
                    Ok(Some(v)) => v@.len() == names@.len() && forall|i: int|
                        0 <= i < names@.len() ==> section_for_key(#[trigger] names@[i]@) == Some(v@[i]),
                    Ok(None) => false,
                    Err(e) => exists|i: int|
                        0 <= i < names@.len() && section_for_key(#[trigger] names@[i]@) is None,
                },
                None => r matches Ok(None),
            },
            None => r matches Ok(None),
        },
{
    match &config.global_config {
        Some(g) => match &g.banned_sections {
            Some(names) => {
                let mut out: Vec<Section> = Vec::new();
                let mut i: usize = 0;
                while i < names.len()
                    invariant
                        config.global_config == Some(*g),
                        g.banned_sections == Some(*names),
                        i <= names@.len(),
                        out@.len() == i,
                        forall|j: int| 0 <= j < i ==> section_for_key(#[trigger] names@[j]@) == Some(out@[j]),
                    decreases names@.len() - i,
                {
                    match Section::for_key(names[i].as_str()) {
                        Some(s) => out.push(s),
                        None => {
                            let mut m = String::from_str("unknown section '");
                            m.append(names[i].as_str());
                            m.append("' in skip_sections");
                            return Err(RunnerError::Constraints(m));
                        },
                    }
                    i += 1;
                }
                Ok(Some(out))
            },
            None => Ok(None),
        },
        None => Ok(None),
    }
}

/// Selects the steps of `pc` for `os`, and applies that platform's local
/// settings to `env`; `None`, with `env` untouched, when `pc` has nothing for `os`.
fn commands_for_os<'a>(pc: &'a PlatformCommands, env: &mut Environment, os: Os) -> (r: Option<&'a Vec<String>>)
    requires
        old(env).wf(),
    ensures
        match pc.block_of(os) {
            Some(b) => deref_opt(r) == b.steps && scoped_env(*old(env), b.local_config, *final(env)),
            None => r is None && *final(env) == *old(env),
        },
{
    match pc.block_for(os) {
        Some(b) => {
            apply_local_config(env, &b.local_config);
            b.steps.as_ref()
        },
        None => None,
    }
}

/// The steps of a block, none when it lists none.
pub open spec fn block_steps(b: Block) -> Seq<String> {
    match b.steps {
        Some(v) => v@,
        None => Seq::empty(),
    }
}

/// The platform block that section `s` runs on `os`, when it lists steps.
pub open spec fn section_block(config: Config, os: Os, s: Section) -> Option<Block> {
    match config.tasks.commands_of(s) {
        Some(pc) => match pc.block_of(os) {
            Some(b) => if block_steps(b).len() > 0 {
                Some(b)
            } else {
                None
            },
            None => None,
        },
        None => None,
    }
}

/// Section `s` runs under `env` and has steps for its platform.
pub open spec fn opens_section(config: Config, env: Environment, s: Section) -> bool {
    runs_section(env, s) && section_block(config, env.os, s) is Some
}

/// One scope of the run: a section's steps or a block's, how far they have
/// run, and the environment they run in.
#[derive(Debug)]
pub struct Scope {
    pub name: String,
    pub is_block: bool,
    pub steps: Vec<String>,
    pub next: usize,
    pub env: Environment,
}

/// `sc` is the fresh scope of section `s` entered from `env`.
pub open spec fn is_section_scope(config: Config, env: Environment, s: Section, sc: Scope) -> bool {
    let b = section_block(config, env.os, s)->0;
    &&& sc.name@ == s.name()
    &&& !sc.is_block
    &&& sc.steps@ == block_steps(b)
    &&& sc.next == 0
    &&& scoped_env(env, b.local_config, sc.env)
}

/// The scope in which section `s` runs from `env`, or `None` when the section
/// is filtered out or has no steps for the platform.
pub fn run_section(section: Section, config: &Config, env: &Environment) -> (r: Option<Scope>)
    requires
        env.wf(),
    ensures
        r is Some <==> opens_section(*config, *env, section),
        r matches Some(sc) ==> is_section_scope(*config, *env, section, sc),
{
    if !section_selected(env, section) {
        return None;
    }
    match config.tasks.section_commands(section) {
        Some(pc) => {
            let mut scoped = env.snapshot();
            match commands_for_os(pc, &mut scoped, env.os) {
                Some(steps) => {
                    if steps.len() == 0 {
                        return None;
                    }
                    let copied = copy_steps(steps);
                    Some(Scope { name: String::from_str(section.as_str()), is_block: false, steps: copied, next: 0, env: scoped })
                },
                None => None,
            }
        },
        None => None,
    }
}

/// A copy of a list of steps.
fn copy_steps(v: &Vec<String>) -> (r: Vec<String>)
    ensures
        r@ == v@,
{
    let mut out: Vec<String> = Vec::new();
    let mut i: usize = 0;
    while i < v.len()
        invariant
            i <= v@.len(),
            out@ == v@.take(i as int),
        decreases v@.len() - i,
    {
        out.push(v[i].clone());
        i += 1;
        proof {
            assert(out@ =~= v@.take(i as int));
        }
    }
    proof {
        assert(v@.take(v@.len() as int) =~= v@);
    }
    out
}

/// `blocks` defines a block named `name`.
pub open spec fn has_block(blocks: Seq<(String, Block)>, name: Seq<char>) -> bool {
    exists|i: int| 0 <= i < blocks.len() && #[trigger] blocks[i].0@ == name
}

/// Block `i` is the first of `blocks` named `name`.
pub open spec fn first_block(blocks: Seq<(String, Block)>, name: Seq<char>, i: int) -> bool {
    &&& 0 <= i < blocks.len()
    &&& blocks[i].0@ == name
    &&& forall|j: int| 0 <= j < i ==> #[trigger] blocks[j].0@ != name
}

/// The block that the name `name` refers to: the first so named.
pub open spec fn named_block(blocks: Seq<(String, Block)>, name: Seq<char>) -> Block {
    blocks[choose|i: int| first_block(blocks, name, i)].1
}

proof fn lemma_first_block(blocks: Seq<(String, Block)>, name: Seq<char>, i: int)
    requires
        first_block(blocks, name, i),
    ensures
        named_block(blocks, name) == blocks[i].1,
        has_block(blocks, name),
{
    let k = choose|k: int| first_block(blocks, name, k);
    assert(first_block(blocks, name, k));
    if k < i {
        assert(blocks[k].0@ != name);
    } else if k > i {
        assert(blocks[i].0@ != name);
    }
}

/// Index of the first block named `name`.
fn find_block(config: &Config, name: &str) -> (r: Option<usize>)
    ensures
        r matches Some(i) ==> first_block(config.blocks@, name@, i as int),
        r is None ==> !has_block(config.blocks@, name@),
{
    let mut i: usize = 0;
    while i < config.blocks.len()
        invariant
            i <= config.blocks@.len(),
            forall|j: int| 0 <= j < i ==> #[trigger] config.blocks@[j].0@ != name@,
        decreases config.blocks@.len() - i,
    {
        if str_eq(config.blocks[i].0.as_str(), name) {
            return Some(i);
        }
        i += 1;
    }
    None
}

/// `s` is one unquoted token: not empty, no white space, not opening with a quote.
pub open spec fn is_token(s: Seq<char>) -> bool {
    &&& s.len() > 0
    &&& forall|i: int| 0 <= i < s.len() ==> !is_white_space(#[trigger] s[i])
    &&& s[0] != '\'' && s[0] != '"'
}

/// A trimmed step refers to a block: it is one unquoted token that names a block.
pub open spec fn is_block_ref(step: Seq<char>, config: Config) -> bool {
    is_token(step) && has_block(config.blocks@, step)
}

/// Whether `c` has the White_Space property, as `char::is_whitespace` answers.
fn char_is_white_space(c: char) -> (r: bool)
    ensures
        r == is_white_space(c),
{
    let n = c as u32;
    (0x09 <= n && n <= 0x0D) || n == 0x20 || n == 0x85 || n == 0xA0 || n == 0x1680 || (0x2000 <= n
        && n <= 0x200A) || n == 0x2028 || n == 0x2029 || n == 0x202F || n == 0x205F || n == 0x3000
}

fn token(s: &str) -> (r: bool)
    ensures
        r == is_token(s@),
{
    let n = s.unicode_len();
    if n == 0 {
        return false;
    }
    let first = s.get_char(0);
    if first == '\'' || first == '"' {
        return false;
    }
    let mut i: usize = 0;
    while i < n
        invariant
            n == s@.len(),
            i <= n,
            forall|j: int| 0 <= j < i ==> !is_white_space(#[trigger] s@[j]),
        decreases n - i,
    {
        if char_is_white_space(s.get_char(i)) {
            return false;
        }
        i += 1;
    }
    true
}

/// Decides whether the trimmed step `step` refers to a block of `config`.
pub fn is_block_reference(step: &str, config: &Config) -> (r: bool)
    ensures
        r == is_block_ref(step@, *config),
{
    if !token(step) {
        return false;
    }
    match find_block(config, step) {
        Some(i) => {
            proof {
                lemma_first_block(config.blocks@, step@, i as int);
            }
            true
        },
        None => false,
    }
}

/// `sc` is the fresh scope of the block named `name` entered from `env`.
pub open spec fn is_block_scope(config: Config, env: Environment, name: Seq<char>, sc: Scope) -> bool {
    let b = named_block(config.blocks@, name);
    &&& sc.name@ == name
    &&& sc.is_block
    &&& sc.steps@ == block_steps(b)
    &&& sc.next == 0
    &&& scoped_env(env, b.local_config, sc.env)
}

/// The message for a reference to a block that does not exist.
pub open spec fn missing_block_message(name: Seq<char>) -> Seq<char> {
    "Block '"@ + name + "' not found"@
}

/// The scope in which block `block_name` runs from `env`: a copy of `env`
/// with the block's local settings applied.
pub fn run_block(block_name: &str, config: &Config, env: &Environment) -> (r: Result<Scope, RunnerError>)
    requires
        env.wf(),
    ensures
        !has_block(config.blocks@, block_name@) ==> (r matches Err(RunnerError::BlockNotFound(m)) && m@
            == missing_block_message(block_name@)),
        has_block(config.blocks@, block_name@) ==> (r matches Ok(sc) && is_block_scope(
            *config,
            *env,
            block_name@,
            sc,
        )),
{
    match find_block(config, block_name) {
        Some(i) => {
            proof {
                lemma_first_block(config.blocks@, block_name@, i as int);
            }
            let b = &config.blocks[i].1;
            let mut scoped = env.snapshot();
            apply_local_config(&mut scoped, &b.local_config);
            let steps = match &b.steps {
                Some(v) => copy_steps(v),
                None => Vec::new(),
            };
            proof {
                if b.steps is None {
                    assert(steps@ =~= block_steps(*b));
                }
            }
            Ok(Scope { name: String::from_str(block_name), is_block: true, steps, next: 0, env: scoped })
        },
        None => {
            let mut m = String::from_str("Block '");
            m.append(block_name);
            m.append("' not found");
            Err(RunnerError::BlockNotFound(m))
        },
    }
}

/// The character of decimal digit `d`.
pub open spec fn digit_char(d: int) -> char {
    if d == 0 {
        '0'
    } else if d == 1 {
        '1'
    } else if d == 2 {
        '2'
    } else if d == 3 {
        '3'
    } else if d == 4 {
        '4'
    } else if d == 5 {
        '5'
    } else if d == 6 {
        '6'
    } else if d == 7 {
        '7'
    } else if d == 8 {
        '8'
    } else {
        '9'
    }
}

/// The decimal digits of `n`, without leading zeros.
pub open spec fn digits(n: nat) -> Seq<char>
    decreases n,
{
    if n < 10 {
        seq![digit_char(n as int)]
    } else {
        digits(n / 10) + seq![digit_char((n % 10) as int)]
    }
}

/// `n` in decimal, with a minus sign when negative.
pub open spec fn decimal(n: int) -> Seq<char> {
    if n < 0 {
        seq!['-'] + digits((-n) as nat)
    } else {
        digits(n as nat)
    }
}

/// The decimal digit `d` as text.
fn digit_text(d: u32) -> (r: &'static str)
    requires
        d < 10,
    ensures
        r@ == seq![digit_char(d as int)],
{
    if d == 0 {
        proof {
            reveal_strlit("0");
            assert("0"@ =~= seq!['0']);
        }
        "0"
    } else if d == 1 {
        proof {
            reveal_strlit("1");
            assert("1"@ =~= seq!['1']);
        }
        "1"
    } else if d == 2 {
        proof {
            reveal_strlit("2");
            assert("2"@ =~= seq!['2']);
        }
        "2"
    } else if d == 3 {
        proof {
            reveal_strlit("3");
            assert("3"@ =~= seq!['3']);
        }
        "3"
    } else if d == 4 {
        proof {
            reveal_strlit("4");
            assert("4"@ =~= seq!['4']);
        }
        "4"
    } else if d == 5 {
        proof {
            reveal_strlit("5");
            assert("5"@ =~= seq!['5']);
        }
        "5"
    } else if d == 6 {
        proof {
            reveal_strlit("6");
            assert("6"@ =~= seq!['6']);
        }
        "6"
    } else if d == 7 {
        proof {
            reveal_strlit("7");
            assert("7"@ =~= seq!['7']);
        }
        "7"
    } else if d == 8 {
        proof {
            reveal_strlit("8");
            assert("8"@ =~= seq!['8']);
        }
        "8"
    } else {
        proof {
            reveal_strlit("9");
            assert("9"@ =~= seq!['9']);
        }
        "9"
    }
}

/// The decimal digits of `n`.
fn digits_text(n: u32) -> (r: String)
    ensures
        r@ == digits(n as nat),
    decreases n,
{
    if n < 10 {
        String::from_str(digit_text(n))
    } else {
        let mut s = digits_text(n / 10);
        s.append(digit_text(n % 10));
        s
    }
}

/// `n` in decimal, with a minus sign when negative.
fn decimal_text(n: i32) -> (r: String)
    ensures
        r@ == decimal(n as int),
{
    if n < 0 {
        let m = (0 - (n as i64)) as u32;
        let mut s = String::from_str("-");
        let d = digits_text(m);
        s.append(d.as_str());
        proof {
            reveal_strlit("-");
            assert("-"@ =~= seq!['-']);
        }
        s
    } else {
        digits_text(n as u32)
    }
}

/// How an exit code reads in a failure message.
pub open spec fn exit_text(code: Option<i32>) -> Seq<char> {
    match code {
        Some(n) => decimal(n as int),
        None => "none"@,
    }
}

/// The message for a command `cmd` of scope `scope` that exited with `code`.
pub open spec fn command_failure(scope: Seq<char>, cmd: Seq<char>, code: Option<i32>) -> Seq<char> {
    "Parent '"@ + scope + "' command failed: '"@ + cmd + "' (exit "@ + exit_text(code) + ")"@
}

/// The message with which block `block` fails in scope `parent`, after `inner`.
pub open spec fn block_failure(block: Seq<char>, parent: Seq<char>, inner: Seq<char>) -> Seq<char> {
    "Block '"@ + block + "' execution failed in parent '"@ + parent + "': "@ + inner
}

/// The message for a block entered again while it runs.
pub open spec fn cycle_message(name: Seq<char>) -> Seq<char> {
    "Block '"@ + name + "' is already running"@
}

fn command_failure_text(scope: &String, cmd: &String, code: Option<i32>) -> (r: String)
    ensures
        r@ == command_failure(scope@, cmd@, code),
{
    let mut m = String::from_str("Parent '");
    m.append(scope.as_str());
    m.append("' command failed: '");
    m.append(cmd.as_str());
    m.append("' (exit ");
    match code {
        Some(n) => {
            let t = decimal_text(n);
            m.append(t.as_str());
        },
        None => {
            m.append("none");
        },
    }
    m.append(")");
    m
}

fn block_failure_text(block: &String, parent: &String, inner: &String) -> (r: String)
    ensures
        r@ == block_failure(block@, parent@, inner@),
{
    let mut m = String::from_str("Block '");
    m.append(block.as_str());
    m.append("' execution failed in parent '");
    m.append(parent.as_str());
    m.append("': ");
    m.append(inner.as_str());
    m
}

/// What the runner asks of its driver, or reports to it.
#[derive(Debug)]
pub enum Action {
    /// A section's scope was entered.
    SectionStarted(Section),
    /// A block's scope was entered.
    BlockEntered(String),
    /// Run this command line in this environment, then report with `complete`.
    Execute { command: String, env: Environment },
    /// A step that does not run: empty, or a command under dry run.
    Skipped(String),
    /// A scope ran all its steps and its environment was merged upward.
    ScopeFinished(String),
    /// The run is over.
    Finished(Result<(), RunnerError>),
}

/// How a command asked for by `Action::Execute` ended.
#[derive(Debug)]
pub enum CommandOutcome {
    /// The shell ran: whether the command succeeded, its exit code if any,
    /// and the environment it left behind as `KEY=VALUE` lines, if any.
    Exited { success: bool, code: Option<i32>, dump: Option<String> },
    /// The shell itself could not be started.
    SpawnFailed(String),
}

/// A run in progress. Its driver calls `next_action` and, after each
/// `Action::Execute`, runs the command and calls `complete`, until
/// `Action::Finished`. The fields can be read; only these two methods change them.
#[derive(Debug)]
pub struct Runner {
    pub config: Config,
    /// The global environment, into which each finished section is merged.
    pub env: Environment,
    /// Sections before this position of the run order have been considered.
    pub next_section: usize,
    /// The open scopes, outermost first: a section, then nested blocks.
    pub scopes: Vec<Scope>,
    /// The failures that a carry-forward policy recorded.
    pub failures: Vec<String>,
    /// A command was handed out and its outcome is awaited.
    pub waiting: bool,
    /// The command that was handed out last.
    pub pending: String,
    /// The error that aborts the run, once one has.
    pub abort: Option<RunnerError>,
    /// `Action::Finished` was handed out.
    pub done: bool,
}

/// The first position from `from` on whose section opens, or 8.
pub open spec fn next_opening(config: Config, env: Environment, from: int) -> int
    decreases 8 - from,
{
    if from >= 8 {
        8
    } else if opens_section(config, env, Section::at(from)) {
        from
    } else {
        next_opening(config, env, from + 1)
    }
}

/// A block named `name` is among the open scopes.
pub open spec fn in_flight(scopes: Seq<Scope>, name: Seq<char>) -> bool {
    exists|i: int| 0 <= i < scopes.len() && (#[trigger] scopes[i]).is_block && scopes[i].name@ == name
}

/// `after` is `before` with its next step taken.
pub open spec fn advanced(before: Scope, after: Scope) -> bool {
    &&& after.name == before.name
    &&& after.is_block == before.is_block
    &&& after.steps == before.steps
    &&& after.next == before.next + 1
    &&& after.env == before.env
}

/// `after` is `before` but for the environment's variables.
pub open spec fn same_but_vars(before: Scope, after: Scope) -> bool {
    &&& after.name == before.name
    &&& after.is_block == before.is_block
    &&& after.steps == before.steps
    &&& after.next == before.next
    &&& after.env.wf()
    &&& after.env.same_settings(&before.env)
}

/// The variables of a scope after a command that left `dump` behind.
pub open spec fn after_command(m: VarMap, dump: Option<String>) -> VarMap {
    match dump {
        Some(d) => merged(m, loaded(Map::empty(), d@, EnvVariableSource::Script)),
        None => m,
    }
}

/// Each open scope's name and policy.
pub open spec fn scope_keys(scopes: Seq<Scope>) -> Seq<(Seq<char>, ExecutionPolicy)> {
    scopes.map_values(|s: Scope| (s.name@, s.env.execution_policy))
}

/// Where a failure with message `msg` in the innermost of the scopes `keys`
/// comes to rest under the global policy `global`: the number of scopes left
/// open, the message there, and whether a carry-forward policy recorded it
/// (else it aborts the run). A fast-fail scope closes and fails in its
/// parent, which decides by its own policy; the parent of the outermost
/// scope, a section, is the run, whose policy is `global`.
pub open spec fn settle(
    keys: Seq<(Seq<char>, ExecutionPolicy)>,
    global: ExecutionPolicy,
    msg: Seq<char>,
) -> (int, Seq<char>, bool)
    decreases keys.len(),
{
    if keys.len() == 0 {
        (0, msg, global == ExecutionPolicy::CarryForward)
    } else if keys.last().1 == ExecutionPolicy::CarryForward {
        (keys.len() as int, msg, true)
    } else if keys.len() == 1 {
        (0, msg, global == ExecutionPolicy::CarryForward)
    } else {
        settle(keys.drop_last(), global, block_failure(keys.last().0, keys[keys.len() - 2].0, msg))
    }
}

/// The step of an aborted run: the abort error is handed out and the run ends.
pub open spec fn aborts(o: Runner, f: Runner, a: Action) -> bool {
    &&& o.abort matches Some(e) && a == Action::Finished(Err(e))
    &&& f.done && !f.waiting && f.abort is None
    &&& f.config == o.config && f.env == o.env && f.scopes == o.scopes && f.failures == o.failures
    &&& f.next_section == o.next_section && f.pending == o.pending
}

/// The step between sections: the next section that opens is entered, or,
/// when none is left, the run ends with every recorded failure, if any.
pub open spec fn opens_next(o: Runner, f: Runner, a: Action) -> bool {
    let j = next_opening(o.config, o.env, o.next_section as int);
    &&& f.config == o.config && f.env == o.env && f.abort is None && !f.waiting
    &&& j < 8 ==> {
        &&& a == Action::SectionStarted(Section::at(j))
        &&& f.next_section == j + 1
        &&& f.scopes@.len() == 1
        &&& is_section_scope(o.config, o.env, Section::at(j), f.scopes@[0])
        &&& f.failures == o.failures
        &&& !f.done
    }
    &&& j >= 8 ==> {
        &&& f.done && f.scopes@.len() == 0 && f.next_section == 8
        &&& a matches Action::Finished(res)
        &&& o.failures@.len() == 0 ==> res is Ok
        &&& o.failures@.len() > 0 ==> (res matches Err(RunnerError::Failures(v)) && v@ == o.failures@)
    }
}

/// The step that takes the next step of the innermost scope: an empty step
/// is skipped; a block reference enters the block, unless that block is
/// already open, which aborts; a command is skipped under dry run and is
/// handed out otherwise.
pub open spec fn takes_step(o: Runner, f: Runner, a: Action) -> bool {
    let n = o.scopes@.len();
    let top = o.scopes@[n - 1];
    let step = trimmed(top.steps@[top.next as int]@);
    let moved = f.scopes@.len() >= n && f.scopes@.take(n - 1) == o.scopes@.take(n - 1) && advanced(
        top,
        f.scopes@[n - 1],
    );
    &&& f.config == o.config && f.env == o.env && f.next_section == o.next_section
    &&& f.failures == o.failures && f.abort is None
    &&& if step.len() == 0 {
        &&& moved && f.scopes@.len() == n && !f.waiting && !f.done
        &&& a matches Action::Skipped(t) && t@ == step
    } else if is_block_ref(step, o.config) {
        if in_flight(o.scopes@, step) {
            &&& moved && f.scopes@.len() == n && f.done && !f.waiting
            &&& a matches Action::Finished(Err(RunnerError::Constraints(m))) && m@ == cycle_message(step)
        } else {
            &&& moved && f.scopes@.len() == n + 1 && !f.waiting && !f.done
            &&& is_block_scope(o.config, top.env, step, f.scopes@[n as int])
            &&& a matches Action::BlockEntered(b) && b@ == step
        }
    } else if top.env.dry_run {
        &&& moved && f.scopes@.len() == n && !f.waiting && !f.done
        &&& a matches Action::Skipped(t) && t@ == step
    } else {
        &&& moved && f.scopes@.len() == n && f.waiting && !f.done && f.pending@ == step
        &&& a matches Action::Execute { command, env } && command@ == step && env.wf() && env.vars()
            == top.env.vars() && env.same_settings(&top.env)
    }
}

/// The step that closes an innermost scope that has run all its steps: its
/// variables are merged into its parent's, or into the global environment.
pub open spec fn leaves_scope(o: Runner, f: Runner, a: Action) -> bool {
    let n = o.scopes@.len();
    let top = o.scopes@[n - 1];
    &&& f.config == o.config && f.next_section == o.next_section && f.failures == o.failures
    &&& f.abort is None && !f.waiting && !f.done
    &&& a matches Action::ScopeFinished(x) && x@ == top.name@
    &&& n == 1 ==> {
        &&& f.scopes@.len() == 0
        &&& f.env.wf() && f.env.same_settings(&o.env)
        &&& f.env.vars() == merged(o.env.vars(), top.env.vars())
    }
    &&& n > 1 ==> {
        &&& f.env == o.env
        &&& f.scopes@.len() == n - 1
        &&& f.scopes@.take(n - 2) == o.scopes@.take(n - 2)
        &&& same_but_vars(o.scopes@[n - 2], f.scopes@[n - 2])
        &&& f.scopes@[n - 2].env.vars() == merged(o.scopes@[n - 2].env.vars(), top.env.vars())
    }
}

/// What taking a command's outcome does: a shell that did not start aborts
/// the run; otherwise the dump is merged into the innermost scope, and a
/// failure is settled by the policies of the open scopes.
pub open spec fn completes(o: Runner, outcome: CommandOutcome, f: Runner, recorded: Option<String>) -> bool {
    &&& !f.waiting && !f.done
    &&& f.config == o.config && f.env == o.env && f.next_section == o.next_section && f.pending == o.pending
    &&& match outcome {
        CommandOutcome::SpawnFailed(m) => {
            &&& f.abort == Some(RunnerError::Io(m))
            &&& f.scopes == o.scopes && f.failures == o.failures && recorded is None
        },
        CommandOutcome::Exited { success, code, dump } => {
            let n = o.scopes@.len();
            let top = o.scopes@[n - 1];
            let st = settle(scope_keys(o.scopes@), o.env.execution_policy, command_failure(top.name@, o.pending@, code));
            let kept = if success {
                n as int
            } else {
                st.0
            };
            &&& f.scopes@.len() == kept
            &&& kept == n ==> {
                &&& f.scopes@.take(n - 1) == o.scopes@.take(n - 1)
                &&& same_but_vars(top, f.scopes@[n - 1])
                &&& f.scopes@[n - 1].env.vars() == after_command(top.env.vars(), dump)
            }
            &&& kept < n ==> f.scopes@ == o.scopes@.take(kept)
            &&& success ==> f.failures == o.failures && f.abort is None && recorded is None
            &&& !success && st.2 ==> {
                &&& f.abort is None
                &&& f.failures@.len() == o.failures@.len() + 1
                &&& f.failures@.take(o.failures@.len() as int) == o.failures@
                &&& f.failures@.last()@ == st.1
                &&& recorded matches Some(r) && r@ == st.1
            }
            &&& !success && !st.2 ==> {
                &&& f.failures == o.failures && recorded is None
                &&& f.abort matches Some(RunnerError::CmdFailed(x)) && x@ == st.1
            }
        },
    }
}

proof fn lemma_settle_bounds(keys: Seq<(Seq<char>, ExecutionPolicy)>, global: ExecutionPolicy, msg: Seq<char>)
    ensures
        0 <= settle(keys, global, msg).0 <= keys.len(),
        !settle(keys, global, msg).2 ==> settle(keys, global, msg).0 == 0,
    decreases keys.len(),
{
    if keys.len() > 1 && keys.last().1 != ExecutionPolicy::CarryForward {
        lemma_settle_bounds(
            keys.drop_last(),
            global,
            block_failure(keys.last().0, keys[keys.len() - 2].0, msg),
        );
    }
}

/// Starts a run of `config`'s sections from the global environment `env`.
pub fn run(config: Config, env: Environment) -> (r: Runner)
    requires
        env.wf(),
    ensures
        r.wf(),
        r.config == config,
        r.env == env,
        r.next_section == 0,
        r.scopes@.len() == 0,
        r.failures@.len() == 0,
        !r.waiting,
        r.abort is None,
        !r.done,
{
    Runner {
        config,
        env,
        next_section: 0,
        scopes: Vec::new(),
        failures: Vec::new(),
        waiting: false,
        pending: String::new(),
        abort: None,
        done: false,
    }
}

impl Runner {
    /// Every environment is well formed, no scope has run past its steps, and
    /// a command is awaited only inside a scope.
    pub open spec fn wf(&self) -> bool {
        &&& self.env.wf()
        &&& self.next_section <= 8
        &&& forall|i: int|
            0 <= i < self.scopes@.len() ==> (#[trigger] self.scopes@[i]).env.wf() && self.scopes@[i].next
                <= self.scopes@[i].steps@.len()
        &&& self.waiting ==> self.scopes@.len() > 0 && self.abort is None && !self.done
    }

    /// Advances the run by one step and says what happened, or what the
    /// driver must do.
    pub fn next_action(&mut self) -> (a: Action)
        requires
            old(self).wf(),
            !old(self).waiting,
            !old(self).done,
        ensures
            final(self).wf(),
            old(self).abort is Some ==> aborts(*old(self), *final(self), a),
            old(self).abort is None && old(self).scopes@.len() == 0 ==> opens_next(*old(self), *final(self), a),
            old(self).abort is None && old(self).scopes@.len() > 0 && old(self).scopes@.last().next
                < old(self).scopes@.last().steps@.len() ==> takes_step(*old(self), *final(self), a),
            old(self).abort is None && old(self).scopes@.len() > 0 && old(self).scopes@.last().next
                >= old(self).scopes@.last().steps@.len() ==> leaves_scope(*old(self), *final(self), a),
    {
        match self.abort.take() {
            Some(e) => {
                self.done = true;
                return Action::Finished(Err(e));
            },
            None => {},
        }
        if self.scopes.len() == 0 {
            return self.open_next_section();
        }
        let n = self.scopes.len();
        if self.scopes[n - 1].next < self.scopes[n - 1].steps.len() {
            self.take_step()
        } else {
            self.leave_scope()
        }
    }

    fn open_next_section(&mut self) -> (a: Action)
        requires
            old(self).wf(),
            !old(self).waiting,
            !old(self).done,
            old(self).abort is None,
            old(self).scopes@.len() == 0,
        ensures
            final(self).wf(),
            opens_next(*old(self), *final(self), a),
    {
        let mut j: usize = self.next_section;
        while j < 8
            invariant
                self.wf(),
                self.scopes@.len() == 0,
                old(self).next_section <= j <= 8,
                self.config == old(self).config,
                self.env == old(self).env,
                self.failures == old(self).failures,
                self.abort is None,
                !self.waiting,
                !self.done,
                next_opening(self.config, self.env, j as int) == next_opening(
                    self.config,
                    self.env,
                    old(self).next_section as int,
                ),
            decreases 8 - j,
        {
            let s = Section::from_index(j);
            match run_section(s, &self.config, &self.env) {
                Some(sc) => {
                    self.scopes.push(sc);
                    self.next_section = j + 1;
                    return Action::SectionStarted(s);
                },
                None => {},
            }
            j += 1;
        }
        self.next_section = 8;
        self.done = true;
        let mut recorded: Vec<String> = Vec::new();
        std::mem::swap(&mut recorded, &mut self.failures);
        if recorded.len() == 0 {
            Action::Finished(Ok(()))
        } else {
            Action::Finished(Err(RunnerError::Failures(recorded)))
        }
    }

    fn take_step(&mut self) -> (a: Action)
        requires
            old(self).wf(),
            !old(self).waiting,
            !old(self).done,
            old(self).abort is None,
            old(self).scopes@.len() > 0,
            old(self).scopes@.last().next < old(self).scopes@.last().steps@.len(),
        ensures
            final(self).wf(),
            takes_step(*old(self), *final(self), a),
    {
        let ghost n = self.scopes@.len();
        let mut top = self.scopes.pop().unwrap();
        proof {
            assert(top == old(self).scopes@[n - 1]);
            assert(self.scopes@ =~= old(self).scopes@.take(n - 1));
        }
        let count = top.steps.len();
        let step = String::from_str(trim_str(top.steps[top.next].as_str()));
        top.next = top.next + 1;
        proof {
            assert(count == top.steps@.len());
            assert(self.scopes@.push(top).take(n - 1) =~= old(self).scopes@.take(n - 1));
        }
        if step.as_str().is_empty() {
            self.scopes.push(top);
            return Action::Skipped(step);
        }
        if is_block_reference(step.as_str(), &self.config) {
            self.scopes.push(top);
            proof {
                assert forall|i: int| 0 <= i < n implies (#[trigger] self.scopes@[i]).is_block
                    == old(self).scopes@[i].is_block && self.scopes@[i].name == old(self).scopes@[i].name by {
                    if i < n - 1 {
                        assert(self.scopes@[i] == old(self).scopes@[i]);
                    }
                }
                if in_flight(old(self).scopes@, step@) {
                    let i = choose|i: int|
                        0 <= i < n && (#[trigger] old(self).scopes@[i]).is_block && old(self).scopes@[i].name@
                            == step@;
                    assert(self.scopes@[i].is_block && self.scopes@[i].name@ == step@);
                }
            }
            if self.block_running(step.as_str()) {
                self.done = true;
                let mut m = String::from_str("Block '");
                m.append(step.as_str());
                m.append("' is already running");
                return Action::Finished(Err(RunnerError::Constraints(m)));
            }
            let k = self.scopes.len() - 1;
            match run_block(step.as_str(), &self.config, &self.scopes[k].env) {
                Ok(sc) => {
                    let ghost before = self.scopes@;
                    self.scopes.push(sc);
                    proof {
                        assert(self.scopes@.take(n - 1) =~= before.take(n - 1));
                        assert(self.scopes@[n - 1] == before[n - 1]);
                    }
                    return Action::BlockEntered(step);
                },
                Err(e) => {
                    self.done = true;
                    return Action::Finished(Err(e));
                },
            }
        }
        if top.env.dry_run {
            self.scopes.push(top);
            return Action::Skipped(step);
        }
        let env = top.env.snapshot();
        self.scopes.push(top);
        self.waiting = true;
        self.pending = step.clone();
        Action::Execute { command: step, env }
    }

    fn leave_scope(&mut self) -> (a: Action)
        requires
            old(self).wf(),
            !old(self).waiting,
            !old(self).done,
            old(self).abort is None,
            old(self).scopes@.len() > 0,
            old(self).scopes@.last().next >= old(self).scopes@.last().steps@.len(),
        ensures
            final(self).wf(),
            leaves_scope(*old(self), *final(self), a),
    {
        let ghost n = self.scopes@.len();
        let top = self.scopes.pop().unwrap();
        if self.scopes.len() == 0 {
            self.env.variables.merge(&top.env.variables);
        } else {
            let mut parent = self.scopes.pop().unwrap();
            parent.env.variables.merge(&top.env.variables);
            self.scopes.push(parent);
            proof {
                assert(self.scopes@.take(n - 2) =~= old(self).scopes@.take(n - 2));
            }
        }
        Action::ScopeFinished(top.name)
    }

    /// Takes the outcome of the command handed out last. The environment it
    /// left behind is merged into the innermost scope; a failure is recorded
    /// or aborts, as the policies of the open scopes and then of the run decide. Returns the
    /// message of a failure that was recorded and passed over.
    pub fn complete(&mut self, outcome: CommandOutcome) -> (recorded: Option<String>)
        requires
            old(self).wf(),
            old(self).waiting,
        ensures
            final(self).wf(),
            completes(*old(self), outcome, *final(self), recorded),
    {
        self.waiting = false;
        match outcome {
            CommandOutcome::SpawnFailed(m) => {
                self.abort = Some(RunnerError::Io(m));
                None
            },
            CommandOutcome::Exited { success, code, dump } => {
                let ghost n = self.scopes@.len();
                let mut top = self.scopes.pop().unwrap();
                proof {
                    assert(top == old(self).scopes@[n - 1]);
                }
                if let Some(d) = dump {
                    let mut delta = VarTable::new();
                    delta.load(d.as_str(), EnvVariableSource::Script);
                    top.env.variables.merge(&delta);
                }
                if success {
                    self.scopes.push(top);
                    proof {
                        assert(self.scopes@.take(n - 1) =~= old(self).scopes@.take(n - 1));
                    }
                    return None;
                }
                let msg = command_failure_text(&top.name, &self.pending, code);
                self.scopes.push(top);
                proof {
                    assert(self.scopes@.take(n - 1) =~= old(self).scopes@.take(n - 1));
                    assert(scope_keys(self.scopes@) =~= scope_keys(old(self).scopes@));
                    lemma_settle_bounds(scope_keys(old(self).scopes@), old(self).env.execution_policy, msg@);
                }
                let ghost mid = self.scopes@;
                let ghost text = msg@;
                proof {
                    assert(same_but_vars(old(self).scopes@[n - 1], mid[n - 1]));
                }
                let r = self.settle_failure(msg);
                proof {
                    let st = settle(scope_keys(old(self).scopes@), old(self).env.execution_policy, text);
                    if st.2 {
                        assert(self.failures@.take(old(self).failures@.len() as int) =~= old(self).failures@);
                    }
                    if st.0 < n {
                        assert(mid.take(st.0) =~= old(self).scopes@.take(st.0));
                    } else {
                        assert(self.scopes@ =~= mid);
                        assert(self.scopes@.take(n - 1) =~= old(self).scopes@.take(n - 1));
                    }
                }
                r
            },
        }
    }

    fn settle_failure(&mut self, failure: String) -> (recorded: Option<String>)
        requires
            old(self).wf(),
            !old(self).waiting,
            old(self).abort is None,
            old(self).scopes@.len() > 0,
        ensures
            final(self).wf(),
            !final(self).waiting,
            final(self).done == old(self).done,
            final(self).config == old(self).config,
            final(self).env == old(self).env,
            final(self).next_section == old(self).next_section,
            final(self).pending == old(self).pending,
            final(self).scopes@ == old(self).scopes@.take(settle(scope_keys(old(self).scopes@), old(self).env.execution_policy, failure@).0),
            settle(scope_keys(old(self).scopes@), old(self).env.execution_policy, failure@).2 ==> {
                &&& final(self).abort is None
                &&& final(self).failures@ == old(self).failures@.push(final(self).failures@.last())
                &&& final(self).failures@.last()@ == settle(scope_keys(old(self).scopes@), old(self).env.execution_policy, failure@).1
                &&& recorded matches Some(r) && r@ == settle(scope_keys(old(self).scopes@), old(self).env.execution_policy, failure@).1
            },
            !settle(scope_keys(old(self).scopes@), old(self).env.execution_policy, failure@).2 ==> {
                &&& final(self).failures == old(self).failures && recorded is None
                &&& final(self).abort matches Some(RunnerError::CmdFailed(x)) && x@ == settle(
                    scope_keys(old(self).scopes@),
                    old(self).env.execution_policy,
                    failure@,
                ).1
            },
    {
        let ghost goal = settle(scope_keys(self.scopes@), self.env.execution_policy, failure@);
        let mut msg = failure;
        loop
            invariant
                self.wf(),
                !self.waiting,
                self.abort is None,
                self.done == old(self).done,
                self.config == old(self).config,
                self.env == old(self).env,
                self.next_section == old(self).next_section,
                self.pending == old(self).pending,
                self.failures == old(self).failures,
                1 <= self.scopes@.len() <= old(self).scopes@.len(),
                self.scopes@ == old(self).scopes@.take(self.scopes@.len() as int),
                settle(scope_keys(self.scopes@), self.env.execution_policy, msg@) == goal,
                goal == settle(scope_keys(old(self).scopes@), old(self).env.execution_policy, failure@),
            decreases self.scopes@.len(),
        {
            let len = self.scopes.len();
            if self.scopes[len - 1].env.execution_policy == ExecutionPolicy::CarryForward {
                proof {
                    assert(old(self).scopes@.take(len as int) =~= self.scopes@);
                    let keys = scope_keys(self.scopes@);
                    assert(keys.last() == (self.scopes@[len - 1].name@, ExecutionPolicy::CarryForward));
                    assert(settle(keys, self.env.execution_policy, msg@) == (len as int, msg@, true));
                }
                self.failures.push(msg.clone());
                return Some(msg);
            }
            let ghost before = self.scopes@;
            proof {
                let keys = scope_keys(before);
                assert(keys.last() == (before[len - 1].name@, before[len - 1].env.execution_policy));
            }
            let child = self.scopes.pop().unwrap();
            if len == 1 {
                proof {
                    assert(self.scopes@ =~= old(self).scopes@.take(0));
                    assert(settle(scope_keys(before), self.env.execution_policy, msg@) == (
                        0int,
                        msg@,
                        self.env.execution_policy == ExecutionPolicy::CarryForward,
                    ));
                }
                if self.env.execution_policy == ExecutionPolicy::CarryForward {
                    self.failures.push(msg.clone());
                    return Some(msg);
                }
                self.abort = Some(RunnerError::CmdFailed(msg));
                return None;
            }
            let next_msg = block_failure_text(&child.name, &self.scopes[len - 2].name, &msg);
            proof {
                let keys = scope_keys(before);
                assert(scope_keys(self.scopes@) =~= keys.drop_last());
                assert(keys.last() == (child.name@, child.env.execution_policy));
                assert(keys[keys.len() - 2].0 == self.scopes@[len - 2].name@);
                assert(self.scopes@ =~= old(self).scopes@.take(len - 1));
            }
            msg = next_msg;
        }
    }

    fn block_running(&self, name: &str) -> (r: bool)
        ensures
            r == in_flight(self.scopes@, name@),
    {
        let mut i: usize = 0;
        while i < self.scopes.len()
            invariant
                i <= self.scopes@.len(),
                forall|j: int| 0 <= j < i ==> !((#[trigger] self.scopes@[j]).is_block && self.scopes@[j].name@ == name@),
            decreases self.scopes@.len() - i,
        {
            if self.scopes[i].is_block && str_eq(self.scopes[i].name.as_str(), name) {
                proof {
                    assert(self.scopes@[i as int].is_block && self.scopes@[i as int].name@ == name@);
                }
                return true;
            }
            i += 1;
        }
        false
    }
}

/// Without a section filter every section but Clean runs, and Clean never
/// does; with a filter that names only Clean, only Clean runs.
pub proof fn lemma_section_default_skip(env: Environment, s: Section)
    ensures
        env.sections is None ==> (runs_section(env, s) <==> s != Section::Clean),
        sections_view(env.sections) == Some(seq![Section::Clean]) ==> (runs_section(env, s) <==> s
            == Section::Clean),
{
    if sections_view(env.sections) == Some(seq![Section::Clean]) {
        if s == Section::Clean {
            assert(seq![Section::Clean][0] == s);
        }
    }
}

/// With every section listing steps for the platform: without a section
/// filter the run enters PreBuild through PostDeploy, in order, and then
/// ends without entering Clean; with a filter that names only Clean it
/// enters Clean alone.
pub proof fn lemma_default_run_order(config: Config, env: Environment)
    requires
        forall|i: int| 0 <= i < 8 ==> (#[trigger] section_block(config, env.os, Section::at(i))) is Some,
    ensures
        env.sections is None ==> {
            &&& forall|j: int| 0 <= j < 7 ==> #[trigger] next_opening(config, env, j) == j
            &&& next_opening(config, env, 7) == 8
        },
        sections_view(env.sections) == Some(seq![Section::Clean]) ==> {
            &&& forall|j: int| 0 <= j <= 7 ==> #[trigger] next_opening(config, env, j) == 7
            &&& next_opening(config, env, 8) == 8
        },
{
    assert forall|i: int| 0 <= i < 8 implies #[trigger] runs_section(env, Section::at(i)) == (if env.sections
        is None {
        Section::at(i) != Section::Clean
    } else {
        sections_view(env.sections)->0.contains(Section::at(i))
    }) by {
        lemma_section_default_skip(env, Section::at(i));
    }
    if sections_view(env.sections) == Some(seq![Section::Clean]) {
        assert forall|i: int| 0 <= i < 8 implies #[trigger] runs_section(env, Section::at(i)) == (Section::at(i)
            == Section::Clean) by {
            lemma_section_default_skip(env, Section::at(i));
        }
    }
    if env.sections is None {
        assert(next_opening(config, env, 8) == 8);
        assert(!opens_section(config, env, Section::at(7)));
        assert(next_opening(config, env, 7) == 8);
        assert forall|j: int| 0 <= j < 7 implies #[trigger] next_opening(config, env, j) == j by {
            assert(section_block(config, env.os, Section::at(j)) is Some);
            assert(opens_section(config, env, Section::at(j)));
        }
    }
    if sections_view(env.sections) == Some(seq![Section::Clean]) {
        assert(next_opening(config, env, 8) == 8);
        assert(section_block(config, env.os, Section::at(7)) is Some);
        assert(next_opening(config, env, 7) == 7);
        assert(next_opening(config, env, 6) == 7);
        assert(next_opening(config, env, 5) == 7);
        assert(next_opening(config, env, 4) == 7);
        assert(next_opening(config, env, 3) == 7);
        assert(next_opening(config, env, 2) == 7);
        assert(next_opening(config, env, 1) == 7);
        assert(next_opening(config, env, 0) == 7);
    }
}

/// A failing step of a section with no block open: a carry-forward section
/// records it and stays open; a fast-fail section closes, and the run's own
/// policy then records the failure or aborts with it.
pub proof fn lemma_section_failure(name: Seq<char>, global: ExecutionPolicy, msg: Seq<char>)
    ensures
        settle(seq![(name, ExecutionPolicy::CarryForward)], global, msg) == (1int, msg, true),
        settle(seq![(name, ExecutionPolicy::FastFail)], ExecutionPolicy::FastFail, msg) == (0int, msg, false),
        settle(seq![(name, ExecutionPolicy::FastFail)], ExecutionPolicy::CarryForward, msg) == (0int, msg, true),
{
}

/// Block scoping: a variable that a block's local settings write is seen by
/// the block's own steps and, once the block's scope is merged back, by its
/// parent; a scope entered from the parent before that merge, whose own
/// settings do not write it, does not see it.
pub proof fn lemma_block_scoping(
    parent: VarMap,
    block_writes: Seq<VarWrite>,
    sibling_writes: Seq<VarWrite>,
    k: Seq<char>,
    v: Seq<char>,
)
    requires
        !parent.contains_key(k),
        writes_to(block_writes, k) == seq![(k, (v, EnvVariableSource::Local))],
        writes_to(sibling_writes, k).len() == 0,
    ensures
        upserts(parent, block_writes).contains_key(k),
        upserts(parent, block_writes)[k] == (v, EnvVariableSource::Local),
        merged(parent, upserts(parent, block_writes))[k] == (v, EnvVariableSource::Local),
        !upserts(parent, sibling_writes).contains_key(k),
{
    lemma_upserts_at_key(parent, block_writes, k);
    lemma_upserts_at_key(parent, sibling_writes, k);
    let one = seq![(k, (v, EnvVariableSource::Local))];
    assert(one.drop_last() =~= Seq::<VarWrite>::empty());
    assert(writes_to(sibling_writes, k) =~= Seq::<VarWrite>::empty());
}

/// Whether commands run dry: on request, and always when the chosen
/// platform is not the one the runner was built for.
pub fn dry_run_for(detected: Os, chosen: Os, requested: bool) -> (r: bool)
    ensures
        r == (requested || detected != chosen),
{
    requested || detected != chosen
}

/// The file into which a command's shell writes its environment.
pub fn dump_file_name() -> (r: &'static str)
    ensures
        r@ == ".env.vars.zbuild"@,
{
    ".env.vars.zbuild"
}

/// The shell program of `os`: `cmd` on Windows, `sh` elsewhere.
pub fn shell_program(os: Os) -> (r: &'static str)
    ensures
        r@ == if os == Os::Windows {
            "cmd"@
        } else {
            "sh"@
        },
{
    match os {
        Os::Windows => "cmd",
        _ => "sh",
    }
}

/// The shell's builtin that prints the environment into the dump file.
pub open spec fn dump_builtin(os: Os) -> Seq<char> {
    if os == Os::Windows {
        "set > .env.vars.zbuild"@
    } else {
        "env > .env.vars.zbuild"@
    }
}

/// The flag that makes the shell of `os` run one command line.
pub open spec fn shell_flag(os: Os) -> Seq<char> {
    if os == Os::Windows {
        "/C"@
    } else {
        "-c"@
    }
}

/// What the shell of `os` runs after a command so that the environment it
/// leaves is written to the dump file whether or not it succeeded. On `sh`
/// the command's exit status is kept; `cmd` reports a failure as status 1.
pub open spec fn dump_suffix(os: Os) -> Seq<char> {
    if os == Os::Windows {
        " && set > .env.vars.zbuild || (set > .env.vars.zbuild & exit 1)"@
    } else {
        "\n__zbuild_status=$?; env > .env.vars.zbuild; exit $__zbuild_status"@
    }
}

/// The arguments of the shell that runs `command` and then, whatever its
/// outcome, writes the resulting environment to the dump file.
pub fn shell_args(os: Os, command: &str) -> (r: Vec<String>)
    ensures
        r@.len() == 2,
        r@[0]@ == shell_flag(os),
        r@[1]@ == command@ + dump_suffix(os),
{
    let mut line = String::from_str(command);
    let mut args: Vec<String> = Vec::new();
    match os {
        Os::Windows => {
            args.push(String::from_str("/C"));
            line.append(" && set > .env.vars.zbuild || (set > .env.vars.zbuild & exit 1)");
        },
        _ => {
            args.push(String::from_str("-c"));
            line.append("\n__zbuild_status=$?; env > .env.vars.zbuild; exit $__zbuild_status");
        },
    }
    args.push(line);
    args
}

/// The arguments of the shell that writes the ambient environment to the dump file.
pub fn capture_args(os: Os) -> (r: Vec<String>)
    ensures
        r@.len() == 2,
        r@[0]@ == shell_flag(os),
        r@[1]@ == dump_builtin(os),
{
    let mut args: Vec<String> = Vec::new();
    match os {
        Os::Windows => {
            args.push(String::from_str("/C"));
            args.push(String::from_str("set > .env.vars.zbuild"));
        },
        _ => {
            args.push(String::from_str("-c"));
            args.push(String::from_str("env > .env.vars.zbuild"));
        },
    }
    args
}

} // verus!
