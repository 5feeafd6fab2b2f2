//! The cookbook of models: how profiles are checked, and what they ask of a server.
use vstd::prelude::*;
use crate::config::ModelDefaults;
use crate::paths::texts;
use crate::text::{
    ascii_lower, ascii_lowercase, begins_with, chars_of, law_what_is_trimmed, same, starts_with, text_of,
    to_ascii_lowercase, to_lowercase, trim, trimmed, trimmed_end, trimmed_start, unicode_lowercase,
    white_space,
};

verus! {

/// The models that a node can serve.
#[derive(Debug, Clone)]
pub struct Cookbook {
    pub models: Vec<Model>,
}

/// A model and its profiles.
#[derive(Debug, Clone)]
pub struct Model {
    pub name: String,
    pub description: Option<String>,
    pub enabled: bool,
    pub profiles: Vec<Profile>,
}

/// One way to run a model.
#[derive(Debug, Clone)]
pub struct Profile {
    pub id: String,
    pub description: Option<String>,
    pub enabled: bool,
    /// Path of a local model file.
    pub model_path: Option<String>,
    /// Hugging Face repository, in place of `model_path`.
    pub hf_repo: Option<String>,
    /// File in the Hugging Face repository.
    pub hf_file: Option<String>,
    pub idle_timeout_seconds: u64,
    pub max_instances: Option<usize>,
    pub llama_server_args: Vec<String>,
    /// VRAM in MiB that is assumed until a measurement is there.
    pub estimated_vram_mb: Option<u64>,
    /// System memory in MiB that is assumed until a measurement is there.
    pub estimated_sysmem_mb: Option<u64>,
    pub max_wait_in_queue_ms: Option<u64>,
    pub max_request_duration_ms: Option<u64>,
    pub startup_timeout_seconds: Option<u64>,
    /// Time for a download from Hugging Face and the start after it.
    pub download_timeout_seconds: Option<u64>,
    pub max_queue_size: Option<usize>,
    pub min_eviction_tenure_secs: Option<u64>,
}

/// What `shlex::split` makes of a text: its words by the rules of a POSIX shell, or nothing where
/// a quote or an escape is left open.
pub uninterp spec fn shell_words(s: Seq<char>) -> Option<Seq<Seq<char>>>;

/// The texts of some strings, where there are any.
pub open spec fn opt_texts(words: Option<Vec<String>>) -> Option<Seq<Seq<char>>> {
    match words {
        Some(v) => Some(texts(v@)),
        None => None,
    }
}

/// `shlex::split`: the words of a command line, which depend on the text alone.
#[verifier::external_body]
pub(crate) fn split_shell_words(s: &str) -> (r: Option<Vec<String>>)
    ensures
        opt_texts(r) == shell_words(s@),
{
    shlex::split(s)
}

/// Server arguments that are no shell command line.
#[derive(Debug, Clone)]
pub struct ArgsError {
    pub args: String,
}

pub const BAD_ARGS_A: &'static str = "Invalid shell syntax in llama_server_args: '";

pub const BAD_ARGS_B: &'static str = "'. Check for unmatched quotes.";

impl ArgsError {
    /// What is wrong, and how to mend it.
    pub fn message(&self) -> (r: String)
        ensures
            r@ == BAD_ARGS_A@ + self.args@ + BAD_ARGS_B@,
    {
        let mut out = BAD_ARGS_A.to_owned();
        out.append(self.args.as_str());
        out.append(BAD_ARGS_B);
        out
    }
}

/// The arguments in a command line of which the words are known: none in a blank line.
pub fn accept_words(line: &str, words: Option<Vec<String>>) -> (r: Result<Vec<String>, ArgsError>)
    ensures
        match r {
            Ok(args) => if trimmed(line@).len() == 0 {
                args@.len() == 0
            } else {
                words == Some(args)
            },
            Err(e) => trimmed(line@).len() > 0 && words is None && e.args@ == line@,
        },
{
    if trim(line).as_str().is_empty() {
        return Ok(Vec::new());
    }
    match words {
        Some(args) => Ok(args),
        None => Err(ArgsError { args: line.to_owned() }),
    }
}

/// The arguments in a command line: none in a blank line, an error where a quote is left open.
pub fn parse_llama_server_args(line: &str) -> (r: Result<Vec<String>, ArgsError>)
    ensures
        match r {
            Ok(args) => if trimmed(line@).len() == 0 {
                args@.len() == 0
            } else {
                shell_words(line@) == Some(texts(args@))
            },
            Err(e) => trimmed(line@).len() > 0 && shell_words(line@) is None && e.args@ == line@,
        },
{
    accept_words(line, split_shell_words(line))
}

/// Whether an argument is the flag `needle`, alone or with a value after `=`, in whatever case and
/// with white space around it.
pub open spec fn is_flag(arg: Seq<char>, needle: Seq<char>) -> bool {
    let normalized = ascii_lowercase(trimmed(arg));
    normalized == needle || begins_with(normalized, needle + "="@)
}

/// Whether one of the arguments is one of the flags.
pub open spec fn any_flag(args: Seq<Seq<char>>, needles: Seq<&str>) -> bool {
    exists|i: int, j: int|
        0 <= i < args.len() && 0 <= j < needles.len() && is_flag(
            #[trigger] args[i],
            (#[trigger] needles[j])@,
        )
}

/// The position of the first argument that is `t`, or the number of arguments.
pub open spec fn arg_position(args: Seq<Seq<char>>, t: Seq<char>) -> int
    decreases args.len(),
{
    if args.len() == 0 || args[0] == t {
        0
    } else {
        1 + arg_position(args.drop_first(), t)
    }
}

/// The position of the first argument that begins with `p`, or the number of arguments.
pub open spec fn prefix_position(args: Seq<Seq<char>>, p: Seq<char>) -> int
    decreases args.len(),
{
    if args.len() == 0 || begins_with(args[0], p) {
        0
    } else {
        1 + prefix_position(args.drop_first(), p)
    }
}

/// The API key in server arguments: what follows the first `--api-key`, else what follows the
/// first `--api-key=` in one argument.
pub open spec fn api_key(args: Seq<Seq<char>>) -> Option<Seq<char>> {
    let i = arg_position(args, "--api-key"@);
    let j = prefix_position(args, "--api-key="@);
    if i + 1 < args.len() {
        Some(args[i + 1])
    } else if j < args.len() {
        Some(args[j].skip("--api-key="@.len() as int))
    } else {
        None
    }
}

fn find_arg(args: &Vec<String>, t: &str) -> (r: usize)
    ensures
        r == arg_position(texts(args@), t@),
        r <= args@.len(),
{
    let mut i: usize = 0;
    assert(texts(args@).skip(0) =~= texts(args@));
    while i < args.len()
        invariant
            i <= args@.len(),
            arg_position(texts(args@), t@) == i + arg_position(texts(args@).skip(i as int), t@),
        decreases args@.len() - i,
    {
        if same(args[i].as_str(), t) {
            return i;
        }
        assert(texts(args@).skip(i as int).drop_first() =~= texts(args@).skip(i + 1));
        i = i + 1;
    }
    i
}

fn find_prefixed_arg(args: &Vec<String>, p: &str) -> (r: usize)
    ensures
        r == prefix_position(texts(args@), p@),
        r <= args@.len(),
        r < args@.len() ==> begins_with(args@[r as int]@, p@),
{
    let mut i: usize = 0;
    assert(texts(args@).skip(0) =~= texts(args@));
    while i < args.len()
        invariant
            i <= args@.len(),
            prefix_position(texts(args@), p@) == i + prefix_position(
                texts(args@).skip(i as int),
                p@,
            ),
        decreases args@.len() - i,
    {
        if starts_with(args[i].as_str(), p) {
            return i;
        }
        assert(texts(args@).skip(i as int).drop_first() =~= texts(args@).skip(i + 1));
        i = i + 1;
    }
    i
}

/// What is wrong with a profile.
#[derive(Debug, Clone, Copy, PartialEq, Eq, Structural)]
pub enum SourceError {
    /// It names no model.
    Missing,
    /// It names both a file and a repository.
    Ambiguous,
}

/// What is wrong with a cookbook.
#[derive(Debug, Clone)]
pub enum CookbookError {
    /// A profile does not name its model, or names it twice.
    Source { model: String, profile: String, error: SourceError },
    /// Two enabled profiles have the same name, apart from case.
    Duplicate { first: String, second: String, key: String },
}

/// Whether a profile's arguments name a local model.
pub open spec fn names_file(args: Seq<Seq<char>>) -> bool {
    any_flag(args, seq!["-m", "--model"])
}

/// Whether a profile's arguments name a repository.
pub open spec fn names_repo(args: Seq<Seq<char>>) -> bool {
    any_flag(args, seq!["-hfr", "--hf-repo"])
}

/// A profile names its model by a file, a repository or its arguments, and not by both of the
/// first two.
pub open spec fn source_problem(p: Profile) -> Option<SourceError> {
    let args = texts(p.llama_server_args@);
    if p.model_path is None && p.hf_repo is None && !names_file(args) && !names_repo(args) {
        Some(SourceError::Missing)
    } else if p.model_path is Some && p.hf_repo is Some {
        Some(SourceError::Ambiguous)
    } else {
        None
    }
}

/// Whether a valid profile names a file in a repository, but no repository.
pub open spec fn file_ignored(p: Profile) -> bool {
    &&& source_problem(p) is None
    &&& p.hf_file is Some
    &&& p.hf_repo is None
    &&& !names_repo(texts(p.llama_server_args@))
}

pub const IGNORED_FILE: &'static str = " specifies 'hf_file' without 'hf_repo'; 'hf_file' will be ignored";

/// What is said of a profile whose file is ignored.
pub open spec fn ignored_file_text(model_name: Seq<char>, id: Seq<char>) -> Seq<char> {
    "Profile "@ + model_name + ":"@ + id + IGNORED_FILE@
}

impl Profile {
    /// Whether one of the arguments is one of the flags, alone or with a value after `=`.
    pub fn has_flag(&self, needles: &[&str]) -> (r: bool)
        ensures
            r == any_flag(texts(self.llama_server_args@), needles@),
    {
        let ghost args = texts(self.llama_server_args@);
        let mut i: usize = 0;
        while i < self.llama_server_args.len()
            invariant
                i <= self.llama_server_args@.len(),
                args == texts(self.llama_server_args@),
                forall|a: int, b: int|
                    0 <= a < i && 0 <= b < needles@.len() ==> !is_flag(
                        #[trigger] args[a],
                        (#[trigger] needles@[b])@,
                    ),
            decreases self.llama_server_args@.len() - i,
        {
            let normalized = to_ascii_lowercase(trim(self.llama_server_args[i].as_str()).as_str());
            assert(args[i as int] == self.llama_server_args@[i as int]@);
            let mut j: usize = 0;
            while j < needles.len()
                invariant
                    j <= needles@.len(),
                    i < args.len(),
                    args == texts(self.llama_server_args@),
                    normalized@ == ascii_lowercase(trimmed(args[i as int])),
                    forall|b: int|
                        0 <= b < j ==> !is_flag(args[i as int], (#[trigger] needles@[b])@),
                decreases needles@.len() - j,
            {
                let mut with_value = needles[j].to_owned();
                with_value.append("=");
                if same(normalized.as_str(), needles[j]) || starts_with(
                    normalized.as_str(),
                    with_value.as_str(),
                ) {
                    assert(is_flag(args[i as int], needles@[j as int]@));
                    return true;
                }
                j = j + 1;
            }
            i = i + 1;
        }
        false
    }

    /// How many instances may run: the profile's limit, else that of the defaults, but one at
    /// least.
    pub fn effective_max_instances(&self, defaults: &ModelDefaults) -> (r: usize)
        ensures
            r == match self.max_instances {
                Some(n) => n,
                None => if defaults.max_instances_per_model == 0 {
                    1
                } else {
                    defaults.max_instances_per_model
                },
            },
    {
        match self.max_instances {
            Some(n) => n,
            None => if defaults.max_instances_per_model == 0 {
                1
            } else {
                defaults.max_instances_per_model
            },
        }
    }

    pub fn effective_max_queue_size(&self, defaults: &ModelDefaults) -> (r: usize)
        ensures
            r == match self.max_queue_size {
                Some(n) => n,
                None => defaults.max_queue_size_per_model,
            },
    {
        self.max_queue_size.unwrap_or(defaults.max_queue_size_per_model)
    }

    pub fn effective_min_eviction_tenure_secs(&self, defaults: &ModelDefaults) -> (r: u64)
        ensures
            r == match self.min_eviction_tenure_secs {
                Some(n) => n,
                None => defaults.min_eviction_tenure_secs,
            },
    {
        self.min_eviction_tenure_secs.unwrap_or(defaults.min_eviction_tenure_secs)
    }

    /// How long a start may take, in seconds: a model from a repository has the time for its
    /// download, an hour unless it says otherwise; a local one has a minute.
    pub fn effective_startup_timeout_seconds(&self) -> (r: u64)
        ensures
            r == if self.hf_repo is Some || names_repo(texts(self.llama_server_args@)) {
                match self.download_timeout_seconds {
                    Some(n) => n,
                    None => 3600u64,
                }
            } else {
                match self.startup_timeout_seconds {
                    Some(n) => n,
                    None => 60u64,
                }
            },
    {
        let uses_hf = self.hf_repo.is_some() || self.has_flag(&["-hfr", "--hf-repo"]);
        assert(["-hfr", "--hf-repo"]@ =~= seq!["-hfr", "--hf-repo"]);
        if uses_hf {
            self.download_timeout_seconds.unwrap_or(3600)
        } else {
            self.startup_timeout_seconds.unwrap_or(60)
        }
    }

    pub fn supports_embeddings(&self) -> (r: bool)
        ensures
            r == any_flag(
                texts(self.llama_server_args@),
                seq!["--embedding", "--embeddings"],
            ),
    {
        assert(["--embedding", "--embeddings"]@ =~= seq!["--embedding", "--embeddings"]);
        self.has_flag(&["--embedding", "--embeddings"])
    }

    pub fn supports_rerank(&self) -> (r: bool)
        ensures
            r == any_flag(texts(self.llama_server_args@), seq!["--rerank", "--reranking"]),
    {
        assert(["--rerank", "--reranking"]@ =~= seq!["--rerank", "--reranking"]);
        self.has_flag(&["--rerank", "--reranking"])
    }

    /// Whether the profile serves text: it serves neither embeddings nor reranking.
    pub fn supports_text_mode(&self) -> (r: bool)
        ensures
            r == (!any_flag(
                texts(self.llama_server_args@),
                seq!["--embedding", "--embeddings"],
            ) && !any_flag(texts(self.llama_server_args@), seq!["--rerank", "--reranking"])),
    {
        !self.supports_embeddings() && !self.supports_rerank()
    }

    /// What is wrong with how the profile names its model.
    pub fn check_source(&self) -> (r: Option<SourceError>)
        ensures
            r == source_problem(*self),
    {
        let has_model_path = self.model_path.is_some();
        let has_hf_repo = self.hf_repo.is_some();
        let has_model_in_args = self.has_flag(&["-m", "--model"]);
        let has_hf_in_args = self.has_flag(&["-hfr", "--hf-repo"]);
        assert(["-m", "--model"]@ =~= seq!["-m", "--model"]);
        assert(["-hfr", "--hf-repo"]@ =~= seq!["-hfr", "--hf-repo"]);
        if !has_model_path && !has_hf_repo && !has_model_in_args && !has_hf_in_args {
            return Some(SourceError::Missing);
        }
        if has_model_path && has_hf_repo {
            return Some(SourceError::Ambiguous);
        }
        None
    }

    /// Checks that the profile names its model, and names it once.
    pub fn validate(&self, model_name: &str) -> (r: Result<(), CookbookError>)
        ensures
            match r {
                Ok(_) => source_problem(*self) is None,
                Err(CookbookError::Source { model, profile, error }) => source_problem(*self)
                    == Some(error) && model@ == model_name@ && profile@ == self.id@,
                Err(_) => false,
            },
    {
        match self.check_source() {
            Some(error) => Err(
                CookbookError::Source {
                    model: model_name.to_owned(),
                    profile: self.id.clone(),
                    error,
                },
            ),
            None => Ok(()),
        }
    }

    /// What to tell the operator of a valid profile whose file is ignored.
    pub fn ignored_file_notice(&self, model_name: &str) -> (r: Option<String>)
        ensures
            match r {
                Some(text) => file_ignored(*self) && text@ == ignored_file_text(
                    model_name@,
                    self.id@,
                ),
                None => !file_ignored(*self),
            },
    {
        let has_hf_in_args = self.has_flag(&["-hfr", "--hf-repo"]);
        assert(["-hfr", "--hf-repo"]@ =~= seq!["-hfr", "--hf-repo"]);
        if self.check_source().is_some() || self.hf_file.is_none() || self.hf_repo.is_some()
            || has_hf_in_args {
            return None;
        }
        let mut text = "Profile ".to_owned();
        text.append(model_name);
        text.append(":");
        text.append(self.id.as_str());
        text.append(IGNORED_FILE);
        Some(text)
    }

    /// The API key that the server is started with.
    pub fn get_api_key(&self) -> (r: Option<String>)
        ensures
            match r {
                Some(k) => api_key(texts(self.llama_server_args@)) == Some(k@),
                None => api_key(texts(self.llama_server_args@)) is None,
            },
    {
        let args = &self.llama_server_args;
        let i: usize = find_arg(args, "--api-key");
        if i < args.len() && i + 1 < args.len() {
            assert(texts(args@)[i + 1] == args@[i + 1]@);
            return Some(args[i + 1].clone());
        }
        let j: usize = find_prefixed_arg(args, "--api-key=");
        if j < args.len() {
            proof {
                reveal_strlit("--api-key=");
                assert(texts(args@)[j as int] == args@[j as int]@);
            }
            let v = chars_of(args[j].as_str());
            let key = text_of(&v, 10, v.len());
            assert(key@ =~= args@[j as int]@.skip(10));
            return Some(key);
        }
        None
    }
}

/// The name under which a profile is looked up, in whatever case it is written.
pub open spec fn index_key(model: Seq<char>, profile: Seq<char>) -> Seq<char> {
    unicode_lowercase(model) + ":"@ + unicode_lowercase(profile)
}

/// The name of a profile as it is written.
pub open spec fn display_name(model: Model, profile: Profile) -> Seq<char> {
    model.name@ + ":"@ + profile.id@
}

/// Whether `m` and `p` are the positions of a model and one of its profiles.
pub open spec fn is_pair(models: Seq<Model>, m: int, p: int) -> bool {
    0 <= m < models.len() && 0 <= p < models[m].profiles@.len()
}

/// Whether a profile comes before another in the cookbook.
pub open spec fn comes_before(m1: int, p1: int, m2: int, p2: int) -> bool {
    m1 < m2 || m1 == m2 && p1 < p2
}

/// Whether a profile can be looked up.
pub open spec fn is_indexed(models: Seq<Model>, m: int, p: int) -> bool {
    is_pair(models, m, p) && models[m].enabled && models[m].profiles@[p].enabled
}

/// Whether an earlier profile has the same name as this one, apart from case.
pub open spec fn clashes(
    models: Seq<Model>,
    keys: Seq<Seq<Seq<char>>>,
    m1: int,
    p1: int,
    m2: int,
    p2: int,
) -> bool {
    &&& comes_before(m1, p1, m2, p2)
    &&& is_indexed(models, m1, p1)
    &&& is_indexed(models, m2, p2)
    &&& keys[m1][p1] == keys[m2][p2]
}

/// Whether something is wrong with a profile, given the names of all.
pub open spec fn pair_problem(
    models: Seq<Model>,
    keys: Seq<Seq<Seq<char>>>,
    m: int,
    p: int,
) -> bool {
    ||| source_problem(models[m].profiles@[p]) is Some
    ||| exists|m1: int, p1: int| #[trigger] clashes(models, keys, m1, p1, m, p)
}

/// Whether an error says what is wrong with a profile.
pub open spec fn describes(
    e: CookbookError,
    models: Seq<Model>,
    keys: Seq<Seq<Seq<char>>>,
    m: int,
    p: int,
) -> bool {
    match e {
        CookbookError::Source { model, profile, error } => {
            &&& source_problem(models[m].profiles@[p]) == Some(error)
            &&& model@ == models[m].name@
            &&& profile@ == models[m].profiles@[p].id@
        },
        CookbookError::Duplicate { first, second, key } => {
            &&& source_problem(models[m].profiles@[p]) is None
            &&& exists|m1: int, p1: int| #[trigger]
                clashes(models, keys, m1, p1, m, p) && first@ == display_name(
                    models[m1],
                    models[m1].profiles@[p1],
                )
            &&& second@ == display_name(models[m], models[m].profiles@[p])
            &&& key@ == keys[m][p]
        },
    }
}

/// The first thing that is wrong with a cookbook, given the names of its profiles.
pub open spec fn cookbook_checked(
    models: Seq<Model>,
    keys: Seq<Seq<Seq<char>>>,
    r: Result<(), CookbookError>,
) -> bool {
    match r {
        Ok(_) => forall|m: int, p: int|
            #![trigger pair_problem(models, keys, m, p)]
            is_pair(models, m, p) ==> !pair_problem(models, keys, m, p),
        Err(e) => exists|m: int, p: int|
            {
                &&& is_pair(models, m, p)
                &&& #[trigger] describes(e, models, keys, m, p)
                &&& forall|m1: int, p1: int|
                    #![trigger pair_problem(models, keys, m1, p1)]
                    is_pair(models, m1, p1) && comes_before(m1, p1, m, p) ==> !pair_problem(
                        models,
                        keys,
                        m1,
                        p1,
                    )
            },
    }
}

/// The names of the profiles of a cookbook, model by model.
pub open spec fn index_keys(models: Seq<Model>) -> Seq<Seq<Seq<char>>> {
    models.map_values(
        |m: Model| m.profiles@.map_values(|p: Profile| index_key(m.name@, p.id@)),
    )
}

/// The texts of some lists of strings.
pub open spec fn nested_texts(v: Seq<Vec<String>>) -> Seq<Seq<Seq<char>>> {
    v.map_values(|s: Vec<String>| texts(s@))
}

/// Whether there is one name for each profile.
pub open spec fn keys_fit(models: Seq<Model>, keys: Seq<Vec<String>>) -> bool {
    &&& keys.len() == models.len()
    &&& forall|m: int|
        0 <= m < models.len() ==> (#[trigger] keys[m])@.len() == models[m].profiles@.len()
}

fn joined_name(model: &str, profile: &str) -> (r: String)
    ensures
        r@ == model@ + ":"@ + profile@,
{
    let mut out = model.to_owned();
    out.append(":");
    out.append(profile);
    out
}

impl Cookbook {
    /// An earlier profile with the same name as the one at `m` and `p`, given the names of all.
    pub fn find_clash(&self, keys: &Vec<Vec<String>>, m: usize, p: usize) -> (r: Option<
        (usize, usize),
    >)
        requires
            keys_fit(self.models@, keys@),
            is_pair(self.models@, m as int, p as int),
        ensures
            match r {
                Some((m1, p1)) => clashes(
                    self.models@,
                    nested_texts(keys@),
                    m1 as int,
                    p1 as int,
                    m as int,
                    p as int,
                ),
                None => forall|m1: int, p1: int|
                    !#[trigger] clashes(
                        self.models@,
                        nested_texts(keys@),
                        m1,
                        p1,
                        m as int,
                        p as int,
                    ),
            },
    {
        let ghost models = self.models@;
        let ghost names = nested_texts(keys@);
        if !self.models[m].enabled || !self.models[m].profiles[p].enabled {
            return None;
        }
        assert(names[m as int][p as int] == keys@[m as int]@[p as int]@);
        let count: usize = self.models.len();
        let mut a: usize = 0;
        while a <= m
            invariant
                a <= m + 1,
                m < count == self.models@.len(),
                is_pair(self.models@, m as int, p as int),
                is_indexed(self.models@, m as int, p as int),
                keys_fit(self.models@, keys@),
                models == self.models@,
                names == nested_texts(keys@),
                names[m as int][p as int] == keys@[m as int]@[p as int]@,
                forall|m1: int, p1: int|
                    m1 < a ==> !#[trigger] clashes(models, names, m1, p1, m as int, p as int),
            decreases m + 1 - a,
        {
            let end: usize = if a < m {
                self.models[a].profiles.len()
            } else {
                p
            };
            let mut b: usize = 0;
            while b < end
                invariant
                    a <= m,
                    b <= end,
                    m < self.models@.len(),
                    end == if a < m {
                        self.models@[a as int].profiles@.len() as int
                    } else {
                        p as int
                    },
                    is_pair(self.models@, m as int, p as int),
                    is_indexed(self.models@, m as int, p as int),
                    keys_fit(self.models@, keys@),
                    models == self.models@,
                    names == nested_texts(keys@),
                    names[m as int][p as int] == keys@[m as int]@[p as int]@,
                    forall|p1: int|
                        p1 < b ==> !#[trigger] clashes(
                            models,
                            names,
                            a as int,
                            p1,
                            m as int,
                            p as int,
                        ),
                decreases end - b,
            {
                assert(keys@[a as int]@.len() == models[a as int].profiles@.len());
                assert(names[a as int][b as int] == keys@[a as int]@[b as int]@);
                if self.models[a].enabled && self.models[a].profiles[b].enabled && same(
                    keys[a][b].as_str(),
                    keys[m][p].as_str(),
                ) {
                    return Some((a, b));
                }
                b = b + 1;
            }
            assert forall|m1: int, p1: int| m1 < a + 1 implies !#[trigger] clashes(
                models,
                names,
                m1,
                p1,
                m as int,
                p as int,
            ) by {
                if m1 == a && p1 >= b {
                    if a < m {
                        assert(!is_pair(models, m1, p1));
                    } else {
                        assert(!comes_before(m1, p1, m as int, p as int));
                    }
                }
            }
            a = a + 1;
        }
        None
    }

    /// Checks a cookbook, given the name of each profile: every profile names its model, and no
    /// two enabled profiles have the same name. The first fault is reported.
    pub fn validate_keyed(&self, keys: &Vec<Vec<String>>) -> (r: Result<(), CookbookError>)
        requires
            keys_fit(self.models@, keys@),
        ensures
            cookbook_checked(self.models@, nested_texts(keys@), r),
    {
        let ghost models = self.models@;
        let ghost names = nested_texts(keys@);
        let mut m: usize = 0;
        while m < self.models.len()
            invariant
                m <= self.models@.len(),
                keys_fit(self.models@, keys@),
                models == self.models@,
                names == nested_texts(keys@),
                forall|m1: int, p1: int|
                    #![trigger pair_problem(models, names, m1, p1)]
                    is_pair(models, m1, p1) && m1 < m ==> !pair_problem(models, names, m1, p1),
            decreases self.models@.len() - m,
        {
            let mut p: usize = 0;
            while p < self.models[m].profiles.len()
                invariant
                    m < self.models@.len(),
                    p <= self.models@[m as int].profiles@.len(),
                    keys_fit(self.models@, keys@),
                    models == self.models@,
                    names == nested_texts(keys@),
                    forall|m1: int, p1: int|
                        #![trigger pair_problem(models, names, m1, p1)]
                        is_pair(models, m1, p1) && comes_before(m1, p1, m as int, p as int)
                            ==> !pair_problem(models, names, m1, p1),
                decreases self.models@[m as int].profiles@.len() - p,
            {
                let model = &self.models[m];
                let profile = &model.profiles[p];
                if let Err(e) = profile.validate(model.name.as_str()) {
                    assert(describes(e, models, names, m as int, p as int));
                    return Err(e);
                }
                if let Some((a, b)) = self.find_clash(keys, m, p) {
                    let first = joined_name(
                        self.models[a].name.as_str(),
                        self.models[a].profiles[b].id.as_str(),
                    );
                    let second = joined_name(model.name.as_str(), profile.id.as_str());
                    assert(keys@[m as int]@.len() == models[m as int].profiles@.len());
                    assert(names[m as int][p as int] == keys@[m as int]@[p as int]@);
                    let e = CookbookError::Duplicate { first, second, key: keys[m][p].clone() };
                    assert(clashes(models, names, a as int, b as int, m as int, p as int));
                    assert(describes(e, models, names, m as int, p as int));
                    return Err(e);
                }
                assert(!pair_problem(models, names, m as int, p as int));
                assert forall|m1: int, p1: int|
                    #![trigger pair_problem(models, names, m1, p1)]
                    is_pair(models, m1, p1) && comes_before(
                        m1,
                        p1,
                        m as int,
                        p + 1,
                    ) implies !pair_problem(models, names, m1, p1) by {
                    if !comes_before(m1, p1, m as int, p as int) {
                        assert(m1 == m && p1 == p);
                    }
                }
                p = p + 1;
            }
            m = m + 1;
        }
        Ok(())
    }

    /// Checks a cookbook: every profile names its model, and no two enabled profiles have names
    /// that differ in case alone, since one would hide the other. The first fault is reported.
    pub fn validate(&self) -> (r: Result<(), CookbookError>)
        ensures
            cookbook_checked(self.models@, index_keys(self.models@), r),
    {
        let mut keys: Vec<Vec<String>> = Vec::new();
        let mut m: usize = 0;
        while m < self.models.len()
            invariant
                m <= self.models@.len(),
                keys@.len() == m,
                forall|i: int|
                    0 <= i < m ==> texts((#[trigger] keys@[i])@)
                        == self.models@[i].profiles@.map_values(
                        |p: Profile| index_key(self.models@[i].name@, p.id@),
                    ),
            decreases self.models@.len() - m,
        {
            let model = &self.models[m];
            let name = to_lowercase(model.name.as_str());
            let mut row: Vec<String> = Vec::new();
            let mut p: usize = 0;
            while p < model.profiles.len()
                invariant
                    p <= model.profiles@.len(),
                    row@.len() == p,
                    name@ == unicode_lowercase(model.name@),
                    forall|j: int|
                        0 <= j < p ==> (#[trigger] row@[j])@ == index_key(
                            model.name@,
                            model.profiles@[j].id@,
                        ),
                decreases model.profiles@.len() - p,
            {
                let id = to_lowercase(model.profiles[p].id.as_str());
                row.push(joined_name(name.as_str(), id.as_str()));
                p = p + 1;
            }
            assert(texts(row@) =~= model.profiles@.map_values(
                |p: Profile| index_key(model.name@, p.id@),
            ));
            keys.push(row);
            m = m + 1;
        }
        proof {
            assert forall|i: int| 0 <= i < self.models@.len() implies (
            #[trigger] keys@[i])@.len() == self.models@[i].profiles@.len() by {
                assert(texts(keys@[i]@).len() == keys@[i]@.len());
            }
            assert(nested_texts(keys@) =~= index_keys(self.models@));
        }
        self.validate_keyed(&keys)
    }
}

pub const PROFILE: &'static str = "Profile ";

pub const NO_SOURCE: &'static str = " must specify either 'model_path', 'hf_repo', or include \
    -m/--model/-hfr/--hf-repo in llama_server_args";

pub const TWO_SOURCES: &'static str = " specifies both 'model_path' and 'hf_repo'; use only one \
    model source";

pub const DUPLICATE_A: &'static str = "Duplicate model:profile identifier: '";

pub const DUPLICATE_B: &'static str = "' and '";

pub const DUPLICATE_C: &'static str = "' both resolve to '";

pub const DUPLICATE_D: &'static str = "'. Model and profile names are matched case-insensitively, \
    so these would shadow each other in the model index; make each model:profile unique.";

/// The words for what is wrong.
pub open spec fn cookbook_error_text(e: CookbookError) -> Seq<char> {
    match e {
        CookbookError::Source { model, profile, error } => PROFILE@ + model@ + ":"@ + profile@ + (
        match error {
            SourceError::Missing => NO_SOURCE@,
            SourceError::Ambiguous => TWO_SOURCES@,
        }),
        CookbookError::Duplicate { first, second, key } => DUPLICATE_A@ + first@ + DUPLICATE_B@
            + second@ + DUPLICATE_C@ + key@ + DUPLICATE_D@,
    }
}

impl CookbookError {
    /// What is wrong, and how to mend it.
    pub fn message(&self) -> (r: String)
        ensures
            r@ == cookbook_error_text(*self),
    {
        match self {
            CookbookError::Source { model, profile, error } => {
                let mut out = PROFILE.to_owned();
                out.append(model.as_str());
                out.append(":");
                out.append(profile.as_str());
                match *error {
                    SourceError::Missing => out.append(NO_SOURCE),
                    SourceError::Ambiguous => out.append(TWO_SOURCES),
                }
                out
            },
            CookbookError::Duplicate { first, second, key } => {
                let mut out = DUPLICATE_A.to_owned();
                out.append(first.as_str());
                out.append(DUPLICATE_B);
                out.append(second.as_str());
                out.append(DUPLICATE_C);
                out.append(key.as_str());
                out.append(DUPLICATE_D);
                out
            },
        }
    }
}

/// In a cookbook that passes validation no two enabled profiles are looked up by the same name.
pub proof fn law_valid_cookbook_names_distinct(
    models: Seq<Model>,
    m1: int,
    p1: int,
    m2: int,
    p2: int,
)
    requires
        cookbook_checked(models, index_keys(models), Ok(())),
        is_indexed(models, m1, p1),
        is_indexed(models, m2, p2),
        (m1, p1) != (m2, p2),
    ensures
        index_key(models[m1].name@, models[m1].profiles@[p1].id@) != index_key(
            models[m2].name@,
            models[m2].profiles@[p2].id@,
        ),
{
    let keys = index_keys(models);
    assert(keys[m1][p1] == index_key(models[m1].name@, models[m1].profiles@[p1].id@));
    assert(keys[m2][p2] == index_key(models[m2].name@, models[m2].profiles@[p2].id@));
    assert(!pair_problem(models, keys, m1, p1));
    assert(!pair_problem(models, keys, m2, p2));
    if keys[m1][p1] == keys[m2][p2] {
        if comes_before(m1, p1, m2, p2) {
            assert(clashes(models, keys, m1, p1, m2, p2));
        } else {
            assert(clashes(models, keys, m2, p2, m1, p1));
        }
    }
}

/// A flag is found in whatever case its letters are written.
pub proof fn law_flag_ignores_case(arg: Seq<char>, needle: Seq<char>)
    ensures
        is_flag(ascii_lowercase(arg), needle) == is_flag(arg, needle),
{
    lemma_lower_trimmed_start(arg);
    lemma_lower_trimmed_end(trimmed_start(arg));
    let t = trimmed(arg);
    assert(ascii_lowercase(ascii_lowercase(t)) =~= ascii_lowercase(t));
}

proof fn lemma_lower_keeps_space(c: char)
    ensures
        white_space(ascii_lower(c)) == white_space(c),
{
}

proof fn lemma_lower_trimmed_start(s: Seq<char>)
    ensures
        trimmed_start(ascii_lowercase(s)) == ascii_lowercase(trimmed_start(s)),
    decreases s.len(),
{
    if s.len() > 0 {
        lemma_lower_keeps_space(s[0]);
        assert(ascii_lowercase(s).drop_first() =~= ascii_lowercase(s.drop_first()));
        lemma_lower_trimmed_start(s.drop_first());
    }
}

proof fn lemma_lower_trimmed_end(s: Seq<char>)
    ensures
        trimmed_end(ascii_lowercase(s)) == ascii_lowercase(trimmed_end(s)),
    decreases s.len(),
{
    if s.len() > 0 {
        lemma_lower_keeps_space(s.last());
        assert(ascii_lowercase(s).drop_last() =~= ascii_lowercase(s.drop_last()));
        lemma_lower_trimmed_end(s.drop_last());
    }
}

/// The names under which a model is served by those of its first `n` profiles that are enabled.
pub open spec fn profile_names(model: Model, n: int) -> Seq<Seq<char>>
    decreases n,
{
    if n <= 0 {
        Seq::empty()
    } else {
        let before = profile_names(model, n - 1);
        let profile = model.profiles@[n - 1];
        if profile.enabled {
            before.push(model.name@ + ":"@ + profile.id@)
        } else {
            before
        }
    }
}

/// The names under which those of the first `n` models that are enabled are served.
pub open spec fn served_names(models: Seq<Model>, n: int) -> Seq<Seq<char>>
    decreases n,
{
    if n <= 0 {
        Seq::empty()
    } else {
        let before = served_names(models, n - 1);
        let model = models[n - 1];
        if model.enabled {
            before + profile_names(model, model.profiles@.len() as int)
        } else {
            before
        }
    }
}

impl Cookbook {
    /// The names under which models are served: of each that is enabled, one for each of its
    /// profiles that is.
    pub fn supported_models(&self) -> (r: Vec<String>)
        ensures
            texts(r@) == served_names(self.models@, self.models@.len() as int),
    {
        let mut out: Vec<String> = Vec::new();
        let mut i: usize = 0;
        assert(texts(out@) =~= served_names(self.models@, 0));
        while i < self.models.len()
            invariant
                i <= self.models@.len(),
                texts(out@) == served_names(self.models@, i as int),
            decreases self.models@.len() - i,
        {
            let model = &self.models[i];
            if model.enabled {
                let ghost before = texts(out@);
                let mut j: usize = 0;
                assert(before + profile_names(*model, 0) =~= before);
                while j < model.profiles.len()
                    invariant
                        j <= model.profiles@.len(),
                        texts(out@) == before + profile_names(*model, j as int),
                    decreases model.profiles@.len() - j,
                {
                    let ghost so_far = texts(out@);
                    if model.profiles[j].enabled {
                        let mut name = model.name.as_str().to_owned();
                        name.append(":");
                        name.append(model.profiles[j].id.as_str());
                        out.push(name);
                        assert(texts(out@) =~= so_far.push(name@));
                    }
                    assert(texts(out@) =~= before + profile_names(*model, j + 1));
                    j = j + 1;
                }
            }
            i = i + 1;
        }
        out
    }
}

/// What is said of those of the first `n` profiles of a model whose file is ignored.
pub open spec fn profile_notices(model: Model, n: int) -> Seq<Seq<char>>
    decreases n,
{
    if n <= 0 {
        Seq::empty()
    } else {
        let before = profile_notices(model, n - 1);
        let profile = model.profiles@[n - 1];
        if file_ignored(profile) {
            before.push(ignored_file_text(model.name@, profile.id@))
        } else {
            before
        }
    }
}

/// What is said of the profiles of the first `n` models.
pub open spec fn model_notices(models: Seq<Model>, n: int) -> Seq<Seq<char>>
    decreases n,
{
    if n <= 0 {
        Seq::empty()
    } else {
        model_notices(models, n - 1) + profile_notices(
            models[n - 1],
            models[n - 1].profiles@.len() as int,
        )
    }
}

impl Cookbook {
    /// What to tell the operator of a valid cookbook: one line for each profile whose file is
    /// ignored.
    pub fn notices(&self) -> (r: Vec<String>)
        ensures
            texts(r@) == model_notices(self.models@, self.models@.len() as int),
    {
        let mut out: Vec<String> = Vec::new();
        let mut i: usize = 0;
        assert(texts(out@) =~= model_notices(self.models@, 0));
        while i < self.models.len()
            invariant
                i <= self.models@.len(),
                texts(out@) == model_notices(self.models@, i as int),
            decreases self.models@.len() - i,
        {
            let model = &self.models[i];
            let ghost before = texts(out@);
            let mut j: usize = 0;
            assert(before + profile_notices(*model, 0) =~= before);
            while j < model.profiles.len()
                invariant
                    j <= model.profiles@.len(),
                    texts(out@) == before + profile_notices(*model, j as int),
                decreases model.profiles@.len() - j,
            {
                let ghost so_far = texts(out@);
                if let Some(text) = model.profiles[j].ignored_file_notice(model.name.as_str()) {
                    out.push(text);
                    assert(texts(out@) =~= so_far.push(text@));
                }
                assert(texts(out@) =~= before + profile_notices(*model, j + 1));
                j = j + 1;
            }
            i = i + 1;
        }
        out
    }
}

/// Which arguments are a flag: with white space around it and in whatever case, the flag alone, or
/// the flag with `=` right after it and anything after that.
pub proof fn law_which_arguments_are_flags(
    before: Seq<char>,
    arg: Seq<char>,
    after: Seq<char>,
    needle: Seq<char>,
)
    requires
        forall|i: int| 0 <= i < before.len() ==> white_space(#[trigger] before[i]),
        forall|i: int| 0 <= i < after.len() ==> white_space(#[trigger] after[i]),
        arg.len() > 0,
        !white_space(arg[0]),
        !white_space(arg.last()),
    ensures
        is_flag(before + arg + after, needle) <==> {
            let lower = ascii_lowercase(arg);
            let n = needle.len() as int;
            lower == needle || n < lower.len() && lower.take(n) == needle && lower[n] == '='
        },
{
    law_what_is_trimmed(before, arg, after);
    reveal_strlit("=");
    let lower = ascii_lowercase(arg);
    let n = needle.len() as int;
    let p = needle + "="@;
    assert(p.len() == n + 1);
    assert(p[n] == '=');
    assert(p.take(n) =~= needle);
    if begins_with(lower, p) {
        assert(lower.subrange(0, n + 1) == p);
        assert(lower.take(n) =~= lower.subrange(0, n + 1).take(n));
        assert(lower[n] == lower.subrange(0, n + 1)[n]);
    }
    if n < lower.len() && lower.take(n) == needle && lower[n] == '=' {
        assert(lower.subrange(0, n + 1) =~= p) by {
            assert forall|i: int| 0 <= i < n + 1 implies lower.subrange(0, n + 1)[i] == p[i] by {
                if i < n {
                    assert(lower.take(n)[i] == needle[i]);
                }
            }
        }
    }
}

/// Arguments name a model or a repository by either of two flags, and in no other way.
pub proof fn law_flags_that_name_a_model(args: Seq<Seq<char>>, arg: Seq<char>)
    ensures
        !names_file(Seq::empty()),
        !names_repo(Seq::empty()),
        names_file(args.push(arg)) <==> names_file(args) || is_flag(arg, "-m"@) || is_flag(
            arg,
            "--model"@,
        ),
        names_repo(args.push(arg)) <==> names_repo(args) || is_flag(arg, "-hfr"@) || is_flag(
            arg,
            "--hf-repo"@,
        ),
{
    lemma_any_flag_of_two(args, arg, "-m", "--model");
    lemma_any_flag_of_two(args, arg, "-hfr", "--hf-repo");
}

proof fn lemma_any_flag_of_two(args: Seq<Seq<char>>, arg: Seq<char>, x: &str, y: &str)
    ensures
        !any_flag(Seq::empty(), seq![x, y]),
        any_flag(args.push(arg), seq![x, y]) <==> any_flag(args, seq![x, y]) || is_flag(arg, x@)
            || is_flag(arg, y@),
{
    let two = seq![x, y];
    let more = args.push(arg);
    assert(two[0] == x && two[1] == y && two.len() == 2);
    if any_flag(more, two) {
        let (i, j) = choose|i: int, j: int|
            0 <= i < more.len() && 0 <= j < two.len() && is_flag(
                #[trigger] more[i],
                (#[trigger] two[j])@,
            );
        if i < args.len() {
            assert(args[i] == more[i]);
            assert(is_flag(args[i], two[j]@));
        }
    }
    if any_flag(args, two) {
        let (i, j) = choose|i: int, j: int|
            0 <= i < args.len() && 0 <= j < two.len() && is_flag(
                #[trigger] args[i],
                (#[trigger] two[j])@,
            );
        assert(more[i] == args[i]);
        assert(is_flag(more[i], two[j]@));
    }
    assert(more[args.len() as int] == arg);
    if is_flag(arg, x@) {
        assert(is_flag(more[args.len() as int], two[0]@));
    }
    if is_flag(arg, y@) {
        assert(is_flag(more[args.len() as int], two[1]@));
    }
}

/// One of the arguments is a flag of some list exactly if it is one of those flags.
pub proof fn law_any_of_flags(args: Seq<Seq<char>>, needles: Seq<&str>, i: int, j: int)
    ensures
        0 <= i < args.len() && 0 <= j < needles.len() && is_flag(args[i], needles[j]@) ==> any_flag(
            args,
            needles,
        ),
        (forall|a: int, b: int|
            0 <= a < args.len() && 0 <= b < needles.len() ==> !is_flag(
                #[trigger] args[a],
                (#[trigger] needles[b])@,
            )) ==> !any_flag(args, needles),
{
}

proof fn lemma_arg_position(args: Seq<Seq<char>>, t: Seq<char>)
    ensures
        0 <= arg_position(args, t) <= args.len(),
        arg_position(args, t) < args.len() ==> args[arg_position(args, t)] == t,
        forall|j: int| 0 <= j < arg_position(args, t) ==> args[j] != t,
    decreases args.len(),
{
    if args.len() > 0 && args[0] != t {
        let rest = args.drop_first();
        lemma_arg_position(rest, t);
        assert forall|j: int| 0 <= j < arg_position(args, t) implies args[j] != t by {
            if j > 0 {
                assert(rest[j - 1] == args[j]);
            }
        }
    }
}

proof fn lemma_prefix_position(args: Seq<Seq<char>>, p: Seq<char>)
    ensures
        0 <= prefix_position(args, p) <= args.len(),
        prefix_position(args, p) < args.len() ==> begins_with(args[prefix_position(args, p)], p),
        forall|j: int|
            0 <= j < prefix_position(args, p) ==> !begins_with(#[trigger] args[j], p),
    decreases args.len(),
{
    if args.len() > 0 && !begins_with(args[0], p) {
        let rest = args.drop_first();
        lemma_prefix_position(rest, p);
        assert forall|j: int| 0 <= j < prefix_position(args, p) implies !begins_with(
            #[trigger] args[j],
            p,
        ) by {
            if j > 0 {
                assert(rest[j - 1] == args[j]);
            }
        }
    }
}

/// The API key is the argument after the first `--api-key`.
pub proof fn law_key_after_flag(before: Seq<Seq<char>>, key: Seq<char>, after: Seq<Seq<char>>)
    requires
        !before.contains("--api-key"@),
    ensures
        api_key(before + seq!["--api-key"@, key] + after) == Some(key),
{
    let args = before + seq!["--api-key"@, key] + after;
    lemma_arg_position(args, "--api-key"@);
    let n = before.len() as int;
    let i = arg_position(args, "--api-key"@);
    assert(args[n] == "--api-key"@);
    assert(args[n + 1] == key);
    if i < n {
        assert(args[i] == before[i]);
        assert(before.contains(before[i]));
    }
}

/// Without such an argument the API key is what follows the first `--api-key=` in one argument;
/// where there is neither, there is no key.
pub proof fn law_key_after_equals(before: Seq<Seq<char>>, key: Seq<char>, after: Seq<Seq<char>>)
    requires
        forall|i: int|
            0 <= i < before.len() ==> (#[trigger] before[i]) != "--api-key"@ && !begins_with(
                before[i],
                "--api-key="@,
            ),
        forall|i: int| 0 <= i < after.len() ==> (#[trigger] after[i]) != "--api-key"@,
    ensures
        api_key(before + seq!["--api-key="@ + key] + after) == Some(key),
        api_key(before) is None,
        api_key(before.push("--api-key"@)) is None,
{
    reveal_strlit("--api-key");
    reveal_strlit("--api-key=");
    let p = "--api-key="@;
    let one = p + key;
    let args = before + seq![one] + after;
    let n = before.len() as int;
    lemma_arg_position(args, "--api-key"@);
    lemma_prefix_position(args, p);
    assert(args[n] == one);
    assert(one.len() >= 10);
    assert(one.subrange(0, p.len() as int) =~= p);
    assert(begins_with(one, p));
    let i = arg_position(args, "--api-key"@);
    if i < args.len() {
        if i < n {
            assert(args[i] == before[i]);
        } else if i > n {
            assert(args[i] == after[i - n - 1]);
        }
        assert(false);
    }
    let j = prefix_position(args, p);
    if j < n {
        assert(args[j] == before[j]);
    }
    assert(j == n);
    assert(one.skip(p.len() as int) =~= key);
    lemma_arg_position(before, "--api-key"@);
    lemma_prefix_position(before, p);
    let last = before.push("--api-key"@);
    lemma_arg_position(last, "--api-key"@);
    lemma_prefix_position(last, p);
    let a = arg_position(last, "--api-key"@);
    if a < n {
        assert(last[a] == before[a]);
    }
    let b = prefix_position(last, p);
    if b < n {
        assert(last[b] == before[b]);
    }
    if b == n {
        assert(last[b] == "--api-key"@);
        assert("--api-key"@.len() == 9);
    }
}

/// A profile has to say where its model is, and must not name both a file and a repository.
pub proof fn law_where_models_come_from(p: Profile)
    ensures
        source_problem(p) == Some(SourceError::Ambiguous) <==> p.model_path is Some
            && p.hf_repo is Some,
        source_problem(p) == Some(SourceError::Missing) <==> p.model_path is None
            && p.hf_repo is None && !names_file(texts(p.llama_server_args@)) && !names_repo(
            texts(p.llama_server_args@),
        ),
        p.model_path is Some && p.hf_repo is None ==> source_problem(p) is None,
        p.model_path is None && p.hf_repo is Some ==> source_problem(p) is None,
        file_ignored(p) ==> p.hf_file is Some && p.hf_repo is None && !names_repo(
            texts(p.llama_server_args@),
        ),
        file_ignored(p) ==> p.model_path is Some || names_file(texts(p.llama_server_args@)),
        p.hf_file is Some && p.hf_repo is None && p.model_path is Some && !names_repo(
            texts(p.llama_server_args@),
        ) ==> file_ignored(p),
        p.hf_file is Some && p.hf_repo is None && names_file(texts(p.llama_server_args@))
            && !names_repo(texts(p.llama_server_args@)) ==> file_ignored(p),
{
}

/// The name under which a profile is looked up is that of its model, a colon and its own, all in
/// lower case; names that differ in case alone are one name.
pub proof fn law_names_looked_up(
    model: Seq<char>,
    profile: Seq<char>,
    other_model: Seq<char>,
    other_profile: Seq<char>,
)
    ensures
        index_key(model, profile) == unicode_lowercase(model) + seq![':'] + unicode_lowercase(
            profile,
        ),
        unicode_lowercase(model) == unicode_lowercase(other_model) && unicode_lowercase(profile)
            == unicode_lowercase(other_profile) ==> index_key(model, profile) == index_key(
            other_model,
            other_profile,
        ),
        unicode_lowercase(model) == unicode_lowercase(other_model) && unicode_lowercase(profile)
            != unicode_lowercase(other_profile) ==> index_key(model, profile) != index_key(
            other_model,
            other_profile,
        ),
{
    reveal_strlit(":");
    assert(":"@ =~= seq![':']);
    let a = index_key(model, profile);
    let b = index_key(other_model, other_profile);
    let n = unicode_lowercase(model).len() as int + 1;
    assert(a.skip(n) =~= unicode_lowercase(profile));
    if unicode_lowercase(model) == unicode_lowercase(other_model) {
        assert(b.skip(n) =~= unicode_lowercase(other_profile));
    }
}

/// A cookbook passes if every profile says where its model is and no two enabled profiles of
/// enabled models are looked up by one name.
pub proof fn law_sound_cookbook_passes(models: Seq<Model>, r: Result<(), CookbookError>)
    requires
        cookbook_checked(models, index_keys(models), r),
        forall|m: int, p: int|
            #![trigger models[m].profiles@[p]]
            0 <= m < models.len() && 0 <= p < models[m].profiles@.len() ==> source_problem(
                models[m].profiles@[p],
            ) is None,
        forall|m1: int, p1: int, m2: int, p2: int|
            #![trigger models[m1].profiles@[p1], models[m2].profiles@[p2]]
            0 <= m1 < models.len() && 0 <= p1 < models[m1].profiles@.len() && 0 <= m2
                < models.len() && 0 <= p2 < models[m2].profiles@.len() && models[m1].enabled
                && models[m1].profiles@[p1].enabled && models[m2].enabled
                && models[m2].profiles@[p2].enabled && (m1 != m2 || p1 != p2) ==> index_key(
                models[m1].name@,
                models[m1].profiles@[p1].id@,
            ) != index_key(models[m2].name@, models[m2].profiles@[p2].id@),
    ensures
        r is Ok,
{
    let keys = index_keys(models);
    if let Err(e) = r {
        let (m, p) = choose|m: int, p: int|
            {
                &&& is_pair(models, m, p)
                &&& #[trigger] describes(e, models, keys, m, p)
                &&& forall|m1: int, p1: int|
                    #![trigger pair_problem(models, keys, m1, p1)]
                    is_pair(models, m1, p1) && comes_before(m1, p1, m, p) ==> !pair_problem(
                        models,
                        keys,
                        m1,
                        p1,
                    )
            };
        assert(source_problem(models[m].profiles@[p]) is None);
        match e {
            CookbookError::Source { model, profile, error } => {},
            CookbookError::Duplicate { first, second, key } => {
                let (m1, p1) = choose|m1: int, p1: int| #[trigger]
                    clashes(models, keys, m1, p1, m, p) && first@ == display_name(
                        models[m1],
                        models[m1].profiles@[p1],
                    );
                assert(keys[m1][p1] == index_key(
                    models[m1].name@,
                    models[m1].profiles@[p1].id@,
                ));
                assert(keys[m][p] == index_key(models[m].name@, models[m].profiles@[p].id@));
            },
        }
    }
}

/// What a refused cookbook is told: the model and the profile that does not say where its model
/// is, or the two enabled profiles that are looked up by one name, the earlier first, and that
/// name.
pub proof fn law_what_is_told_of_a_cookbook(models: Seq<Model>, e: CookbookError)
    requires
        cookbook_checked(models, index_keys(models), Err(e)),
    ensures
        match e {
            CookbookError::Source { model, profile, error } => exists|m: int, p: int|
                #![trigger models[m].profiles@[p]]
                0 <= m < models.len() && 0 <= p < models[m].profiles@.len() && source_problem(
                    models[m].profiles@[p],
                ) == Some(error) && model@ == models[m].name@ && profile@
                    == models[m].profiles@[p].id@,
            CookbookError::Duplicate { first, second, key } => exists|
                m1: int,
                p1: int,
                m2: int,
                p2: int,
            |
                #![trigger models[m1].profiles@[p1], models[m2].profiles@[p2]]
                {
                    &&& 0 <= m1 < models.len() && 0 <= p1 < models[m1].profiles@.len()
                    &&& 0 <= m2 < models.len() && 0 <= p2 < models[m2].profiles@.len()
                    &&& m1 < m2 || m1 == m2 && p1 < p2
                    &&& models[m1].enabled && models[m1].profiles@[p1].enabled
                    &&& models[m2].enabled && models[m2].profiles@[p2].enabled
                    &&& first@ == models[m1].name@ + ":"@ + models[m1].profiles@[p1].id@
                    &&& second@ == models[m2].name@ + ":"@ + models[m2].profiles@[p2].id@
                    &&& key@ == unicode_lowercase(models[m1].name@) + ":"@ + unicode_lowercase(
                        models[m1].profiles@[p1].id@,
                    )
                    &&& key@ == unicode_lowercase(models[m2].name@) + ":"@ + unicode_lowercase(
                        models[m2].profiles@[p2].id@,
                    )
                },
        },
{
    let keys = index_keys(models);
    let (m, p) = choose|m: int, p: int|
        {
            &&& is_pair(models, m, p)
            &&& #[trigger] describes(e, models, keys, m, p)
            &&& forall|m1: int, p1: int|
                #![trigger pair_problem(models, keys, m1, p1)]
                is_pair(models, m1, p1) && comes_before(m1, p1, m, p) ==> !pair_problem(
                    models,
                    keys,
                    m1,
                    p1,
                )
        };
    assert(models[m].profiles@[p] == models[m].profiles@[p]);
    match e {
        CookbookError::Source { model, profile, error } => {},
        CookbookError::Duplicate { first, second, key } => {
            let (m1, p1) = choose|m1: int, p1: int| #[trigger]
                clashes(models, keys, m1, p1, m, p) && first@ == display_name(
                    models[m1],
                    models[m1].profiles@[p1],
                );
            assert(keys[m1][p1] == index_key(models[m1].name@, models[m1].profiles@[p1].id@));
            assert(keys[m][p] == index_key(models[m].name@, models[m].profiles@[p].id@));
        },
    }
}

/// The words of each message, with the names in their places.
pub proof fn law_cookbook_messages(
    model: String,
    profile: String,
    first: String,
    second: String,
    key: String,
)
    ensures
        cookbook_error_text(
            CookbookError::Source { model, profile, error: SourceError::Missing },
        ) == "Profile "@ + model@ + ":"@ + profile@
            + " must specify either 'model_path', 'hf_repo', or include -m/--model/-hfr/--hf-repo in llama_server_args"@,
        cookbook_error_text(
            CookbookError::Source { model, profile, error: SourceError::Ambiguous },
        ) == "Profile "@ + model@ + ":"@ + profile@
            + " specifies both 'model_path' and 'hf_repo'; use only one model source"@,
        cookbook_error_text(CookbookError::Duplicate { first, second, key })
            == "Duplicate model:profile identifier: '"@ + first@ + "' and '"@ + second@
            + "' both resolve to '"@ + key@
            + "'. Model and profile names are matched case-insensitively, so these would shadow each other in the model index; make each model:profile unique."@,
        ignored_file_text(model@, profile@) == "Profile "@ + model@ + ":"@ + profile@
            + " specifies 'hf_file' without 'hf_repo'; 'hf_file' will be ignored"@,
{
}

proof fn lemma_profile_names(model: Model, n: int, name: Seq<char>)
    requires
        n <= model.profiles@.len(),
    ensures
        profile_names(model, n).contains(name) <==> exists|p: int|
            0 <= p < n && (#[trigger] model.profiles@[p]).enabled && name == model.name@ + ":"@
                + model.profiles@[p].id@,
    decreases n,
{
    if n > 0 {
        lemma_profile_names(model, n - 1, name);
        let before = profile_names(model, n - 1);
        let after = profile_names(model, n);
        let last = model.profiles@[n - 1];
        if after.contains(name) {
            let i = choose|i: int| 0 <= i < after.len() && after[i] == name;
            if i < before.len() {
                assert(before[i] == name);
                assert(before.contains(name));
            }
        }
        if before.contains(name) {
            let i = choose|i: int| 0 <= i < before.len() && before[i] == name;
            assert(after[i] == name);
        }
        if last.enabled && name == model.name@ + ":"@ + last.id@ {
            assert(after[before.len() as int] == name);
        }
    }
}

/// The names that are served are those of the enabled profiles of enabled models, and no others.
pub proof fn law_which_names_are_served(models: Seq<Model>, n: int, name: Seq<char>)
    requires
        n <= models.len(),
    ensures
        served_names(models, n).contains(name) <==> exists|m: int, p: int|
            #![trigger models[m].profiles@[p]]
            0 <= m < n && 0 <= p < models[m].profiles@.len() && models[m].enabled
                && models[m].profiles@[p].enabled && name == models[m].name@ + ":"@
                + models[m].profiles@[p].id@,
    decreases n,
{
    if n > 0 {
        law_which_names_are_served(models, n - 1, name);
        let model = models[n - 1];
        let count = model.profiles@.len() as int;
        lemma_profile_names(model, count, name);
        let before = served_names(models, n - 1);
        let these = profile_names(model, count);
        let after = served_names(models, n);
        if after.contains(name) {
            let i = choose|i: int| 0 <= i < after.len() && after[i] == name;
            if i < before.len() {
                assert(before[i] == name);
                assert(before.contains(name));
            } else {
                assert(these[i - before.len()] == name);
                assert(these.contains(name));
                let p = choose|p: int|
                    0 <= p < count && (#[trigger] model.profiles@[p]).enabled && name
                        == model.name@ + ":"@ + model.profiles@[p].id@;
                assert(models[n - 1].profiles@[p].enabled);
            }
        }
        if exists|m: int, p: int|
            #![trigger models[m].profiles@[p]]
            0 <= m < n && 0 <= p < models[m].profiles@.len() && models[m].enabled
                && models[m].profiles@[p].enabled && name == models[m].name@ + ":"@
                + models[m].profiles@[p].id@ {
            let (m, p) = choose|m: int, p: int|
                #![trigger models[m].profiles@[p]]
                0 <= m < n && 0 <= p < models[m].profiles@.len() && models[m].enabled
                    && models[m].profiles@[p].enabled && name == models[m].name@ + ":"@
                    + models[m].profiles@[p].id@;
            if m < n - 1 {
                assert(before.contains(name));
                let i = choose|i: int| 0 <= i < before.len() && before[i] == name;
                assert(after[i] == name);
            } else {
                assert(model.profiles@[p].enabled);
                assert(these.contains(name));
                let i = choose|i: int| 0 <= i < these.len() && these[i] == name;
                assert(after[before.len() + i] == name);
            }
        }
    }
}

/// What a model adds to the names that are served and to what the operator is told comes after
/// what the models before it add; a model that is not enabled serves no name.
pub proof fn law_models_add_up(models: Seq<Model>, n: int, model: Model)
    requires
        0 <= n < models.len(),
        models[n] == model,
    ensures
        model.enabled ==> served_names(models, n + 1) == served_names(models, n) + profile_names(
            model,
            model.profiles@.len() as int,
        ),
        !model.enabled ==> served_names(models, n + 1) == served_names(models, n),
        model_notices(models, n + 1) == model_notices(models, n) + profile_notices(
            model,
            model.profiles@.len() as int,
        ),
{
}

proof fn lemma_profile_notices(model: Model, n: int, text: Seq<char>)
    requires
        n <= model.profiles@.len(),
    ensures
        profile_notices(model, n).contains(text) <==> exists|p: int|
            0 <= p < n && file_ignored(#[trigger] model.profiles@[p]) && text == ignored_file_text(
                model.name@,
                model.profiles@[p].id@,
            ),
    decreases n,
{
    if n > 0 {
        lemma_profile_notices(model, n - 1, text);
        let before = profile_notices(model, n - 1);
        let after = profile_notices(model, n);
        let last = model.profiles@[n - 1];
        if after.contains(text) {
            let i = choose|i: int| 0 <= i < after.len() && after[i] == text;
            if i < before.len() {
                assert(before[i] == text);
                assert(before.contains(text));
            }
        }
        if before.contains(text) {
            let i = choose|i: int| 0 <= i < before.len() && before[i] == text;
            assert(after[i] == text);
        }
        if file_ignored(last) && text == ignored_file_text(model.name@, last.id@) {
            assert(after[before.len() as int] == text);
        }
    }
}

/// The operator is told of every profile whose file is ignored, whether it is enabled or not, and
/// of no other.
pub proof fn law_what_the_operator_is_told(models: Seq<Model>, n: int, text: Seq<char>)
    requires
        n <= models.len(),
    ensures
        model_notices(models, n).contains(text) <==> exists|m: int, p: int|
            #![trigger models[m].profiles@[p]]
            0 <= m < n && 0 <= p < models[m].profiles@.len() && file_ignored(
                models[m].profiles@[p],
            ) && text == "Profile "@ + models[m].name@ + ":"@ + models[m].profiles@[p].id@
                + " specifies 'hf_file' without 'hf_repo'; 'hf_file' will be ignored"@,
    decreases n,
{
    if n > 0 {
        law_what_the_operator_is_told(models, n - 1, text);
        let model = models[n - 1];
        let count = model.profiles@.len() as int;
        lemma_profile_notices(model, count, text);
        let before = model_notices(models, n - 1);
        let these = profile_notices(model, count);
        let after = model_notices(models, n);
        if after.contains(text) {
            let i = choose|i: int| 0 <= i < after.len() && after[i] == text;
            if i < before.len() {
                assert(before[i] == text);
                assert(before.contains(text));
            } else {
                assert(these[i - before.len()] == text);
                assert(these.contains(text));
                let p = choose|p: int|
                    0 <= p < count && file_ignored(#[trigger] model.profiles@[p]) && text
                        == ignored_file_text(model.name@, model.profiles@[p].id@);
                assert(file_ignored(models[n - 1].profiles@[p]));
            }
        }
        if exists|m: int, p: int|
            #![trigger models[m].profiles@[p]]
            0 <= m < n && 0 <= p < models[m].profiles@.len() && file_ignored(
                models[m].profiles@[p],
            ) && text == ignored_file_text(models[m].name@, models[m].profiles@[p].id@) {
            let (m, p) = choose|m: int, p: int|
                #![trigger models[m].profiles@[p]]
                0 <= m < n && 0 <= p < models[m].profiles@.len() && file_ignored(
                    models[m].profiles@[p],
                ) && text == ignored_file_text(models[m].name@, models[m].profiles@[p].id@);
            if m < n - 1 {
                assert(before.contains(text));
                let i = choose|i: int| 0 <= i < before.len() && before[i] == text;
                assert(after[i] == text);
            } else {
                assert(file_ignored(model.profiles@[p]));
                assert(these.contains(text));
                let i = choose|i: int| 0 <= i < these.len() && these[i] == text;
                assert(after[before.len() + i] == text);
            }
        }
    }
}

/// In a cookbook that passes validation every profile says where its model is, whether it is
/// enabled or not.
pub proof fn law_valid_cookbook_names_models(models: Seq<Model>, m: int, p: int)
    requires
        cookbook_checked(models, index_keys(models), Ok(())),
        0 <= m < models.len(),
        0 <= p < models[m].profiles@.len(),
    ensures
        source_problem(models[m].profiles@[p]) is None,
{
    assert(is_pair(models, m, p));
    assert(!pair_problem(models, index_keys(models), m, p));
}

/// What a refused cookbook is told is the first thing that is wrong with it: before that profile
/// every profile says where its model is, and no two enabled profiles are looked up by one name.
pub proof fn law_first_fault_is_told(models: Seq<Model>, e: CookbookError)
    requires
        cookbook_checked(models, index_keys(models), Err(e)),
    ensures
        exists|m: int, p: int|
            #![trigger models[m].profiles@[p]]
            {
                &&& 0 <= m < models.len() && 0 <= p < models[m].profiles@.len()
                &&& match e {
                    CookbookError::Source { model, profile, error } => model@ == models[m].name@
                        && profile@ == models[m].profiles@[p].id@ && source_problem(
                        models[m].profiles@[p],
                    ) == Some(error),
                    CookbookError::Duplicate { first, second, key } => second@ == models[m].name@
                        + ":"@ + models[m].profiles@[p].id@ && source_problem(
                        models[m].profiles@[p],
                    ) is None,
                }
                &&& forall|a: int, b: int|
                    #![trigger models[a].profiles@[b]]
                    0 <= a < models.len() && 0 <= b < models[a].profiles@.len() && (a < m || a == m
                        && b < p) ==> source_problem(models[a].profiles@[b]) is None
                &&& forall|a: int, b: int, c: int, d: int|
                    #![trigger models[a].profiles@[b], models[c].profiles@[d]]
                    0 <= a < models.len() && 0 <= b < models[a].profiles@.len() && (a < c || a == c
                        && b < d) && 0 <= c < models.len() && 0 <= d < models[c].profiles@.len() && (
                    c < m || c == m && d < p) && models[a].enabled && models[a].profiles@[b].enabled
                        && models[c].enabled && models[c].profiles@[d].enabled ==> index_key(
                        models[a].name@,
                        models[a].profiles@[b].id@,
                    ) != index_key(models[c].name@, models[c].profiles@[d].id@)
            },
{
    let keys = index_keys(models);
    let (m, p) = choose|m: int, p: int|
        {
            &&& is_pair(models, m, p)
            &&& #[trigger] describes(e, models, keys, m, p)
            &&& forall|m1: int, p1: int|
                #![trigger pair_problem(models, keys, m1, p1)]
                is_pair(models, m1, p1) && comes_before(m1, p1, m, p) ==> !pair_problem(
                    models,
                    keys,
                    m1,
                    p1,
                )
        };
    assert forall|a: int, b: int|
        #![trigger models[a].profiles@[b]]
        0 <= a < models.len() && 0 <= b < models[a].profiles@.len() && (a < m || a == m && b
            < p) implies source_problem(models[a].profiles@[b]) is None by {
        assert(!pair_problem(models, keys, a, b));
    }
    assert forall|a: int, b: int, c: int, d: int|
        #![trigger models[a].profiles@[b], models[c].profiles@[d]]
        0 <= a < models.len() && 0 <= b < models[a].profiles@.len() && (a < c || a == c && b < d)
            && 0 <= c < models.len() && 0 <= d < models[c].profiles@.len() && (c < m || c == m && d
            < p) && models[a].enabled && models[a].profiles@[b].enabled && models[c].enabled
            && models[c].profiles@[d].enabled implies index_key(
        models[a].name@,
        models[a].profiles@[b].id@,
    ) != index_key(models[c].name@, models[c].profiles@[d].id@) by {
        assert(!pair_problem(models, keys, c, d));
        assert(keys[a][b] == index_key(models[a].name@, models[a].profiles@[b].id@));
        assert(keys[c][d] == index_key(models[c].name@, models[c].profiles@[d].id@));
        if keys[a][b] == keys[c][d] {
            assert(clashes(models, keys, a, b, c, d));
        }
    }
    assert(models[m].profiles@[p] == models[m].profiles@[p]);
}

/// Names are served, and the operator is told, in the order of the profiles: each enabled profile
/// adds its name at the end, and each whose file is ignored a line.
pub proof fn law_profiles_in_order(model: Model, n: int)
    requires
        0 <= n < model.profiles@.len(),
    ensures
        ({
            let p = model.profiles@[n];
            &&& p.enabled ==> profile_names(model, n + 1) == profile_names(model, n).push(
                model.name@ + ":"@ + p.id@,
            )
            &&& !p.enabled ==> profile_names(model, n + 1) == profile_names(model, n)
            &&& file_ignored(p) ==> profile_notices(model, n + 1) == profile_notices(
                model,
                n,
            ).push(ignored_file_text(model.name@, p.id@))
            &&& !file_ignored(p) ==> profile_notices(model, n + 1) == profile_notices(model, n)
            &&& profile_names(model, 0).len() == 0 && profile_notices(model, 0).len() == 0
        }),
{
}

} // verus!
