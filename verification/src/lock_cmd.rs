//! The decisions behind `codex builtin-context-lock generate`: which config
//! overrides apply, where the lock is written, which model and personality
//! its base instructions come from.
use vstd::prelude::*;
use vstd::string::*;
use crate::text::starts_with_text;

verus! {

/// Raw `-c key=value` overrides given on the command line, in order.
#[derive(Debug)]
pub struct CliConfigOverrides {
    pub raw_overrides: Vec<String>,
}

/// The overrides of the root command followed by those of the subcommand,
/// so that the subcommand's come last and win.
pub fn merged_config_overrides(root: CliConfigOverrides, command: CliConfigOverrides) -> (r:
    CliConfigOverrides)
    ensures
        r.raw_overrides@ == root.raw_overrides@ + command.raw_overrides@,
{
    let mut merged = root.raw_overrides;
    let mut rest = command.raw_overrides;
    merged.append(&mut rest);
    CliConfigOverrides { raw_overrides: merged }
}

/// Why no output path could be chosen.
#[derive(Debug)]
pub enum OutputPathError {
    /// `--output` was given but could not be made absolute.
    InvalidOutputPath { detail: String },
    /// Neither `--output` nor `builtin_context_lock.path` is set.
    NotConfigured,
}

/// The text of an output path error, as shown to the user.
pub open spec fn output_path_error_message(e: OutputPathError) -> Seq<char> {
    match e {
        OutputPathError::InvalidOutputPath { .. } => "invalid --output path for builtin context lock"@,
        OutputPathError::NotConfigured =>
            "no builtin_context_lock.path is configured; pass --output <path> to choose where to write the generated lock"@,
    }
}

impl OutputPathError {
    /// The error's text.
    pub fn message(&self) -> (m: String)
        ensures
            m@ == output_path_error_message(*self),
    {
        match self {
            OutputPathError::InvalidOutputPath { .. } => "invalid --output path for builtin context lock".to_owned(),
            OutputPathError::NotConfigured =>
                "no builtin_context_lock.path is configured; pass --output <path> to choose where to write the generated lock".to_owned(),
        }
    }
}

/// Where the generated lock is written: the `--output` path when given (as
/// made absolute against the current directory, or the reason it could not
/// be), else the configured `builtin_context_lock.path`, else an error.
pub fn resolve_output_path(output: Option<Result<String, String>>, configured: Option<String>) -> (r:
    Result<String, OutputPathError>)
    ensures
        match output {
            Some(Ok(path)) => r == Ok::<String, OutputPathError>(path),
            Some(Err(detail)) => r matches Err(OutputPathError::InvalidOutputPath { detail: d }) && d
                == detail,
            None => match configured {
                Some(path) => r == Ok::<String, OutputPathError>(path),
                None => r matches Err(OutputPathError::NotConfigured),
            },
        },
{
    match output {
        Some(Ok(path)) => Ok(path),
        Some(Err(detail)) => Err(OutputPathError::InvalidOutputPath { detail }),
        None => match configured {
            Some(path) => Ok(path),
            None => Err(OutputPathError::NotConfigured),
        },
    }
}

/// A model of the bundled catalog, as far as picking the default model goes.
#[derive(Debug)]
pub struct ModelPresetCandidate {
    pub model: String,
    pub priority: i32,
    pub supported_in_api: bool,
    pub show_in_picker: bool,
}

/// Candidate `i` comes first, by priority and then by catalog order, among
/// the candidates that `accepted` admits.
pub open spec fn first_by_priority(c: Seq<ModelPresetCandidate>, i: int, in_picker: bool) -> bool {
    &&& 0 <= i < c.len()
    &&& accepted(c[i], in_picker)
    &&& forall|j: int|
        0 <= j < c.len() && #[trigger] accepted(c[j], in_picker) ==> c[i].priority < c[j].priority
            || (c[i].priority == c[j].priority && i <= j)
}

/// Supported in the API and, when `in_picker`, shown in the picker.
pub open spec fn accepted(m: ModelPresetCandidate, in_picker: bool) -> bool {
    m.supported_in_api && (in_picker ==> m.show_in_picker)
}

/// The default model of a catalog: of the models supported in the API,
/// ordered by priority (catalog order among equals), the first shown in the
/// picker, else the first, else the empty name.
pub open spec fn default_model_of(c: Seq<ModelPresetCandidate>) -> Seq<char> {
    if exists|i: int| first_by_priority(c, i, true) {
        c[choose|i: int| first_by_priority(c, i, true)].model@
    } else if exists|i: int| first_by_priority(c, i, false) {
        c[choose|i: int| first_by_priority(c, i, false)].model@
    } else {
        Seq::empty()
    }
}

/// At most one candidate comes first.
pub proof fn lemma_first_by_priority_unique(
    c: Seq<ModelPresetCandidate>,
    i: int,
    j: int,
    in_picker: bool,
)
    requires
        first_by_priority(c, i, in_picker),
        first_by_priority(c, j, in_picker),
    ensures
        i == j,
{
    assert(accepted(c[j], in_picker));
    assert(accepted(c[i], in_picker));
}

/// The default model of a catalog (see `default_model_of`).
pub fn default_model(candidates: &Vec<ModelPresetCandidate>) -> (m: String)
    ensures
        m@ == default_model_of(candidates@),
{
    let ghost c = candidates@;
    let mut best_pickable: Option<usize> = None;
    let mut best_supported: Option<usize> = None;
    let mut i: usize = 0;
    while i < candidates.len()
        invariant
            c == candidates@,
            i <= c.len(),
            match best_pickable {
                Some(b) => first_by_priority(c.take(i as int), b as int, true),
                None => forall|j: int| 0 <= j < i ==> !accepted(#[trigger] c[j], true),
            },
            match best_supported {
                Some(b) => first_by_priority(c.take(i as int), b as int, false),
                None => forall|j: int| 0 <= j < i ==> !accepted(#[trigger] c[j], false),
            },
        decreases c.len() - i,
    {
        let cand = &candidates[i];
        if cand.supported_in_api {
            let better = match best_supported {
                None => true,
                Some(b) => cand.priority < candidates[b].priority,
            };
            if better {
                best_supported = Some(i);
            }
            if cand.show_in_picker {
                let better_pick = match best_pickable {
                    None => true,
                    Some(b) => cand.priority < candidates[b].priority,
                };
                if better_pick {
                    best_pickable = Some(i);
                }
            }
        }
        proof {
            let t = c.take(i + 1);
            assert forall|j: int| 0 <= j <= i implies t[j] == #[trigger] c[j] by {}
            assert forall|j: int| 0 <= j < i implies c.take(i as int)[j] == #[trigger] c[j] by {}
        }
        i = i + 1;
    }
    proof {
        assert(c.take(c.len() as int) =~= c);
    }
    match best_pickable {
        Some(b) => {
            proof {
                if exists|k: int| first_by_priority(c, k, true) {
                    let k = choose|k: int| first_by_priority(c, k, true);
                    lemma_first_by_priority_unique(c, k, b as int, true);
                }
            }
            candidates[b].model.clone()
        },
        None => {
            proof {
                if exists|k: int| first_by_priority(c, k, true) {
                    let k = choose|k: int| first_by_priority(c, k, true);
                    assert(accepted(c[k], true));
                }
            }
            match best_supported {
                Some(b) => {
                    proof {
                        if exists|k: int| first_by_priority(c, k, false) {
                            let k = choose|k: int| first_by_priority(c, k, false);
                            lemma_first_by_priority_unique(c, k, b as int, false);
                        }
                    }
                    candidates[b].model.clone()
                },
                None => {
                    proof {
                        if exists|k: int| first_by_priority(c, k, false) {
                            let k = choose|k: int| first_by_priority(c, k, false);
                            assert(accepted(c[k], false));
                        }
                    }
                    String::new()
                },
            }
        },
    }
}

/// The model the lock's base instructions are generated for: the profile's
/// model, else the config's model, else the bundled catalog's default model
/// (the catalog is only consulted, and its load error only reported, then).
pub fn configured_model(
    profile_model: Option<String>,
    config_model: Option<String>,
    catalog: Result<Vec<ModelPresetCandidate>, String>,
) -> (r: Result<String, String>)
    ensures
        match profile_model {
            Some(m) => r == Ok::<String, String>(m),
            None => match config_model {
                Some(m) => r == Ok::<String, String>(m),
                None => match catalog {
                    Ok(c) => r matches Ok(m) && m@ == default_model_of(c@),
                    Err(e) => r == Err::<String, String>(e),
                },
            },
        },
{
    if let Some(m) = profile_model {
        return Ok(m);
    }
    if let Some(m) = config_model {
        return Ok(m);
    }
    match catalog {
        Ok(c) => Ok(default_model(&c)),
        Err(e) => Err(e),
    }
}

/// The personality the personality feature turns on when none is configured.
pub open spec fn feature_default_personality() -> Seq<char> {
    "pragmatic"@
}

/// The personality the base instructions are rendered with, by its config
/// name: the profile's, else the config's, else `pragmatic` when the
/// personality feature is enabled, else none.
pub fn configured_personality(
    profile_personality: Option<String>,
    config_personality: Option<String>,
    personality_feature_enabled: bool,
) -> (r: Option<String>)
    ensures
        match profile_personality {
            Some(p) => r == Some(p),
            None => match config_personality {
                Some(p) => r == Some(p),
                None => if personality_feature_enabled {
                    r matches Some(p) && p@ == feature_default_personality()
                } else {
                    r is None
                },
            },
        },
{
    match profile_personality {
        Some(p) => Some(p),
        None => match config_personality {
            Some(p) => Some(p),
            None => if personality_feature_enabled {
                Some("pragmatic".to_owned())
            } else {
                None
            },
        },
    }
}

/// Slug `i` is a prefix of `model`, and no other such slug is longer or,
/// as long, earlier in the catalog.
pub open spec fn longest_matching_slug(slugs: Seq<String>, model: Seq<char>, i: int) -> bool {
    &&& 0 <= i < slugs.len()
    &&& slugs[i]@.is_prefix_of(model)
    &&& forall|j: int|
        0 <= j < slugs.len() && #[trigger] slugs[j]@.is_prefix_of(model) ==> slugs[j]@.len()
            < slugs[i]@.len() || (slugs[j]@.len() == slugs[i]@.len() && i <= j)
}

/// The catalog entry whose slug is the longest prefix of `model` (the first
/// such in catalog order), or none when no slug is a prefix of it.
pub fn best_catalog_match(model: &str, slugs: &Vec<String>) -> (r: Option<usize>)
    ensures
        match r {
            Some(i) => longest_matching_slug(slugs@, model@, i as int),
            None => forall|j: int| 0 <= j < slugs@.len() ==> !(#[trigger] slugs@[j]@.is_prefix_of(model@)),
        },
{
    let mut best: Option<usize> = None;
    let mut best_len: usize = 0;
    let mut i: usize = 0;
    while i < slugs.len()
        invariant
            i <= slugs@.len(),
            match best {
                Some(b) => longest_matching_slug(slugs@.take(i as int), model@, b as int) && best_len
                    == slugs@[b as int]@.len(),
                None => forall|j: int| 0 <= j < i ==> !(#[trigger] slugs@[j]@.is_prefix_of(model@)),
            },
        decreases slugs@.len() - i,
    {
        let slug = slugs[i].as_str();
        if starts_with_text(model, slug) {
            let len = slug.unicode_len();
            let better = match best {
                None => true,
                Some(_) => len > best_len,
            };
            if better {
                best = Some(i);
                best_len = len;
            }
        }
        proof {
            assert forall|j: int| 0 <= j <= i implies slugs@.take(i + 1)[j] == #[trigger] slugs@[j] by {}
            assert forall|j: int| 0 <= j < i implies slugs@.take(i as int)[j] == #[trigger] slugs@[j] by {}
        }
        i = i + 1;
    }
    proof {
        assert(slugs@.take(slugs@.len() as int) =~= slugs@);
    }
    best
}

} // verus!
