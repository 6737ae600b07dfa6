//! The builtin context lock: which builtin base instructions, prompt
//! fragments, tools and templates a configuration pins, read from a JSON
//! lock file and checked against the ids this build knows.
use vstd::prelude::*;
use vstd::string::*;
use crate::text::{
    append_decimal, decimal_text, lemma_text_lt_asymmetric, lemma_text_lt_irreflexive, lemma_text_lt_total,
    lemma_text_lt_transitive, same_text, text_less, text_lt,
};

verus! {

/// The only lock file schema version this library reads.
pub const SCHEMA_VERSION: u32 = 1;

pub const BASE_INSTRUCTIONS_MODEL_CATALOG_CURRENT_ID: &'static str =
    "builtin.base_instructions.model_catalog.current";
pub const TOOL_EXEC_COMMAND_ID: &'static str = "builtin.tool.exec_command";
pub const TOOL_WRITE_STDIN_ID: &'static str = "builtin.tool.write_stdin";
pub const TOOL_SHELL_ID: &'static str = "builtin.tool.shell";
pub const TOOL_LOCAL_SHELL_ID: &'static str = "builtin.tool.local_shell";
pub const TOOL_APPLY_PATCH_ID: &'static str = "builtin.tool.apply_patch";
pub const TOOL_UPDATE_PLAN_ID: &'static str = "builtin.tool.update_plan";
pub const TOOL_REQUEST_USER_INPUT_ID: &'static str = "builtin.tool.request_user_input";
pub const TOOL_REQUEST_PERMISSIONS_ID: &'static str = "builtin.tool.request_permissions";
pub const TOOL_LIST_MCP_RESOURCES_ID: &'static str = "builtin.tool.list_mcp_resources";
pub const TOOL_LIST_MCP_RESOURCE_TEMPLATES_ID: &'static str = "builtin.tool.list_mcp_resource_templates";
pub const TOOL_READ_MCP_RESOURCE_ID: &'static str = "builtin.tool.read_mcp_resource";
pub const TOOL_GET_GOAL_ID: &'static str = "builtin.tool.get_goal";
pub const TOOL_CREATE_GOAL_ID: &'static str = "builtin.tool.create_goal";
pub const TOOL_UPDATE_GOAL_ID: &'static str = "builtin.tool.update_goal";
pub const TOOL_SPAWN_AGENT_ID: &'static str = "builtin.tool.spawn_agent";
pub const TOOL_SEND_INPUT_ID: &'static str = "builtin.tool.send_input";
pub const TOOL_SEND_MESSAGE_ID: &'static str = "builtin.tool.send_message";
pub const TOOL_FOLLOWUP_TASK_ID: &'static str = "builtin.tool.followup_task";
pub const TOOL_RESUME_AGENT_ID: &'static str = "builtin.tool.resume_agent";
pub const TOOL_WAIT_AGENT_ID: &'static str = "builtin.tool.wait_agent";
pub const TOOL_CLOSE_AGENT_ID: &'static str = "builtin.tool.close_agent";
pub const TOOL_LIST_AGENTS_ID: &'static str = "builtin.tool.list_agents";
pub const TOOL_SPAWN_AGENTS_ON_CSV_ID: &'static str = "builtin.tool.spawn_agents_on_csv";
pub const TOOL_REPORT_AGENT_JOB_RESULT_ID: &'static str = "builtin.tool.report_agent_job_result";
pub const TOOL_VIEW_IMAGE_ID: &'static str = "builtin.tool.view_image";
pub const TOOL_WEB_SEARCH_ID: &'static str = "builtin.tool.web_search";
pub const TOOL_IMAGE_GENERATION_ID: &'static str = "builtin.tool.image_generation";

/// An entry of the `base_instructions` section.
#[derive(Debug, Clone, PartialEq, Eq)]
pub struct BaseInstructionsEntry {
    pub id: String,
    pub enabled: bool,
    pub content: Option<String>,
}

/// An entry of the `fragments` section.
#[derive(Debug, Clone, PartialEq, Eq)]
pub struct FragmentEntry {
    pub id: String,
    pub enabled: bool,
    pub content: Option<String>,
}

/// An entry of the `tools` section; `spec` is carried through unread.
#[derive(Debug, Clone, PartialEq, Eq)]
pub struct ToolEntry {
    pub id: String,
    pub enabled: bool,
    pub name: Option<String>,
    pub spec: Option<serde_json::Value>,
}

/// An entry of the `templates` section.
#[derive(Debug, Clone, PartialEq, Eq)]
pub struct TemplateEntry {
    pub id: String,
    pub enabled: bool,
    pub content: Option<String>,
}

/// Declares `serde_json::Value` to the verifier as an opaque type: a tool
/// entry's `spec` is carried through and never read.
#[verifier::external_type_specification]
#[verifier::external_body]
pub struct ExSerdeJsonValue(serde_json::Value);

/// An entry of a lock file section, identified by its id.
pub trait LockEntry {
    spec fn spec_id(&self) -> Seq<char>;

    fn id(&self) -> (r: &str)
        ensures
            r@ == self.spec_id(),
    ;
}

impl LockEntry for BaseInstructionsEntry {
    open spec fn spec_id(&self) -> Seq<char> {
        self.id@
    }

    fn id(&self) -> (r: &str) {
        self.id.as_str()
    }
}

impl LockEntry for FragmentEntry {
    open spec fn spec_id(&self) -> Seq<char> {
        self.id@
    }

    fn id(&self) -> (r: &str) {
        self.id.as_str()
    }
}

impl LockEntry for ToolEntry {
    open spec fn spec_id(&self) -> Seq<char> {
        self.id@
    }

    fn id(&self) -> (r: &str) {
        self.id.as_str()
    }
}

impl LockEntry for TemplateEntry {
    open spec fn spec_id(&self) -> Seq<char> {
        self.id@
    }

    fn id(&self) -> (r: &str) {
        self.id.as_str()
    }
}

/// The texts of a list of string slices.
pub open spec fn str_views(s: Seq<&str>) -> Seq<Seq<char>> {
    s.map_values(|x: &str| x@)
}

/// The warning recorded for an entry whose id this build does not know.
pub open spec fn unknown_id_warning(section: Seq<char>, id: Seq<char>) -> Seq<char> {
    "Ignoring unknown builtin context lock id `"@ + id + "` in `"@ + section + "`"@
}

/// Whether some entry of `kept` has id `id`.
pub open spec fn has_entry_id<T: LockEntry>(kept: Seq<T>, id: Seq<char>) -> bool {
    exists|i: int| 0 <= i < kept.len() && #[trigger] kept[i].spec_id() == id
}

/// What sifting a section's entries against the known ids gives: the
/// warnings for unknown ids, the known entries kept in order, and the first
/// known id that occurred twice, if any (sifting stops there).
pub struct Sifted<T> {
    pub warnings: Seq<Seq<char>>,
    pub kept: Seq<T>,
    pub duplicate: Option<Seq<char>>,
}

/// Sifts `entries`, in order, against the known ids `known`.
pub open spec fn sift<T: LockEntry>(
    entries: Seq<T>,
    known: Seq<Seq<char>>,
    section: Seq<char>,
) -> Sifted<T>
    decreases entries.len(),
{
    if entries.len() == 0 {
        Sifted { warnings: Seq::empty(), kept: Seq::empty(), duplicate: None }
    } else {
        let prev = sift(entries.drop_last(), known, section);
        let id = entries.last().spec_id();
        if prev.duplicate is Some {
            prev
        } else if !known.contains(id) {
            Sifted {
                warnings: prev.warnings.push(unknown_id_warning(section, id)),
                kept: prev.kept,
                duplicate: None,
            }
        } else if has_entry_id(prev.kept, id) {
            Sifted { warnings: prev.warnings, kept: prev.kept, duplicate: Some(id) }
        } else {
            Sifted { warnings: prev.warnings, kept: prev.kept.push(entries.last()), duplicate: None }
        }
    }
}

/// The texts of a list of strings.
pub open spec fn string_views(s: Seq<String>) -> Seq<Seq<char>> {
    s.map_values(|x: String| x@)
}

/// No two entries share an id.
pub open spec fn distinct_ids<T: LockEntry>(s: Seq<T>) -> bool {
    forall|i: int, j: int|
        0 <= i < s.len() && 0 <= j < s.len() && i != j ==> #[trigger] s[i].spec_id()
            != #[trigger] s[j].spec_id()
}

/// Every entry's id is one of `known`.
pub open spec fn all_known<T: LockEntry>(s: Seq<T>, known: Seq<Seq<char>>) -> bool {
    forall|i: int| 0 <= i < s.len() ==> known.contains(#[trigger] s[i].spec_id())
}

/// Errors of reading a lock file's contents.
#[derive(Debug)]
pub enum LockError {
    /// The lock file has another schema version than `SCHEMA_VERSION`.
    UnsupportedSchemaVersion { found: u32 },
    /// A known id occurs twice in one section.
    DuplicateId { section: String, id: String },
    /// An enabled base instructions entry has no content.
    MissingEnabledContent { id: String },
}

/// The mathematical content of a `LockError`.
pub enum LockErrorView {
    UnsupportedSchemaVersion { found: u32 },
    DuplicateId { section: Seq<char>, id: Seq<char> },
    MissingEnabledContent { id: Seq<char> },
}

impl View for LockError {
    type V = LockErrorView;

    open spec fn view(&self) -> LockErrorView {
        match self {
            LockError::UnsupportedSchemaVersion { found } => LockErrorView::UnsupportedSchemaVersion {
                found: *found,
            },
            LockError::DuplicateId { section, id } => LockErrorView::DuplicateId {
                section: section@,
                id: id@,
            },
            LockError::MissingEnabledContent { id } => LockErrorView::MissingEnabledContent {
                id: id@,
            },
        }
    }
}

fn is_listed(known_ids: &[&str], id: &str) -> (r: bool)
    ensures
        r == str_views(known_ids@).contains(id@),
{
    let mut i: usize = 0;
    while i < known_ids.len()
        invariant
            i <= known_ids@.len(),
            forall|j: int| 0 <= j < i ==> known_ids@[j]@ != id@,
        decreases known_ids@.len() - i,
    {
        if same_text(known_ids[i], id) {
            assert(str_views(known_ids@)[i as int] == id@);
            return true;
        }
        i = i + 1;
    }
    proof {
        if str_views(known_ids@).contains(id@) {
            let k = choose|k: int| 0 <= k < str_views(known_ids@).len() && str_views(known_ids@)[k] == id@;
            assert(known_ids@[k]@ == id@);
        }
    }
    false
}

fn build_unknown_id_warning(section: &str, id: &str) -> (m: String)
    ensures
        m@ == unknown_id_warning(section@, id@),
{
    let mut m: String = "Ignoring unknown builtin context lock id `".to_owned();
    m.append(id);
    m.append("` in `");
    m.append(section);
    m.append("`");
    m
}

fn find_by_id<T: LockEntry>(kept: &Vec<T>, id: &str) -> (r: bool)
    ensures
        r == has_entry_id(kept@, id@),
{
    let mut i: usize = 0;
    while i < kept.len()
        invariant
            i <= kept@.len(),
            forall|j: int| 0 <= j < i ==> kept@[j].spec_id() != id@,
        decreases kept@.len() - i,
    {
        if same_text(kept[i].id(), id) {
            return true;
        }
        i = i + 1;
    }
    false
}

/// Keeps the entries of a section whose id is one of `known_ids`, ordered
/// by id as a map keyed by id holds them. Each entry with an unknown id adds a warning to `startup_warnings` and is
/// dropped; a known id that occurs a second time is an error, at which point
/// the remaining entries are not looked at.
pub fn known_entries<T: LockEntry>(
    section: &str,
    entries: Vec<T>,
    known_ids: &[&str],
    startup_warnings: &mut Vec<String>,
) -> (r: Result<Vec<T>, LockError>)
    ensures
        ({
            let s = sift(entries@, str_views(known_ids@), section@);
            &&& string_views(final(startup_warnings)@) == string_views(old(startup_warnings)@)
                + s.warnings
            &&& match r {
                Ok(kept) => s.duplicate is None && kept@ == sort_by_id(s.kept),
                Err(e) => s.duplicate matches Some(id) && e@ == (LockErrorView::DuplicateId {
                    section: section@,
                    id,
                }),
            }
        }),
{
    let ghost known = str_views(known_ids@);
    let ghost all = entries@;
    let mut kept: Vec<T> = Vec::new();
    for entry in it: entries
        invariant
            it.seq() == all,
            known == str_views(known_ids@),
            ({
                let s = sift(all.take(it.index() as int), known, section@);
                &&& s.duplicate is None
                &&& kept@ == sort_by_id(s.kept)
                &&& string_views(startup_warnings@) == string_views(old(startup_warnings)@)
                    + s.warnings
            }),
    {
        let ghost idx = it.index() as int;
        proof {
            assert(all.take(idx + 1).drop_last() =~= all.take(idx));
            assert(all.take(idx + 1).last() == all[idx]);
        }
        proof {
            lemma_sort_by_id_has_id(sift(all.take(idx), known, section@).kept, entry.spec_id());
        }
        let listed = is_listed(known_ids, entry.id());
        if !listed {
            let message = build_unknown_id_warning(section, entry.id());
            let ghost before = startup_warnings@;
            startup_warnings.push(message);
            proof {
                assert(string_views(startup_warnings@) =~= string_views(before).push(message@));
                assert(string_views(startup_warnings@) =~= string_views(old(startup_warnings)@)
                    + sift(all.take(idx + 1), known, section@).warnings);
            }
        } else if find_by_id(&kept, entry.id()) {
            let mut id: String = String::new();
            id.append(entry.id());
            let mut sec: String = String::new();
            sec.append(section);
            proof {
                assert(id@ =~= entry.spec_id());
                assert(sec@ =~= section@);
                let s = sift(all.take(idx + 1), known, section@);
                assert(s.duplicate == Some(entry.spec_id()));
                lemma_sift_stops(all, known, section@, idx + 1);
            }
            return Err(LockError::DuplicateId { section: sec, id });
        } else {
            let ghost k = sift(all.take(idx), known, section@).kept;
            insert_in_id_order(&mut kept, entry);
            proof {
                assert(k.push(all[idx]).drop_last() =~= k);
                assert(sift(all.take(idx + 1), known, section@).kept == k.push(all[idx]));
            }
        }
    }
    proof {
        assert(all.take(all.len() as int) =~= all);
    }
    Ok(kept)
}

/// Once sifting meets a duplicate, later entries change nothing.
pub proof fn lemma_sift_stops<T: LockEntry>(
    entries: Seq<T>,
    known: Seq<Seq<char>>,
    section: Seq<char>,
    n: int,
)
    requires
        0 <= n <= entries.len(),
        sift(entries.take(n), known, section).duplicate is Some,
    ensures
        sift(entries, known, section) == sift(entries.take(n), known, section),
    decreases entries.len() - n,
{
    if n < entries.len() {
        assert(entries.take(n + 1).drop_last() =~= entries.take(n));
        lemma_sift_stops(entries, known, section, n + 1);
    } else {
        assert(entries.take(n) =~= entries);
    }
}

/// Sifting keeps only known ids, never the same id twice.
pub proof fn lemma_sift_kept_wf<T: LockEntry>(
    entries: Seq<T>,
    known: Seq<Seq<char>>,
    section: Seq<char>,
)
    ensures
        distinct_ids(sift(entries, known, section).kept),
        all_known(sift(entries, known, section).kept, known),
    decreases entries.len(),
{
    if entries.len() > 0 {
        lemma_sift_kept_wf(entries.drop_last(), known, section);
        let prev = sift(entries.drop_last(), known, section);
        let s = sift(entries, known, section);
        if prev.duplicate is None && known.contains(entries.last().spec_id())
            && !has_entry_id(prev.kept, entries.last().spec_id()) {
            assert forall|i: int, j: int|
                0 <= i < s.kept.len() && 0 <= j < s.kept.len() && i != j implies #[trigger] s.kept[i].spec_id()
                    != #[trigger] s.kept[j].spec_id() by {
                if i == prev.kept.len() {
                    assert(s.kept[j] == prev.kept[j]);
                } else if j == prev.kept.len() {
                    assert(s.kept[i] == prev.kept[i]);
                } else {
                    assert(s.kept[i] == prev.kept[i] && s.kept[j] == prev.kept[j]);
                }
            }
            assert forall|i: int| 0 <= i < s.kept.len() implies known.contains(
                #[trigger] s.kept[i].spec_id(),
            ) by {
                if i < prev.kept.len() {
                    assert(s.kept[i] == prev.kept[i]);
                }
            }
        }
    }
}

/// Unknown ids only ever warn: sifting reports a duplicate exactly when some
/// known id occurs at two positions of the section.
pub proof fn lemma_sift_duplicate_iff<T: LockEntry>(
    entries: Seq<T>,
    known: Seq<Seq<char>>,
    section: Seq<char>,
)
    ensures
        (sift(entries, known, section).duplicate is Some) <==> (exists|i: int, j: int|
            0 <= i < j < entries.len() && known.contains(entries[j].spec_id())
                && #[trigger] entries[i].spec_id() == #[trigger] entries[j].spec_id()),
        sift(entries, known, section).duplicate matches Some(id) ==> known.contains(id),
    decreases entries.len(),
{
    if entries.len() > 0 {
        let d = entries.drop_last();
        lemma_sift_duplicate_iff(d, known, section);
        lemma_sift_kept_members(d, known, section);
        let prev = sift(d, known, section);
        let last = entries.len() - 1;
        if prev.duplicate is Some {
            let (i, j) = choose|i: int, j: int|
                0 <= i < j < d.len() && known.contains(d[j].spec_id())
                    && #[trigger] d[i].spec_id() == #[trigger] d[j].spec_id();
            assert(entries[i] == d[i] && entries[j] == d[j]);
        } else {
            let id = entries.last().spec_id();
            if known.contains(id) && has_entry_id(prev.kept, id) {
                let k = choose|k: int| 0 <= k < prev.kept.len() && #[trigger] prev.kept[k].spec_id() == id;
                let i = choose|i: int| 0 <= i < d.len() && d[i] == prev.kept[k];
                assert(entries[i] == d[i]);
                assert(entries[last] == entries.last());
            }
            if exists|i: int, j: int|
                0 <= i < j < entries.len() && known.contains(entries[j].spec_id())
                    && #[trigger] entries[i].spec_id() == #[trigger] entries[j].spec_id() {
                let (i, j) = choose|i: int, j: int|
                    0 <= i < j < entries.len() && known.contains(entries[j].spec_id())
                        && #[trigger] entries[i].spec_id() == #[trigger] entries[j].spec_id();
                if j < last {
                    assert(d[i] == entries[i] && d[j] == entries[j]);
                    assert(false);
                } else {
                    assert(d[i] == entries[i]);
                    lemma_sift_keeps_known(d, known, section, i);
                }
            }
        }
    }
}

/// Every kept entry is one of the section's entries.
pub proof fn lemma_sift_kept_members<T: LockEntry>(
    entries: Seq<T>,
    known: Seq<Seq<char>>,
    section: Seq<char>,
)
    ensures
        forall|k: int|
            0 <= k < sift(entries, known, section).kept.len() ==> exists|i: int|
                0 <= i < entries.len() && entries[i] == #[trigger] sift(
                    entries,
                    known,
                    section,
                ).kept[k],
    decreases entries.len(),
{
    if entries.len() > 0 {
        let d = entries.drop_last();
        lemma_sift_kept_members(d, known, section);
        let prev = sift(d, known, section);
        let s = sift(entries, known, section);
        assert forall|k: int| 0 <= k < s.kept.len() implies exists|i: int|
            0 <= i < entries.len() && entries[i] == #[trigger] s.kept[k] by {
            if k < prev.kept.len() {
                assert(s.kept[k] == prev.kept[k]);
                let i = choose|i: int| 0 <= i < d.len() && d[i] == prev.kept[k];
                assert(entries[i] == d[i]);
            } else {
                assert(entries[entries.len() - 1] == s.kept[k]);
            }
        }
    }
}

/// When no duplicate was met, every entry with a known id has its id kept.
pub proof fn lemma_sift_keeps_known<T: LockEntry>(
    entries: Seq<T>,
    known: Seq<Seq<char>>,
    section: Seq<char>,
    i: int,
)
    requires
        0 <= i < entries.len(),
        known.contains(entries[i].spec_id()),
        sift(entries, known, section).duplicate is None,
    ensures
        has_entry_id(sift(entries, known, section).kept, entries[i].spec_id()),
    decreases entries.len(),
{
    let d = entries.drop_last();
    let prev = sift(d, known, section);
    let s = sift(entries, known, section);
    if i < entries.len() - 1 {
        assert(d[i] == entries[i]);
        lemma_sift_keeps_known(d, known, section, i);
        let k = choose|k: int| 0 <= k < prev.kept.len() && #[trigger] prev.kept[k].spec_id() == d[i].spec_id();
        assert(s.kept[k] == prev.kept[k]);
    } else {
        assert(s.kept[prev.kept.len() as int] == entries.last());
    }
}

/// Without a duplicate, every entry is either kept or warned about.
pub proof fn lemma_sift_accounts_for_every_entry<T: LockEntry>(
    entries: Seq<T>,
    known: Seq<Seq<char>>,
    section: Seq<char>,
)
    requires
        sift(entries, known, section).duplicate is None,
    ensures
        sift(entries, known, section).kept.len() + sift(entries, known, section).warnings.len()
            == entries.len(),
    decreases entries.len(),
{
    if entries.len() > 0 {
        lemma_sift_accounts_for_every_entry(entries.drop_last(), known, section);
    }
}

/// The entry is enabled but has no content.
pub open spec fn misses_content(e: BaseInstructionsEntry) -> bool {
    e.enabled && e.content is None
}

/// Every enabled base instructions entry provides content.
pub open spec fn enabled_entries_have_content(s: Seq<BaseInstructionsEntry>) -> bool {
    forall|i: int| 0 <= i < s.len() && #[trigger] s[i].enabled ==> s[i].content is Some
}

/// `id` is the least id, in the order of texts, of an entry that misses content.
pub open spec fn is_least_missing(s: Seq<BaseInstructionsEntry>, id: Seq<char>) -> bool {
    &&& exists|i: int| 0 <= i < s.len() && #[trigger] misses_content(s[i]) && s[i].id@ == id
    &&& forall|j: int| 0 <= j < s.len() && #[trigger] misses_content(s[j]) ==> !text_lt(s[j].id@, id)
}

/// The least id of an entry that is enabled but has no content, if any: the
/// one a map of the entries keyed by id meets first.
pub open spec fn least_missing_content(s: Seq<BaseInstructionsEntry>) -> Option<Seq<char>> {
    if exists|id: Seq<char>| is_least_missing(s, id) {
        Some(choose|id: Seq<char>| is_least_missing(s, id))
    } else {
        None
    }
}

/// At most one id is the least missing one.
pub proof fn lemma_least_missing_unique(s: Seq<BaseInstructionsEntry>, x: Seq<char>, y: Seq<char>)
    requires
        is_least_missing(s, x),
        is_least_missing(s, y),
    ensures
        x == y,
{
    let i = choose|i: int| 0 <= i < s.len() && #[trigger] misses_content(s[i]) && s[i].id@ == x;
    let j = choose|j: int| 0 <= j < s.len() && #[trigger] misses_content(s[j]) && s[j].id@ == y;
    assert(!text_lt(s[i].id@, y));
    assert(!text_lt(s[j].id@, x));
    lemma_text_lt_total(x, y);
}

/// Checks that every enabled base instructions entry provides content; the
/// error names the least id, in the order of texts, of an entry that does not.
pub fn validate_base_instructions(entries: &Vec<BaseInstructionsEntry>) -> (r: Result<(), LockError>)
    ensures
        match least_missing_content(entries@) {
            None => r is Ok,
            Some(id) => r matches Err(e) && e@ == (LockErrorView::MissingEnabledContent { id }),
        },
        (r is Ok) <==> enabled_entries_have_content(entries@),
{
    let ghost s = entries@;
    let mut best: Option<usize> = None;
    let mut i: usize = 0;
    while i < entries.len()
        invariant
            s == entries@,
            i <= s.len(),
            match best {
                None => forall|j: int| 0 <= j < i ==> !#[trigger] misses_content(s[j]),
                Some(b) => b < i && misses_content(s[b as int]) && forall|j: int|
                    0 <= j < i && #[trigger] misses_content(s[j]) ==> !text_lt(s[j].id@, s[b as int].id@),
            },
        decreases s.len() - i,
    {
        let entry = &entries[i];
        if entry.enabled && entry.content.is_none() {
            match best {
                None => {
                    best = Some(i);
                    proof {
                        lemma_text_lt_irreflexive(s[i as int].id@);
                    }
                },
                Some(b) => {
                    if text_less(entry.id.as_str(), entries[b].id.as_str()) {
                        proof {
                            assert forall|j: int|
                                0 <= j <= i && #[trigger] misses_content(s[j]) implies !text_lt(
                                s[j].id@,
                                s[i as int].id@,
                            ) by {
                                if j == i {
                                    lemma_text_lt_irreflexive(s[i as int].id@);
                                } else if text_lt(s[j].id@, s[i as int].id@) {
                                    lemma_text_lt_transitive(s[j].id@, s[i as int].id@, s[b as int].id@);
                                }
                            }
                        }
                        best = Some(i);
                    }
                },
            }
        }
        i = i + 1;
    }
    match best {
        None => {
            proof {
                assert forall|k: int| 0 <= k < s.len() && #[trigger] s[k].enabled implies s[k].content is Some by {
                    assert(!misses_content(s[k]));
                }
                assert(!exists|id: Seq<char>| is_least_missing(s, id));
            }
            Ok(())
        },
        Some(b) => {
            let mut id: String = String::new();
            id.append(entries[b].id.as_str());
            proof {
                assert(id@ =~= s[b as int].id@);
                assert(misses_content(s[b as int]) && s[b as int].id@ == id@);
                assert(is_least_missing(s, id@));
                let x = choose|x: Seq<char>| is_least_missing(s, x);
                lemma_least_missing_unique(s, x, id@);
            }
            Err(LockError::MissingEnabledContent { id })
        },
    }
}

/// The base instructions ids this build knows.
pub open spec fn known_base_instructions_ids() -> Seq<Seq<char>> {
    seq![BASE_INSTRUCTIONS_MODEL_CATALOG_CURRENT_ID@]
}

/// The prompt fragment ids this build knows.
pub open spec fn known_fragment_ids() -> Seq<Seq<char>> {
    seq![
        "builtin.fragment.permissions_instructions"@,
        "builtin.fragment.collaboration_mode_instructions"@,
        "builtin.fragment.model_switch"@,
        "builtin.fragment.realtime_start"@,
        "builtin.fragment.personality_spec"@,
        "builtin.fragment.apps_instructions"@,
        "builtin.fragment.available_skills_scaffold"@,
        "builtin.fragment.available_plugins_instructions"@,
        "builtin.fragment.environment_context"@,
        "builtin.fragment.multi_agent_usage_hint"@,
    ]
}

/// The tool ids this build knows.
pub open spec fn known_tool_ids() -> Seq<Seq<char>> {
    seq![
        TOOL_EXEC_COMMAND_ID@,
        TOOL_WRITE_STDIN_ID@,
        TOOL_SHELL_ID@,
        TOOL_LOCAL_SHELL_ID@,
        TOOL_APPLY_PATCH_ID@,
        TOOL_UPDATE_PLAN_ID@,
        TOOL_REQUEST_USER_INPUT_ID@,
        TOOL_REQUEST_PERMISSIONS_ID@,
        TOOL_LIST_MCP_RESOURCES_ID@,
        TOOL_LIST_MCP_RESOURCE_TEMPLATES_ID@,
        TOOL_READ_MCP_RESOURCE_ID@,
        TOOL_GET_GOAL_ID@,
        TOOL_CREATE_GOAL_ID@,
        TOOL_UPDATE_GOAL_ID@,
        TOOL_SPAWN_AGENT_ID@,
        TOOL_SEND_INPUT_ID@,
        TOOL_SEND_MESSAGE_ID@,
        TOOL_FOLLOWUP_TASK_ID@,
        TOOL_RESUME_AGENT_ID@,
        TOOL_WAIT_AGENT_ID@,
        TOOL_CLOSE_AGENT_ID@,
        TOOL_LIST_AGENTS_ID@,
        TOOL_SPAWN_AGENTS_ON_CSV_ID@,
        TOOL_REPORT_AGENT_JOB_RESULT_ID@,
        TOOL_VIEW_IMAGE_ID@,
        TOOL_WEB_SEARCH_ID@,
        TOOL_IMAGE_GENERATION_ID@,
    ]
}

/// The template ids this build knows: none yet.
pub open spec fn known_template_ids() -> Seq<Seq<char>> {
    Seq::empty()
}

fn base_instructions_ids() -> (ids: Vec<&'static str>)
    ensures
        str_views(ids@) == known_base_instructions_ids(),
{
    let mut ids: Vec<&'static str> = Vec::new();
    ids.push(BASE_INSTRUCTIONS_MODEL_CATALOG_CURRENT_ID);
    proof {
        assert(str_views(ids@) =~= known_base_instructions_ids());
    }
    ids
}

fn fragment_ids() -> (ids: Vec<&'static str>)
    ensures
        str_views(ids@) == known_fragment_ids(),
{
    let mut ids: Vec<&'static str> = Vec::new();
    ids.push("builtin.fragment.permissions_instructions");
    ids.push("builtin.fragment.collaboration_mode_instructions");
    ids.push("builtin.fragment.model_switch");
    ids.push("builtin.fragment.realtime_start");
    ids.push("builtin.fragment.personality_spec");
    ids.push("builtin.fragment.apps_instructions");
    ids.push("builtin.fragment.available_skills_scaffold");
    ids.push("builtin.fragment.available_plugins_instructions");
    ids.push("builtin.fragment.environment_context");
    ids.push("builtin.fragment.multi_agent_usage_hint");
    proof {
        assert(str_views(ids@) =~= known_fragment_ids());
    }
    ids
}

fn tool_ids() -> (ids: Vec<&'static str>)
    ensures
        str_views(ids@) == known_tool_ids(),
{
    let mut ids: Vec<&'static str> = Vec::new();
    ids.push(TOOL_EXEC_COMMAND_ID);
    ids.push(TOOL_WRITE_STDIN_ID);
    ids.push(TOOL_SHELL_ID);
    ids.push(TOOL_LOCAL_SHELL_ID);
    ids.push(TOOL_APPLY_PATCH_ID);
    ids.push(TOOL_UPDATE_PLAN_ID);
    ids.push(TOOL_REQUEST_USER_INPUT_ID);
    ids.push(TOOL_REQUEST_PERMISSIONS_ID);
    ids.push(TOOL_LIST_MCP_RESOURCES_ID);
    ids.push(TOOL_LIST_MCP_RESOURCE_TEMPLATES_ID);
    ids.push(TOOL_READ_MCP_RESOURCE_ID);
    ids.push(TOOL_GET_GOAL_ID);
    ids.push(TOOL_CREATE_GOAL_ID);
    ids.push(TOOL_UPDATE_GOAL_ID);
    ids.push(TOOL_SPAWN_AGENT_ID);
    ids.push(TOOL_SEND_INPUT_ID);
    ids.push(TOOL_SEND_MESSAGE_ID);
    ids.push(TOOL_FOLLOWUP_TASK_ID);
    ids.push(TOOL_RESUME_AGENT_ID);
    ids.push(TOOL_WAIT_AGENT_ID);
    ids.push(TOOL_CLOSE_AGENT_ID);
    ids.push(TOOL_LIST_AGENTS_ID);
    ids.push(TOOL_SPAWN_AGENTS_ON_CSV_ID);
    ids.push(TOOL_REPORT_AGENT_JOB_RESULT_ID);
    ids.push(TOOL_VIEW_IMAGE_ID);
    ids.push(TOOL_WEB_SEARCH_ID);
    ids.push(TOOL_IMAGE_GENERATION_ID);
    proof {
        assert(str_views(ids@) =~= known_tool_ids());
    }
    ids
}

fn template_ids() -> (ids: Vec<&'static str>)
    ensures
        str_views(ids@) == known_template_ids(),
{
    let ids: Vec<&'static str> = Vec::new();
    proof {
        assert(str_views(ids@) =~= known_template_ids());
    }
    ids
}

/// A lock file as read from disk, before its ids are checked.
pub struct LockFile {
    pub schema_version: u32,
    pub base_instructions: Vec<BaseInstructionsEntry>,
    pub fragments: Vec<FragmentEntry>,
    pub tools: Vec<ToolEntry>,
    pub templates: Vec<TemplateEntry>,
}

/// A checked builtin context lock. Each section holds its known entries in
/// strictly ascending order of id, as a map keyed by id would, so the order
/// of the lock file does not show (`law_section_order_does_not_matter`).
#[derive(Debug, Clone, PartialEq, Eq)]
pub struct BuiltinContextLock {
    pub path: String,
    pub schema_version: u32,
    pub base_instructions: Vec<BaseInstructionsEntry>,
    pub fragments: Vec<FragmentEntry>,
    pub tools: Vec<ToolEntry>,
    pub templates: Vec<TemplateEntry>,
}

/// What the model catalog's base instructions become under a lock.
pub enum BaseInstructionsDecision<'a> {
    /// Use this text as the base instructions.
    UseContent(&'a str),
    /// Send no base instructions.
    Disable,
    /// The lock does not manage the base instructions.
    Unmanaged,
}

/// The mathematical content of a `BaseInstructionsDecision`.
pub enum BaseInstructionsDecisionView {
    UseContent(Seq<char>),
    Disable,
    Unmanaged,
}

impl<'a> View for BaseInstructionsDecision<'a> {
    type V = BaseInstructionsDecisionView;

    open spec fn view(&self) -> BaseInstructionsDecisionView {
        match self {
            BaseInstructionsDecision::UseContent(c) => BaseInstructionsDecisionView::UseContent(c@),
            BaseInstructionsDecision::Disable => BaseInstructionsDecisionView::Disable,
            BaseInstructionsDecision::Unmanaged => BaseInstructionsDecisionView::Unmanaged,
        }
    }
}

/// Whether `e` is the entry of the model catalog's current base instructions.
pub open spec fn is_current_entry(e: BaseInstructionsEntry) -> bool {
    e.id@ == BASE_INSTRUCTIONS_MODEL_CATALOG_CURRENT_ID@
}

/// An enabled entry for the model catalog's current base instructions
/// provides content.
pub open spec fn current_entry_has_content(s: Seq<BaseInstructionsEntry>) -> bool {
    forall|i: int|
        0 <= i < s.len() && #[trigger] is_current_entry(s[i]) && s[i].enabled ==> s[i].content
            is Some
}

/// What a base instructions section decides for the model catalog's current
/// base instructions: unmanaged without an entry for them, disabled when the
/// entry is disabled, and the entry's content otherwise.
pub open spec fn base_instructions_decision_of(s: Seq<BaseInstructionsEntry>) -> BaseInstructionsDecisionView {
    if exists|i: int| 0 <= i < s.len() && #[trigger] is_current_entry(s[i]) {
        let e = s[choose|i: int| 0 <= i < s.len() && #[trigger] is_current_entry(s[i])];
        if !e.enabled {
            BaseInstructionsDecisionView::Disable
        } else {
            match e.content {
                Some(c) => BaseInstructionsDecisionView::UseContent(c@),
                None => BaseInstructionsDecisionView::Disable,
            }
        }
    } else {
        BaseInstructionsDecisionView::Unmanaged
    }
}

/// The decision depends on the current base instructions entry alone:
/// two sections with distinct ids that hold the same entries for the model
/// catalog's current id (whatever other ids they add or leave out) decide
/// alike.
pub proof fn law_decision_ignores_other_ids(a: Seq<BaseInstructionsEntry>, b: Seq<BaseInstructionsEntry>)
    requires
        distinct_ids(a),
        distinct_ids(b),
        forall|e: BaseInstructionsEntry|
            is_current_entry(e) ==> (a.contains(e) <==> #[trigger] b.contains(e)),
    ensures
        base_instructions_decision_of(a) == base_instructions_decision_of(b),
{
    if exists|i: int| 0 <= i < a.len() && #[trigger] is_current_entry(a[i]) {
        let i = choose|i: int| 0 <= i < a.len() && #[trigger] is_current_entry(a[i]);
        assert(a.contains(a[i]));
        assert(b.contains(a[i]));
        let j = choose|j: int| 0 <= j < b.len() && #[trigger] is_current_entry(b[j]);
        assert(is_current_entry(b[j]));
        assert(b.contains(b[j]));
        assert(a.contains(b[j]));
        let k = choose|k: int| 0 <= k < a.len() && a[k] == b[j];
        if k != i {
            assert(a[k].spec_id() != a[i].spec_id());
        }
    } else if exists|j: int| 0 <= j < b.len() && #[trigger] is_current_entry(b[j]) {
        let j = choose|j: int| 0 <= j < b.len() && #[trigger] is_current_entry(b[j]);
        assert(b.contains(b[j]));
        assert(a.contains(b[j]));
        let k = choose|k: int| 0 <= k < a.len() && a[k] == b[j];
        assert(is_current_entry(a[k]));
    }
}

/// Sifting the lock file's base instructions.
pub open spec fn sift_base(lf: LockFile) -> Sifted<BaseInstructionsEntry> {
    sift(lf.base_instructions@, known_base_instructions_ids(), "base_instructions"@)
}

/// Sifting the lock file's fragments.
pub open spec fn sift_fragments(lf: LockFile) -> Sifted<FragmentEntry> {
    sift(lf.fragments@, known_fragment_ids(), "fragments"@)
}

/// Sifting the lock file's tools.
pub open spec fn sift_tools(lf: LockFile) -> Sifted<ToolEntry> {
    sift(lf.tools@, known_tool_ids(), "tools"@)
}

/// Sifting the lock file's templates.
pub open spec fn sift_templates(lf: LockFile) -> Sifted<TemplateEntry> {
    sift(lf.templates@, known_template_ids(), "templates"@)
}

/// The warnings that reading `lf` records, section after section, up to the
/// first error.
pub open spec fn lock_file_warnings(lf: LockFile) -> Seq<Seq<char>> {
    let b = sift_base(lf);
    let f = sift_fragments(lf);
    let t = sift_tools(lf);
    let m = sift_templates(lf);
    if lf.schema_version != SCHEMA_VERSION {
        Seq::empty()
    } else if b.duplicate is Some || least_missing_content(b.kept) is Some {
        b.warnings
    } else if f.duplicate is Some {
        b.warnings + f.warnings
    } else if t.duplicate is Some {
        b.warnings + f.warnings + t.warnings
    } else {
        b.warnings + f.warnings + t.warnings + m.warnings
    }
}

/// The error that reading `lf` gives, if any: checks run in the order schema
/// version, base instructions, their content, fragments, tools, templates.
pub open spec fn lock_file_error(lf: LockFile) -> Option<LockErrorView> {
    let b = sift_base(lf);
    let f = sift_fragments(lf);
    let t = sift_tools(lf);
    let m = sift_templates(lf);
    if lf.schema_version != SCHEMA_VERSION {
        Some(LockErrorView::UnsupportedSchemaVersion { found: lf.schema_version })
    } else if b.duplicate is Some {
        Some(LockErrorView::DuplicateId { section: "base_instructions"@, id: b.duplicate->0 })
    } else if least_missing_content(b.kept) is Some {
        Some(LockErrorView::MissingEnabledContent { id: least_missing_content(b.kept)->0 })
    } else if f.duplicate is Some {
        Some(LockErrorView::DuplicateId { section: "fragments"@, id: f.duplicate->0 })
    } else if t.duplicate is Some {
        Some(LockErrorView::DuplicateId { section: "tools"@, id: t.duplicate->0 })
    } else if m.duplicate is Some {
        Some(LockErrorView::DuplicateId { section: "templates"@, id: m.duplicate->0 })
    } else {
        None
    }
}

impl BuiltinContextLock {
    /// Each section holds only known ids, in strictly ascending order (so
    /// each at most once), and every enabled base instructions entry provides
    /// content.
    pub open spec fn wf(&self) -> bool {
        &&& sorted_by_id(self.base_instructions@)
        &&& sorted_by_id(self.fragments@)
        &&& sorted_by_id(self.tools@)
        &&& sorted_by_id(self.templates@)
        &&& distinct_ids(self.base_instructions@)
        &&& all_known(self.base_instructions@, known_base_instructions_ids())
        &&& enabled_entries_have_content(self.base_instructions@)
        &&& distinct_ids(self.fragments@)
        &&& all_known(self.fragments@, known_fragment_ids())
        &&& distinct_ids(self.tools@)
        &&& all_known(self.tools@, known_tool_ids())
        &&& distinct_ids(self.templates@)
        &&& all_known(self.templates@, known_template_ids())
    }

    /// Checks a parsed lock file and keeps its known entries, each section
    /// ordered by id. Unknown ids add a warning each to `startup_warnings`.
    pub fn from_lock_file(path: String, lock_file: LockFile, startup_warnings: &mut Vec<String>) -> (r:
        Result<Self, LockError>)
        ensures
            string_views(final(startup_warnings)@) == string_views(old(startup_warnings)@)
                + lock_file_warnings(lock_file),
            match r {
                Ok(lock) => {
                    &&& lock_file_error(lock_file) is None
                    &&& lock.path == path
                    &&& lock.schema_version == lock_file.schema_version
                    &&& lock.base_instructions@ == sort_by_id(sift_base(lock_file).kept)
                    &&& lock.fragments@ == sort_by_id(sift_fragments(lock_file).kept)
                    &&& lock.tools@ == sort_by_id(sift_tools(lock_file).kept)
                    &&& lock.templates@ == sort_by_id(sift_templates(lock_file).kept)
                    &&& lock.wf()
                },
                Err(e) => lock_file_error(lock_file) == Some(e@),
            },
    {
        let ghost lf = lock_file;
        if lock_file.schema_version != SCHEMA_VERSION {
            proof {
                assert(string_views(startup_warnings@) =~= string_views(old(startup_warnings)@)
                    + lock_file_warnings(lf));
            }
            return Err(LockError::UnsupportedSchemaVersion { found: lock_file.schema_version });
        }
        let LockFile { schema_version, base_instructions, fragments, tools, templates } = lock_file;
        proof {
            lemma_sorted_sift_wf(lf.base_instructions@, known_base_instructions_ids(), "base_instructions"@);
            lemma_sorted_sift_wf(lf.fragments@, known_fragment_ids(), "fragments"@);
            lemma_sorted_sift_wf(lf.tools@, known_tool_ids(), "tools"@);
            lemma_sorted_sift_wf(lf.templates@, known_template_ids(), "templates"@);
            lemma_sort_by_id_contains(sift_base(lf).kept);
            lemma_least_missing_same_entries(sort_by_id(sift_base(lf).kept), sift_base(lf).kept);
        }
        let ghost w0 = string_views(startup_warnings@);
        let base_known = base_instructions_ids();
        let base_instructions = match known_entries(
            "base_instructions",
            base_instructions,
            base_known.as_slice(),
            startup_warnings,
        ) {
            Ok(kept) => kept,
            Err(e) => {
                return Err(e);
            },
        };
        let ghost w1 = string_views(startup_warnings@);
        match validate_base_instructions(&base_instructions) {
            Ok(()) => {},
            Err(e) => {
                return Err(e);
            },
        }
        let fragment_known = fragment_ids();
        let fragments = match known_entries("fragments", fragments, fragment_known.as_slice(), startup_warnings) {
            Ok(kept) => kept,
            Err(e) => {
                proof {
                    assert(string_views(startup_warnings@) =~= w0 + lock_file_warnings(lf));
                }
                return Err(e);
            },
        };
        let ghost w2 = string_views(startup_warnings@);
        let tool_known = tool_ids();
        let tools = match known_entries("tools", tools, tool_known.as_slice(), startup_warnings) {
            Ok(kept) => kept,
            Err(e) => {
                proof {
                    assert(string_views(startup_warnings@) =~= w0 + lock_file_warnings(lf));
                }
                return Err(e);
            },
        };
        let template_known = template_ids();
        let templates = match known_entries("templates", templates, template_known.as_slice(), startup_warnings) {
            Ok(kept) => kept,
            Err(e) => {
                proof {
                    assert(string_views(startup_warnings@) =~= w0 + lock_file_warnings(lf));
                }
                return Err(e);
            },
        };
        proof {
            assert(string_views(startup_warnings@) =~= w0 + lock_file_warnings(lf));
        }
        Ok(BuiltinContextLock { path, schema_version, base_instructions, fragments, tools, templates })
    }

    /// What the lock says of the model catalog's current base instructions:
    /// unmanaged when the lock has no entry for them, disabled when the entry
    /// is disabled, and the entry's content otherwise.
    pub fn model_catalog_base_instructions_decision(&self) -> (d: BaseInstructionsDecision<'_>)
        requires
            distinct_ids(self.base_instructions@),
            current_entry_has_content(self.base_instructions@),
        ensures
            d@ == base_instructions_decision_of(self.base_instructions@),
            !has_entry_id(self.base_instructions@, BASE_INSTRUCTIONS_MODEL_CATALOG_CURRENT_ID@)
                ==> d is Unmanaged,
            forall|i: int|
                0 <= i < self.base_instructions@.len()
                    && #[trigger] self.base_instructions@[i].id@
                    == BASE_INSTRUCTIONS_MODEL_CATALOG_CURRENT_ID@ ==> match d {
                    BaseInstructionsDecision::UseContent(c) => self.base_instructions@[i].enabled
                        && (self.base_instructions@[i].content matches Some(content) && c@
                        == content@),
                    BaseInstructionsDecision::Disable => !self.base_instructions@[i].enabled,
                    BaseInstructionsDecision::Unmanaged => false,
                },
    {
        let mut i: usize = 0;
        while i < self.base_instructions.len()
            invariant
                distinct_ids(self.base_instructions@),
                current_entry_has_content(self.base_instructions@),
                i <= self.base_instructions@.len(),
                forall|j: int|
                    0 <= j < i ==> self.base_instructions@[j].id@
                        != BASE_INSTRUCTIONS_MODEL_CATALOG_CURRENT_ID@,
            decreases self.base_instructions@.len() - i,
        {
            let entry = &self.base_instructions[i];
            if same_text(entry.id.as_str(), BASE_INSTRUCTIONS_MODEL_CATALOG_CURRENT_ID) {
                proof {
                    let s = self.base_instructions@;
                    assert(s[i as int].spec_id() == BASE_INSTRUCTIONS_MODEL_CATALOG_CURRENT_ID@);
                    assert forall|j: int|
                        0 <= j < s.len() && #[trigger] s[j].id@
                            == BASE_INSTRUCTIONS_MODEL_CATALOG_CURRENT_ID@ implies j == i by {
                        if j != i {
                            assert(s[i as int].spec_id() != s[j].spec_id());
                        }
                    }
                    assert(is_current_entry(s[i as int]));
                    let k = choose|k: int| 0 <= k < s.len() && #[trigger] is_current_entry(s[k]);
                    assert(s[k].id@ == BASE_INSTRUCTIONS_MODEL_CATALOG_CURRENT_ID@);
                }
                if !entry.enabled {
                    return BaseInstructionsDecision::Disable;
                }
                return match &entry.content {
                    Some(content) => BaseInstructionsDecision::UseContent(content.as_str()),
                    None => BaseInstructionsDecision::Disable,
                };
            }
            i = i + 1;
        }
        proof {
            let s = self.base_instructions@;
            if exists|k: int| 0 <= k < s.len() && #[trigger] is_current_entry(s[k]) {
                let k = choose|k: int| 0 <= k < s.len() && #[trigger] is_current_entry(s[k]);
                assert(s[k].id@ != BASE_INSTRUCTIONS_MODEL_CATALOG_CURRENT_ID@);
            }
        }
        BaseInstructionsDecision::Unmanaged
    }
}

/// The text of a lock error.
pub open spec fn lock_error_message(e: LockErrorView) -> Seq<char> {
    match e {
        LockErrorView::UnsupportedSchemaVersion { found } => "unsupported builtin context lock schema_version "@
            + decimal_text(found as nat) + "; supported version is "@ + decimal_text(
            SCHEMA_VERSION as nat,
        ),
        LockErrorView::DuplicateId { section, id } => "duplicate builtin context lock id `"@ + id
            + "` in `"@ + section + "`"@,
        LockErrorView::MissingEnabledContent { id } => "builtin context lock id `"@ + id
            + "` in `base_instructions` must provide `content` when enabled"@,
    }
}

impl LockError {
    /// The error's text, as shown to the user.
    pub fn message(&self) -> (m: String)
        ensures
            m@ == lock_error_message(self@),
    {
        match self {
            LockError::UnsupportedSchemaVersion { found } => {
                let mut m: String = "unsupported builtin context lock schema_version ".to_owned();
                append_decimal(&mut m, *found);
                m.append("; supported version is ");
                append_decimal(&mut m, SCHEMA_VERSION);
                m
            },
            LockError::DuplicateId { section, id } => {
                let mut m: String = "duplicate builtin context lock id `".to_owned();
                m.append(id.as_str());
                m.append("` in `");
                m.append(section.as_str());
                m.append("`");
                m
            },
            LockError::MissingEnabledContent { id } => {
                let mut m: String = "builtin context lock id `".to_owned();
                m.append(id.as_str());
                m.append("` in `base_instructions` must provide `content` when enabled");
                m
            },
        }
    }
}

/// No known id occurs at two positions of the section.
pub open spec fn no_repeated_known_id<T: LockEntry>(s: Seq<T>, known: Seq<Seq<char>>) -> bool {
    forall|i: int, j: int|
        0 <= i < j < s.len() && known.contains(s[j].spec_id()) ==> #[trigger] s[i].spec_id()
            != #[trigger] s[j].spec_id()
}

/// A lock file of the supported schema version in which no known id repeats
/// within a section, and whose enabled base instructions all carry content,
/// is always read: unknown ids, repeated or not, only ever warn.
pub proof fn law_lock_file_without_repeats_is_read(lf: LockFile)
    requires
        lf.schema_version == SCHEMA_VERSION,
        no_repeated_known_id(lf.base_instructions@, known_base_instructions_ids()),
        no_repeated_known_id(lf.fragments@, known_fragment_ids()),
        no_repeated_known_id(lf.tools@, known_tool_ids()),
        no_repeated_known_id(lf.templates@, known_template_ids()),
        enabled_entries_have_content(lf.base_instructions@),
    ensures
        lock_file_error(lf) is None,
{
    lemma_sift_duplicate_iff(lf.base_instructions@, known_base_instructions_ids(), "base_instructions"@);
    lemma_sift_duplicate_iff(lf.fragments@, known_fragment_ids(), "fragments"@);
    lemma_sift_duplicate_iff(lf.tools@, known_tool_ids(), "tools"@);
    lemma_sift_duplicate_iff(lf.templates@, known_template_ids(), "templates"@);
    lemma_sift_kept_members(lf.base_instructions@, known_base_instructions_ids(), "base_instructions"@);
    let kept = sift_base(lf).kept;
    assert forall|k: int| 0 <= k < kept.len() && #[trigger] kept[k].enabled implies kept[k].content is Some by {
        let i = choose|i: int|
            0 <= i < lf.base_instructions@.len() && lf.base_instructions@[i] == kept[k];
        assert(lf.base_instructions@[i].enabled);
    }
    assert(!exists|id: Seq<char>| is_least_missing(kept, id)) by {
        if exists|id: Seq<char>| is_least_missing(kept, id) {
            let id = choose|id: Seq<char>| is_least_missing(kept, id);
            let i = choose|i: int| 0 <= i < kept.len() && #[trigger] misses_content(kept[i]) && kept[i].id@ == id;
            assert(kept[i].enabled);
        }
    }
}

/// Reading keeps every known entry as it stands in the file: when a section
/// is read without error, each of its entries whose id is known is, unchanged,
/// an entry of the read section.
pub proof fn law_read_keeps_known_entries<T: LockEntry>(
    entries: Seq<T>,
    known: Seq<Seq<char>>,
    section: Seq<char>,
    i: int,
)
    requires
        0 <= i < entries.len(),
        known.contains(entries[i].spec_id()),
        sift(entries, known, section).duplicate is None,
    ensures
        exists|k: int|
            0 <= k < sift(entries, known, section).kept.len() && #[trigger] sift(
                entries,
                known,
                section,
            ).kept[k] == entries[i],
{
    let kept = sift(entries, known, section).kept;
    lemma_sift_keeps_known(entries, known, section, i);
    lemma_sift_kept_members(entries, known, section);
    lemma_sift_duplicate_iff(entries, known, section);
    let k = choose|k: int| 0 <= k < kept.len() && #[trigger] kept[k].spec_id() == entries[i].spec_id();
    let j = choose|j: int| 0 <= j < entries.len() && entries[j] == kept[k];
    if j < i {
        assert(entries[j].spec_id() == entries[i].spec_id());
        assert(false);
    } else if i < j {
        assert(known.contains(entries[j].spec_id()));
        assert(entries[i].spec_id() == entries[j].spec_id());
        assert(false);
    }
    assert(kept[k] == entries[i]);
}

/// `b` holds the entries of `a` rearranged: `f` takes each position of `b` to
/// the position of `a` that holds the same entry, and `g` takes it back.
pub open spec fn rearranged<T>(
    a: Seq<T>,
    b: Seq<T>,
    f: spec_fn(int) -> int,
    g: spec_fn(int) -> int,
) -> bool {
    &&& a.len() == b.len()
    &&& forall|i: int|
        0 <= i < b.len() ==> 0 <= #[trigger] f(i) < a.len() && b[i] == a[f(i)] && g(f(i)) == i
    &&& forall|j: int|
        0 <= j < a.len() ==> 0 <= #[trigger] g(j) < b.len() && a[j] == b[g(j)] && f(g(j)) == j
}

/// A section as a map from id to entry (meaningful when ids are distinct).
pub open spec fn section_map<T: LockEntry>(s: Seq<T>) -> Map<Seq<char>, T> {
    Map::new(
        |k: Seq<char>| has_entry_id(s, k),
        |k: Seq<char>| s[choose|i: int| 0 <= i < s.len() && #[trigger] s[i].spec_id() == k],
    )
}

/// Without a duplicate, the kept entries are exactly the section's entries
/// with a known id.
pub proof fn lemma_sift_kept_contains<T: LockEntry>(
    entries: Seq<T>,
    known: Seq<Seq<char>>,
    section: Seq<char>,
    e: T,
)
    requires
        sift(entries, known, section).duplicate is None,
    ensures
        sift(entries, known, section).kept.contains(e) <==> (entries.contains(e) && known.contains(
            e.spec_id(),
        )),
{
    let kept = sift(entries, known, section).kept;
    lemma_sift_kept_wf(entries, known, section);
    lemma_sift_kept_members(entries, known, section);
    if kept.contains(e) {
        let k = choose|k: int| 0 <= k < kept.len() && kept[k] == e;
        let i = choose|i: int| 0 <= i < entries.len() && entries[i] == kept[k];
        assert(entries[i] == e);
        assert(known.contains(kept[k].spec_id()));
    }
    if entries.contains(e) && known.contains(e.spec_id()) {
        let i = choose|i: int| 0 <= i < entries.len() && entries[i] == e;
        law_read_keeps_known_entries(entries, known, section, i);
        let k = choose|k: int| 0 <= k < kept.len() && #[trigger] kept[k] == entries[i];
        assert(kept[k] == e);
    }
}

proof fn lemma_duplicate_carries_over<T: LockEntry>(
    a: Seq<T>,
    b: Seq<T>,
    f: spec_fn(int) -> int,
    g: spec_fn(int) -> int,
    known: Seq<Seq<char>>,
    section: Seq<char>,
)
    requires
        rearranged(a, b, f, g),
        sift(a, known, section).duplicate is Some,
    ensures
        sift(b, known, section).duplicate is Some,
{
    lemma_sift_duplicate_iff(a, known, section);
    lemma_sift_duplicate_iff(b, known, section);
    let (i, j) = choose|i: int, j: int|
        0 <= i < j < a.len() && known.contains(a[j].spec_id()) && #[trigger] a[i].spec_id()
            == #[trigger] a[j].spec_id();
    let x = g(i);
    let y = g(j);
    assert(f(x) == i && f(y) == j);
    assert(b[x] == a[i] && b[y] == a[j]);
    if x < y {
        assert(0 <= x < y < b.len() && known.contains(b[y].spec_id()) && b[x].spec_id()
            == b[y].spec_id());
    } else {
        assert(0 <= y < x < b.len() && known.contains(b[x].spec_id()) && b[y].spec_id()
            == b[x].spec_id());
    }
}

/// The order of a section's entries does not matter: rearranging them
/// changes neither whether the section is read nor what is read, whether
/// taken as a map from id to entry or as the section ordered by id.
pub proof fn law_section_order_does_not_matter<T: LockEntry>(
    a: Seq<T>,
    b: Seq<T>,
    f: spec_fn(int) -> int,
    g: spec_fn(int) -> int,
    known: Seq<Seq<char>>,
    section: Seq<char>,
)
    requires
        rearranged(a, b, f, g),
    ensures
        (sift(a, known, section).duplicate is Some) == (sift(b, known, section).duplicate is Some),
        sift(a, known, section).duplicate is None ==> section_map(sift(a, known, section).kept)
            == section_map(sift(b, known, section).kept),
        sift(a, known, section).duplicate is None ==> sort_by_id(sift(a, known, section).kept)
            == sort_by_id(sift(b, known, section).kept),
{
    assert(rearranged(b, a, g, f));
    if sift(a, known, section).duplicate is Some {
        lemma_duplicate_carries_over(a, b, f, g, known, section);
    }
    if sift(b, known, section).duplicate is Some {
        lemma_duplicate_carries_over(b, a, g, f, known, section);
    }
    if sift(a, known, section).duplicate is None {
        let ka = sift(a, known, section).kept;
        let kb = sift(b, known, section).kept;
        lemma_sift_kept_wf(a, known, section);
        lemma_sift_kept_wf(b, known, section);
        assert forall|e: T| ka.contains(e) <==> kb.contains(e) by {
            lemma_sift_kept_contains(a, known, section, e);
            lemma_sift_kept_contains(b, known, section, e);
            if a.contains(e) {
                let j = choose|j: int| 0 <= j < a.len() && a[j] == e;
                assert(b[g(j)] == e);
            }
            if b.contains(e) {
                let i = choose|i: int| 0 <= i < b.len() && b[i] == e;
                assert(a[f(i)] == e);
            }
        }
        assert forall|k: Seq<char>| has_entry_id(ka, k) <==> has_entry_id(kb, k) by {
            if has_entry_id(ka, k) {
                let i = choose|i: int| 0 <= i < ka.len() && #[trigger] ka[i].spec_id() == k;
                assert(ka.contains(ka[i]));
                let j = choose|j: int| 0 <= j < kb.len() && kb[j] == ka[i];
                assert(kb[j].spec_id() == k);
            }
            if has_entry_id(kb, k) {
                let i = choose|i: int| 0 <= i < kb.len() && #[trigger] kb[i].spec_id() == k;
                assert(kb.contains(kb[i]));
                let j = choose|j: int| 0 <= j < ka.len() && ka[j] == kb[i];
                assert(ka[j].spec_id() == k);
            }
        }
        assert forall|k: Seq<char>| #[trigger] section_map(ka).contains_key(k) implies section_map(ka)[k]
            == section_map(kb)[k] by {
            let i = choose|i: int| 0 <= i < ka.len() && #[trigger] ka[i].spec_id() == k;
            let j = choose|j: int| 0 <= j < kb.len() && #[trigger] kb[j].spec_id() == k;
            assert(ka.contains(ka[i]));
            let m = choose|m: int| 0 <= m < kb.len() && kb[m] == ka[i];
            if m != j {
                assert(kb[m].spec_id() != kb[j].spec_id());
            }
        }
        assert(section_map(ka) =~= section_map(kb));
        lemma_sorted_sift_wf(a, known, section);
        lemma_sorted_sift_wf(b, known, section);
        lemma_sort_by_id_contains(ka);
        lemma_sort_by_id_contains(kb);
        assert forall|e: T| #[trigger] sort_by_id(ka).contains(e) <==> sort_by_id(kb).contains(e) by {
            assert(ka.contains(e) <==> kb.contains(e));
        }
        lemma_sorted_unique(sort_by_id(ka), sort_by_id(kb));
    }
}

/// Entries in strictly ascending order of id, as a map keyed by id holds them.
pub open spec fn sorted_by_id<T: LockEntry>(s: Seq<T>) -> bool {
    forall|i: int, j: int|
        0 <= i < j < s.len() ==> text_lt(#[trigger] s[i].spec_id(), #[trigger] s[j].spec_id())
}

/// `e` put into `s` before the first entry whose id comes after its own.
pub open spec fn insert_by_id<T: LockEntry>(s: Seq<T>, e: T) -> Seq<T>
    decreases s.len(),
{
    if s.len() == 0 {
        seq![e]
    } else if text_lt(e.spec_id(), s[0].spec_id()) {
        seq![e] + s
    } else {
        seq![s[0]] + insert_by_id(s.drop_first(), e)
    }
}

/// The entries of `s` ordered by id, each put in its place in turn.
pub open spec fn sort_by_id<T: LockEntry>(s: Seq<T>) -> Seq<T>
    decreases s.len(),
{
    if s.len() == 0 {
        Seq::empty()
    } else {
        insert_by_id(sort_by_id(s.drop_last()), s.last())
    }
}

/// Inserting adds exactly the one entry.
pub proof fn lemma_insert_by_id_contains<T: LockEntry>(s: Seq<T>, e: T)
    ensures
        insert_by_id(s, e).len() == s.len() + 1,
        forall|x: T| #[trigger] insert_by_id(s, e).contains(x) <==> (s.contains(x) || x == e),
    decreases s.len(),
{
    let r = insert_by_id(s, e);
    if s.len() == 0 {
        assert forall|x: T| #[trigger] r.contains(x) <==> (s.contains(x) || x == e) by {
            if r.contains(x) {
                let k = choose|k: int| 0 <= k < r.len() && r[k] == x;
            }
            if x == e {
                assert(r[0] == e);
            }
        }
    } else if text_lt(e.spec_id(), s[0].spec_id()) {
        assert forall|x: T| #[trigger] r.contains(x) <==> (s.contains(x) || x == e) by {
            if r.contains(x) {
                let k = choose|k: int| 0 <= k < r.len() && r[k] == x;
                if k > 0 {
                    assert(s[k - 1] == x);
                }
            }
            if s.contains(x) {
                let k = choose|k: int| 0 <= k < s.len() && s[k] == x;
                assert(r[k + 1] == x);
            }
            if x == e {
                assert(r[0] == e);
            }
        }
    } else {
        let rest = s.drop_first();
        lemma_insert_by_id_contains(rest, e);
        let t = insert_by_id(rest, e);
        assert forall|x: T| #[trigger] r.contains(x) <==> (s.contains(x) || x == e) by {
            if r.contains(x) {
                let k = choose|k: int| 0 <= k < r.len() && r[k] == x;
                if k > 0 {
                    assert(t[k - 1] == x);
                    assert(t.contains(x));
                    if rest.contains(x) {
                        let m = choose|m: int| 0 <= m < rest.len() && rest[m] == x;
                        assert(s[m + 1] == x);
                    }
                } else {
                    assert(s[0] == x);
                }
            }
            if s.contains(x) {
                let k = choose|k: int| 0 <= k < s.len() && s[k] == x;
                if k == 0 {
                    assert(r[0] == x);
                } else {
                    assert(rest[k - 1] == x);
                    assert(t.contains(x));
                    let m = choose|m: int| 0 <= m < t.len() && t[m] == x;
                    assert(r[m + 1] == x);
                }
            }
            if x == e {
                assert(t.contains(e));
                let m = choose|m: int| 0 <= m < t.len() && t[m] == e;
                assert(r[m + 1] == e);
            }
        }
    }
}

/// Inserting an entry with a new id into a sorted section keeps it sorted.
pub proof fn lemma_insert_by_id_sorted<T: LockEntry>(s: Seq<T>, e: T)
    requires
        sorted_by_id(s),
        !has_entry_id(s, e.spec_id()),
    ensures
        sorted_by_id(insert_by_id(s, e)),
    decreases s.len(),
{
    let r = insert_by_id(s, e);
    if s.len() == 0 {
    } else if text_lt(e.spec_id(), s[0].spec_id()) {
        assert forall|i: int, j: int| 0 <= i < j < r.len() implies text_lt(
            #[trigger] r[i].spec_id(),
            #[trigger] r[j].spec_id(),
        ) by {
            if i == 0 {
                if j > 1 {
                    assert(text_lt(s[0].spec_id(), s[j - 1].spec_id()));
                    lemma_text_lt_transitive(e.spec_id(), s[0].spec_id(), s[j - 1].spec_id());
                }
            } else {
                assert(r[i] == s[i - 1] && r[j] == s[j - 1]);
            }
        }
    } else {
        let rest = s.drop_first();
        assert forall|i: int, j: int| 0 <= i < j < rest.len() implies text_lt(
            #[trigger] rest[i].spec_id(),
            #[trigger] rest[j].spec_id(),
        ) by {
            assert(rest[i] == s[i + 1] && rest[j] == s[j + 1]);
        }
        assert(!has_entry_id(rest, e.spec_id())) by {
            if has_entry_id(rest, e.spec_id()) {
                let k = choose|k: int| 0 <= k < rest.len() && #[trigger] rest[k].spec_id() == e.spec_id();
                assert(s[k + 1].spec_id() == e.spec_id());
            }
        }
        lemma_insert_by_id_sorted(rest, e);
        lemma_insert_by_id_contains(rest, e);
        let t = insert_by_id(rest, e);
        assert(s[0].spec_id() != e.spec_id());
        lemma_text_lt_total(s[0].spec_id(), e.spec_id());
        assert forall|i: int, j: int| 0 <= i < j < r.len() implies text_lt(
            #[trigger] r[i].spec_id(),
            #[trigger] r[j].spec_id(),
        ) by {
            if i == 0 {
                let x = t[j - 1];
                assert(r[j] == x);
                assert(t.contains(x));
                if rest.contains(x) {
                    let m = choose|m: int| 0 <= m < rest.len() && rest[m] == x;
                    assert(s[m + 1] == x);
                    assert(text_lt(s[0].spec_id(), s[m + 1].spec_id()));
                }
            } else {
                assert(r[i] == t[i - 1] && r[j] == t[j - 1]);
            }
        }
    }
}

/// Inserting at the first entry whose id comes after `e`'s is `insert_by_id`.
pub proof fn lemma_insert_by_id_at<T: LockEntry>(s: Seq<T>, e: T, p: int)
    requires
        0 <= p <= s.len(),
        forall|j: int| 0 <= j < p ==> !text_lt(e.spec_id(), #[trigger] s[j].spec_id()),
        p < s.len() ==> text_lt(e.spec_id(), s[p].spec_id()),
    ensures
        insert_by_id(s, e) == s.insert(p, e),
    decreases p,
{
    if p == 0 {
        assert(insert_by_id(s, e) =~= s.insert(p, e));
    } else {
        let rest = s.drop_first();
        assert forall|j: int| 0 <= j < p - 1 implies !text_lt(e.spec_id(), #[trigger] rest[j].spec_id()) by {
            assert(rest[j] == s[j + 1]);
        }
        if p - 1 < rest.len() {
            assert(rest[p - 1] == s[p]);
        }
        assert(!text_lt(e.spec_id(), s[0].spec_id()));
        lemma_insert_by_id_at(rest, e, p - 1);
        assert(insert_by_id(s, e) =~= s.insert(p, e));
    }
}

/// Puts `e` into the sorted vector `v` at its place by id.
fn insert_in_id_order<T: LockEntry>(v: &mut Vec<T>, e: T)
    ensures
        final(v)@ == insert_by_id(old(v)@, e),
{
    let mut p: usize = 0;
    while p < v.len() && !text_less(e.id(), v[p].id())
        invariant
            p <= v@.len(),
            v@ == old(v)@,
            forall|j: int| 0 <= j < p ==> !text_lt(e.spec_id(), #[trigger] v@[j].spec_id()),
        decreases v@.len() - p,
    {
        p = p + 1;
    }
    proof {
        lemma_insert_by_id_at(v@, e, p as int);
    }
    v.insert(p, e);
}

/// Sorting keeps exactly the entries of the section.
pub proof fn lemma_sort_by_id_contains<T: LockEntry>(s: Seq<T>)
    ensures
        sort_by_id(s).len() == s.len(),
        forall|x: T| #[trigger] sort_by_id(s).contains(x) <==> s.contains(x),
    decreases s.len(),
{
    if s.len() > 0 {
        let d = s.drop_last();
        lemma_sort_by_id_contains(d);
        lemma_insert_by_id_contains(sort_by_id(d), s.last());
        assert forall|x: T| #[trigger] sort_by_id(s).contains(x) <==> s.contains(x) by {
            if d.contains(x) {
                let k = choose|k: int| 0 <= k < d.len() && d[k] == x;
                assert(s[k] == x);
            }
            if s.contains(x) {
                let k = choose|k: int| 0 <= k < s.len() && s[k] == x;
                if k < d.len() {
                    assert(d[k] == x);
                } else {
                    assert(x == s.last());
                }
            }
            if x == s.last() {
                assert(s[s.len() - 1] == x);
            }
        }
    }
}

/// A section whose ids are distinct sorts into strictly ascending id order.
pub proof fn lemma_sort_by_id_sorted<T: LockEntry>(s: Seq<T>)
    requires
        distinct_ids(s),
    ensures
        sorted_by_id(sort_by_id(s)),
    decreases s.len(),
{
    if s.len() > 0 {
        let d = s.drop_last();
        assert forall|i: int, j: int|
            0 <= i < d.len() && 0 <= j < d.len() && i != j implies #[trigger] d[i].spec_id()
                != #[trigger] d[j].spec_id() by {
            assert(d[i] == s[i] && d[j] == s[j]);
        }
        lemma_sort_by_id_sorted(d);
        lemma_sort_by_id_contains(d);
        let sd = sort_by_id(d);
        assert(!has_entry_id(sd, s.last().spec_id())) by {
            if has_entry_id(sd, s.last().spec_id()) {
                let k = choose|k: int| 0 <= k < sd.len() && #[trigger] sd[k].spec_id() == s.last().spec_id();
                assert(sd.contains(sd[k]));
                let m = choose|m: int| 0 <= m < d.len() && d[m] == sd[k];
                assert(s[m].spec_id() != s[s.len() - 1].spec_id());
            }
        }
        lemma_insert_by_id_sorted(sd, s.last());
    }
}

/// Strictly sorted sections with the same entries are the same section.
pub proof fn lemma_sorted_unique<T: LockEntry>(a: Seq<T>, b: Seq<T>)
    requires
        sorted_by_id(a),
        sorted_by_id(b),
        forall|x: T| #[trigger] a.contains(x) <==> b.contains(x),
    ensures
        a == b,
    decreases a.len(),
{
    if a.len() == 0 {
        if b.len() > 0 {
            assert(b.contains(b[0]));
            assert(a.contains(b[0]));
        }
        assert(a =~= b);
    } else if b.len() == 0 {
        assert(a.contains(a[0]));
        assert(b.contains(a[0]));
    } else {
        assert(a.contains(a[0]));
        assert(b.contains(a[0]));
        assert(b.contains(b[0]));
        assert(a.contains(b[0]));
        let k = choose|k: int| 0 <= k < b.len() && b[k] == a[0];
        let m = choose|m: int| 0 <= m < a.len() && a[m] == b[0];
        if k > 0 && m > 0 {
            assert(text_lt(b[0].spec_id(), b[k].spec_id()));
            assert(text_lt(a[0].spec_id(), a[m].spec_id()));
            lemma_text_lt_asymmetric(a[0].spec_id(), b[0].spec_id());
        } else if k > 0 {
            assert(text_lt(b[0].spec_id(), b[k].spec_id()));
            lemma_text_lt_irreflexive(a[0].spec_id());
        } else if m > 0 {
            assert(text_lt(a[0].spec_id(), a[m].spec_id()));
            lemma_text_lt_irreflexive(a[0].spec_id());
        }
        assert(a[0] == b[0]);
        let ra = a.drop_first();
        let rb = b.drop_first();
        assert forall|i: int, j: int| 0 <= i < j < ra.len() implies text_lt(
            #[trigger] ra[i].spec_id(),
            #[trigger] ra[j].spec_id(),
        ) by {
            assert(ra[i] == a[i + 1] && ra[j] == a[j + 1]);
        }
        assert forall|i: int, j: int| 0 <= i < j < rb.len() implies text_lt(
            #[trigger] rb[i].spec_id(),
            #[trigger] rb[j].spec_id(),
        ) by {
            assert(rb[i] == b[i + 1] && rb[j] == b[j + 1]);
        }
        assert forall|x: T| #[trigger] ra.contains(x) <==> rb.contains(x) by {
            if ra.contains(x) {
                let i = choose|i: int| 0 <= i < ra.len() && ra[i] == x;
                assert(a[i + 1] == x);
                assert(a.contains(x));
                assert(b.contains(x));
                let j = choose|j: int| 0 <= j < b.len() && b[j] == x;
                if j == 0 {
                    assert(text_lt(a[0].spec_id(), a[i + 1].spec_id()));
                    lemma_text_lt_irreflexive(x.spec_id());
                }
                assert(rb[j - 1] == x);
            }
            if rb.contains(x) {
                let i = choose|i: int| 0 <= i < rb.len() && rb[i] == x;
                assert(b[i + 1] == x);
                assert(b.contains(x));
                assert(a.contains(x));
                let j = choose|j: int| 0 <= j < a.len() && a[j] == x;
                if j == 0 {
                    assert(text_lt(b[0].spec_id(), b[i + 1].spec_id()));
                    lemma_text_lt_irreflexive(x.spec_id());
                }
                assert(ra[j - 1] == x);
            }
        }
        lemma_sorted_unique(ra, rb);
        assert(a =~= seq![a[0]] + ra);
        assert(b =~= seq![b[0]] + rb);
    }
}

/// Sorting does not change which ids a section holds.
pub proof fn lemma_sort_by_id_has_id<T: LockEntry>(s: Seq<T>, id: Seq<char>)
    ensures
        has_entry_id(sort_by_id(s), id) == has_entry_id(s, id),
{
    lemma_sort_by_id_contains(s);
    let t = sort_by_id(s);
    if has_entry_id(s, id) {
        let k = choose|k: int| 0 <= k < s.len() && #[trigger] s[k].spec_id() == id;
        assert(s.contains(s[k]));
        assert(t.contains(s[k]));
        let m = choose|m: int| 0 <= m < t.len() && t[m] == s[k];
        assert(t[m].spec_id() == id);
    }
    if has_entry_id(t, id) {
        let k = choose|k: int| 0 <= k < t.len() && #[trigger] t[k].spec_id() == id;
        assert(t.contains(t[k]));
        assert(s.contains(t[k]));
        let m = choose|m: int| 0 <= m < s.len() && s[m] == t[k];
        assert(s[m].spec_id() == id);
    }
}

/// A strictly sorted section has distinct ids.
pub proof fn lemma_sorted_distinct<T: LockEntry>(s: Seq<T>)
    requires
        sorted_by_id(s),
    ensures
        distinct_ids(s),
{
    assert forall|i: int, j: int|
        0 <= i < s.len() && 0 <= j < s.len() && i != j implies #[trigger] s[i].spec_id()
            != #[trigger] s[j].spec_id() by {
        if i < j {
            assert(text_lt(s[i].spec_id(), s[j].spec_id()));
            if s[i].spec_id() == s[j].spec_id() {
                lemma_text_lt_irreflexive(s[i].spec_id());
            }
        } else {
            assert(text_lt(s[j].spec_id(), s[i].spec_id()));
            if s[i].spec_id() == s[j].spec_id() {
                lemma_text_lt_irreflexive(s[i].spec_id());
            }
        }
    }
}

/// What sorting a sifted section gives is well formed: sorted by id, each
/// id known.
pub proof fn lemma_sorted_sift_wf<T: LockEntry>(
    entries: Seq<T>,
    known: Seq<Seq<char>>,
    section: Seq<char>,
)
    ensures
        sorted_by_id(sort_by_id(sift(entries, known, section).kept)),
        distinct_ids(sort_by_id(sift(entries, known, section).kept)),
        all_known(sort_by_id(sift(entries, known, section).kept), known),
{
    let k = sift(entries, known, section).kept;
    lemma_sift_kept_wf(entries, known, section);
    lemma_sort_by_id_sorted(k);
    lemma_sorted_distinct(sort_by_id(k));
    lemma_sort_by_id_contains(k);
    let t = sort_by_id(k);
    assert forall|i: int| 0 <= i < t.len() implies known.contains(#[trigger] t[i].spec_id()) by {
        assert(t.contains(t[i]));
        assert(k.contains(t[i]));
        let m = choose|m: int| 0 <= m < k.len() && k[m] == t[i];
        assert(known.contains(k[m].spec_id()));
    }
}

/// Sections with the same entries, in whatever order, miss content alike.
pub proof fn lemma_least_missing_same_entries(a: Seq<BaseInstructionsEntry>, b: Seq<BaseInstructionsEntry>)
    requires
        forall|x: BaseInstructionsEntry| #[trigger] a.contains(x) <==> b.contains(x),
    ensures
        least_missing_content(a) == least_missing_content(b),
{
    assert forall|id: Seq<char>| is_least_missing(a, id) implies is_least_missing(b, id) by {
        let i = choose|i: int| 0 <= i < a.len() && #[trigger] misses_content(a[i]) && a[i].id@ == id;
        assert(a.contains(a[i]));
        assert(b.contains(a[i]));
        let k = choose|k: int| 0 <= k < b.len() && b[k] == a[i];
        assert(misses_content(b[k]) && b[k].id@ == id);
        assert forall|j: int| 0 <= j < b.len() && #[trigger] misses_content(b[j]) implies !text_lt(
            b[j].id@,
            id,
        ) by {
            assert(b.contains(b[j]));
            assert(a.contains(b[j]));
            let m = choose|m: int| 0 <= m < a.len() && a[m] == b[j];
            assert(misses_content(a[m]));
        }
    }
    assert forall|id: Seq<char>| is_least_missing(b, id) implies is_least_missing(a, id) by {
        let i = choose|i: int| 0 <= i < b.len() && #[trigger] misses_content(b[i]) && b[i].id@ == id;
        assert(b.contains(b[i]));
        assert(a.contains(b[i]));
        let k = choose|k: int| 0 <= k < a.len() && a[k] == b[i];
        assert(misses_content(a[k]) && a[k].id@ == id);
        assert forall|j: int| 0 <= j < a.len() && #[trigger] misses_content(a[j]) implies !text_lt(
            a[j].id@,
            id,
        ) by {
            assert(a.contains(a[j]));
            assert(b.contains(a[j]));
            let m = choose|m: int| 0 <= m < b.len() && b[m] == a[j];
            assert(misses_content(b[m]));
        }
    }
    if exists|id: Seq<char>| is_least_missing(a, id) {
        let x = choose|id: Seq<char>| is_least_missing(a, id);
        let y = choose|id: Seq<char>| is_least_missing(b, id);
        assert(is_least_missing(b, x));
        lemma_least_missing_unique(b, x, y);
    }
}

/// The tool ids a lock reader knows are the builtin tool constants.
pub proof fn lemma_tool_constants_known(id: Seq<char>)
    requires
        id == TOOL_EXEC_COMMAND_ID@
            || id == TOOL_WRITE_STDIN_ID@
            || id == TOOL_SHELL_ID@
            || id == TOOL_LOCAL_SHELL_ID@
            || id == TOOL_APPLY_PATCH_ID@
            || id == TOOL_UPDATE_PLAN_ID@
            || id == TOOL_REQUEST_USER_INPUT_ID@
            || id == TOOL_REQUEST_PERMISSIONS_ID@
            || id == TOOL_LIST_MCP_RESOURCES_ID@
            || id == TOOL_LIST_MCP_RESOURCE_TEMPLATES_ID@
            || id == TOOL_READ_MCP_RESOURCE_ID@
            || id == TOOL_GET_GOAL_ID@
            || id == TOOL_CREATE_GOAL_ID@
            || id == TOOL_UPDATE_GOAL_ID@
            || id == TOOL_SPAWN_AGENT_ID@
            || id == TOOL_SEND_INPUT_ID@
            || id == TOOL_SEND_MESSAGE_ID@
            || id == TOOL_FOLLOWUP_TASK_ID@
            || id == TOOL_RESUME_AGENT_ID@
            || id == TOOL_WAIT_AGENT_ID@
            || id == TOOL_CLOSE_AGENT_ID@
            || id == TOOL_LIST_AGENTS_ID@
            || id == TOOL_SPAWN_AGENTS_ON_CSV_ID@
            || id == TOOL_REPORT_AGENT_JOB_RESULT_ID@
            || id == TOOL_VIEW_IMAGE_ID@
            || id == TOOL_WEB_SEARCH_ID@
            || id == TOOL_IMAGE_GENERATION_ID@,
    ensures
        known_tool_ids().contains(id),
{
    assert(known_tool_ids()[0] == TOOL_EXEC_COMMAND_ID@);
    assert(known_tool_ids()[1] == TOOL_WRITE_STDIN_ID@);
    assert(known_tool_ids()[2] == TOOL_SHELL_ID@);
    assert(known_tool_ids()[3] == TOOL_LOCAL_SHELL_ID@);
    assert(known_tool_ids()[4] == TOOL_APPLY_PATCH_ID@);
    assert(known_tool_ids()[5] == TOOL_UPDATE_PLAN_ID@);
    assert(known_tool_ids()[6] == TOOL_REQUEST_USER_INPUT_ID@);
    assert(known_tool_ids()[7] == TOOL_REQUEST_PERMISSIONS_ID@);
    assert(known_tool_ids()[8] == TOOL_LIST_MCP_RESOURCES_ID@);
    assert(known_tool_ids()[9] == TOOL_LIST_MCP_RESOURCE_TEMPLATES_ID@);
    assert(known_tool_ids()[10] == TOOL_READ_MCP_RESOURCE_ID@);
    assert(known_tool_ids()[11] == TOOL_GET_GOAL_ID@);
    assert(known_tool_ids()[12] == TOOL_CREATE_GOAL_ID@);
    assert(known_tool_ids()[13] == TOOL_UPDATE_GOAL_ID@);
    assert(known_tool_ids()[14] == TOOL_SPAWN_AGENT_ID@);
    assert(known_tool_ids()[15] == TOOL_SEND_INPUT_ID@);
    assert(known_tool_ids()[16] == TOOL_SEND_MESSAGE_ID@);
    assert(known_tool_ids()[17] == TOOL_FOLLOWUP_TASK_ID@);
    assert(known_tool_ids()[18] == TOOL_RESUME_AGENT_ID@);
    assert(known_tool_ids()[19] == TOOL_WAIT_AGENT_ID@);
    assert(known_tool_ids()[20] == TOOL_CLOSE_AGENT_ID@);
    assert(known_tool_ids()[21] == TOOL_LIST_AGENTS_ID@);
    assert(known_tool_ids()[22] == TOOL_SPAWN_AGENTS_ON_CSV_ID@);
    assert(known_tool_ids()[23] == TOOL_REPORT_AGENT_JOB_RESULT_ID@);
    assert(known_tool_ids()[24] == TOOL_VIEW_IMAGE_ID@);
    assert(known_tool_ids()[25] == TOOL_WEB_SEARCH_ID@);
    assert(known_tool_ids()[26] == TOOL_IMAGE_GENERATION_ID@);
}

/// The fragment ids a lock reader knows are the builtin prompt fragments.
pub proof fn lemma_fragment_names_known(id: Seq<char>)
    requires
        id == "builtin.fragment.permissions_instructions"@
            || id == "builtin.fragment.collaboration_mode_instructions"@
            || id == "builtin.fragment.model_switch"@
            || id == "builtin.fragment.realtime_start"@
            || id == "builtin.fragment.personality_spec"@
            || id == "builtin.fragment.apps_instructions"@
            || id == "builtin.fragment.available_skills_scaffold"@
            || id == "builtin.fragment.available_plugins_instructions"@
            || id == "builtin.fragment.environment_context"@
            || id == "builtin.fragment.multi_agent_usage_hint"@,
    ensures
        known_fragment_ids().contains(id),
{
    assert(known_fragment_ids()[0] == "builtin.fragment.permissions_instructions"@);
    assert(known_fragment_ids()[1] == "builtin.fragment.collaboration_mode_instructions"@);
    assert(known_fragment_ids()[2] == "builtin.fragment.model_switch"@);
    assert(known_fragment_ids()[3] == "builtin.fragment.realtime_start"@);
    assert(known_fragment_ids()[4] == "builtin.fragment.personality_spec"@);
    assert(known_fragment_ids()[5] == "builtin.fragment.apps_instructions"@);
    assert(known_fragment_ids()[6] == "builtin.fragment.available_skills_scaffold"@);
    assert(known_fragment_ids()[7] == "builtin.fragment.available_plugins_instructions"@);
    assert(known_fragment_ids()[8] == "builtin.fragment.environment_context"@);
    assert(known_fragment_ids()[9] == "builtin.fragment.multi_agent_usage_hint"@);
}

/// The warnings of sifting each name an entry of the section whose id is unknown.
pub proof fn lemma_sift_warnings_name_unknown<T: LockEntry>(
    entries: Seq<T>,
    known: Seq<Seq<char>>,
    section: Seq<char>,
)
    ensures
        forall|k: int|
            0 <= k < sift(entries, known, section).warnings.len() ==> exists|i: int|
                0 <= i < entries.len() && !known.contains(entries[i].spec_id()) && #[trigger] sift(
                    entries,
                    known,
                    section,
                ).warnings[k] == unknown_id_warning(section, entries[i].spec_id()),
    decreases entries.len(),
{
    if entries.len() > 0 {
        let d = entries.drop_last();
        lemma_sift_warnings_name_unknown(d, known, section);
        let w = sift(entries, known, section).warnings;
        let pw = sift(d, known, section).warnings;
        let prev = sift(d, known, section);
        let last = entries.last();
        let grew = prev.duplicate is None && !known.contains(last.spec_id());
        if grew {
            assert(w == pw.push(unknown_id_warning(section, last.spec_id())));
        } else {
            assert(w == pw);
        }
        assert forall|k: int| 0 <= k < w.len() implies exists|i: int|
            0 <= i < entries.len() && !known.contains(entries[i].spec_id()) && #[trigger] w[k]
                == unknown_id_warning(section, entries[i].spec_id()) by {
            if k < pw.len() {
                assert(w[k] == pw[k]);
                let i = choose|i: int|
                    0 <= i < d.len() && !known.contains(d[i].spec_id()) && #[trigger] pw[k]
                        == unknown_id_warning(section, d[i].spec_id());
                assert(entries[i] == d[i]);
            } else {
                assert(grew);
                let i = entries.len() - 1;
                assert(entries[i] == last);
                assert(w[k] == unknown_id_warning(section, entries[i].spec_id()));
            }
        }
    }
}

/// Warnings of one section about different ids differ.
pub proof fn lemma_unknown_id_warning_injective(section: Seq<char>, a: Seq<char>, b: Seq<char>)
    requires
        unknown_id_warning(section, a) == unknown_id_warning(section, b),
    ensures
        a == b,
{
    reveal_strlit("Ignoring unknown builtin context lock id `");
    reveal_strlit("` in `");
    reveal_strlit("`");
    let p = "Ignoring unknown builtin context lock id `"@;
    let ma = unknown_id_warning(section, a);
    let mb = unknown_id_warning(section, b);
    assert(ma.len() == p.len() + a.len() + "` in `"@.len() + section.len() + "`"@.len());
    assert(mb.len() == p.len() + b.len() + "` in `"@.len() + section.len() + "`"@.len());
    assert(a.len() == b.len());
    assert(ma.subrange(p.len() as int, (p.len() + a.len()) as int) =~= a);
    assert(mb.subrange(p.len() as int, (p.len() + b.len()) as int) =~= b);
}

/// An entry whose id is known draws no warning from sifting.
pub proof fn lemma_known_entry_draws_no_warning<T: LockEntry>(
    entries: Seq<T>,
    known: Seq<Seq<char>>,
    section: Seq<char>,
    id: Seq<char>,
)
    requires
        known.contains(id),
    ensures
        !sift(entries, known, section).warnings.contains(unknown_id_warning(section, id)),
{
    lemma_sift_warnings_name_unknown(entries, known, section);
    let w = sift(entries, known, section).warnings;
    if w.contains(unknown_id_warning(section, id)) {
        let k = choose|k: int| 0 <= k < w.len() && w[k] == unknown_id_warning(section, id);
        let i = choose|i: int|
            0 <= i < entries.len() && !known.contains(entries[i].spec_id()) && #[trigger] w[k]
                == unknown_id_warning(section, entries[i].spec_id());
        lemma_unknown_id_warning_injective(section, id, entries[i].spec_id());
    }
}

/// Every builtin tool id is read: in a lock file whose tools section repeats
/// no id, an entry with one of the builtin tool ids is kept in the lock's
/// tools, as it stands, and draws no warning.
pub proof fn law_builtin_tool_entries_are_kept(lf: LockFile, i: int)
    requires
        0 <= i < lf.tools@.len(),
        distinct_ids(lf.tools@),
        ({
            let id = lf.tools@[i].id@;
            id == TOOL_EXEC_COMMAND_ID@
            || id == TOOL_WRITE_STDIN_ID@
            || id == TOOL_SHELL_ID@
            || id == TOOL_LOCAL_SHELL_ID@
            || id == TOOL_APPLY_PATCH_ID@
            || id == TOOL_UPDATE_PLAN_ID@
            || id == TOOL_REQUEST_USER_INPUT_ID@
            || id == TOOL_REQUEST_PERMISSIONS_ID@
            || id == TOOL_LIST_MCP_RESOURCES_ID@
            || id == TOOL_LIST_MCP_RESOURCE_TEMPLATES_ID@
            || id == TOOL_READ_MCP_RESOURCE_ID@
            || id == TOOL_GET_GOAL_ID@
            || id == TOOL_CREATE_GOAL_ID@
            || id == TOOL_UPDATE_GOAL_ID@
            || id == TOOL_SPAWN_AGENT_ID@
            || id == TOOL_SEND_INPUT_ID@
            || id == TOOL_SEND_MESSAGE_ID@
            || id == TOOL_FOLLOWUP_TASK_ID@
            || id == TOOL_RESUME_AGENT_ID@
            || id == TOOL_WAIT_AGENT_ID@
            || id == TOOL_CLOSE_AGENT_ID@
            || id == TOOL_LIST_AGENTS_ID@
            || id == TOOL_SPAWN_AGENTS_ON_CSV_ID@
            || id == TOOL_REPORT_AGENT_JOB_RESULT_ID@
            || id == TOOL_VIEW_IMAGE_ID@
            || id == TOOL_WEB_SEARCH_ID@
            || id == TOOL_IMAGE_GENERATION_ID@
        }),
    ensures
        sort_by_id(sift_tools(lf).kept).contains(lf.tools@[i]),
        !sift_tools(lf).warnings.contains(unknown_id_warning("tools"@, lf.tools@[i].id@)),
{
    let id = lf.tools@[i].id@;
    lemma_tool_constants_known(id);
    known_entry_kept_and_quiet(lf.tools@, known_tool_ids(), "tools"@, i);
}

/// Every builtin fragment id is read: in a lock file whose fragments section
/// repeats no id, an entry with one of the builtin fragment ids is kept in
/// the lock's fragments, as it stands, and draws no warning.
pub proof fn law_builtin_fragment_entries_are_kept(lf: LockFile, i: int)
    requires
        0 <= i < lf.fragments@.len(),
        distinct_ids(lf.fragments@),
        ({
            let id = lf.fragments@[i].id@;
            id == "builtin.fragment.permissions_instructions"@
            || id == "builtin.fragment.collaboration_mode_instructions"@
            || id == "builtin.fragment.model_switch"@
            || id == "builtin.fragment.realtime_start"@
            || id == "builtin.fragment.personality_spec"@
            || id == "builtin.fragment.apps_instructions"@
            || id == "builtin.fragment.available_skills_scaffold"@
            || id == "builtin.fragment.available_plugins_instructions"@
            || id == "builtin.fragment.environment_context"@
            || id == "builtin.fragment.multi_agent_usage_hint"@
        }),
    ensures
        sort_by_id(sift_fragments(lf).kept).contains(lf.fragments@[i]),
        !sift_fragments(lf).warnings.contains(unknown_id_warning("fragments"@, lf.fragments@[i].id@)),
{
    let id = lf.fragments@[i].id@;
    lemma_fragment_names_known(id);
    known_entry_kept_and_quiet(lf.fragments@, known_fragment_ids(), "fragments"@, i);
}

/// The model catalog's base instructions are read: in a lock file whose base
/// instructions repeat no id, an entry with that id is kept, as it stands,
/// and draws no warning.
pub proof fn law_model_catalog_entry_is_kept(lf: LockFile, i: int)
    requires
        0 <= i < lf.base_instructions@.len(),
        distinct_ids(lf.base_instructions@),
        lf.base_instructions@[i].id@ == BASE_INSTRUCTIONS_MODEL_CATALOG_CURRENT_ID@,
    ensures
        sort_by_id(sift_base(lf).kept).contains(lf.base_instructions@[i]),
        !sift_base(lf).warnings.contains(
            unknown_id_warning("base_instructions"@, lf.base_instructions@[i].id@),
        ),
{
    assert(known_base_instructions_ids()[0] == BASE_INSTRUCTIONS_MODEL_CATALOG_CURRENT_ID@);
    known_entry_kept_and_quiet(lf.base_instructions@, known_base_instructions_ids(), "base_instructions"@, i);
}

proof fn known_entry_kept_and_quiet<T: LockEntry>(
    entries: Seq<T>,
    known: Seq<Seq<char>>,
    section: Seq<char>,
    i: int,
)
    requires
        0 <= i < entries.len(),
        distinct_ids(entries),
        known.contains(entries[i].spec_id()),
    ensures
        sort_by_id(sift(entries, known, section).kept).contains(entries[i]),
        !sift(entries, known, section).warnings.contains(unknown_id_warning(section, entries[i].spec_id())),
{
    lemma_sift_duplicate_iff(entries, known, section);
    if sift(entries, known, section).duplicate is Some {
        let (a, b) = choose|a: int, b: int|
            0 <= a < b < entries.len() && known.contains(entries[b].spec_id())
                && #[trigger] entries[a].spec_id() == #[trigger] entries[b].spec_id();
        assert(false);
    }
    law_read_keeps_known_entries(entries, known, section, i);
    let kept = sift(entries, known, section).kept;
    let k = choose|k: int| 0 <= k < kept.len() && #[trigger] kept[k] == entries[i];
    assert(kept.contains(entries[i]));
    lemma_sort_by_id_contains(kept);
    lemma_known_entry_draws_no_warning(entries, known, section, entries[i].spec_id());
}

} // verus!
