//! The dual task-source backends.
//!
//! The shell-invoked variant's contribution here is the exact argument
//! lists it hands the external tool, including the version-gated parts;
//! spawning the process and decoding its JSON stay with the caller.
//! The embedded variant's contribution is the export pipeline over
//! already-converted records: dropping deleted records, choosing the
//! effective filter, evaluating the filter language, and applying any
//! limit directive.

use vstd::prelude::*;

use crate::task::{TaskRecord, TaskStatus};
use crate::filter::{spec_filter_limit, extract_limit_from_filter, filter_tasks,
    spec_filtered};
use crate::text::{spec_trim, trim, spec_starts_with, starts_with, split_ws,
    split_whitespace, split_char_seq, first_index_of, spec_contains_seq, contains_str,
    join_with, join_strings, str_eq};
use crate::TaskError;

verus! {

/// Which concrete store the application uses, chosen once at startup.
#[derive(Clone, Debug)]
pub enum BackendConfig {
    /// The shell-invoked external task tool.
    Cli,
    /// The embedded on-disk database.
    TaskChampion { data_dir: Option<String>, server_config: Option<String> },
}

impl Default for BackendConfig {
    /// The shell-invoked tool is the default store.
    fn default() -> (r: Self)
        ensures
            r is Cli,
    {
        BackendConfig::Cli
    }
}

/// What the POSIX-shell word splitter makes of a string: its words,
/// or nothing on erroneous input.  A function of the string alone.
pub uninterp spec fn shell_words(s: Seq<char>) -> Option<Seq<Seq<char>>>;

/// Relies on `shlex::split`: POSIX-shell word splitting of the input,
/// `None` on erroneous input such as an unclosed quote.
#[verifier::external_body]
fn shell_split(s: &str) -> (r: Option<Vec<String>>)
    ensures
        match r {
            Some(words) => shell_words(s@) == Some(words@.map_values(|w: String| w@)),
            None => shell_words(s@) is None,
        },
{
    shlex::split(s)
}

/// Does the first version string parse and order at or above the
/// second?  `None` when either does not parse as a version.  A
/// function of the two strings alone.
pub uninterp spec fn version_at_least_of(version_str: Seq<char>, threshold: Seq<char>)
    -> Option<bool>;

/// Relies on `versions::Versioning`: `new` parses a version string,
/// returning `None` when it is unparsable, and the hand-written
/// ordering compares two parsed versions; both depend on their
/// inputs alone.
#[verifier::external_body]
fn version_at_least(version_str: &str, threshold: &str) -> (r: Option<bool>)
    ensures
        r == version_at_least_of(version_str@, threshold@),
{
    let probed = versions::Versioning::new(version_str);
    let bound = versions::Versioning::new(threshold);
    match (probed, bound) {
        (Some(v), Some(t)) => Some(v >= t),
        _ => None,
    }
}

/// Is the probed version at or above 3.0.0, the release that takes a
/// report name on export and a verbatim context filter?
pub open spec fn spec_version_supported(version_str: Seq<char>) -> Option<bool> {
    version_at_least_of(version_str, "3.0.0"@)
}

/// The version token inside the tool's `--version` output: the second
/// word of a first line of the form `task <x.y.z> ...`, the trimmed
/// first line otherwise, with `0.0.0` standing in when the `task `
/// form carries no second word.
pub open spec fn spec_version_token(stdout: Seq<char>) -> Seq<char> {
    let line = split_char_seq(stdout, '\n')[0];
    if spec_starts_with(line, "task "@) {
        let words = split_ws(line);
        if words.len() >= 2 {
            words[1]
        } else {
            "0.0.0"@
        }
    } else {
        spec_trim(line)
    }
}

fn version_token(stdout: &str) -> (r: String)
    ensures
        r@ == spec_version_token(stdout@),
{
    let lines = crate::text::split_char(stdout, '\n');
    let line = &lines[0];
    proof {
        assert(lines@.map_values(|t: String| t@)[0] == lines@[0]@);
    }
    if starts_with(line.as_str(), "task ") {
        let words = split_whitespace(line.as_str());
        if words.len() >= 2 {
            proof {
                assert(words@.map_values(|t: String| t@)[1] == words@[1]@);
            }
            words[1].clone()
        } else {
            "0.0.0".to_owned()
        }
    } else {
        trim(line.as_str()).to_owned()
    }
}

/// The shell-invoked backend: all that survives the startup probe is
/// whether the tool's version is at or above 3.0.0, which gates the
/// report argument and the context-filter form.
#[derive(Clone, Debug)]
pub struct CliBackend {
    pub version_supported: bool,
}

/// The baseline flags of every export invocation: structured array
/// output, no confirmation prompts, array-encoded dependencies, no
/// color.
pub open spec fn spec_export_base_args() -> Seq<Seq<char>> {
    seq![
        "rc.json.array=on"@,
        "rc.confirmation=off"@,
        "rc.json.depends.array=on"@,
        "rc.color=off"@,
        "rc._forcecolor=off"@,
    ]
}

/// The baseline flags of every mutation: no bulk, dependency or
/// recurrence confirmations.
pub open spec fn spec_mutation_base_args() -> Seq<Seq<char>> {
    seq![
        "rc.bulk=0"@,
        "rc.confirmation=off"@,
        "rc.dependency.confirmation=off"@,
        "rc.recurrence.confirmation=off"@,
    ]
}

/// The filter-override argument before shell splitting:
/// `rc.report.<report>.filter='<trimmed filter>'`.
pub open spec fn spec_filter_override(report: Seq<char>, filter: Seq<char>) -> Seq<char> {
    "rc.report."@ + report + ".filter='"@ + spec_trim(filter) + "'"@
}

/// The full export argument list, version gating included: the report
/// name is appended, and a context filter passed through as shell
/// words, only at or above 3.0.0; below, the context filter is
/// wrapped as a parenthesized literal.
pub open spec fn spec_export_args(
    filter: Seq<char>,
    report: Seq<char>,
    context: Seq<char>,
    supported: bool,
) -> Seq<Seq<char>> {
    let with_filter = spec_export_base_args() + (if spec_trim(filter).len() > 0 {
        match shell_words(spec_trim(spec_filter_override(report, filter))) {
            Some(parts) => parts,
            None => Seq::<Seq<char>>::empty(),
        }
    } else {
        Seq::<Seq<char>>::empty()
    });
    let with_context = with_filter + (if spec_trim(context).len() > 0 {
        if supported {
            match shell_words(context) {
                Some(parts) => parts,
                None => Seq::<Seq<char>>::empty(),
            }
        } else {
            seq!["'\\("@ + context + "\\)'"@]
        }
    } else {
        Seq::<Seq<char>>::empty()
    });
    with_context + seq!["export"@] + (if supported {
        seq![report]
    } else {
        Seq::<Seq<char>>::empty()
    })
}

impl CliBackend {
    /// Builds the backend from the tool's `--version` output.  An
    /// output whose version token does not parse is the fatal startup
    /// error; otherwise the 3.0.0 gate is settled here, once.
    pub fn new(version_output: &str) -> (r: Result<CliBackend, TaskError>)
        ensures
            match spec_version_supported(spec_version_token(version_output@)) {
                Some(supported) => r matches Ok(b) && b.version_supported == supported,
                None => r matches Err(e) && (e matches TaskError::VersionParseFailure {
                    line,
                } && line@ == spec_version_token(version_output@)),
            },
    {
        let token = version_token(version_output);
        match version_at_least(token.as_str(), "3.0.0") {
            Some(supported) => Ok(CliBackend { version_supported: supported }),
            None => Err(TaskError::VersionParseFailure { line: token }),
        }
    }

    /// The argument list of one export invocation.
    pub fn build_export_args(&self, filter: &str, report: &str, context_filter: &str)
        -> (r: Vec<String>)
        ensures
            r@.map_values(|s: String| s@) == spec_export_args(filter@, report@,
                context_filter@, self.version_supported),
    {
        let mut args: Vec<String> = Vec::new();
        args.push("rc.json.array=on".to_owned());
        args.push("rc.confirmation=off".to_owned());
        args.push("rc.json.depends.array=on".to_owned());
        args.push("rc.color=off".to_owned());
        args.push("rc._forcecolor=off".to_owned());
        proof {
            assert(args@.map_values(|s: String| s@) =~= spec_export_base_args());
        }
        let trimmed_filter = trim(filter);
        if trimmed_filter.unicode_len() > 0 {
            let mut override_arg = String::new();
            override_arg.append("rc.report.");
            override_arg.append(report);
            override_arg.append(".filter='");
            override_arg.append(trimmed_filter);
            override_arg.append("'");
            proof {
                reveal_strlit("rc.report.");
                reveal_strlit(".filter='");
                reveal_strlit("'");
                assert(override_arg@ =~= spec_filter_override(report@, filter@));
            }
            let ghost pre = args@.map_values(|s: String| s@);
            match shell_split(trim(override_arg.as_str())) {
                Some(parts) => {
                    let mut k: usize = 0;
                    let pn = parts.len();
                    proof {
                        assert(pre + parts@.map_values(|w: String| w@).subrange(0, 0)
                            =~= pre);
                    }
                    while k < pn
                        invariant
                            k <= pn,
                            pn == parts@.len(),
                            args@.map_values(|s: String| s@) == pre + parts@.map_values(
                                |w: String| w@).subrange(0, k as int),
                        decreases pn - k,
                    {
                        let ghost mid = args@.map_values(|s: String| s@);
                        args.push(parts[k].clone());
                        proof {
                            assert(parts@.map_values(|w: String| w@)[k as int] == parts@[
                                k as int
                            ]@);
                            assert(args@.map_values(|s: String| s@) =~= mid.push(parts@[
                                k as int
                            ]@));
                            assert(mid.push(parts@[k as int]@) =~= pre
                                + parts@.map_values(|w: String| w@).subrange(0, k + 1));
                        }
                        k += 1;
                    }
                    proof {
                        assert(parts@.map_values(|w: String| w@).subrange(0, pn as int)
                            =~= parts@.map_values(|w: String| w@));
                    }
                },
                None => {
                    proof {
                        assert(pre + Seq::<Seq<char>>::empty() =~= pre);
                    }
                },
            }
        } else {
            proof {
                let pre = args@.map_values(|s: String| s@);
                assert(pre + Seq::<Seq<char>>::empty() =~= pre);
            }
        }
        let trimmed_context = trim(context_filter);
        let ghost before_context = args@.map_values(|s: String| s@);
        if trimmed_context.unicode_len() > 0 && self.version_supported {
            match shell_split(context_filter) {
                Some(parts) => {
                    let mut k: usize = 0;
                    let pn = parts.len();
                    proof {
                        assert(before_context + parts@.map_values(
                            |w: String| w@).subrange(0, 0) =~= before_context);
                    }
                    while k < pn
                        invariant
                            k <= pn,
                            pn == parts@.len(),
                            args@.map_values(|s: String| s@) == before_context
                                + parts@.map_values(|w: String| w@).subrange(0, k as int),
                        decreases pn - k,
                    {
                        let ghost mid = args@.map_values(|s: String| s@);
                        args.push(parts[k].clone());
                        proof {
                            assert(parts@.map_values(|w: String| w@)[k as int] == parts@[
                                k as int
                            ]@);
                            assert(args@.map_values(|s: String| s@) =~= mid.push(parts@[
                                k as int
                            ]@));
                            assert(mid.push(parts@[k as int]@) =~= before_context
                                + parts@.map_values(|w: String| w@).subrange(0, k + 1));
                        }
                        k += 1;
                    }
                    proof {
                        assert(parts@.map_values(|w: String| w@).subrange(0, pn as int)
                            =~= parts@.map_values(|w: String| w@));
                    }
                },
                None => {
                    proof {
                        assert(before_context + Seq::<Seq<char>>::empty()
                            =~= before_context);
                    }
                },
            }
        } else if trimmed_context.unicode_len() > 0 {
            let mut wrapped = String::new();
            wrapped.append("'\\(");
            wrapped.append(context_filter);
            wrapped.append("\\)'");
            args.push(wrapped);
            proof {
                reveal_strlit("'\\(");
                reveal_strlit("\\)'");
                assert(args@.map_values(|s: String| s@) =~= before_context + seq![
                    "'\\("@ + context_filter@ + "\\)'"@,
                ]);
            }
        } else {
            proof {
                assert(before_context + Seq::<Seq<char>>::empty() =~= before_context);
            }
        }
        args.push("export".to_owned());
        let ghost with_export = args@.map_values(|s: String| s@);
        if self.version_supported {
            args.push(report.to_owned());
        }
        proof {
            assert(args@.map_values(|s: String| s@) =~= spec_export_args(filter@,
                report@, context_filter@, self.version_supported));
        }
        args
    }

    /// The argument list that adds a task: `add <description> <args...>`.
    pub fn build_add_args(&self, description: &str, args: &Vec<String>) -> (r: Vec<String>)
        ensures
            r@.map_values(|s: String| s@) == seq!["add"@, description@] + args@.map_values(
                |s: String| s@),
    {
        let mut out: Vec<String> = Vec::new();
        out.push("add".to_owned());
        out.push(description.to_owned());
        let mut k: usize = 0;
        let n = args.len();
        proof {
            assert(out@.map_values(|s: String| s@) =~= seq!["add"@, description@]);
            assert(seq!["add"@, description@] + args@.map_values(|s: String| s@).subrange(
                0, 0) =~= seq!["add"@, description@]);
        }
        while k < n
            invariant
                k <= n,
                n == args@.len(),
                out@.map_values(|s: String| s@) == seq!["add"@, description@]
                    + args@.map_values(|s: String| s@).subrange(0, k as int),
            decreases n - k,
        {
            let ghost mid = out@.map_values(|s: String| s@);
            out.push(args[k].clone());
            proof {
                assert(args@.map_values(|s: String| s@)[k as int] == args@[k as int]@);
                assert(out@.map_values(|s: String| s@) =~= mid.push(args@[k as int]@));
                assert(mid.push(args@[k as int]@) =~= seq!["add"@, description@]
                    + args@.map_values(|s: String| s@).subrange(0, k + 1));
            }
            k += 1;
        }
        proof {
            assert(args@.map_values(|s: String| s@).subrange(0, n as int)
                =~= args@.map_values(|s: String| s@));
        }
        out
    }

    /// The mutation argument list around a verb: the no-confirmation
    /// flags, the durable ids, then the verb (`done` or `delete`).
    pub fn build_id_verb_args(&self, task_uuids: &Vec<String>, verb: &str) -> (r: Vec<
        String>)
        ensures
            r@.map_values(|s: String| s@) == spec_mutation_base_args()
                + task_uuids@.map_values(|s: String| s@) + seq![verb@],
    {
        let mut out: Vec<String> = Vec::new();
        out.push("rc.bulk=0".to_owned());
        out.push("rc.confirmation=off".to_owned());
        out.push("rc.dependency.confirmation=off".to_owned());
        out.push("rc.recurrence.confirmation=off".to_owned());
        proof {
            assert(out@.map_values(|s: String| s@) =~= spec_mutation_base_args());
            assert(spec_mutation_base_args() + task_uuids@.map_values(
                |s: String| s@).subrange(0, 0) =~= spec_mutation_base_args());
        }
        let mut k: usize = 0;
        let n = task_uuids.len();
        while k < n
            invariant
                k <= n,
                n == task_uuids@.len(),
                out@.map_values(|s: String| s@) == spec_mutation_base_args()
                    + task_uuids@.map_values(|s: String| s@).subrange(0, k as int),
            decreases n - k,
        {
            let ghost mid = out@.map_values(|s: String| s@);
            out.push(task_uuids[k].clone());
            proof {
                assert(task_uuids@.map_values(|s: String| s@)[k as int] == task_uuids@[
                    k as int
                ]@);
                assert(out@.map_values(|s: String| s@) =~= mid.push(task_uuids@[
                    k as int
                ]@));
                assert(mid.push(task_uuids@[k as int]@) =~= spec_mutation_base_args()
                    + task_uuids@.map_values(|s: String| s@).subrange(0, k + 1));
            }
            k += 1;
        }
        proof {
            assert(task_uuids@.map_values(|s: String| s@).subrange(0, n as int)
                =~= task_uuids@.map_values(|s: String| s@));
        }
        out.push(verb.to_owned());
        proof {
            assert(out@.map_values(|s: String| s@) =~= spec_mutation_base_args()
                + task_uuids@.map_values(|s: String| s@) + seq![verb@]);
        }
        out
    }

    /// The argument list that marks tasks done.
    pub fn build_done_args(&self, task_uuids: &Vec<String>) -> (r: Vec<String>)
        ensures
            r@.map_values(|s: String| s@) == spec_mutation_base_args()
                + task_uuids@.map_values(|s: String| s@) + seq!["done"@],
    {
        self.build_id_verb_args(task_uuids, "done")
    }

    /// The argument list that deletes tasks.
    pub fn build_delete_args(&self, task_uuids: &Vec<String>) -> (r: Vec<String>)
        ensures
            r@.map_values(|s: String| s@) == spec_mutation_base_args()
                + task_uuids@.map_values(|s: String| s@) + seq!["delete"@],
    {
        self.build_id_verb_args(task_uuids, "delete")
    }

    /// The argument list that modifies tasks: the no-confirmation
    /// flags, the ids, then the modification text's shell words (or
    /// nothing, when it does not split).
    pub fn build_modify_args(&self, task_uuids: &Vec<String>, modifications: &str) -> (r:
        Vec<String>)
        ensures
            r@.map_values(|s: String| s@) == spec_mutation_base_args()
                + task_uuids@.map_values(|s: String| s@) + (match shell_words(
                modifications@) {
                Some(parts) => parts,
                None => Seq::<Seq<char>>::empty(),
            }),
    {
        let mut out: Vec<String> = Vec::new();
        out.push("rc.bulk=0".to_owned());
        out.push("rc.confirmation=off".to_owned());
        out.push("rc.dependency.confirmation=off".to_owned());
        out.push("rc.recurrence.confirmation=off".to_owned());
        proof {
            assert(out@.map_values(|s: String| s@) =~= spec_mutation_base_args());
            assert(spec_mutation_base_args() + task_uuids@.map_values(
                |s: String| s@).subrange(0, 0) =~= spec_mutation_base_args());
        }
        let mut k: usize = 0;
        let n = task_uuids.len();
        while k < n
            invariant
                k <= n,
                n == task_uuids@.len(),
                out@.map_values(|s: String| s@) == spec_mutation_base_args()
                    + task_uuids@.map_values(|s: String| s@).subrange(0, k as int),
            decreases n - k,
        {
            let ghost mid = out@.map_values(|s: String| s@);
            out.push(task_uuids[k].clone());
            proof {
                assert(task_uuids@.map_values(|s: String| s@)[k as int] == task_uuids@[
                    k as int
                ]@);
                assert(out@.map_values(|s: String| s@) =~= mid.push(task_uuids@[
                    k as int
                ]@));
                assert(mid.push(task_uuids@[k as int]@) =~= spec_mutation_base_args()
                    + task_uuids@.map_values(|s: String| s@).subrange(0, k + 1));
            }
            k += 1;
        }
        proof {
            assert(task_uuids@.map_values(|s: String| s@).subrange(0, n as int)
                =~= task_uuids@.map_values(|s: String| s@));
        }
        let ghost before_mods = out@.map_values(|s: String| s@);
        match shell_split(modifications) {
            Some(parts) => {
                let mut j: usize = 0;
                let pn = parts.len();
                proof {
                    assert(before_mods + parts@.map_values(|w: String| w@).subrange(0, 0)
                        =~= before_mods);
                }
                while j < pn
                    invariant
                        j <= pn,
                        pn == parts@.len(),
                        out@.map_values(|s: String| s@) == before_mods + parts@.map_values(
                            |w: String| w@).subrange(0, j as int),
                    decreases pn - j,
                {
                    let ghost mid = out@.map_values(|s: String| s@);
                    out.push(parts[j].clone());
                    proof {
                        assert(parts@.map_values(|w: String| w@)[j as int] == parts@[
                            j as int
                        ]@);
                        assert(out@.map_values(|s: String| s@) =~= mid.push(parts@[
                            j as int
                        ]@));
                        assert(mid.push(parts@[j as int]@) =~= before_mods
                            + parts@.map_values(|w: String| w@).subrange(0, j + 1));
                    }
                    j += 1;
                }
                proof {
                    assert(parts@.map_values(|w: String| w@).subrange(0, pn as int)
                        =~= parts@.map_values(|w: String| w@));
                }
            },
            None => {
                proof {
                    assert(before_mods + Seq::<Seq<char>>::empty() =~= before_mods);
                }
            },
        }
        out
    }

    /// The argument list that exports one task's details: the export
    /// baseline flags, the durable id, then `export`.
    pub fn build_task_details_args(&self, task_uuid: &str) -> (r: Vec<String>)
        ensures
            r@.map_values(|s: String| s@) == spec_export_base_args() + seq![
                task_uuid@, "export"@,
            ],
    {
        let mut out: Vec<String> = Vec::new();
        out.push("rc.json.array=on".to_owned());
        out.push("rc.confirmation=off".to_owned());
        out.push("rc.json.depends.array=on".to_owned());
        out.push("rc.color=off".to_owned());
        out.push("rc._forcecolor=off".to_owned());
        out.push(task_uuid.to_owned());
        out.push("export".to_owned());
        proof {
            assert(out@.map_values(|s: String| s@) =~= spec_export_base_args() + seq![
                task_uuid@, "export"@,
            ]);
        }
        out
    }

    /// The argument list of a sync invocation.
    pub fn build_sync_args(&self) -> (r: Vec<String>)
        ensures
            r@.map_values(|s: String| s@) == seq!["sync"@],
    {
        let mut out: Vec<String> = Vec::new();
        out.push("sync".to_owned());
        proof {
            assert(out@.map_values(|s: String| s@) =~= seq!["sync"@]);
        }
        out
    }
}

/// Splits one task argument at its first colon: `key:value`, or the
/// whole argument as a bare tag key with an empty value.
pub open spec fn spec_task_arg(arg: Seq<char>) -> (Seq<char>, Seq<char>) {
    let k = first_index_of(arg, ':');
    if k < arg.len() {
        (arg.take(k), arg.skip(k + 1))
    } else {
        (arg, Seq::empty())
    }
}

/// Parses one task argument into its key and value.
pub fn parse_task_arg(arg: &str) -> (r: Option<(String, String)>)
    ensures
        r matches Some(kv) && kv.0@ == spec_task_arg(arg@).0 && kv.1@ == spec_task_arg(
            arg@).1,
{
    let len = arg.unicode_len();
    let mut j: usize = 0;
    while j < len && arg.get_char(j) != ':'
        invariant
            j <= len,
            len == arg@.len(),
            forall|k: int| 0 <= k < j ==> arg@[k] != ':',
        decreases len - j,
    {
        j += 1;
    }
    proof {
        crate::text::lemma_first_index_of_run(arg@, ':', j as int);
    }
    if j < len {
        let key = arg.substring_char(0, j);
        let value = arg.substring_char(j + 1, len);
        proof {
            assert(key@ =~= arg@.take(j as int));
            assert(value@ =~= arg@.skip(j + 1));
        }
        Some((key.to_owned(), value.to_owned()))
    } else {
        proof {
            assert(arg@.skip(j as int) =~= Seq::<char>::empty());
        }
        Some((arg.to_owned(), String::new()))
    }
}

/// One planned change to a record: what the modification language of
/// the embedded store can express.
#[derive(Clone, Debug)]
pub enum TaskModification {
    /// Replace the description.
    SetDescription(String),
    /// Add a tag (a bare key, or the whole `key:value` argument).
    AddTag(String),
}

impl TaskModification {
    pub open spec fn is_set_description(self) -> bool {
        self is SetDescription
    }

    pub open spec fn text(self) -> Seq<char> {
        match self {
            TaskModification::SetDescription(s) => s@,
            TaskModification::AddTag(t) => t@,
        }
    }
}

/// The planned changes one modification argument contributes:
/// `description:<v>` sets the description; `project:` and `priority:`
/// arguments are accepted but contribute nothing; a bare key adds it
/// as a tag; any other `key:value` adds the whole argument as a tag.
pub open spec fn spec_mods_of_arg(arg: Seq<char>) -> Seq<(bool, Seq<char>)> {
    let kv = spec_task_arg(arg);
    if kv.0 == "description"@ {
        seq![(true, kv.1)]
    } else if kv.0 == "project"@ || kv.0 == "priority"@ {
        Seq::empty()
    } else if kv.1.len() == 0 {
        seq![(false, kv.0)]
    } else {
        seq![(false, kv.0 + seq![':'] + kv.1)]
    }
}

/// The planned changes of a whole modification text, argument by
/// argument.
pub open spec fn spec_modifications(args: Seq<Seq<char>>) -> Seq<(bool, Seq<char>)>
    decreases args.len(),
{
    if args.len() == 0 {
        Seq::empty()
    } else {
        spec_mods_of_arg(args[0]) + spec_modifications(args.drop_first())
    }
}

proof fn lemma_modifications_push(args: Seq<Seq<char>>, a: Seq<char>)
    ensures
        spec_modifications(args.push(a)) == spec_modifications(args) + spec_mods_of_arg(a),
    decreases args.len(),
{
    reveal_with_fuel(spec_modifications, 3);
    if args.len() == 0 {
        assert(args.push(a)[0] == a);
        assert(args.push(a).drop_first() =~= Seq::<Seq<char>>::empty());
        assert(spec_modifications(args.push(a)) =~= spec_mods_of_arg(a));
        assert(spec_modifications(args) + spec_mods_of_arg(a) =~= spec_mods_of_arg(a));
    } else {
        assert(args.push(a)[0] == args[0]);
        assert(args.push(a).drop_first() =~= args.drop_first().push(a));
        lemma_modifications_push(args.drop_first(), a);
        assert(spec_modifications(args.push(a)) =~= spec_modifications(args)
            + spec_mods_of_arg(a));
    }
}

/// Parses a whitespace-separated modification text into the planned
/// changes the caller applies to the stored record.
#[verifier::loop_isolation(false)]
pub fn parse_modifications(modifications: &str) -> (r: Vec<TaskModification>)
    ensures
        r@.map_values(|m: TaskModification| (m.is_set_description(), m.text()))
            == spec_modifications(split_ws(modifications@)),
{
    let args = split_whitespace(modifications);
    let ghost arg_views = split_ws(modifications@);
    let mut out: Vec<TaskModification> = Vec::new();
    let mut i: usize = 0;
    let n = args.len();
    proof {
        assert(arg_views.subrange(0, 0) =~= Seq::<Seq<char>>::empty());
        assert(out@.map_values(|m: TaskModification| (m.is_set_description(), m.text()))
            =~= Seq::<(bool, Seq<char>)>::empty());
    }
    while i < n
        invariant
            i <= n,
            n == args@.len(),
            args@.map_values(|t: String| t@) == arg_views,
            out@.map_values(|m: TaskModification| (m.is_set_description(), m.text()))
                == spec_modifications(arg_views.subrange(0, i as int)),
        decreases n - i,
    {
        proof {
            assert(arg_views[i as int] == args@[i as int]@);
        }
        let ghost pre = out@.map_values(|m: TaskModification| (m.is_set_description(),
            m.text()));
        let parsed = parse_task_arg(args[i].as_str());
        match parsed {
            Some((key, value)) => {
                proof {
                    reveal_strlit("description");
                    reveal_strlit("project");
                    reveal_strlit("priority");
                }
                if str_eq(key.as_str(), "description") {
                    let ghost vv = value@;
                    proof {
                        assert(spec_task_arg(arg_views[i as int]).0 == "description"@);
                        assert(spec_mods_of_arg(arg_views[i as int]) == seq![
                            (true, spec_task_arg(arg_views[i as int]).1),
                        ]);
                        assert(vv == spec_task_arg(arg_views[i as int]).1);
                    }
                    out.push(TaskModification::SetDescription(value));
                    proof {
                        let cur = out@.map_values(|m: TaskModification| (
                            m.is_set_description(), m.text()));
                        assert(cur.len() == pre.len() + 1);
                        assert(out@.last() matches TaskModification::SetDescription(s)
                            && s@ == vv);
                        assert(cur.last() == (true, vv));
                        assert(cur =~= pre + spec_mods_of_arg(arg_views[i as int]));
                    }
                } else if str_eq(key.as_str(), "project") || str_eq(key.as_str(),
                    "priority") {
                    proof {
                        assert(pre + spec_mods_of_arg(arg_views[i as int]) =~= pre);
                    }
                } else if value.as_str().unicode_len() == 0 {
                    let ghost kv = value@;
                    let ghost kk = key@;
                    proof {
                        assert(spec_mods_of_arg(arg_views[i as int]) == seq![
                            (false, spec_task_arg(arg_views[i as int]).0),
                        ]);
                        assert(kk == spec_task_arg(arg_views[i as int]).0);
                    }
                    out.push(TaskModification::AddTag(key));
                    proof {
                        let cur = out@.map_values(|m: TaskModification| (
                            m.is_set_description(), m.text()));
                        assert(cur.len() == pre.len() + 1);
                        assert(out@.last() matches TaskModification::AddTag(t) && t@
                            == kk);
                        assert(cur.last() == (false, kk));
                        assert(cur =~= pre + spec_mods_of_arg(arg_views[i as int]));
                    }
                } else {
                    let mut tag = key;
                    crate::text::push_char(&mut tag, ':');
                    tag.append(value.as_str());
                    let ghost tv = tag@;
                    proof {
                        assert(tv =~= spec_task_arg(arg_views[i as int]).0 + seq![':']
                            + spec_task_arg(arg_views[i as int]).1);
                        assert(spec_mods_of_arg(arg_views[i as int]) == seq![
                            (
                                false,
                                spec_task_arg(arg_views[i as int]).0 + seq![':']
                                    + spec_task_arg(arg_views[i as int]).1,
                            ),
                        ]);
                    }
                    out.push(TaskModification::AddTag(tag));
                    proof {
                        let cur = out@.map_values(|m: TaskModification| (
                            m.is_set_description(), m.text()));
                        assert(cur.len() == pre.len() + 1);
                        assert(out@.last() matches TaskModification::AddTag(t) && t@
                            == tv);
                        assert(cur.last() == (false, tv));
                        assert(cur =~= pre + spec_mods_of_arg(arg_views[i as int]));
                    }
                }
            },
            None => {
                proof {
                    assert(false);
                }
            },
        }
        proof {
            let taken = arg_views.subrange(0, i as int);
            assert(taken.push(arg_views[i as int]) =~= arg_views.subrange(0, i + 1));
            lemma_modifications_push(taken, arg_views[i as int]);
        }
        i += 1;
    }
    proof {
        assert(arg_views.subrange(0, n as int) =~= arg_views);
    }
    out
}

/// The tags an `add` invocation's extra arguments contribute: every
/// argument's key, except the `project:` and `priority:` settings,
/// which the embedded store does not yet carry.
pub open spec fn spec_added_tags(args: Seq<Seq<char>>) -> Seq<Seq<char>>
    decreases args.len(),
{
    if args.len() == 0 {
        Seq::empty()
    } else {
        let key = spec_task_arg(args[0]).0;
        (if key == "project"@ || key == "priority"@ {
            Seq::<Seq<char>>::empty()
        } else {
            seq![key]
        }) + spec_added_tags(args.drop_first())
    }
}

proof fn lemma_added_tags_push(args: Seq<Seq<char>>, a: Seq<char>)
    ensures
        spec_added_tags(args.push(a)) == spec_added_tags(args) + (if spec_task_arg(a).0
            == "project"@ || spec_task_arg(a).0 == "priority"@ {
            Seq::<Seq<char>>::empty()
        } else {
            seq![spec_task_arg(a).0]
        }),
    decreases args.len(),
{
    reveal_with_fuel(spec_added_tags, 3);
    let tail: Seq<Seq<char>> = if spec_task_arg(a).0 == "project"@ || spec_task_arg(a).0
        == "priority"@ {
        Seq::empty()
    } else {
        seq![spec_task_arg(a).0]
    };
    if args.len() == 0 {
        assert(args.push(a)[0] == a);
        assert(args.push(a).drop_first() =~= Seq::<Seq<char>>::empty());
        assert(spec_added_tags(args.push(a)) =~= tail);
        assert(spec_added_tags(args) + tail =~= tail);
    } else {
        assert(args.push(a)[0] == args[0]);
        assert(args.push(a).drop_first() =~= args.drop_first().push(a));
        lemma_added_tags_push(args.drop_first(), a);
        assert(spec_added_tags(args.push(a)) =~= spec_added_tags(args) + tail);
    }
}

/// The tags to add for an `add` invocation's extra arguments.
pub fn added_tags(args: &Vec<String>) -> (r: Vec<String>)
    ensures
        r@.map_values(|s: String| s@) == spec_added_tags(args@.map_values(
            |s: String| s@)),
{
    let ghost arg_views = args@.map_values(|s: String| s@);
    let mut out: Vec<String> = Vec::new();
    let mut i: usize = 0;
    let n = args.len();
    proof {
        assert(arg_views.subrange(0, 0) =~= Seq::<Seq<char>>::empty());
        assert(out@.map_values(|s: String| s@) =~= Seq::<Seq<char>>::empty());
    }
    while i < n
        invariant
            i <= n,
            n == args@.len(),
            arg_views == args@.map_values(|s: String| s@),
            out@.map_values(|s: String| s@) == spec_added_tags(arg_views.subrange(0,
                i as int)),
        decreases n - i,
    {
        proof {
            assert(arg_views[i as int] == args@[i as int]@);
        }
        let ghost pre = out@.map_values(|s: String| s@);
        let parsed = parse_task_arg(args[i].as_str());
        match parsed {
            Some((key, _value)) => {
                proof {
                    reveal_strlit("project");
                    reveal_strlit("priority");
                }
                if str_eq(key.as_str(), "project") || str_eq(key.as_str(), "priority") {
                    proof {
                        assert(pre + Seq::<Seq<char>>::empty() =~= pre);
                    }
                } else {
                    out.push(key);
                    proof {
                        assert(out@.map_values(|s: String| s@) =~= pre + seq![
                            spec_task_arg(arg_views[i as int]).0,
                        ]);
                    }
                }
            },
            None => {
                proof {
                    assert(false);
                }
            },
        }
        proof {
            let taken = arg_views.subrange(0, i as int);
            assert(taken.push(arg_views[i as int]) =~= arg_views.subrange(0, i + 1));
            lemma_added_tags_push(taken, arg_views[i as int]);
        }
        i += 1;
    }
    proof {
        assert(arg_views.subrange(0, n as int) =~= arg_views);
    }
    out
}

/// The report's configured filter inside `task show` output: after the
/// dashed header separator, the first line mentioning
/// `report.<name>.filter` whose words beyond the first join to a
/// nonempty filter yields that filter.
pub open spec fn spec_report_filter_lines(
    lines: Seq<Seq<char>>,
    key: Seq<char>,
    in_data: bool,
) -> Option<Seq<char>>
    decreases lines.len(),
{
    if lines.len() == 0 {
        None
    } else {
        let t = spec_trim(lines[0]);
        if spec_starts_with(t, "---"@) {
            spec_report_filter_lines(lines.drop_first(), key, true)
        } else if in_data && spec_contains_seq(t, key) && split_ws(t).len() >= 2
            && join_with(split_ws(t).skip(1), seq![' ']).len() > 0 {
            Some(join_with(split_ws(t).skip(1), seq![' ']))
        } else {
            spec_report_filter_lines(lines.drop_first(), key, in_data)
        }
    }
}

/// The filter `spec_report_filter_lines` finds in a whole output text.
pub open spec fn spec_report_filter_output(stdout: Seq<char>, key: Seq<char>) -> Option<
    Seq<char>> {
    spec_report_filter_lines(split_char_seq(stdout, '\n'), key, false)
}

/// Parses the report's default filter out of the tool's `task show`
/// output, given the report name.
#[verifier::loop_isolation(false)]
pub fn parse_report_filter_output(stdout: &str, report: &str) -> (r: Option<String>)
    ensures
        ({
            let key = "report."@ + report@ + ".filter"@;
            match r {
                Some(f) => spec_report_filter_output(stdout@, key) == Some(f@),
                None => spec_report_filter_output(stdout@, key) is None,
            }
        }),
{
    let mut key = String::new();
    key.append("report.");
    key.append(report);
    key.append(".filter");
    proof {
        reveal_strlit("report.");
        reveal_strlit(".filter");
        assert(key@ =~= "report."@ + report@ + ".filter"@);
    }
    let lines = crate::text::split_char(stdout, '\n');
    let ghost line_views = split_char_seq(stdout@, '\n');
    let mut in_data = false;
    let mut i: usize = 0;
    let n = lines.len();
    proof {
        assert(line_views.skip(0) =~= line_views);
    }
    while i < n
        invariant
            i <= n,
            n == lines@.len(),
            lines@.map_values(|t: String| t@) == line_views,
            key@ == "report."@ + report@ + ".filter"@,
            spec_report_filter_lines(line_views.skip(i as int), key@, in_data)
                == spec_report_filter_lines(line_views, key@, false),
        decreases n - i,
    {
        proof {
            assert(line_views[i as int] == lines@[i as int]@);
            assert(line_views.skip(i as int)[0] == line_views[i as int]);
            assert(line_views.skip(i as int).drop_first() =~= line_views.skip(i + 1));
        }
        let trimmed = trim(lines[i].as_str());
        proof {
            reveal_strlit("---");
        }
        if starts_with(trimmed, "---") {
            in_data = true;
        } else if in_data && contains_str(trimmed, key.as_str()) {
            let words = split_whitespace(trimmed);
            if words.len() >= 2 {
                let mut rest: Vec<String> = Vec::new();
                let mut k: usize = 1;
                let wn = words.len();
                proof {
                    assert(rest@.map_values(|s: String| s@) =~= split_ws(
                        trimmed@).subrange(1, 1));
                }
                while k < wn
                    invariant
                        1 <= k <= wn,
                        wn == words@.len(),
                        words@.map_values(|t: String| t@) == split_ws(trimmed@),
                        rest@.map_values(|s: String| s@) == split_ws(trimmed@).subrange(
                            1, k as int),
                    decreases wn - k,
                {
                    let ghost mid = rest@.map_values(|s: String| s@);
                    rest.push(words[k].clone());
                    proof {
                        assert(words@.map_values(|t: String| t@)[k as int] == words@[
                            k as int
                        ]@);
                        assert(rest@.map_values(|s: String| s@) =~= mid.push(split_ws(
                            trimmed@)[k as int]));
                        assert(mid.push(split_ws(trimmed@)[k as int]) =~= split_ws(
                            trimmed@).subrange(1, k + 1));
                    }
                    k += 1;
                }
                proof {
                    assert(split_ws(trimmed@).subrange(1, wn as int) =~= split_ws(
                        trimmed@).skip(1));
                    reveal_strlit(" ");
                    assert(" "@ =~= seq![' ']);
                }
                let joined = join_strings(&rest, " ");
                if joined.as_str().unicode_len() > 0 {
                    proof {
                        assert(trimmed@ == spec_trim(line_views[i as int]));
                        assert(joined@ == join_with(split_ws(trimmed@).skip(1), seq![
                            ' ',
                        ]));
                        assert(spec_report_filter_lines(line_views.skip(i as int), key@,
                            in_data) == Some(joined@));
                    }
                    return Some(joined);
                }
                proof {
                    assert(join_with(split_ws(trimmed@).skip(1), seq![' ']).len() == 0);
                }
            }
        }
        i += 1;
    }
    proof {
        assert(line_views.skip(n as int) =~= Seq::<Seq<char>>::empty());
    }
    None
}

/// The embedded on-disk store's verified half: given the records the
/// store holds, already converted to the unified representation, it
/// computes what an export returns.  Opening the store, enumerating
/// and mutating records stay with the caller, which owns the store
/// handle behind its per-operation lock.
#[derive(Clone, Debug)]
pub struct TaskChampionBackend {
    /// Where the store lives on disk, when configured explicitly.
    pub data_dir: Option<String>,
}

/// What an embedded export returns: the non-deleted records that pass
/// the effective filter (the explicit one, else the report's default),
/// cut down to any limit directive the effective filter carries.
pub open spec fn spec_embedded_export(
    records: Seq<TaskRecord>,
    filter: Seq<char>,
    report_filter: Seq<char>,
) -> Seq<TaskRecord> {
    let live = records.filter(|t: TaskRecord| !(t.status is Deleted));
    let effective = if filter.len() > 0 {
        filter
    } else {
        report_filter
    };
    let kept = spec_filtered(live, effective);
    match spec_filter_limit(effective) {
        Some(limit) => if limit < kept.len() {
            kept.subrange(0, limit as int)
        } else {
            kept
        },
        None => kept,
    }
}

impl TaskChampionBackend {
    /// Remembers where the store lives; the sync server configuration
    /// is accepted for compatibility and not yet used.
    pub fn new(data_dir: Option<String>, _server_config: Option<String>) -> (r: Self)
        ensures
            r.data_dir == data_dir,
    {
        TaskChampionBackend { data_dir }
    }

    /// The export pipeline over the store's records.  With an empty
    /// explicit filter and an empty report filter, the result is
    /// exactly the non-deleted records, unfiltered and unlimited.
    pub fn export_tasks(&self, records: Vec<TaskRecord>, filter: &str, report_filter:
        &str) -> (r: Vec<TaskRecord>)
        ensures
            r@ == spec_embedded_export(records@, filter@, report_filter@),
    {
        let ghost orig = records@;
        let ghost live_pred = |t: TaskRecord| !(t.status is Deleted);
        let mut live: Vec<TaskRecord> = Vec::new();
        let mut records = records;
        let n0 = records.len();
        let mut i: usize = 0;
        proof {
            reveal(Seq::filter);
            assert(orig.subrange(0, 0) =~= Seq::<TaskRecord>::empty());
            assert(orig.skip(0) =~= orig);
        }
        while records.len() > 0
            invariant
                i <= orig.len(),
                orig.len() == n0,
                live_pred == (|t: TaskRecord| !(t.status is Deleted)),
                records@ == orig.skip(i as int),
                live@ == orig.subrange(0, i as int).filter(live_pred),
            decreases records@.len(),
        {
            let rec = records.remove(0);
            proof {
                assert(orig.skip(i as int).remove(0) =~= orig.skip(i + 1));
                assert(rec == orig[i as int]);
                let pre = orig.subrange(0, i as int);
                let cur = orig.subrange(0, i + 1);
                assert(cur.drop_last() =~= pre);
                assert(cur.last() == orig[i as int]);
                reveal(Seq::filter);
            }
            let keep = match rec.status {
                TaskStatus::Deleted => false,
                _ => true,
            };
            if keep {
                live.push(rec);
            }
            i += 1;
        }
        proof {
            assert(orig.skip(i as int).len() == 0);
            assert(orig.subrange(0, i as int) =~= orig);
        }
        let effective: &str = if filter.unicode_len() > 0 {
            filter
        } else {
            report_filter
        };
        let mut kept = filter_tasks(live, effective);
        match extract_limit_from_filter(effective) {
            Some(limit) => {
                let ghost before = kept@;
                kept.truncate(limit);
                proof {
                    if limit < before.len() {
                        assert(kept@ =~= before.subrange(0, limit as int));
                    }
                }
                kept
            },
            None => kept,
        }
    }
}

/// The application-level choice of store and its settings.
#[derive(Clone, Debug)]
pub struct Config {
    pub uda_backend: String,
    pub uda_taskchampion_data_dir: Option<String>,
    pub uda_taskchampion_server_config: Option<String>,
}

impl Config {
    /// The default configuration: the shell-invoked store, no
    /// embedded-store paths.
    pub fn new() -> (r: Self)
        ensures
            r.uda_backend@ == "cli"@,
            r.uda_taskchampion_data_dir is None,
            r.uda_taskchampion_server_config is None,
    {
        Config {
            uda_backend: "cli".to_owned(),
            uda_taskchampion_data_dir: None,
            uda_taskchampion_server_config: None,
        }
    }
}

} // verus!
