//! Integration with the external time-tracking tool: its
//! configuration, a TTL-bound cache of the currently tracked task
//! ids, and the decisions around refreshing and consulting it.
//!
//! The external tool itself is only ever consulted by the caller; the
//! functions here decide *when* a query is due ([`TimewarriorIntegration::needs_refresh`])
//! and fold a query's outcome back into the cache
//! ([`TimewarriorIntegration::apply_refresh`]), so that the TTL
//! discipline is a proved property of this module rather than a habit
//! of its callers.  Times are the caller's monotonic clock in
//! milliseconds.

use vstd::prelude::*;

use crate::text::{split_ws, split_whitespace, spec_starts_with, starts_with, lower_seq,
    to_lowercase_ascii, str_eq};

verus! {

/// How long a refreshed tracked-id set stays fresh, in milliseconds.
pub const TRACKING_TTL_MS: u64 = 5000;

/// Configuration of the time-tracking integration.
#[derive(Clone, Debug)]
pub struct TimewarriorConfig {
    pub enabled: bool,
    pub tag_prefix: String,
    pub include_project: bool,
    pub include_description: bool,
    pub log_level: String,
    pub hook_installed: bool,
}

impl Default for TimewarriorConfig {
    /// Enabled, no tag prefix, project included, description not,
    /// log level `info`, hook not installed.
    fn default() -> (r: Self)
        ensures
            r.enabled == true,
            r.tag_prefix@ == Seq::<char>::empty(),
            r.include_project == true,
            r.include_description == false,
            r.log_level@ == "info"@,
            r.hook_installed == false,
    {
        TimewarriorConfig {
            enabled: true,
            tag_prefix: String::new(),
            include_project: true,
            include_description: false,
            log_level: "info".to_owned(),
            hook_installed: false,
        }
    }
}

impl TimewarriorConfig {
    /// Folds one probed setting into the configuration, mirroring the
    /// tool's `uda.timewarrior.<key>` settings: a nonempty value sets
    /// the named field (booleans compare case-insensitively against
    /// `true`); an empty value restores the boolean defaults and
    /// leaves the strings alone; an unknown key changes nothing.
    pub fn apply_setting(&mut self, key: &str, value: &str)
        ensures
            ({
                let lower_true = lower_seq(value@) == "true"@;
                let nonempty = value@.len() > 0;
                if key@ == "enabled"@ {
                    &&& final(self).enabled == (if nonempty { lower_true } else { true })
                    &&& final(self).tag_prefix == old(self).tag_prefix
                    &&& final(self).include_project == old(self).include_project
                    &&& final(self).include_description == old(self).include_description
                    &&& final(self).log_level == old(self).log_level
                    &&& final(self).hook_installed == old(self).hook_installed
                } else if key@ == "tag.prefix"@ {
                    &&& final(self).tag_prefix@ == (if nonempty { value@ } else { old(
                        self).tag_prefix@ })
                    &&& final(self).enabled == old(self).enabled
                    &&& final(self).include_project == old(self).include_project
                    &&& final(self).include_description == old(self).include_description
                    &&& final(self).log_level == old(self).log_level
                    &&& final(self).hook_installed == old(self).hook_installed
                } else if key@ == "include.project"@ {
                    &&& final(self).include_project == (if nonempty { lower_true } else {
                        true
                    })
                    &&& final(self).enabled == old(self).enabled
                    &&& final(self).tag_prefix == old(self).tag_prefix
                    &&& final(self).include_description == old(self).include_description
                    &&& final(self).log_level == old(self).log_level
                    &&& final(self).hook_installed == old(self).hook_installed
                } else if key@ == "include.description"@ {
                    &&& final(self).include_description == (if nonempty { lower_true
                    } else {
                        false
                    })
                    &&& final(self).enabled == old(self).enabled
                    &&& final(self).tag_prefix == old(self).tag_prefix
                    &&& final(self).include_project == old(self).include_project
                    &&& final(self).log_level == old(self).log_level
                    &&& final(self).hook_installed == old(self).hook_installed
                } else if key@ == "log.level"@ {
                    &&& final(self).log_level@ == (if nonempty { value@ } else { old(
                        self).log_level@ })
                    &&& final(self).enabled == old(self).enabled
                    &&& final(self).tag_prefix == old(self).tag_prefix
                    &&& final(self).include_project == old(self).include_project
                    &&& final(self).include_description == old(self).include_description
                    &&& final(self).hook_installed == old(self).hook_installed
                } else {
                    *final(self) == *old(self)
                }
            }),
    {
        let nonempty = value.unicode_len() > 0;
        if str_eq(key, "enabled") {
            if nonempty {
                let lv = to_lowercase_ascii(value);
                self.enabled = str_eq(lv.as_str(), "true");
            } else {
                self.enabled = true;
            }
        } else if str_eq(key, "tag.prefix") {
            if nonempty {
                self.tag_prefix = value.to_owned();
            }
        } else if str_eq(key, "include.project") {
            if nonempty {
                let lv = to_lowercase_ascii(value);
                self.include_project = str_eq(lv.as_str(), "true");
            } else {
                self.include_project = true;
            }
        } else if str_eq(key, "include.description") {
            if nonempty {
                let lv = to_lowercase_ascii(value);
                self.include_description = str_eq(lv.as_str(), "true");
            } else {
                self.include_description = false;
            }
        } else if str_eq(key, "log.level") {
            if nonempty {
                self.log_level = value.to_owned();
            }
        }
    }
}

/// The TTL-bound cache of the task ids the external tool is currently
/// tracking.
#[derive(Clone, Debug)]
pub struct TrackingCache {
    pub tracked_task_uuids: Vec<String>,
    /// When the set was last replaced, in caller-clock milliseconds;
    /// absent until the first refresh.
    pub last_updated: Option<u64>,
    /// How long the set stays fresh, in milliseconds.
    pub cache_duration_ms: u64,
}

impl TrackingCache {
    /// Is the cached set stale at `now_ms`?  A cache that was never
    /// refreshed is stale at every time, so the first consultation
    /// always forces a refresh.
    pub open spec fn spec_is_expired(self, now_ms: int) -> bool {
        match self.last_updated {
            None => true,
            Some(t) => now_ms - t > self.cache_duration_ms,
        }
    }

    /// The caller's clock has not run backwards past the refresh stamp.
    pub open spec fn clock_ok(self, now_ms: int) -> bool {
        self.last_updated matches Some(t) ==> t <= now_ms
    }

    /// A fresh, empty cache that has never been refreshed, and is
    /// therefore expired immediately.
    pub fn new() -> (r: Self)
        ensures
            r.tracked_task_uuids@.len() == 0,
            r.last_updated is None,
            r.cache_duration_ms == TRACKING_TTL_MS,
            forall|now_ms: int| r.spec_is_expired(now_ms),
    {
        TrackingCache {
            tracked_task_uuids: Vec::new(),
            last_updated: None,
            cache_duration_ms: TRACKING_TTL_MS,
        }
    }

    pub fn is_expired(&self, now_ms: u64) -> (r: bool)
        requires
            self.clock_ok(now_ms as int),
        ensures
            r == self.spec_is_expired(now_ms as int),
    {
        match self.last_updated {
            None => true,
            Some(t) => now_ms - t > self.cache_duration_ms,
        }
    }

    /// Replaces the tracked set wholesale and stamps the refresh time.
    pub fn update(&mut self, tracked_uuids: Vec<String>, now_ms: u64)
        ensures
            final(self).tracked_task_uuids == tracked_uuids,
            final(self).last_updated == Some(now_ms),
            final(self).cache_duration_ms == old(self).cache_duration_ms,
    {
        self.tracked_task_uuids = tracked_uuids;
        self.last_updated = Some(now_ms);
    }

    /// Is `uuid` in the cached tracked set?
    pub fn contains(&self, uuid: &str) -> (r: bool)
        ensures
            r == self.tracked_task_uuids@.map_values(|s: String| s@).contains(uuid@),
    {
        crate::text::vec_contains_str(&self.tracked_task_uuids, uuid)
    }
}

/// Status of the integration as shown to the user.
#[derive(Clone, Debug)]
pub struct TimewarriorStatus {
    pub timewarrior_available: bool,
    pub hook_installed: bool,
    pub integration_enabled: bool,
    pub active_tracking: Option<ActiveTrackingInfo>,
}

/// What the external tool reports about the one active tracking span.
#[derive(Clone, Debug)]
pub struct ActiveTrackingInfo {
    pub tags: String,
    pub duration: String,
}

/// The task ids named by `uuid:`-prefixed tags among the given tags.
pub open spec fn spec_tracked_uuids(terms: Seq<Seq<char>>) -> Seq<Seq<char>>
    decreases terms.len(),
{
    if terms.len() == 0 {
        Seq::empty()
    } else {
        (if spec_starts_with(terms[0], "uuid:"@) {
            seq![terms[0].skip(5)]
        } else {
            Seq::<Seq<char>>::empty()
        }) + spec_tracked_uuids(terms.drop_first())
    }
}

proof fn lemma_tracked_uuids_push(terms: Seq<Seq<char>>, t: Seq<char>)
    ensures
        spec_tracked_uuids(terms.push(t)) == spec_tracked_uuids(terms) + (
        if spec_starts_with(t, "uuid:"@) {
            seq![t.skip(5)]
        } else {
            Seq::<Seq<char>>::empty()
        }),
    decreases terms.len(),
{
    reveal_with_fuel(spec_tracked_uuids, 3);
    let tail: Seq<Seq<char>> = if spec_starts_with(t, "uuid:"@) {
        seq![t.skip(5)]
    } else {
        Seq::empty()
    };
    if terms.len() == 0 {
        assert(terms.push(t)[0] == t);
        assert(terms.push(t).drop_first() =~= Seq::<Seq<char>>::empty());
        assert(spec_tracked_uuids(terms.push(t)) =~= tail);
        assert(spec_tracked_uuids(terms) + tail =~= tail);
    } else {
        assert(terms.push(t)[0] == terms[0]);
        assert(terms.push(t).drop_first() =~= terms.drop_first().push(t));
        lemma_tracked_uuids_push(terms.drop_first(), t);
        assert(spec_tracked_uuids(terms.push(t)) =~= spec_tracked_uuids(terms) + tail);
    }
}

/// Extracts the task ids from the tool's active-tag listing: every
/// whitespace-separated tag of the form `uuid:<id>` contributes its id.
pub fn extract_tracked_uuids(tags_text: &str) -> (r: Vec<String>)
    ensures
        r@.map_values(|s: String| s@) == spec_tracked_uuids(split_ws(tags_text@)),
{
    let terms = split_whitespace(tags_text);
    let ghost term_views = split_ws(tags_text@);
    let mut out: Vec<String> = Vec::new();
    let mut i: usize = 0;
    let n = terms.len();
    proof {
        assert(term_views.subrange(0, 0) =~= Seq::<Seq<char>>::empty());
        assert(out@.map_values(|s: String| s@) =~= Seq::<Seq<char>>::empty());
    }
    while i < n
        invariant
            i <= n,
            n == terms@.len(),
            terms@.map_values(|t: String| t@) == term_views,
            out@.map_values(|s: String| s@) == spec_tracked_uuids(term_views.subrange(0,
                i as int)),
        decreases n - i,
    {
        proof {
            assert(term_views[i as int] == terms@[i as int]@);
        }
        let term = &terms[i];
        let ghost pre = out@.map_values(|s: String| s@);
        if starts_with(term.as_str(), "uuid:") {
            proof {
                reveal_strlit("uuid:");
            }
            let tlen = term.as_str().unicode_len();
            let id = term.as_str().substring_char(5, tlen);
            proof {
                assert(id@ =~= term_views[i as int].skip(5));
            }
            out.push(id.to_owned());
            proof {
                assert(out@.map_values(|s: String| s@) =~= pre + seq![
                    term_views[i as int].skip(5),
                ]);
            }
        } else {
            proof {
                assert(pre + Seq::<Seq<char>>::empty() =~= pre);
            }
        }
        proof {
            let taken = term_views.subrange(0, i as int);
            assert(taken.push(term_views[i as int]) =~= term_views.subrange(0, i + 1));
            lemma_tracked_uuids_push(taken, term_views[i as int]);
        }
        i += 1;
    }
    proof {
        assert(term_views.subrange(0, n as int) =~= term_views);
    }
    out
}

/// The integration: configuration, availability as probed at startup,
/// and the tracking cache.
#[derive(Clone, Debug)]
pub struct TimewarriorIntegration {
    pub config: TimewarriorConfig,
    pub timewarrior_available: bool,
    pub tracking_cache: TrackingCache,
}

impl TimewarriorIntegration {
    /// A refresh is due when the integration could answer at all
    /// (tool available and integration enabled) and the cache is stale.
    pub open spec fn spec_needs_refresh(self, now_ms: int) -> bool {
        self.timewarrior_available && self.config.enabled
            && self.tracking_cache.spec_is_expired(now_ms)
    }

    /// Builds the integration from the probed availability and the
    /// loaded configuration; the cache starts empty and never
    /// refreshed, so the first consultation forces a refresh.
    pub fn new(config: TimewarriorConfig, timewarrior_available: bool) -> (r: Self)
        ensures
            r.config == config,
            r.timewarrior_available == timewarrior_available,
            r.tracking_cache.tracked_task_uuids@.len() == 0,
            r.tracking_cache.last_updated is None,
            r.tracking_cache.cache_duration_ms == TRACKING_TTL_MS,
            forall|now_ms: int| r.tracking_cache.spec_is_expired(now_ms),
    {
        TimewarriorIntegration {
            config,
            timewarrior_available,
            tracking_cache: TrackingCache::new(),
        }
    }

    /// Is the hook installed, as the loaded configuration reports it?
    pub fn is_hook_installed(&self) -> (r: bool)
        ensures
            r == self.config.hook_installed,
    {
        self.config.hook_installed
    }

    /// The current configuration.
    pub fn get_config(&self) -> (r: &TimewarriorConfig)
        ensures
            *r == self.config,
    {
        &self.config
    }

    /// Replaces the configuration and returns the settings to persist
    /// back to the task tool, in order: `enabled`, `tag.prefix`,
    /// `include.project`, `include.description`, `log.level`, each
    /// with its serialized value.
    pub fn update_config(&mut self, new_config: TimewarriorConfig) -> (plan: Vec<(String,
        String)>)
        ensures
            final(self).config == new_config,
            final(self).timewarrior_available == old(self).timewarrior_available,
            final(self).tracking_cache == old(self).tracking_cache,
            plan@.len() == 5,
            plan@[0].0@ == "enabled"@ && plan@[0].1@ == spec_bool_str(new_config.enabled),
            plan@[1].0@ == "tag.prefix"@ && plan@[1].1@ == new_config.tag_prefix@,
            plan@[2].0@ == "include.project"@ && plan@[2].1@ == spec_bool_str(
                new_config.include_project),
            plan@[3].0@ == "include.description"@ && plan@[3].1@ == spec_bool_str(
                new_config.include_description),
            plan@[4].0@ == "log.level"@ && plan@[4].1@ == new_config.log_level@,
    {
        let mut plan: Vec<(String, String)> = Vec::new();
        plan.push(("enabled".to_owned(), bool_string(new_config.enabled)));
        plan.push(("tag.prefix".to_owned(), new_config.tag_prefix.clone()));
        plan.push(("include.project".to_owned(), bool_string(new_config.include_project)));
        plan.push(("include.description".to_owned(), bool_string(
            new_config.include_description)));
        plan.push(("log.level".to_owned(), new_config.log_level.clone()));
        self.config = new_config;
        plan
    }

    /// Must the caller query the external tool before answering a
    /// tracking question at `now_ms`?
    pub fn needs_refresh(&self, now_ms: u64) -> (r: bool)
        requires
            self.tracking_cache.clock_ok(now_ms as int),
        ensures
            r == self.spec_needs_refresh(now_ms as int),
    {
        if !self.timewarrior_available || !self.config.enabled {
            return false;
        }
        self.tracking_cache.is_expired(now_ms)
    }

    /// Folds a query's outcome into the cache: the tool's active tag
    /// listing when tracking is active, or nothing on any failure or
    /// inactivity, which degrades to an empty tracked set.
    pub fn apply_refresh(&mut self, outcome: Option<&str>, now_ms: u64)
        ensures
            final(self).config == old(self).config,
            final(self).timewarrior_available == old(self).timewarrior_available,
            final(self).tracking_cache.cache_duration_ms == old(
                self).tracking_cache.cache_duration_ms,
            final(self).tracking_cache.last_updated == Some(now_ms),
            final(self).tracking_cache.tracked_task_uuids@.map_values(|s: String| s@)
                == match outcome {
                Some(tags) => spec_tracked_uuids(split_ws(tags@)),
                None => Seq::<Seq<char>>::empty(),
            },
    {
        let tracked_ids: Vec<String> = match outcome {
            Some(tags) => extract_tracked_uuids(tags),
            None => Vec::new(),
        };
        proof {
            if outcome is None {
                assert(tracked_ids@.map_values(|s: String| s@)
                    =~= Seq::<Seq<char>>::empty());
            }
        }
        self.tracking_cache.update(tracked_ids, now_ms);
    }

    /// A forced refresh: the same fold, applied without consulting
    /// the TTL window at all.
    pub fn force_refresh_tracking_cache(&mut self, outcome: Option<&str>, now_ms: u64)
        ensures
            final(self).config == old(self).config,
            final(self).timewarrior_available == old(self).timewarrior_available,
            final(self).tracking_cache.cache_duration_ms == old(
                self).tracking_cache.cache_duration_ms,
            final(self).tracking_cache.last_updated == Some(now_ms),
            final(self).tracking_cache.tracked_task_uuids@.map_values(|s: String| s@)
                == match outcome {
                Some(tags) => spec_tracked_uuids(split_ws(tags@)),
                None => Seq::<Seq<char>>::empty(),
            },
    {
        self.apply_refresh(outcome, now_ms);
    }

    /// Answers whether `task_uuid` is being tracked, from the current
    /// cache: false whenever the tool is unavailable or the
    /// integration disabled, false on a stale cache (the caller
    /// refreshes first when [`Self::needs_refresh`] says so), and the
    /// cached membership otherwise.
    pub fn is_task_being_tracked(&self, task_uuid: &str, now_ms: u64) -> (r: bool)
        requires
            self.tracking_cache.clock_ok(now_ms as int),
        ensures
            r == (self.timewarrior_available && self.config.enabled
                && !self.tracking_cache.spec_is_expired(now_ms as int)
                && self.tracking_cache.tracked_task_uuids@.map_values(|s: String| s@)
                .contains(task_uuid@)),
    {
        if !self.timewarrior_available || !self.config.enabled {
            return false;
        }
        if self.tracking_cache.is_expired(now_ms) {
            return false;
        }
        self.tracking_cache.contains(task_uuid)
    }

    /// Assembles the user-facing status from a freshly probed
    /// availability, this integration's configuration, and the
    /// separately probed active-tracking information.
    pub fn get_status(&self, timewarrior_available: bool, active_tracking: Option<
        ActiveTrackingInfo>) -> (r: TimewarriorStatus)
        ensures
            r.timewarrior_available == timewarrior_available,
            r.hook_installed == self.config.hook_installed,
            r.integration_enabled == self.config.enabled,
            r.active_tracking == active_tracking,
    {
        TimewarriorStatus {
            timewarrior_available,
            hook_installed: self.config.hook_installed,
            integration_enabled: self.config.enabled,
            active_tracking,
        }
    }

    /// Does the tool's `dom.active` answer report active tracking?
    /// Exactly when the answer, trimmed, is `1`.
    pub fn is_tracking_active(active_output: &str) -> (r: bool)
        ensures
            r == (crate::text::spec_trim(active_output@) == "1"@),
    {
        let trimmed = crate::text::trim(active_output);
        str_eq(trimmed, "1")
    }

    /// Builds the active-tracking report from the tool's raw answers:
    /// tracking is active exactly when the active flag, trimmed, is
    /// `1`; missing tag or duration answers fall back to fixed texts.
    pub fn active_tracking_from_probe(active: &str, tags: Option<String>, duration:
        Option<String>) -> (r: Option<ActiveTrackingInfo>)
        ensures
            ({
                if crate::text::spec_trim(active@) == "1"@ {
                    match r {
                        Some(info) => {
                            &&& info.tags@ == match tags {
                                Some(t) => t@,
                                None => "No tags"@,
                            }
                            &&& info.duration@ == match duration {
                                Some(d) => d@,
                                None => "Unknown"@,
                            }
                        },
                        None => false,
                    }
                } else {
                    r is None
                }
            }),
    {
        if Self::is_tracking_active(active) {
            let tags_text = match tags {
                Some(t) => t,
                None => "No tags".to_owned(),
            };
            let duration_text = match duration {
                Some(d) => d,
                None => "Unknown".to_owned(),
            };
            Some(ActiveTrackingInfo { tags: tags_text, duration: duration_text })
        } else {
            None
        }
    }

    /// The setup report: one line group per concern (tool found, hook
    /// installed, integration enabled), each a fixed text chosen by
    /// the corresponding flag.
    pub fn get_setup_instructions(&self) -> (r: Vec<String>)
        ensures
            r@.map_values(|s: String| s@) == spec_setup_instructions(
                self.timewarrior_available, self.config.hook_installed,
                self.config.enabled),
            r@.len() > 0,
    {
        let mut instructions: Vec<String> = Vec::new();
        if !self.timewarrior_available {
            instructions.push(
                "\u{274c} Timewarrior not found. Please install timewarrior first:".to_owned());
            instructions.push(
                "   - Linux: apt install timewarrior / yum install timewarrior".to_owned());
            instructions.push("   - macOS: brew install timewarrior".to_owned());
            instructions.push(
                "   - Windows: See https://timewarrior.net/download/".to_owned());
            instructions.push("".to_owned());
        } else {
            instructions.push("\u{2705} Timewarrior found and available".to_owned());
        }
        if !self.config.hook_installed {
            instructions.push("\u{274c} Timewarrior hook not installed".to_owned());
            instructions.push(
                "   Run the hook installation command to enable integration".to_owned());
        } else {
            instructions.push("\u{2705} Timewarrior hook installed".to_owned());
        }
        if !self.config.enabled {
            instructions.push("\u{274c} Timewarrior integration disabled".to_owned());
            instructions.push("   Enable integration in configuration".to_owned());
        } else {
            instructions.push("\u{2705} Timewarrior integration enabled".to_owned());
        }
        proof {
            assert(instructions@.map_values(|s: String| s@) =~= spec_setup_instructions(
                self.timewarrior_available, self.config.hook_installed,
                self.config.enabled));
        }
        instructions
    }
}

/// The serialized form of a boolean setting.
pub open spec fn spec_bool_str(b: bool) -> Seq<char> {
    if b {
        "true"@
    } else {
        "false"@
    }
}

fn bool_string(b: bool) -> (r: String)
    ensures
        r@ == spec_bool_str(b),
{
    if b {
        "true".to_owned()
    } else {
        "false".to_owned()
    }
}

/// The setup report's lines, by the three flags.
pub open spec fn spec_setup_instructions(available: bool, hook_installed: bool, enabled:
    bool) -> Seq<Seq<char>> {
    (if !available {
        seq![
            "\u{274c} Timewarrior not found. Please install timewarrior first:"@,
            "   - Linux: apt install timewarrior / yum install timewarrior"@,
            "   - macOS: brew install timewarrior"@,
            "   - Windows: See https://timewarrior.net/download/"@,
            ""@,
        ]
    } else {
        seq!["\u{2705} Timewarrior found and available"@]
    }) + (if !hook_installed {
        seq![
            "\u{274c} Timewarrior hook not installed"@,
            "   Run the hook installation command to enable integration"@,
        ]
    } else {
        seq!["\u{2705} Timewarrior hook installed"@]
    }) + (if !enabled {
        seq![
            "\u{274c} Timewarrior integration disabled"@,
            "   Enable integration in configuration"@,
        ]
    } else {
        seq!["\u{2705} Timewarrior integration enabled"@]
    })
}

impl Default for TimewarriorIntegration {
    /// An integration with the default configuration, the tool taken
    /// as unavailable, and an empty, never-refreshed cache.
    fn default() -> (r: Self)
        ensures
            r.timewarrior_available == false,
            r.config.enabled == true,
            r.config.tag_prefix@ == Seq::<char>::empty(),
            r.config.include_project == true,
            r.config.include_description == false,
            r.config.log_level@ == "info"@,
            r.config.hook_installed == false,
            r.tracking_cache.tracked_task_uuids@.len() == 0,
            r.tracking_cache.last_updated is None,
            r.tracking_cache.cache_duration_ms == TRACKING_TTL_MS,
    {
        TimewarriorIntegration::new(TimewarriorConfig::default(), false)
    }
}

/// Within the time-to-live window after a refresh, consulting the
/// tracking state needs no further external query: for any two
/// consultation times inside the window, the refresh decision is
/// negative at both, so at most the one query that filled the cache
/// is ever made for them.  A forced refresh, by contrast, is folded
/// in unconditionally: its contract never consults the window.
pub proof fn lemma_at_most_one_query_within_ttl(
    tw: TimewarriorIntegration,
    refreshed_at: u64,
    t1: u64,
    t2: u64,
)
    requires
        tw.tracking_cache.last_updated == Some(refreshed_at),
        refreshed_at <= t1,
        refreshed_at <= t2,
        t1 - refreshed_at <= tw.tracking_cache.cache_duration_ms,
        t2 - refreshed_at <= tw.tracking_cache.cache_duration_ms,
    ensures
        !tw.spec_needs_refresh(t1 as int),
        !tw.spec_needs_refresh(t2 as int),
{
}

} // verus!
