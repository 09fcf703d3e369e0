//! The settings that the navigator's decisions depend on.

use crate::model::Source;
use crate::order::{comes_first, orders, sorted_order, Ranked};
use crate::text::{content, contents, same};
use vstd::prelude::*;

verus! {

/// Which sources are listed.
#[derive(Debug)]
pub struct SourcesConfig {
    pub open_workspaces: bool,
    pub herdr_plus_projects: bool,
    pub zoxide: bool,
    pub roots: bool,
    pub servers: bool,
    pub sessions: bool,
    pub agents: bool,
    pub herdr_plus_quick_actions: bool,
}

/// A bonus for the entries of one source.
#[derive(Debug)]
pub struct SourceBonus {
    pub source: Source,
    pub bonus: i32,
}

/// How the picker lists and opens entries.
#[derive(Debug)]
pub struct PickerConfig {
    pub preview: bool,
    /// The matcher that scores entries against plain words.
    pub engine: String,
    /// How agents are sorted: `priority`, `spaces`, or anything else to follow Herdr's panel.
    pub agent_sort: String,
    /// The names of the sources, in the order in which they are listed.
    pub source_order: Vec<String>,
    pub source_bonuses: Vec<SourceBonus>,
    /// The project template that a directory can be opened with.
    pub directory_template: Option<String>,
    /// Whether an open workspace of the right kind is focused instead of creating another.
    pub reuse_existing: bool,
    /// Whether a workspace is created where there is none.
    pub create_missing: bool,
    /// Whether the label of a created workspace starts with its kind.
    pub prefix_workspace_labels: bool,
    pub preview_git_status: bool,
    pub preview_tree_depth: u32,
    pub preview_scrollback_lines: u32,
}

/// How jumping back to the previous workspace works.
#[derive(Debug)]
pub struct JumpBackConfig {
    pub enabled: bool,
    /// Whether the previous workspace is listed first.
    pub pin_previous: bool,
}

/// All settings.
#[derive(Debug)]
pub struct Config {
    pub picker: PickerConfig,
    pub sources: SourcesConfig,
    pub jump_back: JumpBackConfig,
}

impl SourcesConfig {
    /// Whether entries of a source are listed. Integrations always are. Tabs and panes never are on
    /// their own: they stand under their workspace.
    pub open spec fn spec_enabled(self, source: Source) -> bool {
        match source {
            Source::Workspace => self.open_workspaces,
            Source::Agent => self.agents,
            Source::Project => self.herdr_plus_projects,
            Source::Zoxide => self.zoxide,
            Source::Root => self.roots,
            Source::Server => self.servers,
            Source::Session => self.sessions,
            Source::QuickAction => self.herdr_plus_quick_actions,
            Source::Integration => true,
            Source::Tab => false,
            Source::Pane => false,
        }
    }

    /// Whether entries of a source are listed.
    pub fn enabled(&self, source: &Source) -> (yes: bool)
        ensures
            yes == self.spec_enabled(*source),
    {
        match source {
            Source::Workspace => self.open_workspaces,
            Source::Agent => self.agents,
            Source::Project => self.herdr_plus_projects,
            Source::Zoxide => self.zoxide,
            Source::Root => self.roots,
            Source::Server => self.servers,
            Source::Session => self.sessions,
            Source::QuickAction => self.herdr_plus_quick_actions,
            Source::Integration => true,
            Source::Tab => false,
            Source::Pane => false,
        }
    }
}

/// The position of a name in a list, or the length of the list where it is missing.
pub open spec fn name_rank(names: Seq<Seq<char>>, name: Seq<char>) -> nat
    decreases names.len(),
{
    if names.len() == 0 || names[0] == name {
        0
    } else {
        1 + name_rank(names.drop_first(), name)
    }
}

/// The bonus of the first item for a source, or zero where there is none.
pub open spec fn bonus_for(bonuses: Seq<SourceBonus>, source: Source) -> int
    decreases bonuses.len(),
{
    if bonuses.len() == 0 {
        0
    } else if bonuses[0].source == source {
        bonuses[0].bonus as int
    } else {
        bonus_for(bonuses.drop_first(), source)
    }
}

impl PickerConfig {
    /// The position of a source in the configured order. Sources that it leaves out come last.
    pub open spec fn spec_source_rank(self, source: Source) -> nat {
        name_rank(contents(self.source_order@), source.spec_name())
    }

    /// The position of a source in the configured order.
    pub fn source_rank(&self, source: &Source) -> (rank: usize)
        ensures
            rank == self.spec_source_rank(*source),
    {
        let name: &str = source.name();
        let ghost names = contents(self.source_order@);
        let mut i: usize = 0;
        assert(names.skip(0) == names);
        while i < self.source_order.len()
            invariant
                i <= self.source_order.len(),
                names == contents(self.source_order@),
                name@ == source.spec_name(),
                name_rank(names, name@) == i + name_rank(names.skip(i as int), name@),
            decreases self.source_order.len() - i,
        {
            assert(names.skip(i as int)[0] == self.source_order@[i as int]@);
            if same(self.source_order[i].as_str(), name) {
                return i;
            }
            assert(names.skip(i as int).drop_first() =~= names.skip(i + 1));
            i += 1;
        }
        i
    }

    /// The bonus that entries of a source earn.
    pub fn source_bonus(&self, source: &Source) -> (bonus: i64)
        ensures
            bonus == bonus_for(self.source_bonuses@, *source),
            i32::MIN <= bonus <= i32::MAX,
    {
        let ghost all = self.source_bonuses@;
        let mut i: usize = 0;
        assert(all.skip(0) == all);
        while i < self.source_bonuses.len()
            invariant
                i <= self.source_bonuses.len(),
                all == self.source_bonuses@,
                bonus_for(all, *source) == bonus_for(all.skip(i as int), *source),
            decreases self.source_bonuses.len() - i,
        {
            if self.source_bonuses[i].source == *source {
                return self.source_bonuses[i].bonus as i64;
            }
            assert(all.skip(i as int).drop_first() =~= all.skip(i + 1));
            i += 1;
        }
        0
    }
}

/// The place of a source among all of them.
pub open spec fn place(source: Source) -> int {
    match source {
        Source::Workspace => 0,
        Source::Agent => 1,
        Source::Project => 2,
        Source::Zoxide => 3,
        Source::Root => 4,
        Source::Server => 5,
        Source::Session => 6,
        Source::QuickAction => 7,
        Source::Integration => 8,
        Source::Tab => 9,
        Source::Pane => 10,
    }
}

/// A source with its rank in the configured order.
struct RankedSource {
    source: Source,
    rank: usize,
}

impl Ranked for RankedSource {
    closed spec fn goes_before(&self, other: &Self) -> bool {
        self.rank < other.rank
    }

    fn is_before(&self, other: &Self) -> (yes: bool) {
        self.rank < other.rank
    }

    proof fn law_asymmetric(a: &Self, b: &Self) {
    }

    proof fn law_comparable(a: &Self, b: &Self, c: &Self) {
    }
}

impl Config {
    /// Whether a list holds the enabled sources, each once, in the configured order, with those that
    /// it leaves out behind the others in the order of their places.
    pub open spec fn is_source_order(self, list: Seq<Source>) -> bool {
        &&& forall|k: int|
            0 <= k < list.len() ==> self.sources.spec_enabled(#[trigger] list[k])
        &&& forall|source: Source|
            self.sources.spec_enabled(source) ==> #[trigger] list.contains(source)
        &&& forall|a: int, b: int|
            0 <= a < b < list.len() ==> self.source_before(#[trigger] list[a], #[trigger] list[b])
    }

    /// Whether one source is listed before another.
    pub open spec fn source_before(self, one: Source, other: Source) -> bool {
        let (r, s) = (self.picker.spec_source_rank(one), self.picker.spec_source_rank(other));
        r < s || (r == s && place(one) < place(other))
    }

    /// The enabled sources in the configured order.
    pub open spec fn source_sequence(self) -> Seq<Source> {
        choose|list: Seq<Source>| self.is_source_order(list)
    }

    /// The enabled sources in the configured order.
    pub fn enabled_sources_in_order(&self) -> (list: Vec<Source>)
        ensures
            self.is_source_order(list@),
            list@ == self.source_sequence(),
    {
        let all: [Source; 9] = [
            Source::Workspace,
            Source::Agent,
            Source::Project,
            Source::Zoxide,
            Source::Root,
            Source::Server,
            Source::Session,
            Source::QuickAction,
            Source::Integration,
        ];
        let mut ranked: Vec<RankedSource> = Vec::new();
        let mut i: usize = 0;
        while i < 9
            invariant
                i <= 9,
                forall|k: int| 0 <= k < 9 ==> place(#[trigger] all@[k]) == k,
                forall|k: int|
                    #![trigger ranked@[k]]
                    0 <= k < ranked.len() ==> self.sources.spec_enabled(ranked@[k].source)
                        && ranked@[k].rank == self.picker.spec_source_rank(ranked@[k].source)
                        && place(ranked@[k].source) < i,
                forall|a: int, b: int|
                    0 <= a < b < ranked.len() ==> place((#[trigger] ranked@[a]).source) < place(
                        (#[trigger] ranked@[b]).source,
                    ),
                forall|source: Source|
                    self.sources.spec_enabled(source) && #[trigger] place(source) < i
                        ==> exists|k: int|
                        0 <= k < ranked.len() && (#[trigger] ranked@[k]).source == source,
            decreases 9 - i,
        {
            let source: Source = all[i];
            let ghost done = ranked@;
            if self.sources.enabled(&source) {
                let rank: usize = self.picker.source_rank(&source);
                ranked.push(RankedSource { source, rank });
            }
            proof {
                assert forall|s: Source|
                    self.sources.spec_enabled(s) && #[trigger] place(s) < i + 1 implies exists|
                    k: int,
                | 0 <= k < ranked.len() && (#[trigger] ranked@[k]).source == s by {
                    if place(s) < i {
                        let k = choose|k: int|
                            0 <= k < done.len() && (#[trigger] done[k]).source == s;
                        assert(ranked@[k].source == s);
                    } else {
                        assert(s == source);
                        assert(ranked@[ranked.len() - 1].source == s);
                    }
                }
            }
            i += 1;
        }
        let order: Vec<usize> = sorted_order(&ranked);
        let mut list: Vec<Source> = Vec::new();
        let mut j: usize = 0;
        while j < order.len()
            invariant
                orders(ranked@, order@),
                j <= order.len(),
                list.len() == j,
                forall|k: int|
                    0 <= k < j ==> #[trigger] list@[k] == ranked@[order@[k] as int].source,
            decreases order.len() - j,
        {
            list.push(ranked[order[j]].source);
            j += 1;
        }
        proof {
            assert forall|source: Source| self.sources.spec_enabled(source) implies
                #[trigger] list@.contains(source) by {
                assert(place(source) < 9);
                let k = choose|k: int|
                    0 <= k < ranked.len() && (#[trigger] ranked@[k]).source == source;
                assert(order@.contains(k as usize));
                let m = choose|m: int| 0 <= m < order.len() && order@[m] == k as usize;
                assert(list@[m] == source);
            }
            assert forall|a: int, b: int| 0 <= a < b < list.len() implies self.source_before(
                #[trigger] list@[a],
                #[trigger] list@[b],
            ) by {
                assert(comes_first(ranked@, order@[a] as int, order@[b] as int));
                assert(ranked@[order@[a] as int].source == list@[a]);
                assert(ranked@[order@[b] as int].source == list@[b]);
            }
            assert(self.is_source_order(list@));
            law_source_order_unique(*self, list@, self.source_sequence());
        }
        list
    }
}

proof fn lemma_source_prefix(config: Config, one: Seq<Source>, other: Seq<Source>, n: int)
    requires
        config.is_source_order(one),
        config.is_source_order(other),
        0 <= n <= one.len(),
    ensures
        n <= other.len(),
        one.take(n) == other.take(n),
    decreases n,
{
    if n > 0 {
        let k = n - 1;
        lemma_source_prefix(config, one, other, k);
        assert(other.contains(one[k]));
        let m = choose|m: int| 0 <= m < other.len() && other[m] == one[k];
        if m < k {
            assert(one.take(k)[m] == one[m]);
            assert(other.take(k)[m] == other[m]);
            assert(config.source_before(one[m], one[k]));
        }
        assert(one.contains(other[k]));
        let p = choose|p: int| 0 <= p < one.len() && one[p] == other[k];
        if p < k {
            assert(one.take(k)[p] == one[p]);
            assert(other.take(k)[p] == other[p]);
            assert(config.source_before(other[p], other[k]));
        }
        if m > k && p > k {
            assert(config.source_before(other[k], other[m]));
            assert(config.source_before(one[k], one[p]));
        }
        assert(one[k] == other[k]);
        assert(one.take(n) =~= one.take(k).push(one[k]));
        assert(other.take(n) =~= other.take(k).push(other[k]));
    }
}

/// The enabled sources have one order only.
pub proof fn law_source_order_unique(config: Config, one: Seq<Source>, other: Seq<Source>)
    requires
        config.is_source_order(one),
        config.is_source_order(other),
    ensures
        one == other,
{
    lemma_source_prefix(config, one, other, one.len() as int);
    lemma_source_prefix(config, other, one, other.len() as int);
    assert(one.take(one.len() as int) =~= one);
    assert(other.take(other.len() as int) =~= other);
}

/// The settings without a configuration file: every source is listed, in the order of their places,
/// and the previous workspace is listed first.
pub open spec fn is_default(config: Config) -> bool {
    &&& config.picker.preview
    &&& config.picker.engine@ == "fuzzy"@
    &&& config.picker.agent_sort@ == "herdr"@
    &&& contents(config.picker.source_order@) == seq![
        "workspace"@,
        "agent"@,
        "project"@,
        "zoxide"@,
        "root"@,
        "server"@,
        "session"@,
        "quick_action"@,
        "integration"@,
    ]
    &&& config.picker.source_bonuses@.len() == 0
    &&& content(config.picker.directory_template) is None
    &&& config.picker.reuse_existing
    &&& config.picker.create_missing
    &&& config.picker.prefix_workspace_labels
    &&& config.picker.preview_git_status
    &&& config.picker.preview_tree_depth == 2
    &&& config.picker.preview_scrollback_lines == 200
    &&& config.sources.open_workspaces
    &&& config.sources.herdr_plus_projects
    &&& config.sources.zoxide
    &&& config.sources.roots
    &&& config.sources.servers
    &&& config.sources.sessions
    &&& config.sources.agents
    &&& config.sources.herdr_plus_quick_actions
    &&& config.jump_back.enabled
    &&& config.jump_back.pin_previous
}

impl Default for Config {
    fn default() -> (config: Self)
        ensures
            is_default(config),
    {
        let mut source_order: Vec<String> = Vec::new();
        source_order.push("workspace".to_owned());
        source_order.push("agent".to_owned());
        source_order.push("project".to_owned());
        source_order.push("zoxide".to_owned());
        source_order.push("root".to_owned());
        source_order.push("server".to_owned());
        source_order.push("session".to_owned());
        source_order.push("quick_action".to_owned());
        source_order.push("integration".to_owned());
        let config = Config {
            picker: PickerConfig {
                preview: true,
                engine: "fuzzy".to_owned(),
                agent_sort: "herdr".to_owned(),
                source_order,
                source_bonuses: Vec::new(),
                directory_template: None,
                reuse_existing: true,
                create_missing: true,
                prefix_workspace_labels: true,
                preview_git_status: true,
                preview_tree_depth: 2,
                preview_scrollback_lines: 200,
            },
            sources: SourcesConfig {
                open_workspaces: true,
                herdr_plus_projects: true,
                zoxide: true,
                roots: true,
                servers: true,
                sessions: true,
                agents: true,
                herdr_plus_quick_actions: true,
            },
            jump_back: JumpBackConfig { enabled: true, pin_previous: true },
        };
        assert(contents(config.picker.source_order@) =~= seq![
            "workspace"@,
            "agent"@,
            "project"@,
            "zoxide"@,
            "root"@,
            "server"@,
            "session"@,
            "quick_action"@,
            "integration"@,
        ]);
        config
    }
}

} // verus!
