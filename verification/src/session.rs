//! Session snapshots: the tabs, their split trees and the id counters, in a
//! form that can be written out and read back; and where sessions are kept.

use vstd::prelude::*;
use crate::pane_tree::{PaneId, PaneNode, PaneTree, lemma_tree_eq};
use crate::tabs::{Tab, TabId, TabSet, has_id};
use crate::text::{decimal, owned, string_views, u64_to_string};

verus! {

/// A saved tab.
#[derive(Debug)]
pub struct TabSnapshot {
    pub id: u32,
    pub title: Option<String>,
    pub focused_pane: u32,
    pub tree: PaneNode,
}

/// A saved session.
#[derive(Debug)]
pub struct SessionSnapshot {
    pub name: String,
    pub timestamp: String,
    pub tabs: Vec<TabSnapshot>,
    pub active_tab: u32,
    pub next_tab_id: u32,
    pub next_pane_id: u32,
}

/// The snapshot `s` records tab `t`.
pub open spec fn records(s: TabSnapshot, t: Tab) -> bool {
    &&& s.id == t.id.0
    &&& s.title == t.title
    &&& s.focused_pane == t.focused_pane.0
    &&& s.tree == t.tree.root_spec()
}

/// The snapshot records every tab of `set`, in order, its active tab and its
/// id counters.
pub open spec fn captures(snap: SessionSnapshot, set: TabSet) -> bool {
    &&& snap.tabs@.len() == set.tabs_spec().len()
    &&& forall|i: int| 0 <= i < snap.tabs@.len() ==> #[trigger] records(snap.tabs@[i], set.tabs_spec()[i])
    &&& snap.active_tab == set.active_spec().0
    &&& snap.next_tab_id == set.next_tab_spec()
    &&& snap.next_pane_id == set.next_pane_spec()
}

/// Some saved tab carries the saved active id.
pub open spec fn restorable(snap: SessionSnapshot) -> bool {
    exists|i: int| 0 <= i < snap.tabs@.len() && #[trigger] snap.tabs@[i].id == snap.active_tab
}

/// A copy of a split tree.
pub fn clone_node(node: &PaneNode) -> (r: PaneNode)
    ensures
        r == *node,
    decreases node,
{
    match node {
        PaneNode::Leaf(id) => PaneNode::Leaf(*id),
        PaneNode::Split { direction, ratio, first, second } => PaneNode::Split {
            direction: *direction,
            ratio: *ratio,
            first: Box::new(clone_node(first)),
            second: Box::new(clone_node(second)),
        },
    }
}

fn clone_title(t: &Option<String>) -> (r: Option<String>)
    ensures
        r == *t,
{
    match t {
        Some(s) => Some(s.clone()),
        None => None,
    }
}

impl SessionSnapshot {
    /// A snapshot of `tabs` named `name`, stamped with `unix_secs` (seconds
    /// since the Unix epoch, written in decimal).
    pub fn from_tab_set(tabs: &TabSet, name: &str, unix_secs: u64) -> (r: SessionSnapshot)
        ensures
            captures(r, *tabs),
            r.name@ == name@,
            r.timestamp@ == decimal(unix_secs as nat),
    {
        let timestamp = u64_to_string(unix_secs);
        let all = tabs.tabs();
        let mut snaps: Vec<TabSnapshot> = Vec::new();
        let mut i: usize = 0;
        while i < all.len()
            invariant
                all@ == tabs.tabs_spec(),
                i <= all@.len(),
                snaps@.len() == i,
                forall|j: int| 0 <= j < i ==> #[trigger] records(snaps@[j], all@[j]),
            decreases all@.len() - i,
        {
            let tab = &all[i];
            snaps.push(
                TabSnapshot {
                    id: tab.id.0,
                    title: clone_title(&tab.title),
                    focused_pane: tab.focused_pane.0,
                    tree: clone_node(tab.tree.root_node()),
                },
            );
            i = i + 1;
        }
        SessionSnapshot {
            name: owned(name),
            timestamp,
            tabs: snaps,
            active_tab: tabs.active_id().0,
            next_tab_id: tabs.next_tab_id(),
            next_pane_id: tabs.next_pane_id(),
        }
    }

    /// The tab set the snapshot records; `None` when no saved tab carries
    /// the saved active id.
    pub fn to_tab_set(&self) -> (r: Option<TabSet>)
        ensures
            r is Some <==> restorable(*self),
            r matches Some(set) ==> set.wf() && captures(*self, set),
    {
        let mut tabs: Vec<Tab> = Vec::new();
        let mut i: usize = 0;
        while i < self.tabs.len()
            invariant
                i <= self.tabs@.len(),
                tabs@.len() == i,
                forall|j: int| 0 <= j < i ==> #[trigger] records(self.tabs@[j], tabs@[j]),
            decreases self.tabs@.len() - i,
        {
            let snap = &self.tabs[i];
            tabs.push(
                Tab {
                    id: TabId(snap.id),
                    tree: PaneTree::from_node(clone_node(&snap.tree)),
                    focused_pane: PaneId(snap.focused_pane),
                    title: clone_title(&snap.title),
                },
            );
            i = i + 1;
        }
        let ghost built = tabs@;
        proof {
            if restorable(*self) {
                let k = choose|k: int| 0 <= k < self.tabs@.len() && #[trigger] self.tabs@[k].id
                    == self.active_tab;
                assert(records(self.tabs@[k], built[k]));
                assert(has_id(built, TabId(self.active_tab)));
            }
            if has_id(built, TabId(self.active_tab)) {
                let k = choose|k: int| 0 <= k < built.len() && #[trigger] built[k].id == TabId(
                    self.active_tab,
                );
                assert(records(self.tabs@[k], built[k]));
                assert(restorable(*self));
            }
        }
        TabSet::restore(tabs, TabId(self.active_tab), self.next_tab_id, self.next_pane_id)
    }
}

/// A snapshot of a well-formed tab set can be restored.
pub proof fn law_snapshot_restorable(snap: SessionSnapshot, set: TabSet)
    requires
        set.wf(),
        captures(snap, set),
    ensures
        restorable(snap),
{
    let k = choose|k: int| 0 <= k < set.tabs_spec().len() && #[trigger] set.tabs_spec()[k].id
        == set.active_spec();
    assert(records(snap.tabs@[k], set.tabs_spec()[k]));
}

/// Two tab sets recorded by the same snapshot hold the same tabs, the same
/// active tab and the same id counters: restoring a snapshot gives back what
/// it was taken from.
pub proof fn law_snapshot_round_trip(snap: SessionSnapshot, a: TabSet, b: TabSet)
    requires
        captures(snap, a),
        captures(snap, b),
    ensures
        a.tabs_spec() == b.tabs_spec(),
        a.active_spec() == b.active_spec(),
        a.next_tab_spec() == b.next_tab_spec(),
        a.next_pane_spec() == b.next_pane_spec(),
{
    assert forall|i: int| 0 <= i < a.tabs_spec().len() implies a.tabs_spec()[i] == b.tabs_spec()[i] by {
        assert(records(snap.tabs@[i], a.tabs_spec()[i]));
        assert(records(snap.tabs@[i], b.tabs_spec()[i]));
        lemma_tree_eq(a.tabs_spec()[i].tree, b.tabs_spec()[i].tree);
    }
    assert(a.tabs_spec() =~= b.tabs_spec());
}

/// The platform whose conventions place the data directory.
#[derive(Debug, Clone, Copy, PartialEq, Eq, Structural)]
pub enum Platform {
    Windows,
    MacOs,
    Other,
}

/// The path components of the sessions directory, first the base taken
/// from the environment: `%APPDATA%\zm-mux` on Windows,
/// `$HOME/Library/Application Support/zm-mux` on macOS, else
/// `$XDG_DATA_HOME/zm-mux`, else `$HOME/.zm-mux`, else `.zm-mux` relative
/// to the working directory; then `sessions`.
pub open spec fn sessions_dir_spec(
    platform: Platform,
    appdata: Option<Seq<char>>,
    home: Option<Seq<char>>,
    xdg_data_home: Option<Seq<char>>,
) -> Seq<Seq<char>> {
    let base: Seq<Seq<char>> = if platform == Platform::Windows && appdata is Some {
        seq![appdata->0, "zm-mux"@]
    } else if platform == Platform::MacOs && home is Some {
        seq![home->0, "Library"@, "Application Support"@, "zm-mux"@]
    } else if xdg_data_home is Some {
        seq![xdg_data_home->0, "zm-mux"@]
    } else if home is Some {
        seq![home->0, ".zm-mux"@]
    } else {
        seq![".zm-mux"@]
    };
    base.push("sessions"@)
}

/// The views of optional strings.
pub open spec fn opt_view(s: Option<String>) -> Option<Seq<char>> {
    match s {
        Some(v) => Some(v@),
        None => None,
    }
}

fn lit(s: &str) -> (r: String)
    ensures
        r@ == s@,
{
    owned(s)
}

/// The sessions directory, as path components (see [`sessions_dir_spec`]);
/// the environment values are handed in by the caller.
pub fn sessions_dir(
    platform: Platform,
    appdata: Option<String>,
    home: Option<String>,
    xdg_data_home: Option<String>,
) -> (r: Vec<String>)
    ensures
        string_views(r@) == sessions_dir_spec(
            platform,
            opt_view(appdata),
            opt_view(home),
            opt_view(xdg_data_home),
        ),
{
    let ghost a = opt_view(appdata);
    let ghost h = opt_view(home);
    let ghost x = opt_view(xdg_data_home);
    let mut parts: Vec<String> = Vec::new();
    let win = match platform {
        Platform::Windows => true,
        _ => false,
    };
    let mac = match platform {
        Platform::MacOs => true,
        _ => false,
    };
    if win && appdata.is_some() {
        let base = appdata.unwrap();
        parts.push(base);
        parts.push(lit("zm-mux"));
    } else if mac && home.is_some() {
        let base = home.unwrap();
        parts.push(base);
        parts.push(lit("Library"));
        parts.push(lit("Application Support"));
        parts.push(lit("zm-mux"));
    } else if xdg_data_home.is_some() {
        let base = xdg_data_home.unwrap();
        parts.push(base);
        parts.push(lit("zm-mux"));
    } else if home.is_some() {
        let base = home.unwrap();
        parts.push(base);
        parts.push(lit(".zm-mux"));
    } else {
        parts.push(lit(".zm-mux"));
    }
    parts.push(lit("sessions"));
    proof {
        assert(string_views(parts@) =~= sessions_dir_spec(platform, a, h, x));
    }
    parts
}

} // verus!
