//! The docked tools. Every tool is a tab; the layout tree belongs to the user.

use vstd::prelude::*;

verus! {

#[derive(Clone, Copy, PartialEq, Eq, Structural, Debug)]
pub enum Tab {
    Hierarchy,
    Inspector,
    Environment,
    Performance,
    Scene,
    Console,
    Scripts,
}

impl Tab {
    /// Every tool, in the order the Window menu lists them. `Scripts` is here
    /// even in a build without scripting, so a layout written by one build
    /// still loads in the other.
    pub const ALL: [Tab; 7] = [
        Tab::Hierarchy,
        Tab::Inspector,
        Tab::Environment,
        Tab::Performance,
        Tab::Scene,
        Tab::Console,
        Tab::Scripts,
    ];

    #[verifier::allow_in_spec]
    pub fn title(self) -> &'static str
        returns
            (match self {
                Tab::Hierarchy => "Hierarchy",
                Tab::Inspector => "Inspector",
                Tab::Environment => "Environment",
                Tab::Performance => "Performance",
                Tab::Scene => "Scene",
                Tab::Console => "Console",
                Tab::Scripts => "Scripts",
            }),
    {
        match self {
            Tab::Hierarchy => "Hierarchy",
            Tab::Inspector => "Inspector",
            Tab::Environment => "Environment",
            Tab::Performance => "Performance",
            Tab::Scene => "Scene",
            Tab::Console => "Console",
            Tab::Scripts => "Scripts",
        }
    }
}

/// Where the default layout docks the tools, split outwards from the
/// viewport: the hierarchy on the left, the environment, performance and
/// scene tools on the right, the console and scripts below, and the
/// inspector split off the right-hand tools. The proportions of the splits
/// are the drawing's.
pub open spec fn default_groups() -> Seq<Seq<Tab>> {
    seq![
        seq![Tab::Hierarchy],
        seq![Tab::Environment, Tab::Performance, Tab::Scene],
        seq![Tab::Console, Tab::Scripts],
        seq![Tab::Inspector],
    ]
}

pub fn default_tab_groups() -> (r: Vec<Vec<Tab>>)
    ensures
        r@.map_values(|g: Vec<Tab>| g@) == default_groups(),
{
    let mut groups: Vec<Vec<Tab>> = Vec::new();
    groups.push(vec![Tab::Hierarchy]);
    groups.push(vec![Tab::Environment, Tab::Performance, Tab::Scene]);
    groups.push(vec![Tab::Console, Tab::Scripts]);
    groups.push(vec![Tab::Inspector]);
    proof {
        assert(groups@[0]@ =~= seq![Tab::Hierarchy]);
        assert(groups@[1]@ =~= seq![Tab::Environment, Tab::Performance, Tab::Scene]);
        assert(groups@[2]@ =~= seq![Tab::Console, Tab::Scripts]);
        assert(groups@[3]@ =~= seq![Tab::Inspector]);
        assert(groups@.map_values(|g: Vec<Tab>| g@) =~= default_groups());
    }
    groups
}

/// How many times `tab` stands in `group`.
pub open spec fn count_in(group: Seq<Tab>, tab: Tab) -> nat
    decreases group.len(),
{
    if group.len() == 0 {
        0
    } else {
        count_in(group.drop_last(), tab) + if group.last() == tab {
            1nat
        } else {
            0
        }
    }
}

/// How many times `tab` is docked in `groups`.
pub open spec fn docked_count(groups: Seq<Seq<Tab>>, tab: Tab) -> nat
    decreases groups.len(),
{
    if groups.len() == 0 {
        0
    } else {
        docked_count(groups.drop_last(), tab) + count_in(groups.last(), tab)
    }
}

/// The default layout docks every tool exactly once.
pub proof fn lemma_default_layout_docks_every_tool_once(tab: Tab)
    ensures
        docked_count(default_groups(), tab) == 1,
{
    let g = default_groups();
    assert(g.drop_last() =~= seq![
        seq![Tab::Hierarchy],
        seq![Tab::Environment, Tab::Performance, Tab::Scene],
        seq![Tab::Console, Tab::Scripts],
    ]);
    assert(g.drop_last().drop_last() =~= seq![
        seq![Tab::Hierarchy],
        seq![Tab::Environment, Tab::Performance, Tab::Scene],
    ]);
    assert(g.drop_last().drop_last().drop_last() =~= seq![seq![Tab::Hierarchy]]);
    assert(g.drop_last().drop_last().drop_last().drop_last() =~= Seq::<Seq<Tab>>::empty());
    let a = seq![Tab::Environment, Tab::Performance, Tab::Scene];
    assert(a.drop_last() =~= seq![Tab::Environment, Tab::Performance]);
    assert(a.drop_last().drop_last() =~= seq![Tab::Environment]);
    assert(a.drop_last().drop_last().drop_last() =~= Seq::<Tab>::empty());
    let b = seq![Tab::Console, Tab::Scripts];
    assert(b.drop_last() =~= seq![Tab::Console]);
    assert(b.drop_last().drop_last() =~= Seq::<Tab>::empty());
    assert(seq![Tab::Hierarchy].drop_last() =~= Seq::<Tab>::empty());
    assert(seq![Tab::Inspector].drop_last() =~= Seq::<Tab>::empty());
    reveal_with_fuel(count_in, 4);
    reveal_with_fuel(docked_count, 5);
}

/// The group of the default layout that holds `tab`: where a tool belongs.
pub open spec fn home_group(tab: Tab) -> Seq<Tab> {
    match tab {
        Tab::Hierarchy => default_groups()[0],
        Tab::Environment | Tab::Performance | Tab::Scene => default_groups()[1],
        Tab::Console | Tab::Scripts => default_groups()[2],
        Tab::Inspector => default_groups()[3],
    }
}

/// The first tool of `group`, other than `tab`, that is open.
pub open spec fn first_open_other(group: Seq<Tab>, tab: Tab, open: Seq<Tab>) -> Option<Tab>
    decreases group.len(),
{
    if group.len() == 0 {
        None
    } else if group[0] != tab && open.contains(group[0]) {
        Some(group[0])
    } else {
        first_open_other(group.drop_first(), tab, open)
    }
}

fn is_listed(open: &[Tab], tab: Tab) -> (r: bool)
    ensures
        r == open@.contains(tab),
{
    let mut i: usize = 0;
    while i < open.len()
        invariant
            i <= open@.len(),
            forall|j: int| 0 <= j < i ==> open@[j] != tab,
        decreases open.len() - i,
    {
        if open[i] == tab {
            return true;
        }
        i += 1;
    }
    false
}

/// Where a reopened tool goes: beside the first tool it shares a group with
/// in the default layout that is open now, so a tool always comes back
/// where the user expects it. `None` when no such tool is open; the tool
/// then goes to the first leaf.
pub fn restore_neighbour(tab: Tab, open: &[Tab]) -> (r: Option<Tab>)
    ensures
        r == first_open_other(home_group(tab), tab, open@),
{
    let group: Vec<Tab> = match tab {
        Tab::Hierarchy => vec![Tab::Hierarchy],
        Tab::Environment | Tab::Performance | Tab::Scene => vec![Tab::Environment, Tab::Performance, Tab::Scene],
        Tab::Console | Tab::Scripts => vec![Tab::Console, Tab::Scripts],
        Tab::Inspector => vec![Tab::Inspector],
    };
    let ghost home = home_group(tab);
    assert(group@ =~= home);
    assert(home.skip(0) =~= home);
    let mut i: usize = 0;
    while i < group.len()
        invariant
            group@ == home,
            home == home_group(tab),
            i <= home.len(),
            first_open_other(home, tab, open@) == first_open_other(home.skip(i as int), tab, open@),
        decreases group.len() - i,
    {
        let other = group[i];
        assert(home.skip(i as int)[0] == other);
        assert(home.skip(i as int).drop_first() =~= home.skip(i + 1));
        if other != tab && is_listed(open, other) {
            assert(first_open_other(home.skip(i as int), tab, open@) == Some(other));
            return Some(other);
        }
        i += 1;
    }
    assert(home.skip(i as int) =~= Seq::<Tab>::empty());
    None
}

/// Where a tool is: out of the layout, docked in the main window, or in a
/// floating window of its own.
#[derive(Clone, Copy, PartialEq, Eq, Structural, Debug)]
pub enum TabPlace {
    Closed,
    Docked,
    Floating,
}

impl TabPlace {
    pub fn is_open(self) -> (r: bool)
        ensures
            r == !(self is Closed),
    {
        !matches!(self, TabPlace::Closed)
    }

    pub fn is_floating(self) -> (r: bool)
        ensures
            r == (self is Floating),
    {
        matches!(self, TabPlace::Floating)
    }
}

/// What a Window-menu command does to the layout.
#[derive(Clone, Copy, PartialEq, Eq, Structural, Debug)]
pub enum DockAction {
    /// Take the tool out of the layout.
    Close,
    /// Dock the tool beside `beside`, or in the first leaf when that is `None`.
    Restore { beside: Option<Tab> },
    /// Move the tool into a floating window of its own.
    Float,
    /// Take the tool out of its window and dock it beside `beside`, or in
    /// the first leaf when that is `None`.
    Return { beside: Option<Tab> },
    Nothing,
}

/// Toggling a tool closes an open one and brings a closed one back to where
/// the default layout keeps it.
pub fn toggle_action(tab: Tab, place: TabPlace, open: &[Tab]) -> (r: DockAction)
    ensures
        r == match place {
            TabPlace::Closed => DockAction::Restore { beside: first_open_other(home_group(tab), tab, open@) },
            _ => DockAction::Close,
        },
{
    match place {
        TabPlace::Closed => DockAction::Restore { beside: restore_neighbour(tab, open) },
        _ => DockAction::Close,
    }
}

/// Floating is symmetric, so no floated tool is stranded: a docked tool pops
/// out into its own window, a floating one goes back where it belongs, and a
/// closed one stays closed.
pub fn toggle_float_action(tab: Tab, place: TabPlace, open: &[Tab]) -> (r: DockAction)
    ensures
        r == match place {
            TabPlace::Closed => DockAction::Nothing,
            TabPlace::Docked => DockAction::Float,
            TabPlace::Floating => DockAction::Return { beside: first_open_other(home_group(tab), tab, open@) },
        },
{
    match place {
        TabPlace::Closed => DockAction::Nothing,
        TabPlace::Docked => DockAction::Float,
        TabPlace::Floating => DockAction::Return { beside: restore_neighbour(tab, open) },
    }
}

/// What `first_open_other` finds: a tool of the group, other than `tab`,
/// that is open, and the first such; nothing when the group has none.
proof fn lemma_first_open_other(group: Seq<Tab>, tab: Tab, open: Seq<Tab>)
    ensures
        match first_open_other(group, tab, open) {
            Some(t) => t != tab && open.contains(t) && exists|i: int|
                0 <= i < group.len() && group[i] == t && forall|j: int|
                    0 <= j < i ==> !(group[j] != tab && open.contains(group[j])),
            None => forall|i: int| 0 <= i < group.len() ==> !(group[i] != tab && open.contains(group[i])),
        },
    decreases group.len(),
{
    if group.len() > 0 {
        lemma_first_open_other(group.drop_first(), tab, open);
        if !(group[0] != tab && open.contains(group[0])) {
            match first_open_other(group.drop_first(), tab, open) {
                Some(t) => {
                    let i = choose|i: int|
                        0 <= i < group.drop_first().len() && group.drop_first()[i] == t && forall|j: int|
                            0 <= j < i ==> !(group.drop_first()[j] != tab && open.contains(group.drop_first()[j]));
                    assert(group[i + 1] == t);
                    assert forall|j: int| 0 <= j < i + 1 implies !(group[j] != tab && open.contains(group[j])) by {
                        if j > 0 {
                            assert(group[j] == group.drop_first()[j - 1]);
                        }
                    }
                },
                None => {
                    assert forall|i: int| 0 <= i < group.len() implies !(group[i] != tab && open.contains(group[i])) by {
                        if i > 0 {
                            assert(group[i] == group.drop_first()[i - 1]);
                        }
                    }
                },
            }
        }
    }
}

/// Every tool sits in exactly one group of the default layout.
proof fn lemma_one_home(tab: Tab, g: int)
    requires
        0 <= g < default_groups().len(),
        default_groups()[g].contains(tab),
    ensures
        default_groups()[g] == home_group(tab),
{
    let groups = default_groups();
    if g == 0 {
        assert(groups[0][0] == Tab::Hierarchy);
    } else if g == 1 {
        assert(groups[1][0] == Tab::Environment && groups[1][1] == Tab::Performance && groups[1][2] == Tab::Scene);
    } else if g == 2 {
        assert(groups[2][0] == Tab::Console && groups[2][1] == Tab::Scripts);
    } else {
        assert(groups[3][0] == Tab::Inspector);
    }
}

/// A reopened or re-docked tool goes beside a tool it shares a group of the
/// default layout with, one that is open now; and it goes to the first
/// leaf only when no tool of its default group but itself is open. So a
/// tool alone in its default group, like the Inspector, is never docked
/// beside another.
pub proof fn lemma_restore_beside_a_group_mate(tab: Tab, open: Seq<Tab>)
    ensures
        match first_open_other(home_group(tab), tab, open) {
            Some(t) => t != tab && open.contains(t) && exists|g: int|
                0 <= g < default_groups().len() && default_groups()[g].contains(tab) && default_groups()[g].contains(t),
            None => forall|g: int, t: Tab|
                0 <= g < default_groups().len() && default_groups()[g].contains(tab) && default_groups()[g].contains(t)
                    && t != tab ==> !open.contains(t),
        },
{
    lemma_first_open_other(home_group(tab), tab, open);
    let groups = default_groups();
    let home: int = match tab {
        Tab::Hierarchy => 0,
        Tab::Environment | Tab::Performance | Tab::Scene => 1,
        Tab::Console | Tab::Scripts => 2,
        Tab::Inspector => 3,
    };
    assert(groups[home] == home_group(tab));
    assert(groups[home].contains(tab)) by {
        if home == 0 {
            assert(groups[0][0] == tab);
        } else if home == 1 {
            assert(groups[1][0] == tab || groups[1][1] == tab || groups[1][2] == tab);
        } else if home == 2 {
            assert(groups[2][0] == tab || groups[2][1] == tab);
        } else {
            assert(groups[3][0] == tab);
        }
    }
    match first_open_other(home_group(tab), tab, open) {
        Some(t) => {
            let i = choose|i: int| 0 <= i < home_group(tab).len() && home_group(tab)[i] == t && forall|j: int|
                0 <= j < i ==> !(home_group(tab)[j] != tab && open.contains(home_group(tab)[j]));
            assert(groups[home].contains(t));
        },
        None => {
            assert forall|g: int, t: Tab|
                0 <= g < groups.len() && groups[g].contains(tab) && groups[g].contains(t) && t != tab implies !open.contains(
                t,
            ) by {
                lemma_one_home(tab, g);
                let i = choose|i: int| 0 <= i < groups[g].len() && groups[g][i] == t;
                assert(home_group(tab)[i] == t);
            }
        },
    }
}

} // verus!
