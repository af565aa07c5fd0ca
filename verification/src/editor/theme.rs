//! The editor's palettes: nine base greys plus an accent per theme, and the
//! set the session can switch between.
//!
//! A theme is exactly those colours; everything drawn is derived from them,
//! which keeps a user theme to ten lines of TOML.

use vstd::prelude::*;

use crate::text::str_eq;

verus! {

/// Name of the theme that ships with the editor.
pub const BUILT_IN: &'static str = "orrin-dark";

/// One editor palette, each colour an `[r, g, b]` triple.
#[derive(Clone, Debug)]
pub struct Theme {
    pub name: String,
    pub text: [u8; 3],
    pub panel: [u8; 3],
    pub window: [u8; 3],
    pub extreme: [u8; 3],
    pub faint: [u8; 3],
    pub widget: [u8; 3],
    pub widget_hover: [u8; 3],
    pub outline: [u8; 3],
    pub accent: [u8; 3],
}

/// The colours of the built-in theme.
pub open spec fn is_built_in(t: Theme) -> bool {
    &&& t.name@ == BUILT_IN@
    &&& t.text == [214u8, 218, 224]
    &&& t.panel == [24u8, 25, 28]
    &&& t.window == [30u8, 31, 35]
    &&& t.extreme == [18u8, 19, 21]
    &&& t.faint == [36u8, 38, 42]
    &&& t.widget == [45u8, 47, 52]
    &&& t.widget_hover == [56u8, 59, 66]
    &&& t.outline == [48u8, 50, 56]
    &&& t.accent == [80u8, 140, 255]
}

impl Default for Theme {
    fn default() -> (r: Self)
        ensures
            is_built_in(r),
    {
        Theme {
            name: String::from_str(BUILT_IN),
            text: [214, 218, 224],
            panel: [24, 25, 28],
            window: [30, 31, 35],
            extreme: [18, 19, 21],
            faint: [36, 38, 42],
            widget: [45, 47, 52],
            widget_hover: [56, 59, 66],
            outline: [48, 50, 56],
            accent: [80, 140, 255],
        }
    }
}

/// Every theme this session can switch between: the built-in first, then
/// those the project supplies, and which of them is active.
pub struct ThemeSet {
    themes: Vec<Theme>,
    active: usize,
}

/// The first theme named `name`, if any.
pub open spec fn position_of(themes: Seq<Theme>, name: Seq<char>) -> Option<int> {
    if exists|i: int| 0 <= i < themes.len() && #[trigger] themes[i].name@ == name {
        Some(choose|i: int| 0 <= i < themes.len() && #[trigger] themes[i].name@ == name && forall|j: int|
            0 <= j < i ==> themes[j].name@ != name)
    } else {
        None
    }
}

impl ThemeSet {
    #[verifier::type_invariant]
    spec fn active_exists(&self) -> bool {
        self.active < self.themes@.len()
    }

    /// The themes in the order they are listed.
    pub closed spec fn themes(&self) -> Seq<Theme> {
        self.themes@
    }

    /// Where the active theme stands in `themes()`.
    pub closed spec fn active_index(&self) -> int {
        self.active as int
    }

    /// The built-in theme first, then `loaded` in order, the built-in active.
    pub fn with_loaded(loaded: Vec<Theme>) -> (r: Self)
        requires
            loaded@.len() < usize::MAX,
        ensures
            r.themes().len() == loaded@.len() + 1,
            is_built_in(r.themes()[0]),
            r.themes().drop_first() == loaded@,
            r.active_index() == 0,
    {
        let mut themes: Vec<Theme> = Vec::new();
        themes.push(Theme::default());
        let mut loaded = loaded;
        let ghost given = loaded@;
        themes.append(&mut loaded);
        proof {
            assert(themes@.drop_first() =~= given);
        }
        ThemeSet { themes, active: 0 }
    }

    pub fn active(&self) -> (r: &Theme)
        ensures
            *r == self.themes()[self.active_index()],
    {
        proof {
            use_type_invariant(self);
        }
        &self.themes[self.active]
    }

    /// The names of the themes, in order.
    pub fn names(&self) -> (r: Vec<&str>)
        ensures
            r@.len() == self.themes().len(),
            forall|i: int| 0 <= i < r@.len() ==> (#[trigger] r@[i])@ == self.themes()[i].name@,
    {
        let mut r: Vec<&str> = Vec::new();
        let mut i: usize = 0;
        while i < self.themes.len()
            invariant
                i <= self.themes@.len(),
                r@.len() == i,
                forall|k: int| 0 <= k < i ==> (#[trigger] r@[k])@ == self.themes@[k].name@,
            decreases self.themes@.len() - i,
        {
            r.push(self.themes[i].name.as_str());
            i += 1;
        }
        r
    }

    /// Selects the first theme named `name`, and says whether that changed
    /// the selection. A name that no longer exists (a theme file deleted since
    /// it was chosen) leaves the selection alone rather than resetting it.
    pub fn select(&mut self, name: &str) -> (changed: bool)
        ensures
            final(self).themes() == old(self).themes(),
            0 <= final(self).active_index() < final(self).themes().len(),
            changed == (position_of(old(self).themes(), name@) matches Some(i) && i != old(self).active_index()),
            final(self).active_index() == if changed {
                position_of(old(self).themes(), name@)->Some_0
            } else {
                old(self).active_index()
            },
    {
        proof {
            use_type_invariant(&*self);
        }
        let mut i: usize = 0;
        while i < self.themes.len()
            invariant
                i <= self.themes@.len(),
                self.active < self.themes@.len(),
                self.themes@ == old(self).themes@,
                self.active == old(self).active,
                forall|j: int| 0 <= j < i ==> (#[trigger] self.themes@[j]).name@ != name@,
            decreases self.themes@.len() - i,
        {
            if str_eq(self.themes[i].name.as_str(), name) {
                proof {
                    let p = position_of(self.themes@, name@);
                    assert(p is Some);
                    let q = p->Some_0;
                    if q < i {
                        assert(self.themes@[q].name@ != name@);
                    }
                    if q > i {
                        assert(self.themes@[i as int].name@ == name@);
                    }
                    assert(q == i);
                }
                if i != self.active {
                    self.active = i;
                    return true;
                }
                return false;
            }
            i += 1;
        }
        false
    }
}

impl Default for ThemeSet {
    fn default() -> (r: Self)
        ensures
            r.themes().len() == 1,
            is_built_in(r.themes()[0]),
            r.active_index() == 0,
    {
        ThemeSet { themes: vec![Theme::default()], active: 0 }
    }
}

} // verus!
