use vstd::prelude::*;

verus! {

/// The three focus zones of the kiosk shell.
#[derive(Clone, Copy, PartialEq, Eq, Debug, Structural)]
pub enum Zone {
    Rail,
    Content,
    Player,
}

impl Zone {
    /// The zone's spelling, as the kiosk views compare it.
    pub open spec fn spec_name(self) -> Seq<char> {
        match self {
            Zone::Rail => seq!['r', 'a', 'i', 'l'],
            Zone::Content => seq!['c', 'o', 'n', 't', 'e', 'n', 't'],
            Zone::Player => seq!['p', 'l', 'a', 'y', 'e', 'r'],
        }
    }

    pub fn as_str(self) -> (s: &'static str)
        ensures
            s@ == self.spec_name(),
    {
        match self {
            Zone::Rail => {
                proof {
                    reveal_strlit("rail");
                }
                "rail"
            },
            Zone::Content => {
                proof {
                    reveal_strlit("content");
                }
                "content"
            },
            Zone::Player => {
                proof {
                    reveal_strlit("player");
                }
                "player"
            },
        }
    }
}

} // verus!

verus! {

/// The kiosk focus model: which zone holds the focus ring, where inside it,
/// and the shape of the content view mounted below the tab strip.
#[derive(Clone, Copy, Debug)]
pub struct NavModel {
    pub zone: Zone,
    pub index: i32,
    pub columns: i32,
    pub count: i32,
    pub nav_active: bool,
    pub tabs: i32,
    pub shelves: bool,
    pub hmove: i32,
    pub dir: i32,
    pub activate_seq: i32,
    /// Number of tiles on the navigation rail.
    pub rail_count: i32,
}

/// `max(a, b)` over mathematical integers.
pub open spec fn imax(a: int, b: int) -> int {
    if a >= b { a } else { b }
}

/// `min(a, b)` over mathematical integers.
pub open spec fn imin(a: int, b: int) -> int {
    if a <= b { a } else { b }
}

impl NavModel {
    /// The defaults of the kiosk navigation global.
    pub open spec fn spec_default() -> NavModel {
        NavModel {
            zone: Zone::Content,
            index: 0,
            columns: 1,
            count: 0,
            nav_active: false,
            tabs: 0,
            shelves: false,
            hmove: 0,
            dir: 0,
            activate_seq: 0,
            rail_count: 7,
        }
    }

    /// Columns, usable as a divisor.
    pub open spec fn spec_cols(self) -> int {
        imax(self.columns as int, 1)
    }

    /// The grid column of a content index past the tab strip.
    pub open spec fn spec_column(self) -> int {
        (self.index - self.tabs) % self.spec_cols()
    }

    /// `left` does not overflow on this state.
    pub open spec fn left_ok(self) -> bool {
        match self.zone {
            Zone::Rail => self.index > i32::MIN,
            Zone::Content => if self.index < self.tabs {
                self.index > i32::MIN
            } else if self.shelves {
                true
            } else {
                self.index - self.tabs <= i32::MAX
            },
            Zone::Player => true,
        }
    }

    /// The state after the Left key.
    pub open spec fn spec_left(self) -> NavModel {
        let m = NavModel { nav_active: true, dir: 0, ..self };
        match self.zone {
            Zone::Rail => NavModel { index: imax(self.index - 1, 0) as i32, ..m },
            Zone::Content => if self.index < self.tabs {
                NavModel { index: imax(self.index - 1, 0) as i32, ..m }
            } else if self.shelves {
                NavModel { hmove: -1i32, ..m }
            } else if self.spec_column() > 0 {
                NavModel { index: (self.index - 1) as i32, ..m }
            } else {
                m
            },
            Zone::Player => m,
        }
    }

    /// `right` does not overflow on this state.
    pub open spec fn right_ok(self) -> bool {
        match self.zone {
            Zone::Rail => self.index < i32::MAX && self.rail_count > i32::MIN,
            Zone::Content => if self.index < self.tabs {
                true
            } else if self.shelves {
                true
            } else {
                &&& self.index - self.tabs <= i32::MAX
                &&& (self.spec_column() < self.spec_cols() - 1 ==> self.index < i32::MAX)
            },
            Zone::Player => true,
        }
    }

    /// The state after the Right key.
    pub open spec fn spec_right(self) -> NavModel {
        let m = NavModel { nav_active: true, dir: 0, ..self };
        match self.zone {
            Zone::Rail => NavModel { index: imin(self.index + 1, self.rail_count - 1) as i32, ..m },
            Zone::Content => if self.index < self.tabs {
                NavModel { index: imin(self.index + 1, self.tabs - 1) as i32, ..m }
            } else if self.shelves {
                NavModel { hmove: 1, ..m }
            } else if self.spec_column() < self.spec_cols() - 1 && self.index + 1 < self.count {
                NavModel { index: (self.index + 1) as i32, ..m }
            } else {
                m
            },
            Zone::Player => m,
        }
    }

    /// `up` does not overflow on this state.
    pub open spec fn up_ok(self) -> bool {
        self.zone == Zone::Content ==> self.tabs + self.spec_cols() <= i32::MAX
    }

    /// The state after the Up key.
    pub open spec fn spec_up(self) -> NavModel {
        let m = NavModel { nav_active: true, dir: -1i32, ..self };
        match self.zone {
            Zone::Content => if self.index >= self.tabs + self.spec_cols() {
                NavModel { index: (self.index - self.spec_cols()) as i32, ..m }
            } else if self.index >= self.tabs && self.tabs > 0 {
                NavModel { index: imin(self.index - self.tabs, self.tabs - 1) as i32, ..m }
            } else {
                NavModel { zone: Zone::Rail, index: 0, ..m }
            },
            Zone::Rail => NavModel { zone: Zone::Player, index: 0, ..m },
            Zone::Player => NavModel { zone: Zone::Content, index: 0, ..m },
        }
    }

    /// `down` does not overflow on this state.
    pub open spec fn down_ok(self) -> bool {
        (self.zone == Zone::Content && self.index >= self.tabs) ==> self.index
            + self.spec_cols() <= i32::MAX
    }

    /// The state after the Down key.
    pub open spec fn spec_down(self) -> NavModel {
        let m = NavModel { nav_active: true, dir: 1, ..self };
        match self.zone {
            Zone::Content => if self.index < self.tabs {
                if self.count > self.tabs {
                    NavModel { index: self.tabs, ..m }
                } else {
                    NavModel { zone: Zone::Player, index: 0, ..m }
                }
            } else if self.index + self.spec_cols() < self.count {
                NavModel { index: (self.index + self.spec_cols()) as i32, ..m }
            } else {
                NavModel { zone: Zone::Player, index: 0, ..m }
            },
            Zone::Player => NavModel { zone: Zone::Rail, index: 0, ..m },
            Zone::Rail => NavModel { zone: Zone::Content, index: 0, ..m },
        }
    }

    /// The state after a view publishes its shape.
    pub open spec fn spec_publish(self, tabs: i32, columns: i32, count: i32, shelves: bool) -> NavModel {
        let count2 = imax(count as int, 0);
        let m = NavModel {
            tabs: imax(tabs as int, 0) as i32,
            columns: imax(columns as int, 1) as i32,
            count: count2 as i32,
            shelves,
            ..self
        };
        if self.zone == Zone::Content {
            NavModel { index: imin(imax(self.index as int, 0), imax(count2 - 1, 0)) as i32, ..m }
        } else {
            m
        }
    }

    /// The state after the view-switch reset.
    pub open spec fn spec_reset_for_view(self) -> NavModel {
        NavModel { zone: Zone::Content, index: 0, dir: 0, hmove: 0, ..self }
    }

    fn cols(&self) -> (c: i32)
        ensures
            c == self.spec_cols(),
    {
        if self.columns >= 1 {
            self.columns
        } else {
            1
        }
    }

    fn has_tabs(&self) -> (b: bool)
        ensures
            b == (self.tabs > 0),
    {
        self.tabs > 0
    }

    /// The Left key.
    pub fn left(&mut self)
        requires
            old(self).left_ok(),
        ensures
            *final(self) == old(self).spec_left(),
    {
        self.nav_active = true;
        self.dir = 0;
        match self.zone {
            Zone::Rail => {
                self.index = if self.index - 1 >= 0 { self.index - 1 } else { 0 };
            },
            Zone::Content => {
                if self.index < self.tabs {
                    self.index = if self.index - 1 >= 0 { self.index - 1 } else { 0 };
                } else if self.shelves {
                    self.hmove = -1;
                } else if (self.index - self.tabs) % self.cols() > 0 {
                    proof {
                        let x = self.index - self.tabs;
                        let c = self.spec_cols();
                        assert(x != 0) by (nonlinear_arith)
                            requires
                                x % c > 0,
                                c >= 1,
                        ;
                    }
                    self.index = self.index - 1;
                }
            },
            Zone::Player => {},
        }
    }

    /// The Right key.
    pub fn right(&mut self)
        requires
            old(self).right_ok(),
        ensures
            *final(self) == old(self).spec_right(),
    {
        self.nav_active = true;
        self.dir = 0;
        match self.zone {
            Zone::Rail => {
                let last = self.rail_count - 1;
                self.index = if self.index + 1 <= last { self.index + 1 } else { last };
            },
            Zone::Content => {
                if self.index < self.tabs {
                    let last = self.tabs - 1;
                    self.index = if self.index + 1 <= last { self.index + 1 } else { last };
                } else if self.shelves {
                    self.hmove = 1;
                } else if (self.index - self.tabs) % self.cols() < self.cols() - 1 && self.index + 1
                    < self.count {
                    self.index = self.index + 1;
                }
            },
            Zone::Player => {},
        }
    }

    /// The Up key. A view with no tab strip wraps from its first row
    /// straight to the rail.
    pub fn up(&mut self)
        requires
            old(self).up_ok(),
        ensures
            *final(self) == old(self).spec_up(),
    {
        self.nav_active = true;
        self.dir = -1;
        match self.zone {
            Zone::Content => {
                if self.index >= self.tabs + self.cols() {
                    self.index = self.index - self.cols();
                } else if self.index >= self.tabs && self.has_tabs() {
                    let column = self.index - self.tabs;
                    let last_tab = self.tabs - 1;
                    self.index = if column <= last_tab { column } else { last_tab };
                } else {
                    self.zone = Zone::Rail;
                    self.index = 0;
                }
            },
            Zone::Rail => {
                self.zone = Zone::Player;
                self.index = 0;
            },
            Zone::Player => {
                self.zone = Zone::Content;
                self.index = 0;
            },
        }
    }

    /// The Down key.
    pub fn down(&mut self)
        requires
            old(self).down_ok(),
        ensures
            *final(self) == old(self).spec_down(),
    {
        self.nav_active = true;
        self.dir = 1;
        match self.zone {
            Zone::Content => {
                if self.index < self.tabs {
                    if self.count > self.tabs {
                        self.index = self.tabs;
                    } else {
                        self.zone = Zone::Player;
                        self.index = 0;
                    }
                } else if self.index + self.cols() < self.count {
                    self.index = self.index + self.cols();
                } else {
                    self.zone = Zone::Player;
                    self.index = 0;
                }
            },
            Zone::Player => {
                self.zone = Zone::Rail;
                self.index = 0;
            },
            Zone::Rail => {
                self.zone = Zone::Content;
                self.index = 0;
            },
        }
    }

    /// Enter on a content view: raise the activation pulse.
    pub fn bump_activate(&mut self)
        ensures
            *final(self) == (NavModel {
                nav_active: true,
                activate_seq: old(self).activate_seq.wrapping_add(1),
                ..*old(self)
            }),
    {
        self.nav_active = true;
        self.activate_seq = self.activate_seq.wrapping_add(1);
    }

    /// Latch the focus ring on without moving.
    pub fn mark_active(&mut self)
        ensures
            *final(self) == (NavModel { nav_active: true, ..*old(self) }),
    {
        self.nav_active = true;
    }

    /// A route change: focus lands on the new view's first item; the ring
    /// latch survives.
    pub fn reset_for_view(&mut self)
        ensures
            *final(self) == old(self).spec_reset_for_view(),
    {
        self.zone = Zone::Content;
        self.index = 0;
        self.dir = 0;
        self.hmove = 0;
    }

    /// A mounted view reports its shape. The index is clamped into the new
    /// data only while the focus is in the content zone.
    pub fn publish(&mut self, tabs: i32, columns: i32, count: i32, shelves: bool)
        ensures
            *final(self) == old(self).spec_publish(tabs, columns, count, shelves),
    {
        self.tabs = if tabs >= 0 { tabs } else { 0 };
        self.columns = if columns >= 1 { columns } else { 1 };
        self.count = if count >= 0 { count } else { 0 };
        self.shelves = shelves;
        if self.zone == Zone::Content {
            let hi = if self.count - 1 >= 0 { self.count - 1 } else { 0 };
            let lo_clamped = if self.index >= 0 { self.index } else { 0 };
            self.index = if lo_clamped <= hi { lo_clamped } else { hi };
        }
    }

    /// Read the pending shelf move and clear it in one step.
    pub fn take_hmove(&mut self) -> (taken: i32)
        ensures
            taken == old(self).hmove,
            *final(self) == (NavModel { hmove: 0, ..*old(self) }),
    {
        let taken = self.hmove;
        self.hmove = 0;
        taken
    }
}

impl Default for NavModel {
    fn default() -> (m: Self)
        ensures
            m == NavModel::spec_default(),
    {
        NavModel {
            zone: Zone::Content,
            index: 0,
            columns: 1,
            count: 0,
            nav_active: false,
            tabs: 0,
            shelves: false,
            hmove: 0,
            dir: 0,
            activate_seq: 0,
            rail_count: 7,
        }
    }
}


/// The focus ring sits on an existing slot of the content view: the view's
/// shape is sane (`0 <= tabs <= count`, at least one column) and, while the
/// focus is in the content zone, the index names a tab or an item.
pub open spec fn focus_on_data(m: NavModel) -> bool {
    &&& 0 <= m.tabs <= m.count
    &&& m.columns >= 1
    &&& m.zone == Zone::Content ==> 0 <= m.index <= imax(m.count - 1, 0)
}

/// Arrow keys, Enter, the view reset and a well-formed publish (one whose
/// tab strip is part of its count) never leave the content focus on a slot
/// that holds nothing.
pub proof fn lemma_focus_stays_on_data(m: NavModel, tabs: i32, columns: i32, count: i32, shelves: bool)
    requires
        focus_on_data(m),
    ensures
        focus_on_data(m.spec_left()),
        focus_on_data(m.spec_right()),
        focus_on_data(m.spec_up()),
        focus_on_data(m.spec_down()),
        focus_on_data(m.spec_reset_for_view()),
        focus_on_data(NavModel { nav_active: true, ..m }),
        tabs <= count ==> focus_on_data(m.spec_publish(tabs, columns, count, shelves)),
{
    if m.zone == Zone::Content && m.index >= m.tabs && m.spec_column() > 0 {
        let x = m.index - m.tabs;
        let c = m.spec_cols();
        assert(x != 0) by (nonlinear_arith)
            requires
                x % c > 0,
                c >= 1,
        ;
    }
}

/// The zone cycle is closed: from the rail, Down then Up and Up then Down
/// both come back to the rail; from the player bar, Down then Up comes back
/// to the player bar.
pub proof fn lemma_zone_cycle_closes(m: NavModel)
    requires
        m.tabs >= 0,
    ensures
        m.zone == Zone::Rail ==> m.spec_down().spec_up().zone == Zone::Rail,
        m.zone == Zone::Rail ==> m.spec_up().spec_down().zone == Zone::Rail,
        m.zone == Zone::Player ==> m.spec_down().spec_up().zone == Zone::Player,
{
}

/// A shelf pulse is consumed once: taking it twice yields it, then nothing.
pub proof fn lemma_pulse_taken_once(m: NavModel)
    ensures
        (NavModel { hmove: 0, ..m }).hmove == 0,
        (NavModel { hmove: 0, ..NavModel { hmove: 0, ..m } }) == (NavModel { hmove: 0, ..m }),
{
}

/// Every navigation key latches the focus ring on; the view reset and a
/// publish leave the latch as it was.
pub proof fn lemma_ring_latch(m: NavModel, tabs: i32, columns: i32, count: i32, shelves: bool)
    ensures
        m.spec_left().nav_active,
        m.spec_right().nav_active,
        m.spec_up().nav_active,
        m.spec_down().nav_active,
        m.spec_reset_for_view().nav_active == m.nav_active,
        m.spec_publish(tabs, columns, count, shelves).nav_active == m.nav_active,
{
}

/// A publish that lands while the focus is on the rail or the player bar
/// leaves that zone's cursor untouched.
pub proof fn lemma_publish_keeps_other_zones(m: NavModel, tabs: i32, columns: i32, count: i32, shelves: bool)
    requires
        m.zone != Zone::Content,
    ensures
        m.spec_publish(tabs, columns, count, shelves).index == m.index,
        m.spec_publish(tabs, columns, count, shelves).zone == m.zone,
{
}

} // verus!
