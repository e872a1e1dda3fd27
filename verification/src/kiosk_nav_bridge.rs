use vstd::prelude::*;
use crate::kiosk_nav::{NavModel, Zone};

verus! {

/// One change notification of a mirrored property, in the order the view
/// observes them.
#[derive(Clone, Copy, Debug, PartialEq, Eq, Structural)]
pub enum NavProp {
    Zone,
    Index,
    Columns,
    Count,
    NavActive,
    Tabs,
    Shelves,
    Hmove,
    Dir,
    ActivateSeq,
}

/// The three properties views hold handlers on; everything else is context
/// those handlers read.
pub open spec fn is_consumer(p: NavProp) -> bool {
    p == NavProp::Hmove || p == NavProp::Index || p == NavProp::ActivateSeq
}

/// The view-facing mirror of the kiosk focus model. The model is the single
/// source of truth; the mirrored properties are written after every
/// mutation, and a property only notifies when its value changes.
pub struct QbzKioskNav {
    pub model: NavModel,
    pub zone: String,
    pub index: i32,
    pub columns: i32,
    pub count: i32,
    pub nav_active: bool,
    pub tabs: i32,
    pub shelves: bool,
    pub hmove: i32,
    pub dir: i32,
    pub activate_seq: i32,
    /// Every notification emitted so far, oldest first.
    pub notices: Vec<NavProp>,
}

impl QbzKioskNav {
    /// The mirrored properties equal the model.
    pub open spec fn mirrors(&self, m: NavModel) -> bool {
        &&& self.zone@ == m.zone.spec_name()
        &&& self.index == m.index
        &&& self.columns == m.columns
        &&& self.count == m.count
        &&& self.nav_active == m.nav_active
        &&& self.tabs == m.tabs
        &&& self.shelves == m.shelves
        &&& self.hmove == m.hmove
        &&& self.dir == m.dir
        &&& self.activate_seq == m.activate_seq
    }

    /// The mirror is in step with the model.
    pub open spec fn wf(&self) -> bool {
        self.mirrors(self.model)
    }

    /// Within `fresh`, no consumer notification precedes a context one.
    pub open spec fn consumers_last(fresh: Seq<NavProp>) -> bool {
        forall|i: int, j: int|
            0 <= i < j < fresh.len() && is_consumer(#[trigger] fresh[i]) ==> is_consumer(#[trigger] fresh[j])
    }

    pub fn new() -> (b: Self)
        ensures
            b.wf(),
            b.model == NavModel::spec_default(),
            b.notices@.len() == 0,
    {
        let model = NavModel::default();
        QbzKioskNav {
            zone: String::from_str(model.zone.as_str()),
            index: model.index,
            columns: model.columns,
            count: model.count,
            nav_active: model.nav_active,
            tabs: model.tabs,
            shelves: model.shelves,
            hmove: model.hmove,
            dir: model.dir,
            activate_seq: model.activate_seq,
            model,
            notices: Vec::new(),
        }
    }

    fn set_i32(field: &mut i32, value: i32, prop: NavProp, notices: &mut Vec<NavProp>)
        ensures
            *final(field) == value,
            final(notices)@ == if *old(field) != value {
                old(notices)@.push(prop)
            } else {
                old(notices)@
            },
    {
        if *field != value {
            *field = value;
            notices.push(prop);
        }
    }

    fn set_bool(field: &mut bool, value: bool, prop: NavProp, notices: &mut Vec<NavProp>)
        ensures
            *final(field) == value,
            final(notices)@ == if *old(field) != value {
                old(notices)@.push(prop)
            } else {
                old(notices)@
            },
    {
        if *field != value {
            *field = value;
            notices.push(prop);
        }
    }

    /// Copy the model onto the mirror: context first, then the three
    /// consumer properties, so a handler on a consumer always reads a
    /// context that already matches it.
    fn sync(&mut self)
        ensures
            final(self).model == old(self).model,
            final(self).mirrors(old(self).model),
            final(self).notices@.len() >= old(self).notices@.len(),
            final(self).notices@.take(old(self).notices@.len() as int) == old(self).notices@,
            Self::consumers_last(final(self).notices@.skip(old(self).notices@.len() as int)),
            final(self).hmove != old(self).hmove ==> final(self).notices@.skip(
                old(self).notices@.len() as int,
            ).contains(NavProp::Hmove),
            forall|p: NavProp|
                #[trigger] final(self).notices@.skip(old(self).notices@.len() as int).contains(p)
                    ==> p != NavProp::Hmove || final(self).hmove != old(self).hmove,
    {
        let ghost start = self.notices@;
        let m = self.model;
        let zone = String::from_str(m.zone.as_str());
        if self.zone != zone {
            self.zone = zone;
            self.notices.push(NavProp::Zone);
        }
        Self::set_i32(&mut self.columns, m.columns, NavProp::Columns, &mut self.notices);
        Self::set_i32(&mut self.count, m.count, NavProp::Count, &mut self.notices);
        Self::set_i32(&mut self.tabs, m.tabs, NavProp::Tabs, &mut self.notices);
        Self::set_bool(&mut self.shelves, m.shelves, NavProp::Shelves, &mut self.notices);
        Self::set_i32(&mut self.dir, m.dir, NavProp::Dir, &mut self.notices);
        Self::set_bool(&mut self.nav_active, m.nav_active, NavProp::NavActive, &mut self.notices);
        let ghost context = self.notices@;
        let ghost old_hmove = self.hmove;
        Self::set_i32(&mut self.hmove, m.hmove, NavProp::Hmove, &mut self.notices);
        let ghost after_hmove = self.notices@;
        Self::set_i32(&mut self.index, m.index, NavProp::Index, &mut self.notices);
        Self::set_i32(&mut self.activate_seq, m.activate_seq, NavProp::ActivateSeq, &mut self.notices);
        proof {
            let fresh = self.notices@.skip(start.len() as int);
            let ctx = context.skip(start.len() as int);
            assert(forall|k: int| 0 <= k < ctx.len() ==> !is_consumer(#[trigger] ctx[k]));
            assert(forall|k: int| ctx.len() <= k < fresh.len() ==> is_consumer(#[trigger] fresh[k]));
            assert(forall|k: int| 0 <= k < ctx.len() ==> fresh[k] == ctx[k]);
            assert forall|p: NavProp| #[trigger] fresh.contains(p) implies p != NavProp::Hmove || self.hmove != old_hmove by {
                if fresh.contains(p) && p == NavProp::Hmove {
                    let k = choose|k: int| 0 <= k < fresh.len() && fresh[k] == p;
                    if k < ctx.len() {
                        assert(fresh[k] == ctx[k]);
                    } else if k == ctx.len() && after_hmove.len() > context.len() {
                    } else {
                        assert(fresh[k] != NavProp::Hmove);
                    }
                }
            }
            if self.hmove != old_hmove {
                assert(fresh[ctx.len() as int] == NavProp::Hmove);
            }
        }
    }

    /// Force the shelf pulse property to 0 before a new pulse is mirrored,
    /// so a pulse nobody consumed cannot swallow the next one.
    fn rearm_hmove(&mut self)
        ensures
            final(self).model == old(self).model,
            final(self).hmove == 0,
            final(self).zone == old(self).zone,
            final(self).index == old(self).index,
            final(self).columns == old(self).columns,
            final(self).count == old(self).count,
            final(self).nav_active == old(self).nav_active,
            final(self).tabs == old(self).tabs,
            final(self).shelves == old(self).shelves,
            final(self).dir == old(self).dir,
            final(self).activate_seq == old(self).activate_seq,
            final(self).notices@ == if old(self).hmove != 0 {
                old(self).notices@.push(NavProp::Hmove)
            } else {
                old(self).notices@
            },
    {
        Self::set_i32(&mut self.hmove, 0, NavProp::Hmove, &mut self.notices);
    }

    /// The Left key. A shelf pulse it raises is always announced.
    pub fn nav_left(&mut self)
        requires
            old(self).wf(),
            old(self).model.left_ok(),
        ensures
            final(self).wf(),
            final(self).model == old(self).model.spec_left(),
            final(self).notices@.take(old(self).notices@.len() as int) == old(self).notices@,
            final(self).model.hmove != 0 ==> final(self).notices@.skip(
                old(self).notices@.len() as int,
            ).contains(NavProp::Hmove),
    {
        self.model.left();
        let ghost n0 = self.notices@;
        self.rearm_hmove();
        let ghost n1 = self.notices@;
        self.sync();
        proof {
            assert(n1.take(n0.len() as int) =~= n0);
            lemma_skip_grows(n0, n1, self.notices@);
        }
    }

    /// The Right key. A shelf pulse it raises is always announced.
    pub fn nav_right(&mut self)
        requires
            old(self).wf(),
            old(self).model.right_ok(),
        ensures
            final(self).wf(),
            final(self).model == old(self).model.spec_right(),
            final(self).notices@.take(old(self).notices@.len() as int) == old(self).notices@,
            final(self).model.hmove != 0 ==> final(self).notices@.skip(
                old(self).notices@.len() as int,
            ).contains(NavProp::Hmove),
    {
        self.model.right();
        let ghost n0 = self.notices@;
        self.rearm_hmove();
        let ghost n1 = self.notices@;
        self.sync();
        proof {
            assert(n1.take(n0.len() as int) =~= n0);
            lemma_skip_grows(n0, n1, self.notices@);
        }
    }

    /// The Up key.
    pub fn nav_up(&mut self)
        requires
            old(self).wf(),
            old(self).model.up_ok(),
        ensures
            final(self).wf(),
            final(self).model == old(self).model.spec_up(),
            final(self).notices@.take(old(self).notices@.len() as int) == old(self).notices@,
            Self::consumers_last(final(self).notices@.skip(old(self).notices@.len() as int)),
    {
        self.model.up();
        self.sync();
    }

    /// The Down key.
    pub fn nav_down(&mut self)
        requires
            old(self).wf(),
            old(self).model.down_ok(),
        ensures
            final(self).wf(),
            final(self).model == old(self).model.spec_down(),
            final(self).notices@.take(old(self).notices@.len() as int) == old(self).notices@,
            Self::consumers_last(final(self).notices@.skip(old(self).notices@.len() as int)),
    {
        self.model.down();
        self.sync();
    }

    /// Enter on a content view.
    pub fn bump_activate(&mut self)
        requires
            old(self).wf(),
        ensures
            final(self).wf(),
            final(self).model == (NavModel {
                nav_active: true,
                activate_seq: old(self).model.activate_seq.wrapping_add(1),
                ..old(self).model
            }),
            final(self).notices@.take(old(self).notices@.len() as int) == old(self).notices@,
            Self::consumers_last(final(self).notices@.skip(old(self).notices@.len() as int)),
    {
        self.model.bump_activate();
        self.sync();
    }

    /// Latch the focus ring on without moving.
    pub fn mark_active(&mut self)
        requires
            old(self).wf(),
        ensures
            final(self).wf(),
            final(self).model == (NavModel { nav_active: true, ..old(self).model }),
            final(self).notices@.take(old(self).notices@.len() as int) == old(self).notices@,
            Self::consumers_last(final(self).notices@.skip(old(self).notices@.len() as int)),
    {
        self.model.mark_active();
        self.sync();
    }

    /// A route change.
    pub fn reset_for_view(&mut self)
        requires
            old(self).wf(),
        ensures
            final(self).wf(),
            final(self).model == old(self).model.spec_reset_for_view(),
            final(self).notices@.take(old(self).notices@.len() as int) == old(self).notices@,
            Self::consumers_last(final(self).notices@.skip(old(self).notices@.len() as int)),
    {
        self.model.reset_for_view();
        self.sync();
    }

    /// A mounted view reports its shape.
    pub fn publish_nav(&mut self, tabs: i32, columns: i32, count: i32, shelves: bool)
        requires
            old(self).wf(),
        ensures
            final(self).wf(),
            final(self).model == old(self).model.spec_publish(tabs, columns, count, shelves),
            final(self).notices@.take(old(self).notices@.len() as int) == old(self).notices@,
            Self::consumers_last(final(self).notices@.skip(old(self).notices@.len() as int)),
    {
        self.model.publish(tabs, columns, count, shelves);
        self.sync();
    }

    /// Read the pending shelf move and clear it.
    pub fn take_hmove(&mut self) -> (taken: i32)
        requires
            old(self).wf(),
        ensures
            taken == old(self).model.hmove,
            final(self).wf(),
            final(self).model == (NavModel { hmove: 0, ..old(self).model }),
            final(self).notices@.take(old(self).notices@.len() as int) == old(self).notices@,
            Self::consumers_last(final(self).notices@.skip(old(self).notices@.len() as int)),
    {
        let taken = self.model.take_hmove();
        self.sync();
        taken
    }
}

/// A notification appended in an earlier step of a call is still among the
/// call's notifications after later steps append more.
proof fn lemma_skip_grows(n0: Seq<NavProp>, n1: Seq<NavProp>, n2: Seq<NavProp>)
    requires
        n1.len() >= n0.len(),
        n1.take(n0.len() as int) == n0,
        n2.len() >= n1.len(),
        n2.take(n1.len() as int) == n1,
    ensures
        n2.take(n0.len() as int) == n0,
        forall|p: NavProp| n2.skip(n1.len() as int).contains(p) ==> #[trigger] n2.skip(n0.len() as int).contains(p),
{
    assert(n2.take(n0.len() as int) =~= n0) by {
        assert forall|i: int| 0 <= i < n0.len() implies n2.take(n0.len() as int)[i] == n0[i] by {
            assert(n2[i] == n1[i]);
            assert(n1[i] == n0[i]);
        }
    }
    assert forall|p: NavProp| n2.skip(n1.len() as int).contains(p) implies #[trigger] n2.skip(n0.len() as int).contains(p) by {
        let k = choose|k: int| 0 <= k < n2.skip(n1.len() as int).len() && n2.skip(n1.len() as int)[k] == p;
        assert(n2.skip(n0.len() as int)[k + n1.len() - n0.len()] == p);
    }
}

} // verus!
