//! The display-surface session state machine.
//!
//! The surface is Unconfigured until the first configure event supplies an
//! authoritative size, then Configured; a close event or a terminal action
//! sets the exit flag and the event loop is not re-entered. Redraws are
//! gated on a damage flag, per-seat shortcut inhibitors and the keyboard
//! handle are acquired and released strictly on seat events, and a key
//! press resolves against the menu and yields at most one dispatch.
//!
//! Every event handler is a pure transition on this state plus a returned
//! request (a draw plan, a command to spawn, a page to measure); performing
//! the requests against the compositor is the caller's part.
use vstd::prelude::*;

use crate::keys::mod_none;
use crate::keys::ModifierState;
use crate::keys::KEYSYM_ESCAPE;
use crate::menu::first_match;
use crate::menu::path_valid;
use crate::menu::Action;
use crate::menu::Entry;
use crate::menu::Menu;

verus! {

/// The largest output scale factor the session accepts. The bound is the
/// one the plan's u64 stride forces: at four bytes per pixel the row size
/// is `width * 4 * scale`, and with any u32 width it stays below 2^64
/// exactly when the scale is at most 2^30. Factors beyond that (or not
/// positive, which the protocol rules out) are ignored.
pub const MAX_SCALE: u32 = 0x4000_0000;

/// The buffer allocation a draw requires: logical size times the output
/// scale, four bytes per pixel.
#[derive(Clone, Copy, Debug, PartialEq, Eq, Structural)]
pub struct DrawPlan {
    pub buffer_width: u64,
    pub buffer_height: u64,
    pub stride: u64,
}

/// What the caller must perform after a key press was dispatched.
#[derive(Debug)]
pub enum Dispatch {
    /// The press matched nothing, or only changed the exit flag.
    Nothing,
    /// Spawn this command, detached.
    Spawn { cmd: String },
    /// Measure the page at this path, then commit it with `commit_submenu`.
    EnterSubmenu { path: Vec<usize> },
}

/// The whole session: the menu with its cursor, the surface state, and the
/// per-seat resources.
pub struct Session {
    pub menu: Menu,
    /// Whether configuration asked for compositor shortcuts to be
    /// suppressed while the menu is up.
    pub inhibit_shortcuts: bool,
    /// The first configure event has arrived; nothing may render before.
    pub configured: bool,
    /// The on-screen buffer is stale and needs repainting.
    pub damaged: bool,
    /// Set once; the event loop is not re-entered after it.
    pub exit: bool,
    pub width: u32,
    pub height: u32,
    pub surface_scale: u32,
    /// The most recently observed modifier update, used as-is for the
    /// following key press.
    pub modifiers: ModifierState,
    /// The seats currently holding a shortcut inhibitor.
    pub inhibitor_seats: Vec<u32>,
    /// A keyboard handle is bound (at most one is tracked).
    pub keyboard_bound: bool,
}

/// No seat appears twice in the inhibitor table.
pub open spec fn seats_unique(s: Seq<u32>) -> bool {
    forall|i: int, j: int| 0 <= i < j < s.len() ==> s[i] != s[j]
}

/// The draw plan a state yields: one exactly when the surface is configured
/// and damaged.
pub open spec fn draw_plan_spec(s: Session) -> Option<DrawPlan> {
    if s.configured && s.damaged {
        Some(
            DrawPlan {
                buffer_width: (s.width as int * s.surface_scale as int) as u64,
                buffer_height: (s.height as int * s.surface_scale as int) as u64,
                stride: (s.width as int * 4 * s.surface_scale as int) as u64,
            },
        )
    } else {
        None
    }
}

/// The state after a draw attempt: damage is cleared exactly when the
/// attempt painted.
pub open spec fn draw_post_spec(s: Session) -> Session {
    Session { damaged: s.damaged && !s.configured, ..s }
}

impl Session {
    /// The session's invariant: the cursor is on a page of the tree, the
    /// scale is in range, and no seat holds two inhibitors.
    pub open spec fn wf(self) -> bool {
        &&& self.menu.wf()
        &&& 1 <= self.surface_scale <= MAX_SCALE
        &&& seats_unique(self.inhibitor_seats@)
    }

    /// Everything but the surface-geometry fields is the same.
    pub open spec fn same_resources(a: Session, b: Session) -> bool {
        &&& a.menu == b.menu
        &&& a.inhibit_shortcuts == b.inhibit_shortcuts
        &&& a.modifiers == b.modifiers
        &&& a.inhibitor_seats == b.inhibitor_seats
        &&& a.keyboard_bound == b.keyboard_bound
    }

    /// Everything but the menu cursor, the exit flag and the per-seat
    /// resources is the same.
    pub open spec fn same_surface(a: Session, b: Session) -> bool {
        &&& a.configured == b.configured
        &&& a.damaged == b.damaged
        &&& a.width == b.width
        &&& a.height == b.height
        &&& a.surface_scale == b.surface_scale
        &&& a.inhibit_shortcuts == b.inhibit_shortcuts
    }

    /// A fresh session over `menu`, sized by the initial measurement of the
    /// root page: unconfigured, damaged, not exiting, scale 1, no modifiers
    /// held, no seat resources.
    pub fn new(menu: Menu, inhibit_shortcuts: bool, width: u32, height: u32) -> (r: Session)
        requires
            menu.wf(),
        ensures
            r.wf(),
            r.menu == menu,
            r.inhibit_shortcuts == inhibit_shortcuts,
            !r.configured,
            r.damaged,
            !r.exit,
            r.width == width,
            r.height == height,
            r.surface_scale == 1,
            r.modifiers == mod_none(),
            r.inhibitor_seats@ == Seq::<u32>::empty(),
            !r.keyboard_bound,
    {
        let r = Session {
            menu,
            inhibit_shortcuts,
            configured: false,
            damaged: true,
            exit: false,
            width,
            height,
            surface_scale: 1,
            modifiers: ModifierState::default(),
            inhibitor_seats: Vec::new(),
            keyboard_bound: false,
        };
        proof {
            assert(r.inhibitor_seats@ =~= Seq::<u32>::empty());
        }
        r
    }

    /// A configure event: the compositor's size becomes authoritative and
    /// the surface may render from now on.
    pub fn configure(&mut self, width: u32, height: u32)
        requires
            old(self).wf(),
        ensures
            final(self).wf(),
            Session::same_resources(*final(self), *old(self)),
            final(self).configured,
            final(self).width == width,
            final(self).height == height,
            final(self).damaged == old(self).damaged,
            final(self).surface_scale == old(self).surface_scale,
            final(self).exit == old(self).exit,
    {
        self.width = width;
        self.height = height;
        self.configured = true;
    }

    /// A close event from the compositor, or a terminal action: stop the
    /// loop once the current event is handled.
    pub fn closed(&mut self)
        requires
            old(self).wf(),
        ensures
            final(self).wf(),
            Session::same_resources(*final(self), *old(self)),
            Session::same_surface(*final(self), *old(self)),
            final(self).exit,
    {
        self.exit = true;
    }

    /// An output scale change: a changed factor is adopted and the surface
    /// marked damaged, so the backing buffer dimensions follow the factor
    /// while the logical size stays. Repeating the current factor changes
    /// nothing; a factor that is not positive (which the protocol rules
    /// out) or beyond what the plan's stride can hold (see `MAX_SCALE`) is
    /// ignored.
    pub fn scale_factor_changed(&mut self, new_factor: i32)
        requires
            old(self).wf(),
        ensures
            final(self).wf(),
            Session::same_resources(*final(self), *old(self)),
            final(self).configured == old(self).configured,
            final(self).width == old(self).width,
            final(self).height == old(self).height,
            final(self).exit == old(self).exit,
            (1 <= new_factor <= MAX_SCALE && new_factor as u32 != old(self).surface_scale) ==> {
                &&& final(self).surface_scale == new_factor as u32
                &&& final(self).damaged
            },
            !(1 <= new_factor <= MAX_SCALE && new_factor as u32 != old(self).surface_scale) ==> {
                &&& final(self).surface_scale == old(self).surface_scale
                &&& final(self).damaged == old(self).damaged
            },
    {
        if 1 <= new_factor && new_factor as u32 <= MAX_SCALE {
            let scale = new_factor as u32;
            if scale != self.surface_scale {
                self.surface_scale = scale;
                self.damaged = true;
            }
        }
    }

    /// A modifier update: remembered as-is for the following key press.
    pub fn update_modifiers(&mut self, modifiers: ModifierState)
        requires
            old(self).wf(),
        ensures
            final(self).wf(),
            Session::same_surface(*final(self), *old(self)),
            final(self).menu == old(self).menu,
            final(self).inhibitor_seats == old(self).inhibitor_seats,
            final(self).keyboard_bound == old(self).keyboard_bound,
            final(self).exit == old(self).exit,
            final(self).modifiers == modifiers,
    {
        self.modifiers = modifiers;
    }

    /// A draw attempt: a no-op unless the surface is configured and
    /// damaged; after a paint the damage clears, so the next real redraw
    /// waits for the next damage marking.
    pub fn draw(&mut self) -> (r: Option<DrawPlan>)
        requires
            old(self).wf(),
        ensures
            final(self).wf(),
            r == draw_plan_spec(*old(self)),
            *final(self) == draw_post_spec(*old(self)),
    {
        if !self.configured {
            return None;
        }
        if !self.damaged {
            return None;
        }
        proof {
            let w = self.width as int;
            let h = self.height as int;
            let s = self.surface_scale as int;
            assert(0 <= w * s <= 0xffff_ffff * 0x4000_0000 && 0 <= h * s <= 0xffff_ffff
                * 0x4000_0000 && 0 <= w * 4 * s <= 0xffff_ffff * 0x1_0000_0000)
                by (nonlinear_arith)
                requires
                    0 <= w <= 0xffff_ffff,
                    0 <= h <= 0xffff_ffff,
                    0 <= s <= 0x4000_0000,
            ;
        }
        let bw = (self.width as u64) * (self.surface_scale as u64);
        let bh = (self.height as u64) * (self.surface_scale as u64);
        let stride = (self.width as u64) * 4 * (self.surface_scale as u64);
        self.damaged = false;
        Some(DrawPlan { buffer_width: bw, buffer_height: bh, stride })
    }

    /// Performs a resolved action: Quit stops the loop; a command is handed
    /// back for spawning and stops the loop unless it keeps the menu open;
    /// a submenu is handed back for measuring and committing.
    pub fn handle_action(&mut self, action: Action) -> (r: Dispatch)
        requires
            old(self).wf(),
        ensures
            final(self).wf(),
            Session::same_resources(*final(self), *old(self)),
            final(self).configured == old(self).configured,
            final(self).damaged == old(self).damaged,
            final(self).width == old(self).width,
            final(self).height == old(self).height,
            final(self).surface_scale == old(self).surface_scale,
            action is Quit ==> final(self).exit && r is Nothing,
            action matches Action::Exec { cmd, keep_open } ==> {
                &&& r matches Dispatch::Spawn { cmd: c } && c == cmd
                &&& final(self).exit == (old(self).exit || !keep_open)
            },
            action matches Action::Submenu { path } ==> {
                &&& r matches Dispatch::EnterSubmenu { path: p } && p == path
                &&& final(self).exit == old(self).exit
            },
    {
        match action {
            Action::Quit => {
                self.exit = true;
                Dispatch::Nothing
            },
            Action::Exec { cmd, keep_open } => {
                if !keep_open {
                    self.exit = true;
                }
                Dispatch::Spawn { cmd }
            },
            Action::Submenu { path } => Dispatch::EnterSubmenu { path },
        }
    }

    /// A key press (releases are ignored): resolves the keysym under the
    /// last-known modifiers against the current page and performs the
    /// resulting action. An unmatched press is silently ignored.
    pub fn press_key(&mut self, sym: u32) -> (r: Dispatch)
        requires
            old(self).wf(),
        ensures
            final(self).wf(),
            Session::same_resources(*final(self), *old(self)),
            final(self).configured == old(self).configured,
            final(self).damaged == old(self).damaged,
            final(self).width == old(self).width,
            final(self).height == old(self).height,
            final(self).surface_scale == old(self).surface_scale,
            sym == KEYSYM_ESCAPE ==> final(self).exit && r is Nothing,
            sym != KEYSYM_ESCAPE && first_match(
                old(self).menu.current_page(),
                sym,
                old(self).modifiers,
            ) < 0 ==> final(self).exit == old(self).exit && r is Nothing,
            sym != KEYSYM_ESCAPE && first_match(
                old(self).menu.current_page(),
                sym,
                old(self).modifiers,
            ) >= 0 ==> ({
                let i = first_match(old(self).menu.current_page(), sym, old(self).modifiers);
                match old(self).menu.current_page()[i] {
                    Entry::Cmd { cmd, keep_open, .. } => {
                        &&& r matches Dispatch::Spawn { cmd: c } && c@ == cmd@
                        &&& final(self).exit == (old(self).exit || !keep_open)
                    },
                    Entry::Recursive { .. } => {
                        &&& r matches Dispatch::EnterSubmenu { path } && path@ == old(
                            self,
                        ).menu.cur_path().push(i as usize) && path_valid(
                            old(self).menu.root_entries(),
                            path@,
                        )
                        &&& final(self).exit == old(self).exit
                    },
                }
            }),
    {
        let action = self.menu.get_action(self.modifiers, sym);
        match action {
            None => Dispatch::Nothing,
            Some(a) => self.handle_action(a),
        }
    }

    /// Commits a resolved submenu: repoints the cursor, adopts the new
    /// measured size as the requested one, and marks the surface damaged so
    /// the new page is painted. A path not addressing a page of the tree is
    /// refused and nothing changes.
    pub fn commit_submenu(&mut self, path: Vec<usize>, width: u32, height: u32) -> (r: bool)
        requires
            old(self).wf(),
        ensures
            final(self).wf(),
            r == path_valid(old(self).menu.root_entries(), path@),
            final(self).exit == old(self).exit,
            final(self).configured == old(self).configured,
            final(self).surface_scale == old(self).surface_scale,
            final(self).modifiers == old(self).modifiers,
            final(self).inhibitor_seats == old(self).inhibitor_seats,
            final(self).keyboard_bound == old(self).keyboard_bound,
            final(self).inhibit_shortcuts == old(self).inhibit_shortcuts,
            final(self).menu.root_entries() == old(self).menu.root_entries(),
            !r ==> final(self).menu == old(self).menu && final(self).width == old(self).width
                && final(self).height == old(self).height && final(self).damaged == old(
                self,
            ).damaged,
            r ==> {
                &&& final(self).menu.cur_path() == path@
                &&& final(self).width == width
                &&& final(self).height == height
                &&& final(self).damaged
            },
    {
        if !self.menu.is_valid_path(&path) {
            return false;
        }
        self.menu.set_page(path);
        self.width = width;
        self.height = height;
        self.damaged = true;
        true
    }

    /// A seat appeared: when shortcut suppression is configured and the
    /// seat holds no inhibitor yet, one must be acquired for it.
    pub fn new_seat(&mut self, seat: u32) -> (acquire: bool)
        requires
            old(self).wf(),
        ensures
            final(self).wf(),
            Session::same_surface(*final(self), *old(self)),
            final(self).menu == old(self).menu,
            final(self).exit == old(self).exit,
            final(self).modifiers == old(self).modifiers,
            final(self).keyboard_bound == old(self).keyboard_bound,
            acquire == (old(self).inhibit_shortcuts && !old(self).inhibitor_seats@.contains(seat)),
            acquire ==> final(self).inhibitor_seats@ == old(self).inhibitor_seats@.push(seat),
            !acquire ==> final(self).inhibitor_seats@ == old(self).inhibitor_seats@,
    {
        if !self.inhibit_shortcuts {
            return false;
        }
        if contains_seat(&self.inhibitor_seats, seat) {
            return false;
        }
        proof {
            let s = self.inhibitor_seats@;
            assert(forall|i: int, j: int|
                0 <= i < j < s.push(seat).len() ==> s.push(seat)[i] != s.push(seat)[j]) by {
                assert(forall|i: int| 0 <= i < s.len() ==> s.push(seat)[i] == s[i]);
                assert(s.push(seat)[s.len() as int] == seat);
            }
        }
        self.inhibitor_seats.push(seat);
        true
    }

    /// A seat went away: when it holds an inhibitor, exactly that one must
    /// be released; the other seats' inhibitors are untouched.
    pub fn remove_seat(&mut self, seat: u32) -> (release: bool)
        requires
            old(self).wf(),
        ensures
            final(self).wf(),
            Session::same_surface(*final(self), *old(self)),
            final(self).menu == old(self).menu,
            final(self).exit == old(self).exit,
            final(self).modifiers == old(self).modifiers,
            final(self).keyboard_bound == old(self).keyboard_bound,
            release == old(self).inhibitor_seats@.contains(seat),
            forall|x: u32|
                final(self).inhibitor_seats@.contains(x) <==> (old(
                    self,
                ).inhibitor_seats@.contains(x) && x != seat),
            !release ==> final(self).inhibitor_seats@ == old(self).inhibitor_seats@,
            release ==> final(self).inhibitor_seats@.len() == old(self).inhibitor_seats@.len() - 1,
    {
        let ghost s0 = self.inhibitor_seats@;
        let mut i: usize = 0;
        while i < self.inhibitor_seats.len()
            invariant
                self == old(self),
                old(self).wf(),
                i <= self.inhibitor_seats@.len(),
                self.inhibitor_seats@ == s0,
                seats_unique(s0),
                forall|j: int| 0 <= j < i ==> s0[j] != seat,
            decreases self.inhibitor_seats@.len() - i,
        {
            if self.inhibitor_seats[i] == seat {
                let _ = self.inhibitor_seats.remove(i);
                proof {
                    let s1 = s0.remove(i as int);
                    s0.remove_ensures(i as int);
                    assert(self.inhibitor_seats@ == s1);
                    assert(s0.contains(seat)) by {
                        assert(s0[i as int] == seat);
                    }
                    assert(seats_unique(s1)) by {
                        assert forall|a: int, b: int| 0 <= a < b < s1.len() implies s1[a] != s1[b] by {
                            if b < i {
                                assert(s1[a] == s0[a] && s1[b] == s0[b]);
                            } else if a < i {
                                assert(s1[a] == s0[a] && s1[b] == s0[b + 1]);
                            } else {
                                assert(s1[a] == s0[a + 1] && s1[b] == s0[b + 1]);
                            }
                        }
                    }
                    assert forall|x: u32| s1.contains(x) implies s0.contains(x) && x != seat by {
                        let a = choose|a: int| 0 <= a < s1.len() && s1[a] == x;
                        if a < i {
                            assert(s0[a] == x);
                            assert(a != i && s0[i as int] == seat);
                        } else {
                            assert(s0[a + 1] == x);
                            assert(a + 1 != i);
                        }
                    }
                    assert forall|x: u32| s0.contains(x) && x != seat implies s1.contains(x) by {
                        let a = choose|a: int| 0 <= a < s0.len() && s0[a] == x;
                        assert(a != i);
                        if a < i {
                            assert(s1[a] == x);
                        } else {
                            assert(s1[a - 1] == x);
                        }
                    }
                }
                return true;
            }
            i += 1;
        }
        proof {
            assert(!s0.contains(seat)) by {
                assert(forall|j: int| 0 <= j < s0.len() ==> s0[j] != seat);
            }
        }
        false
    }

    /// A seat gained a capability: the first keyboard capability binds the
    /// one tracked keyboard handle.
    pub fn new_capability(&mut self, is_keyboard: bool) -> (bind: bool)
        requires
            old(self).wf(),
        ensures
            final(self).wf(),
            Session::same_surface(*final(self), *old(self)),
            final(self).menu == old(self).menu,
            final(self).exit == old(self).exit,
            final(self).modifiers == old(self).modifiers,
            final(self).inhibitor_seats == old(self).inhibitor_seats,
            bind == (is_keyboard && !old(self).keyboard_bound),
            final(self).keyboard_bound == (old(self).keyboard_bound || is_keyboard),
    {
        if is_keyboard && !self.keyboard_bound {
            self.keyboard_bound = true;
            return true;
        }
        false
    }

    /// A seat lost a capability: losing the keyboard releases the tracked
    /// handle, exactly when one was bound.
    pub fn remove_capability(&mut self, is_keyboard: bool) -> (release: bool)
        requires
            old(self).wf(),
        ensures
            final(self).wf(),
            Session::same_surface(*final(self), *old(self)),
            final(self).menu == old(self).menu,
            final(self).exit == old(self).exit,
            final(self).modifiers == old(self).modifiers,
            final(self).inhibitor_seats == old(self).inhibitor_seats,
            release == (is_keyboard && old(self).keyboard_bound),
            final(self).keyboard_bound == (old(self).keyboard_bound && !is_keyboard),
    {
        if is_keyboard && self.keyboard_bound {
            self.keyboard_bound = false;
            return true;
        }
        false
    }
}

/// Whether `seat` is in the inhibitor table.
fn contains_seat(seats: &Vec<u32>, seat: u32) -> (r: bool)
    ensures
        r == seats@.contains(seat),
{
    let mut i: usize = 0;
    while i < seats.len()
        invariant
            i <= seats@.len(),
            forall|j: int| 0 <= j < i ==> seats@[j] != seat,
        decreases seats@.len() - i,
    {
        if seats[i] == seat {
            return true;
        }
        i += 1;
    }
    proof {
        assert(forall|j: int| 0 <= j < seats@.len() ==> seats@[j] != seat);
    }
    false
}

// ---------------------------------------------------------------------------
// Laws.
// ---------------------------------------------------------------------------

/// Before the first configure event a draw attempt is a no-op: it paints
/// nothing and changes nothing.
pub proof fn lemma_draw_before_configure(s: Session)
    requires
        !s.configured,
    ensures
        draw_plan_spec(s) is None,
        draw_post_spec(s).damaged == s.damaged,
{
}

/// One damage marking is painted exactly once: a configured, damaged state
/// yields a plan, and the state after that draw yields none until new
/// damage arrives.
pub proof fn lemma_draw_paced(s: Session)
    requires
        s.configured,
        s.damaged,
    ensures
        draw_plan_spec(s) is Some,
        draw_plan_spec(draw_post_spec(s)) is None,
{
}

} // verus!
