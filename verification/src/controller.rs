//! The screen controller: the Main / Help / Gameplay switcher, the root
//! overlay opened on entering Help, and the cancel-key policy that pops the
//! overlay stack before it leaves the Help screen.

use vstd::prelude::*;

use crate::overlay::Overlay;
use crate::overlay::OverlayStack;
use crate::overlay::OverlayView;
use crate::overlay::render_overlay;
use crate::overlay::spec_render_rows;
use crate::registry::EntryView;
use crate::registry::TooltipRegistry;

verus! {

/// The current screen of the application. Initially `Main`.
#[derive(Clone, Copy, PartialEq, Eq, Structural, Debug)]
pub enum Screen {
    Main,
    Help,
    Gameplay,
}

/// What a press of the cancel key did: nothing, because the Help screen was
/// not showing; removed the top overlay, whose visual element (named by its
/// handle) the host must destroy; or left the Help screen, whose visuals the
/// host must tear down wholesale.
#[derive(Clone, Copy, PartialEq, Eq, Structural, Debug)]
pub enum CancelOutcome {
    Ignored,
    Popped(u64),
    ExitHelp,
}

/// The state the subsystem owns: the registry, the fixed body of the root
/// help overlay, the current screen, the root overlay while Help is showing,
/// the stack of closable overlays, a counter handing out fresh overlay
/// handles, and whether the user asked to quit.
pub struct UiContext {
    pub registry: TooltipRegistry,
    pub help_body: Vec<u8>,
    pub screen: Screen,
    pub root: Option<Overlay>,
    pub stack: OverlayStack,
    pub next_handle: u64,
    pub quit_requested: bool,
}

/// The mathematical value of a `UiContext`.
pub struct UiView {
    pub registry: Map<Seq<u8>, EntryView>,
    pub help_body: Seq<u8>,
    pub screen: Screen,
    pub root: Option<OverlayView>,
    pub stack: Seq<OverlayView>,
    pub next_handle: u64,
    pub quit_requested: bool,
}

impl View for UiContext {
    type V = UiView;

    open spec fn view(&self) -> UiView {
        UiView {
            registry: self.registry@,
            help_body: self.help_body@,
            screen: self.screen,
            root: match self.root {
                Some(o) => Some(o@),
                None => None,
            },
            stack: self.stack@,
            next_handle: self.next_handle,
            quit_requested: self.quit_requested,
        }
    }
}

impl UiContext {
    /// The invariant every operation preserves: the registry is well formed;
    /// every stacked overlay is closable, and the one at position `i` has
    /// stacking index `i + 1`; the root overlay is never closable; and the
    /// root and the stack exist exactly while the Help screen is showing.
    pub open spec fn wf(self) -> bool {
        &&& self.registry.wf()
        &&& (forall|i: int| 0 <= i < self@.stack.len() ==> self@.stack[i].closable)
        &&& (forall|i: int| 0 <= i < self@.stack.len() ==> self@.stack[i].z == i + 1)
        &&& (self@.root matches Some(r) ==> !r.closable)
        &&& (self@.screen == Screen::Help <==> self@.root is Some)
        &&& (self@.screen != Screen::Help ==> self@.stack.len() == 0)
    }

    /// A fresh context: Main screen, nothing open, nothing requested.
    pub fn new(registry: TooltipRegistry, help_body: Vec<u8>) -> (ctx: Self)
        requires
            registry.wf(),
        ensures
            ctx.wf(),
            ctx@ == (UiView {
                registry: registry@,
                help_body: help_body@,
                screen: Screen::Main,
                root: None,
                stack: Seq::empty(),
                next_handle: 0,
                quit_requested: false,
            }),
    {
        UiContext {
            registry,
            help_body,
            screen: Screen::Main,
            root: None,
            stack: OverlayStack::new(),
            next_handle: 0,
            quit_requested: false,
        }
    }

    /// The Play action: from the Main screen, switch to Gameplay; anywhere
    /// else it does nothing.
    pub fn press_play(&mut self)
        requires
            old(self).wf(),
        ensures
            final(self).wf(),
            old(self)@.screen == Screen::Main ==> final(self)@ == (UiView {
                screen: Screen::Gameplay,
                ..old(self)@
            }),
            old(self)@.screen != Screen::Main ==> final(self)@ == old(self)@,
    {
        if self.screen == Screen::Main {
            self.screen = Screen::Gameplay;
        }
    }

    /// The Quit action: record that the process should terminate; nothing
    /// else changes.
    pub fn press_quit(&mut self)
        requires
            old(self).wf(),
        ensures
            final(self).wf(),
            final(self)@ == (UiView { quit_requested: true, ..old(self)@ }),
    {
        self.quit_requested = true;
    }

    /// The Help action: from the Main screen, enter Help and open the
    /// non-closable root overlay, rendered from the fixed help body and
    /// anchored at the origin, with stacking index 1 and a fresh handle; the
    /// stack stays empty. Anywhere else it does nothing.
    pub fn press_help(&mut self)
        requires
            old(self).wf(),
            old(self)@.next_handle < u64::MAX,
        ensures
            final(self).wf(),
            old(self)@.screen == Screen::Main ==> final(self)@ == (UiView {
                screen: Screen::Help,
                root: Some(
                    OverlayView {
                        handle: old(self)@.next_handle,
                        z: 1,
                        closable: false,
                        anchor_x: 0,
                        anchor_y: 0,
                        rows: spec_render_rows(old(self)@.registry, old(self)@.help_body),
                    },
                ),
                next_handle: (old(self)@.next_handle + 1) as u64,
                ..old(self)@
            }),
            old(self)@.screen != Screen::Main ==> final(self)@ == old(self)@,
    {
        if self.screen == Screen::Main {
            let handle = self.next_handle;
            self.next_handle = self.next_handle + 1;
            let o = render_overlay(&self.registry, self.help_body.as_slice(), 0, 0, false, 1, handle);
            self.root = Some(o);
            self.screen = Screen::Help;
        }
    }

    /// Activation of a clickable word at the current pointer position: while
    /// Help is showing, a registered trigger opens a new overlay rendered
    /// from the entry's body, anchored at the pointer, closable, with a fresh
    /// handle and a stacking index one above the stack depth, and pushes it
    /// onto the stack. Without a pointer position, outside Help, or for an
    /// unregistered word, nothing happens.
    pub fn activate_word(&mut self, trigger: &[u8], pointer: Option<(i64, i64)>) -> (spawned: bool)
        requires
            old(self).wf(),
            old(self)@.next_handle < u64::MAX,
            old(self)@.stack.len() < u64::MAX,
        ensures
            final(self).wf(),
            spawned <==> (old(self)@.screen == Screen::Help && pointer is Some
                && old(self)@.registry.contains_key(trigger@)),
            !spawned ==> final(self)@ == old(self)@,
            spawned ==> final(self)@ == (UiView {
                stack: old(self)@.stack.push(
                    OverlayView {
                        handle: old(self)@.next_handle,
                        z: (old(self)@.stack.len() + 1) as u64,
                        closable: true,
                        anchor_x: pointer->Some_0.0,
                        anchor_y: pointer->Some_0.1,
                        rows: spec_render_rows(
                            old(self)@.registry,
                            old(self)@.registry[trigger@].body,
                        ),
                    },
                ),
                next_handle: (old(self)@.next_handle + 1) as u64,
                ..old(self)@
            }),
    {
        if self.screen != Screen::Help {
            return false;
        }
        let (px, py) = match pointer {
            Some(p) => p,
            None => {
                return false;
            },
        };
        let entry = match self.registry.lookup(trigger) {
            Some(e) => e,
            None => {
                return false;
            },
        };
        let handle = self.next_handle;
        let z = self.stack.len() as u64 + 1;
        let o = render_overlay(&self.registry, entry.body.as_slice(), px, py, true, z, handle);
        self.next_handle = self.next_handle + 1;
        self.stack.push(o);
        true
    }

    /// The cancel key: outside Help it is ignored; while Help is showing it
    /// first pops and destroys the top overlay, staying in Help; only with
    /// the stack already empty does it tear Help down and return to Main.
    pub fn press_cancel(&mut self) -> (r: CancelOutcome)
        requires
            old(self).wf(),
        ensures
            final(self).wf(),
            old(self)@.screen != Screen::Help ==> r == CancelOutcome::Ignored && final(self)@
                == old(self)@,
            old(self)@.screen == Screen::Help && old(self)@.stack.len() > 0 ==> r
                == CancelOutcome::Popped(old(self)@.stack.last().handle) && final(self)@
                == (UiView { stack: old(self)@.stack.drop_last(), ..old(self)@ }),
            old(self)@.screen == Screen::Help && old(self)@.stack.len() == 0 ==> r
                == CancelOutcome::ExitHelp && final(self)@ == (UiView {
                screen: Screen::Main,
                root: None,
                stack: Seq::empty(),
                ..old(self)@
            }),
    {
        if self.screen != Screen::Help {
            return CancelOutcome::Ignored;
        }
        match self.stack.pop_and_destroy() {
            Some(o) => CancelOutcome::Popped(o.handle),
            None => {
                self.stack.clear();
                self.root = None;
                self.screen = Screen::Main;
                CancelOutcome::ExitHelp
            },
        }
    }

    /// The current screen.
    pub fn screen(&self) -> (s: Screen)
        ensures
            s == self@.screen,
    {
        self.screen
    }

    /// Whether the Quit action was taken.
    pub fn quit_requested(&self) -> (q: bool)
        ensures
            q == self@.quit_requested,
    {
        self.quit_requested
    }

    /// How many closable overlays are open.
    pub fn stack_len(&self) -> (n: usize)
        ensures
            n == self@.stack.len(),
    {
        self.stack.len()
    }

    /// The root overlay, present exactly while Help is showing.
    pub fn root_overlay(&self) -> (r: Option<&Overlay>)
        ensures
            match r {
                Some(o) => self@.root == Some(o@),
                None => self@.root is None,
            },
    {
        match &self.root {
            Some(o) => Some(o),
            None => None,
        }
    }

    /// The most recently opened closable overlay, if any.
    pub fn top_overlay(&self) -> (r: Option<&Overlay>)
        ensures
            match r {
                Some(o) => self@.stack.len() > 0 && o@ == self@.stack.last(),
                None => self@.stack.len() == 0,
            },
    {
        self.stack.top()
    }
}

/// The non-closable root invariant: the root overlay is never present in the
/// overlay stack.
pub proof fn lemma_root_not_in_stack(ctx: UiContext)
    requires
        ctx.wf(),
    ensures
        ctx@.root matches Some(r) ==> forall|i: int|
            0 <= i < ctx@.stack.len() ==> ctx@.stack[i] != r,
{
    if let Some(r) = ctx@.root {
        assert forall|i: int| 0 <= i < ctx@.stack.len() implies ctx@.stack[i] != r by {
            assert(ctx@.stack[i].closable);
            assert(!r.closable);
        }
    }
}

/// Z-order monotonicity: of two overlays on the stack, the one opened later
/// has the strictly greater stacking index, so it draws above every overlay
/// still open that was opened before it.
pub proof fn lemma_z_order_monotonic(ctx: UiContext)
    requires
        ctx.wf(),
    ensures
        forall|i: int, j: int|
            0 <= i < j < ctx@.stack.len() ==> ctx@.stack[i].z < ctx@.stack[j].z,
{
    assert forall|i: int, j: int|
        0 <= i < j < ctx@.stack.len() implies ctx@.stack[i].z < ctx@.stack[j].z by {
        assert(ctx@.stack[i].z == i + 1);
        assert(ctx@.stack[j].z == j + 1);
    }
}

} // verus!
