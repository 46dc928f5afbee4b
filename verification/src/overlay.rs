//! Overlay panels: the rendered content of a tooltip body, and the LIFO
//! stack of the closable overlays that are currently open.

use vstd::prelude::*;

use crate::registry::EntryView;
use crate::registry::TooltipRegistry;
use crate::text::SegView;
use crate::text::Segment;
use crate::text::spec_lines;
use crate::text::spec_tokenize;
use crate::text::split_lines;
use crate::text::tokenize;

verus! {

/// One element of a rendered row: inert text shown verbatim, or a clickable
/// element labeled with the display name of the registry entry whose trigger
/// word it renders.
#[derive(Debug, Clone, PartialEq, Eq)]
pub enum RenderItem {
    Plain(Vec<u8>),
    Clickable { trigger: Vec<u8>, label: Vec<u8> },
}

/// The mathematical value of a `RenderItem`.
pub enum ItemView {
    Plain(Seq<u8>),
    Clickable { trigger: Seq<u8>, label: Seq<u8> },
}

impl View for RenderItem {
    type V = ItemView;

    open spec fn view(&self) -> ItemView {
        match self {
            RenderItem::Plain(t) => ItemView::Plain(t@),
            RenderItem::Clickable { trigger, label } => ItemView::Clickable {
                trigger: trigger@,
                label: label@,
            },
        }
    }
}

/// How one segment renders: a word registered as a trigger becomes a
/// clickable element labeled with the entry's display name; any other word,
/// and every delimiter, renders as inert text.
pub open spec fn spec_render_item(reg: Map<Seq<u8>, EntryView>, s: SegView) -> ItemView {
    match s {
        SegView::Word(w) => if reg.contains_key(w) {
            ItemView::Clickable { trigger: w, label: reg[w].name }
        } else {
            ItemView::Plain(w)
        },
        SegView::Delim(d) => ItemView::Plain(seq![d]),
    }
}

/// The rendered row of one line: its segments, each rendered in place.
pub open spec fn spec_render_line(reg: Map<Seq<u8>, EntryView>, line: Seq<u8>) -> Seq<ItemView> {
    spec_tokenize(line).map_values(|s: SegView| spec_render_item(reg, s))
}

/// The rendered rows of a body: one row per line, stacked in order.
pub open spec fn spec_render_rows(reg: Map<Seq<u8>, EntryView>, body: Seq<u8>) -> Seq<
    Seq<ItemView>,
> {
    spec_lines(body).map_values(|l: Seq<u8>| spec_render_line(reg, l))
}

/// A rendered overlay panel: its handle in the host scene, its stacking
/// index, whether the cancel key may close it, the anchor it is positioned
/// at, and its rendered rows.
pub struct Overlay {
    pub handle: u64,
    pub z: u64,
    pub closable: bool,
    pub anchor_x: i64,
    pub anchor_y: i64,
    pub rows: Vec<Vec<RenderItem>>,
}

/// The mathematical value of an `Overlay`.
pub struct OverlayView {
    pub handle: u64,
    pub z: u64,
    pub closable: bool,
    pub anchor_x: i64,
    pub anchor_y: i64,
    pub rows: Seq<Seq<ItemView>>,
}

impl View for Overlay {
    type V = OverlayView;

    open spec fn view(&self) -> OverlayView {
        OverlayView {
            handle: self.handle,
            z: self.z,
            closable: self.closable,
            anchor_x: self.anchor_x,
            anchor_y: self.anchor_y,
            rows: self.rows@.map_values(|r: Vec<RenderItem>| r@.map_values(|it: RenderItem| it@)),
        }
    }
}

/// Build the overlay for `body` anchored at the given position: each line
/// becomes a row, each registered word in it a clickable element labeled
/// with the entry's display name, everything else inert text.
pub fn render_overlay(
    registry: &TooltipRegistry,
    body: &[u8],
    anchor_x: i64,
    anchor_y: i64,
    closable: bool,
    z: u64,
    handle: u64,
) -> (o: Overlay)
    requires
        registry.wf(),
    ensures
        o@ == (OverlayView {
            handle,
            z,
            closable,
            anchor_x,
            anchor_y,
            rows: spec_render_rows(registry@, body@),
        }),
{
    let lines = split_lines(body);
    let ghost line_views = lines@.map_values(|l: Vec<u8>| l@);
    let mut rows: Vec<Vec<RenderItem>> = Vec::new();
    let mut li: usize = 0;
    proof {
        assert(rows@.map_values(|r: Vec<RenderItem>| r@.map_values(|it: RenderItem| it@))
            =~= spec_render_rows(registry@, body@).take(0));
    }
    while li < lines.len()
        invariant
            0 <= li <= lines@.len(),
            registry.wf(),
            line_views == lines@.map_values(|l: Vec<u8>| l@),
            line_views == spec_lines(body@),
            rows@.map_values(|r: Vec<RenderItem>| r@.map_values(|it: RenderItem| it@))
                == spec_render_rows(registry@, body@).take(li as int),
        decreases lines@.len() - li,
    {
        let segs = tokenize(lines[li].as_slice());
        let ghost seg_views = segs@.map_values(|s: Segment| s@);
        let mut items: Vec<RenderItem> = Vec::new();
        let mut si: usize = 0;
        proof {
            assert(items@.map_values(|it: RenderItem| it@)
                =~= spec_render_line(registry@, line_views[li as int]).take(0));
        }
        while si < segs.len()
            invariant
                0 <= si <= segs@.len(),
                registry.wf(),
                0 <= li < line_views.len(),
                seg_views == segs@.map_values(|s: Segment| s@),
                seg_views == spec_tokenize(line_views[li as int]),
                items@.map_values(|it: RenderItem| it@)
                    == spec_render_line(registry@, line_views[li as int]).take(si as int),
            decreases segs@.len() - si,
        {
            let ghost old_items = items@;
            match &segs[si] {
                Segment::Word(w) => {
                    match registry.lookup(w.as_slice()) {
                        Some(e) => {
                            items.push(
                                RenderItem::Clickable { trigger: w.clone(), label: e.name.clone() },
                            );
                        },
                        None => {
                            items.push(RenderItem::Plain(w.clone()));
                        },
                    }
                },
                Segment::Delim(d) => {
                    let mut t: Vec<u8> = Vec::new();
                    t.push(*d);
                    proof {
                        assert(t@ =~= seq![*d]);
                    }
                    items.push(RenderItem::Plain(t));
                },
            }
            proof {
                assert(items@.map_values(|it: RenderItem| it@)
                    =~= old_items.map_values(|it: RenderItem| it@).push(
                    spec_render_item(registry@, seg_views[si as int]),
                ));
                assert(spec_render_line(registry@, line_views[li as int]).take(si + 1)
                    =~= spec_render_line(registry@, line_views[li as int]).take(si as int).push(
                    spec_render_item(registry@, seg_views[si as int]),
                ));
            }
            si = si + 1;
        }
        proof {
            assert(spec_render_line(registry@, line_views[li as int]).take(si as int)
                =~= spec_render_line(registry@, line_views[li as int]));
        }
        let ghost old_rows = rows@;
        rows.push(items);
        proof {
            assert(rows@.map_values(|r: Vec<RenderItem>| r@.map_values(|it: RenderItem| it@))
                =~= old_rows.map_values(|r: Vec<RenderItem>| r@.map_values(|it: RenderItem| it@))
                    .push(spec_render_line(registry@, line_views[li as int])));
            assert(spec_render_rows(registry@, body@).take(li + 1)
                =~= spec_render_rows(registry@, body@).take(li as int).push(
                spec_render_line(registry@, line_views[li as int]),
            ));
        }
        li = li + 1;
    }
    proof {
        assert(spec_render_rows(registry@, body@).take(li as int)
            =~= spec_render_rows(registry@, body@));
    }
    Overlay { handle, z, closable, anchor_x, anchor_y, rows }
}

/// The stack of the closable overlays that are currently open, most recently
/// opened last.
pub struct OverlayStack {
    pub items: Vec<Overlay>,
}

impl View for OverlayStack {
    type V = Seq<OverlayView>;

    open spec fn view(&self) -> Seq<OverlayView> {
        self.items@.map_values(|o: Overlay| o@)
    }
}

impl OverlayStack {
    /// An empty stack.
    pub fn new() -> (s: Self)
        ensures
            s@ == Seq::<OverlayView>::empty(),
    {
        let s = OverlayStack { items: Vec::new() };
        proof {
            assert(s@ =~= Seq::<OverlayView>::empty());
        }
        s
    }

    /// How many overlays are open.
    pub fn len(&self) -> (n: usize)
        ensures
            n == self@.len(),
    {
        self.items.len()
    }

    /// Track a newly opened overlay as the top of the stack.
    pub fn push(&mut self, o: Overlay)
        ensures
            final(self)@ == old(self)@.push(o@),
    {
        self.items.push(o);
        proof {
            assert(self@ =~= old(self)@.push(o@));
        }
    }

    /// Remove the most recently opened overlay and hand it back so that its
    /// visual element can be destroyed; nothing is removed when the stack is
    /// empty.
    pub fn pop_and_destroy(&mut self) -> (r: Option<Overlay>)
        ensures
            old(self)@.len() == 0 ==> r is None && final(self)@ == old(self)@,
            old(self)@.len() > 0 ==> match r {
                Some(o) => o@ == old(self)@.last() && final(self)@ == old(self)@.drop_last(),
                None => false,
            },
    {
        if self.items.len() == 0 {
            return None;
        }
        let o = self.items.pop().unwrap();
        proof {
            assert(self@ =~= old(self)@.drop_last());
        }
        Some(o)
    }

    /// Forget every tracked overlay. Used on screen exit, after the host has
    /// already torn the visuals down, so that no stale handle stays behind.
    pub fn clear(&mut self)
        ensures
            final(self)@ == Seq::<OverlayView>::empty(),
    {
        self.items = Vec::new();
        proof {
            assert(self@ =~= Seq::<OverlayView>::empty());
        }
    }

    /// The most recently opened overlay, if any.
    pub fn top(&self) -> (r: Option<&Overlay>)
        ensures
            match r {
                Some(o) => self@.len() > 0 && o@ == self@.last(),
                None => self@.len() == 0,
            },
    {
        if self.items.len() == 0 {
            None
        } else {
            Some(&self.items[self.items.len() - 1])
        }
    }
}

/// Stack discipline: pushing `a`, then `b`, then popping once leaves exactly
/// the old stack with `a` on top, and it is `b` that was removed.
pub proof fn lemma_stack_discipline(s: Seq<OverlayView>, a: OverlayView, b: OverlayView)
    ensures
        s.push(a).push(b).drop_last() == s.push(a),
        s.push(a).push(b).last() == b,
{
    assert(s.push(a).push(b).drop_last() =~= s.push(a));
}

} // verus!
