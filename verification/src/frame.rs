//! The decisions of the host's frame loop: which draw commands a laid-out render tree
//! gives, and what a window event asks of the loop.
use vstd::prelude::*;
use crate::drawing::{DrawCommand, DrawCommandCommonData, DrawCommandKind, DrawList, Extent};
use crate::layout::{origin, walk, walk_fits, RenderItem, RenderItemKind, RenderNode};

verus! {

/// The extent a render item is drawn in: its position, and its size taken as `u32`.
pub open spec fn item_extent(item: RenderItem) -> Extent {
    Extent {
        x: item.position.x,
        y: item.position.y,
        width: item.dimensions.width as u32,
        height: item.dimensions.height as u32,
    }
}

/// The draw commands of one render item: a shape is painted in its extent; stacks and
/// boxes paint nothing themselves.
pub open spec fn item_commands(item: RenderItem) -> Seq<DrawCommand> {
    match item.kind {
        RenderItemKind::Shape { kind, brush, dimensions: _ } => seq![
            DrawCommand {
                kind: DrawCommandKind::Shape(kind),
                common_data: DrawCommandCommonData { brush, extent: item_extent(item) },
            },
        ],
        _ => Seq::empty(),
    }
}

/// The draw commands of `items`, item by item in order.
pub open spec fn frame_commands(items: Seq<RenderItem>) -> Seq<DrawCommand>
    decreases items.len(),
{
    if items.len() == 0 {
        Seq::empty()
    } else {
        frame_commands(items.drop_last()) + item_commands(items.last())
    }
}

/// The draw list of a frame: the commands of the render items of `root`, in the order of
/// the walk, each at its absolute position.
pub fn draw_list_for(root: &RenderNode) -> (l: DrawList)
    requires
        walk_fits(*root, origin()),
    ensures
        l@ == frame_commands(walk(*root, origin())),
{
    let ghost all = walk(*root, origin());
    let mut draw_list = DrawList::empty();
    let mut it = root.iter();
    let ghost mut k: int = 0;
    assert(all.take(0) =~= Seq::<RenderItem>::empty());
    loop
        invariant
            it.fits(),
            all == walk(*root, origin()),
            0 <= k <= all.len(),
            it.remaining() == all.skip(k),
            draw_list@ == frame_commands(all.take(k)),
        decreases all.len() - k,
    {
        let ghost before = it.remaining();
        match it.next() {
            None => {
                assert(all.skip(k).len() == 0);
                assert(all.take(k) =~= all);
                return draw_list;
            },
            Some(node) => {
                proof {
                    assert(node == all[k]);
                    assert(all.take(k + 1).drop_last() =~= all.take(k));
                    assert(all.skip(k).drop_first() =~= all.skip(k + 1));
                }
                let extent = Extent::new(
                    node.position.x,
                    node.position.y,
                    #[verifier::truncate] (node.dimensions.width as u32),
                    #[verifier::truncate] (node.dimensions.height as u32),
                );
                match node.kind {
                    RenderItemKind::Shape { kind, brush, dimensions: _ } => {
                        draw_list.push_shape(kind, brush, extent);
                    },
                    RenderItemKind::Stack => {},
                    RenderItemKind::Box { .. } => {},
                }
                proof {
                    assert(draw_list@ =~= frame_commands(all.take(k + 1)));
                    k = k + 1;
                }
            },
        }
    }
}

/// A key of the keyboard, as far as the loop tells keys apart.
#[derive(PartialEq, Eq, Structural, Copy, Clone, Debug)]
pub enum VirtualKey {
    Escape,
    Other,
}

/// A window event, as far as the loop tells events apart.
#[derive(PartialEq, Eq, Structural, Copy, Clone, Debug)]
pub enum WindowEventKind {
    /// A key went down or up; `None` where the key has no virtual key code.
    KeyboardInput(Option<VirtualKey>),
    CloseRequested,
    Resized,
    Other,
}

/// What an event asks of the loop, as (done, force the swapchain to be rebuilt): the
/// escape key and a close request end the loop; a resize forces a rebuild.
pub open spec fn event_decision(e: WindowEventKind) -> (bool, bool) {
    match e {
        WindowEventKind::KeyboardInput(Some(VirtualKey::Escape)) => (true, false),
        WindowEventKind::CloseRequested => (true, false),
        WindowEventKind::Resized => (false, true),
        _ => (false, false),
    }
}

/// What `e` asks of the loop (see `event_decision`).
pub fn on_window_event(e: WindowEventKind) -> (r: (bool, bool))
    ensures
        r == event_decision(e),
{
    match e {
        WindowEventKind::KeyboardInput(Some(VirtualKey::Escape)) => (true, false),
        WindowEventKind::CloseRequested => (true, false),
        WindowEventKind::Resized => (false, true),
        _ => (false, false),
    }
}

} // verus!
