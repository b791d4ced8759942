//! Tooltips: small areas that follow the pointer and never take a click.
use vstd::prelude::*;
use crate::area::{Area, Prepared};
use crate::context::{Context, Response};
use crate::id::Id;
use crate::layers::Order;
use crate::math::{Pos2, Vec2};

verus! {

/// How far from the pointer a tooltip appears, on both axes.
pub const TOOLTIP_OFFSET: i32 = 16;

/// The area of a pop-over at `pos`: pinned there, in the tooltip tier, and
/// letting clicks through.
pub open spec fn popup_area(id: Id, pos: Pos2) -> Area {
    Area {
        id,
        movable: false,
        interactable: false,
        order: Order::Tooltip,
        default_pos: Some(pos),
        fixed_pos: Some(pos),
    }
}

/// Shows, next to the pointer (if it is over the window), a tooltip whose
/// content has extent `content_size`. Without a pointer nothing changes.
pub fn show_tooltip(ctx: &mut Context, content_size: Vec2)
    requires
        old(ctx).wf(),
    ensures
        final(ctx).wf(),
        match old(ctx).input.mouse.pos {
            None => *final(ctx) == *old(ctx),
            Some(p) => exists|r: Response| #[trigger]
                (Prepared {
                    layer: popup_area(Id(1), p.offset_spec(Vec2 { x: TOOLTIP_OFFSET, y: TOOLTIP_OFFSET })).layer_spec(),
                    state: popup_area(Id(1), p.offset_spec(Vec2 { x: TOOLTIP_OFFSET, y: TOOLTIP_OFFSET })).start_state(
                        old(ctx).memory.areas(),
                    ),
                    movable: false,
                }).ends(*old(ctx), *final(ctx), content_size, r),
        },
{
    match ctx.input.mouse.pos {
        Some(mouse_pos) => {
            let window_pos = mouse_pos.offset(Vec2 { x: TOOLTIP_OFFSET, y: TOOLTIP_OFFSET });
            show_popup(ctx, Id::tooltip(), window_pos, content_size);
        },
        None => {},
    }
}

/// Shows a pop-over area `id` at `window_pos`.
fn show_popup(ctx: &mut Context, id: Id, window_pos: Pos2, content_size: Vec2) -> (r: Response)
    requires
        old(ctx).wf(),
    ensures
        final(ctx).wf(),
        (Prepared {
            layer: popup_area(id, window_pos).layer_spec(),
            state: popup_area(id, window_pos).start_state(old(ctx).memory.areas()),
            movable: false,
        }).ends(*old(ctx), *final(ctx), content_size, r),
{
    Area::new(id).order(Order::Tooltip).fixed_pos(window_pos).interactable(false).show(ctx, content_size)
}

} // verus!
