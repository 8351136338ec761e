//! The map viewer's zoom steps, the keys and OpenStreetMap addresses of its
//! tiles, its classes and which pointer interactions it accepts.
use vstd::prelude::*;

use crate::text::{decimal, extra_class, push_char, push_class_if, push_decimal, push_extra_class, push_text, string_from};

verus! {

/// `format!("{i}")` of a signed integer.
pub open spec fn signed_decimal(i: int) -> Seq<char> {
    if i < 0 {
        seq!['-'] + decimal((-i) as nat)
    } else {
        decimal(i as nat)
    }
}

fn push_signed(s: &mut String, i: i32)
    ensures
        final(s)@ == old(s)@ + signed_decimal(i as int),
{
    let ghost start = s@;
    if i < 0 {
        push_char(s, '-');
        let magnitude: u64 = (-(i as i64)) as u64;
        push_decimal(s, magnitude);
        proof {
            assert(s@ =~= start + signed_decimal(i as int));
        }
    } else {
        push_decimal(s, i as u64);
    }
}

/// The column of the tile that a map column shows: columns repeat around the
/// world, `2^zoom` tiles wide.
pub open spec fn wrapped_column(tile_x: int, zoom: nat) -> int {
    tile_x % (vstd::arithmetic::power2::pow2(zoom) as int)
}

/// The key and the address of the tile at column `tile_x` and row `tile_y`.
pub fn tile_reference(zoom: u8, tile_x: i32, tile_y: i32) -> (r: (String, String))
    requires
        zoom <= 30,
    ensures
        r.0@ == decimal(zoom as nat) + seq!['-'] + signed_decimal(tile_x as int) + seq!['-']
            + signed_decimal(tile_y as int),
        r.1@ == "https://tile.openstreetmap.org/"@ + decimal(zoom as nat) + seq!['/'] + signed_decimal(
            wrapped_column(tile_x as int, zoom as nat),
        ) + seq!['/'] + signed_decimal(tile_y as int) + ".png"@,
{
    proof {
        vstd::arithmetic::power2::lemma2_to64();
    }
    let mut count: i64 = 1;
    let mut z: u8 = 0;
    while z < zoom
        invariant
            0 <= z <= zoom <= 30,
            count == vstd::arithmetic::power2::pow2(z as nat),
        decreases zoom - z,
    {
        proof {
            vstd::arithmetic::power2::lemma_pow2_adds(z as nat, 1);
            vstd::arithmetic::power2::lemma2_to64();
            vstd::arithmetic::power2::lemma_pow2_strictly_increases(z as nat, 30);
            vstd::arithmetic::power2::lemma_pow2_strictly_increases(30, 31);
        }
        count = count * 2;
        z = z + 1;
    }
    proof {
        vstd::arithmetic::power2::lemma2_to64();
        vstd::arithmetic::power2::lemma_pow2_pos(zoom as nat);
        if zoom < 30 {
            vstd::arithmetic::power2::lemma_pow2_strictly_increases(zoom as nat, 30);
        }
    }
    let wrapped = crate::roving::euclid_rem(tile_x as i64, count);
    let mut key = String::new();
    push_decimal(&mut key, zoom as u64);
    push_char(&mut key, '-');
    push_signed(&mut key, tile_x);
    push_char(&mut key, '-');
    push_signed(&mut key, tile_y);
    let mut url = String::new();
    push_text(&mut url, "https://tile.openstreetmap.org/");
    push_decimal(&mut url, zoom as u64);
    push_char(&mut url, '/');
    push_signed(&mut url, wrapped as i32);
    push_char(&mut url, '/');
    push_signed(&mut url, tile_y);
    push_text(&mut url, ".png");
    (key, url)
}

/// The zoom a viewer starts at: the requested zoom, clamped to the bounds.
pub fn initial_zoom(zoom: u8, min_zoom: u8, max_zoom: u8) -> (r: u8)
    requires
        min_zoom <= max_zoom,
    ensures
        r == if zoom < min_zoom {
            min_zoom
        } else if zoom > max_zoom {
            max_zoom
        } else {
            zoom
        },
{
    if zoom < min_zoom {
        min_zoom
    } else if zoom > max_zoom {
        max_zoom
    } else {
        zoom
    }
}

/// The zoom after one step in or out: one level closer, kept within the bounds
/// on the side it moves to; `None` when the zoom stays where it is.
pub fn zoom_step(current: u8, min_zoom: u8, max_zoom: u8, zoom_in: bool) -> (r: Option<u8>)
    ensures
        ({
            let next: int = if zoom_in {
                let up: int = if current == 255 {
                    255
                } else {
                    current + 1
                };
                if up < max_zoom {
                    up
                } else {
                    max_zoom as int
                }
            } else {
                let down: int = if current == 0 {
                    0
                } else {
                    current - 1
                };
                if down > min_zoom {
                    down
                } else {
                    min_zoom as int
                }
            };
            if next == current {
                r is None
            } else {
                r == Some(next as u8)
            }
        }),
{
    let next = if zoom_in {
        let up = current.saturating_add(1);
        if up < max_zoom {
            up
        } else {
            max_zoom
        }
    } else {
        let down = current.saturating_sub(1);
        if down > min_zoom {
            down
        } else {
            min_zoom
        }
    };
    if next == current {
        None
    } else {
        Some(next)
    }
}

/// The class list of the map viewer's root.
pub fn map_viewer_class_name(disabled: bool, readonly: bool, class: Option<&str>) -> (r: String)
    ensures
        r@ == "birei-map-picker"@ + (if disabled {
            " birei-map-picker--disabled"@
        } else {
            Seq::<char>::empty()
        }) + (if readonly {
            " birei-map-picker--readonly"@
        } else {
            Seq::<char>::empty()
        }) + extra_class(class),
{
    proof {
        reveal_strlit(" birei-map-picker--disabled");
        reveal_strlit(" birei-map-picker--readonly");
        reveal_strlit("birei-map-picker--disabled");
        reveal_strlit("birei-map-picker--readonly");
    }
    let mut s = string_from("birei-map-picker");
    push_class_if(&mut s, disabled, "birei-map-picker--disabled");
    push_class_if(&mut s, readonly, "birei-map-picker--readonly");
    push_extra_class(&mut s, class);
    s
}

/// Whether a pointer press starts panning the map: not on a disabled map,
/// not while the marker is dragged, and not on the marker itself.
pub fn pan_starts(disabled: bool, marker_dragging: bool, on_marker: bool) -> (r: bool)
    ensures
        r == (!disabled && !marker_dragging && !on_marker),
{
    !disabled && !marker_dragging && !on_marker
}

/// Whether the wheel zooms the map: on any map that is not disabled.
pub fn wheel_zooms(disabled: bool) -> (r: bool)
    ensures
        r == !disabled,
{
    !disabled
}

/// Whether a press on the marker starts dragging it: only on an enabled,
/// editable map that has a marker.
pub fn marker_drag_starts(disabled: bool, readonly: bool, has_marker: bool) -> (r: bool)
    ensures
        r == (!disabled && !readonly && has_marker),
{
    !disabled && !readonly && has_marker
}

/// Whether a pointer event belongs to the marker drag in progress: only the
/// pointer that started it moves or drops the marker.
pub fn marker_drag_pointer(dragging: Option<i32>, pointer_id: i32) -> (r: bool)
    ensures
        r == (dragging == Some(pointer_id)),
{
    match dragging {
        Some(p) => p == pointer_id,
        None => false,
    }
}

} // verus!
