//! End-to-end tests of the display pipeline: command interpretation,
//! clamping, rasterization, blitting and camera capture.

use josengine::display::{Display, DrawCall, LogicCall};
use josengine::object::Object;
use josengine::screens::{MainMenu, Snake};
use josengine::renderer::RenderHook;
use josengine::shared::{Point, Size, FP_ONE};
use josengine::sprite::{PixelRange, Sprite};

fn opaque(r: u8, g: u8, b: u8) -> [u8; 4] {
    [r, g, b, 255]
}

#[test]
fn set_object_clamps_into_display() {
    let mut d = Display::new_at(Point::at(0, 0), MainMenu::init(), Size::is(64, 64));
    d.push_logic(LogicCall::InitObject(
        0,
        Object::new(Point::at(0, 0), Sprite::filled(Size::is(16, 16), opaque(1, 1, 1))),
    ));
    d.push_logic(LogicCall::SetObject(0, Point::at(100, 100)));
    d.run_logic_calls();
    assert_eq!(d.object_at(0).point, Point::at(48, 48));

    d.push_logic(LogicCall::SetObject(0, Point::at(-5, -7)));
    d.run_logic_calls();
    assert_eq!(d.object_at(0).point, Point::at(0, 0));
}

#[test]
fn move_object_nudges_then_clamps() {
    let mut d = Display::new_at(Point::at(0, 0), MainMenu::init(), Size::is(64, 64));
    d.push_logic(LogicCall::InitObject(
        0,
        Object::new(Point::at(0, 0), Sprite::filled(Size::is(16, 16), opaque(1, 1, 1))),
    ));
    d.push_logic(LogicCall::SetObject(0, Point::at(40, 40)));
    d.push_logic(LogicCall::MoveObject(0, Point::right(), 100 * FP_ONE));
    d.run_logic_calls();
    assert_eq!(d.object_at(0).point, Point::at(48, 40));

    d.push_logic(LogicCall::MoveObject(0, Point::up(), 3 * FP_ONE));
    d.run_logic_calls();
    assert_eq!(d.object_at(0).point, Point::at(48, 37));
}

#[test]
fn oversize_object_is_larger_than_display_but_clamps_to_zero() {
    // sprite larger than the display: the clamp saturates at zero
    let mut d = Display::new_at(Point::at(0, 0), MainMenu::init(), Size::is(8, 8));
    d.push_logic(LogicCall::InitObject(
        0,
        Object::new(Point::at(0, 0), Sprite::filled(Size::is(16, 16), opaque(1, 1, 1))),
    ));
    d.push_logic(LogicCall::SetObject(0, Point::at(5, 5)));
    d.run_logic_calls();
    assert_eq!(d.object_at(0).point, Point::at(0, 0));
}

#[test]
fn init_object_tracks_high_water_mark_and_skips_out_of_range() {
    let mut d = Display::new_at(Point::at(0, 0), MainMenu::init(), Size::is(8, 8));
    d.push_logic(LogicCall::InitObject(
        5,
        Object::new(Point::at(1, 1), Sprite::filled(Size::is(2, 2), opaque(1, 1, 1))),
    ));
    d.push_logic(LogicCall::InitObject(
        1000000,
        Object::new(Point::at(1, 1), Sprite::filled(Size::is(2, 2), opaque(1, 1, 1))),
    ));
    d.run_logic_calls();
    assert_eq!(d.objects_max_index(), 5);
    assert_eq!(d.object_at(5).sprite.size, Size::is(2, 2));
}

#[test]
fn init_object_rejects_malformed_sprite() {
    let mut d = Display::new_at(Point::at(0, 0), MainMenu::init(), Size::is(8, 8));
    let bad = Sprite {
        data: Vec::new(),
        size: Size::is(4, 4),
        translucent_ranges: Vec::new(),
        solid_ranges: vec![PixelRange {
            line: 0,
            src_index: 0,
            src_end_index: 16,
            x_begin: 0,
            x_end: 16,
        }],
    };
    assert!(!bad.well_formed());
    d.push_logic(LogicCall::InitObject(7, Object::new(Point::at(0, 0), bad)));
    d.run_logic_calls();
    // the slot still holds the default empty object
    assert_eq!(d.object_at(7).sprite.size, Size::is(0, 0));
    assert_eq!(d.objects_max_index(), 0);
}

#[test]
fn oversize_camera_request_is_rejected() {
    let mut d = Display::new_at(Point::at(0, 0), MainMenu::init(), Size::is(64, 64));
    d.push_logic(LogicCall::SetCamera(0, Size::is(100, 100), Point::at(5, 5)));
    d.run_logic_calls();
    // prior camera size (the 1 by 1 default) is unchanged; the position
    // is still applied, clamped for the retained size
    assert_eq!(d.camera(0).camera_size, Size::is(1, 1));
    assert_eq!(d.camera(0).point, Point::at(5, 5));

    d.push_logic(LogicCall::SetCamera(0, Size::is(32, 32), Point::at(50, 50)));
    d.run_logic_calls();
    assert_eq!(d.camera(0).camera_size, Size::is(32, 32));
    assert_eq!(d.camera(0).point, Point::at(32, 32));
}

#[test]
fn move_camera_clamps() {
    let mut d = Display::new_at(Point::at(0, 0), MainMenu::init(), Size::is(64, 64));
    d.push_logic(LogicCall::SetCamera(2, Size::is(16, 16), Point::at(0, 0)));
    d.push_logic(LogicCall::MoveCamera(2, Point::right(), 1000 * FP_ONE));
    d.run_logic_calls();
    assert_eq!(d.camera(2).point, Point::at(48, 0));
}

#[test]
fn camera_keys_clamp_to_table_range() {
    let mut d = Display::new_at(Point::at(0, 0), MainMenu::init(), Size::is(64, 64));
    d.push_logic(LogicCall::SetCamera(99, Size::is(4, 4), Point::at(1, 1)));
    d.push_logic(LogicCall::SetOutputCamera(Some(99)));
    d.run_logic_calls();
    assert_eq!(d.camera(15).camera_size, Size::is(4, 4));
    assert_eq!(d.current_camera(), Some(15));
    d.push_logic(LogicCall::SetOutputCamera(None));
    d.run_logic_calls();
    assert_eq!(d.current_camera(), None);
}

#[test]
fn pixel_at_applies_position_offset_and_premultiplies() {
    let mut d = Display::new_at(Point::at(0, 0), MainMenu::init(), Size::is(16, 16));
    let mut hook = RenderHook::create_render_hook(Size::is(1, 1));
    d.push_draw(DrawCall::Move(Point::at(2, 3)));
    d.render(&mut hook);
    assert_eq!(d.position(), Point::at(2, 3));
    d.push_logic(LogicCall::PixelAt(Point::at(1, 1), [100, 200, 40, 128]));
    d.push_logic(LogicCall::DeleteAt(Point::at(0, 0)));
    d.run_logic_calls();
    let q = d.pixel_queue();
    assert_eq!(q.len(), 2);
    assert_eq!(q[0].point, Point::at(3, 4));
    assert!(q[0].translucent);
    assert_eq!(q[0].color, [50, 100, 20, 128]);
    assert_eq!(q[1].point, Point::at(2, 3));
    assert!(!q[1].translucent);
    assert_eq!(q[1].color, [0, 0, 0, 255]);
}

#[test]
fn fill_range_covers_every_cell() {
    let mut d = Display::new_at(Point::at(0, 0), MainMenu::init(), Size::is(16, 16));
    d.push_logic(LogicCall::FillRange(Point::at(2, 1), Point::at(0, 0), opaque(9, 9, 9)));
    d.run_logic_calls();
    // corners are canonicalized per axis: cells (0..=2) x (0..=1)
    let q = d.pixel_queue();
    assert_eq!(q.len(), 6);
    let mut seen: Vec<(i64, i64)> = q.iter().map(|p| (p.point.x / FP_ONE, p.point.y / FP_ONE)).collect();
    seen.sort();
    assert_eq!(seen, vec![(0, 0), (0, 1), (1, 0), (1, 1), (2, 0), (2, 1)]);
}

#[test]
fn rectangle_draws_only_the_border() {
    let mut d = Display::new_at(Point::at(0, 0), Snake::init(), Size::is(8, 8));
    d.push_logic(LogicCall::Rectangle(Point::at(0, 0), Point::at(5, 5), opaque(10, 20, 30)));
    d.run_logic_calls();
    let mut hook = RenderHook::create_render_hook(Size::is(1, 1));
    // the snake screen's draw hook flushes the pixel queue
    d.render(&mut hook);
    let buf = d.buffer();
    for y in 0..8usize {
        for x in 0..8usize {
            let idx = x * 4 + y * 8 * 4;
            let cell = [buf[idx], buf[idx + 1], buf[idx + 2], buf[idx + 3]];
            let on_border = (x <= 5 && y <= 5) && (x == 0 || x == 5 || y == 0 || y == 5);
            if on_border {
                assert_eq!(cell, [10, 20, 30, 255], "border cell ({x},{y})");
            } else {
                assert_eq!(cell, [0, 0, 0, 0], "interior or outside cell ({x},{y})");
            }
        }
    }
}

#[test]
fn del_range_fills_with_opaque_black() {
    let mut d = Display::new_at(Point::at(0, 0), MainMenu::init(), Size::is(16, 16));
    d.push_logic(LogicCall::DelRange(Point::at(0, 0), Point::at(1, 0)));
    d.run_logic_calls();
    let q = d.pixel_queue();
    assert_eq!(q.len(), 2);
    assert!(q.iter().all(|p| p.color == [0, 0, 0, 255] && !p.translucent));
}

#[test]
fn display_size_limit_boundary() {
    let mut d = Display::new_at(Point::at(0, 0), MainMenu::init(), Size::is(1, 1));
    d.push_logic(LogicCall::SetDisplaySize(Size::is(32767, 1)));
    d.run_logic_calls();
    assert_eq!(d.size(), Size::is(32767, 1));
    assert_eq!(d.buffer().len(), 32767 * 4);
    d.push_logic(LogicCall::SetDisplaySize(Size::is(32768, 1)));
    d.run_logic_calls();
    assert_eq!(d.size(), Size::is(32767, 1));
}

#[test]
fn logic_commands_apply_in_queue_order() {
    let mut d = Display::new_at(Point::at(0, 0), MainMenu::init(), Size::is(64, 64));
    d.push_logic(LogicCall::InitObject(
        0,
        Object::new(Point::at(0, 0), Sprite::filled(Size::is(2, 2), opaque(1, 1, 1))),
    ));
    d.push_logic(LogicCall::SetObject(0, Point::at(1, 1)));
    d.push_logic(LogicCall::MoveObject(0, Point::right(), 2 * FP_ONE));
    d.run_logic_calls();
    // the absolute set runs before the relative move
    assert_eq!(d.object_at(0).point, Point::at(3, 1));
}

#[test]
fn camera_capture_end_to_end() {
    // SetDisplaySize(64x64), SetCamera(0, 32x32, (0,0)), SetOutputCamera(0),
    // PixelAt((10,10), opaque red), render: the backbuffer is 32x32 and
    // holds opaque red at (10,10), zero everywhere else.
    let mut d = Display::new_at(Point::at(0, 0), Snake::init(), Size::is(1, 1));
    let mut hook = RenderHook::create_render_hook(Size::is(1, 1));
    d.push_logic(LogicCall::SetDisplaySize(Size::is(64, 64)));
    d.push_logic(LogicCall::SetCamera(0, Size::is(32, 32), Point::at(0, 0)));
    d.push_logic(LogicCall::SetOutputCamera(Some(0)));
    d.push_logic(LogicCall::PixelAt(Point::at(10, 10), opaque(255, 0, 0)));
    d.run_logic_calls();
    d.render(&mut hook);
    assert_eq!(hook.render_size, Size::is(32, 32));
    let frame = &hook.frame;
    assert_eq!(frame.len(), 32 * 32 * 4);
    let red_at = 10 * 32 * 4 + 10 * 4;
    for i in 0..frame.len() {
        if i >= red_at && i < red_at + 4 {
            continue;
        }
        assert_eq!(frame[i], 0, "byte {i}");
    }
    assert_eq!(&frame[red_at..red_at + 4], &[255, 0, 0, 255]);
}

#[test]
fn full_copy_without_camera() {
    let mut d = Display::new_at(Point::at(0, 0), Snake::init(), Size::is(4, 4));
    let mut hook = RenderHook::create_render_hook(Size::is(1, 1));
    d.push_logic(LogicCall::PixelAt(Point::at(1, 2), opaque(7, 7, 7)));
    d.run_logic_calls();
    d.render(&mut hook);
    assert_eq!(hook.render_size, Size::is(4, 4));
    assert_eq!(hook.frame.as_slice(), d.buffer().as_slice());
    let idx = 1 * 4 + 2 * 4 * 4;
    assert_eq!(&hook.frame[idx..idx + 4], &[7, 7, 7, 255]);
}

#[test]
fn blit_solid_and_translucent_passes() {
    let mut d = Display::new_at(Point::at(0, 0), MainMenu::init(), Size::is(8, 8));
    let mut hook = RenderHook::create_render_hook(Size::is(1, 1));
    d.push_logic(LogicCall::InitObject(
        3,
        Object::new(Point::at(2, 1), Sprite::filled(Size::is(4, 4), opaque(1, 2, 3))),
    ));
    d.push_logic(LogicCall::InitObject(
        4,
        Object::new(Point::at(2, 1), Sprite::filled(Size::is(2, 2), [255, 255, 255, 127])),
    ));
    d.run_logic_calls();
    d.push_draw(DrawCall::DrawObject(3));
    d.push_draw(DrawCall::DrawObject(4));
    d.render(&mut hook);
    let buf = d.buffer();
    let cell = |x: usize, y: usize| -> [u8; 4] {
        let idx = x * 4 + y * 8 * 4;
        [buf[idx], buf[idx + 1], buf[idx + 2], buf[idx + 3]]
    };
    // translucent white at alpha 127 composited over the opaque base
    assert_eq!(cell(2, 1), [128, 128, 129, 255]);
    assert_eq!(cell(3, 2), [128, 128, 129, 255]);
    // solid base color where only the first object landed
    assert_eq!(cell(4, 3), [1, 2, 3, 255]);
    assert_eq!(cell(5, 4), [1, 2, 3, 255]);
    // untouched outside the object
    assert_eq!(cell(0, 0), [0, 0, 0, 0]);
    assert_eq!(cell(7, 7), [0, 0, 0, 0]);
}

#[test]
fn oversize_object_draw_is_skipped() {
    let mut d = Display::new_at(Point::at(0, 0), MainMenu::init(), Size::is(4, 4));
    let mut hook = RenderHook::create_render_hook(Size::is(1, 1));
    d.push_logic(LogicCall::InitObject(
        2,
        Object::new(Point::at(0, 0), Sprite::filled(Size::is(8, 8), opaque(5, 5, 5))),
    ));
    d.run_logic_calls();
    d.push_draw(DrawCall::DrawObject(2));
    d.render(&mut hook);
    assert!(d.buffer().iter().all(|&b| b == 0));
}

#[test]
fn clear_display_zeroes_the_framebuffer() {
    let mut d = Display::new_at(Point::at(0, 0), Snake::init(), Size::is(4, 4));
    let mut hook = RenderHook::create_render_hook(Size::is(1, 1));
    d.push_logic(LogicCall::PixelAt(Point::at(0, 0), opaque(9, 9, 9)));
    d.run_logic_calls();
    d.render(&mut hook);
    assert_ne!(d.buffer()[0], 0);
    d.push_draw(DrawCall::ClearDisplay);
    d.render(&mut hook);
    // the snake screen's own DrawPixels flushed an empty queue, so the
    // buffer stays cleared
    assert!(d.buffer().iter().all(|&b| b == 0));
}

#[test]
fn display_resize_requests() {
    let mut d = Display::new_at(Point::at(0, 0), MainMenu::init(), Size::is(4, 4));
    d.push_logic(LogicCall::SetDisplaySize(Size::is(6, 2)));
    d.run_logic_calls();
    assert_eq!(d.size(), Size::is(6, 2));
    assert_eq!(d.buffer().len(), 6 * 2 * 4);
    // a size beyond the engine limit is rejected, state unchanged
    d.push_logic(LogicCall::SetDisplaySize(Size::is(40000, 10)));
    d.run_logic_calls();
    assert_eq!(d.size(), Size::is(6, 2));
    // a zero-extent display absorbs pixel writes without harm
    d.push_logic(LogicCall::SetDisplaySize(Size::is(0, 0)));
    d.push_logic(LogicCall::PixelAt(Point::at(3, 3), opaque(1, 1, 1)));
    d.run_logic_calls();
    let mut hook = RenderHook::create_render_hook(Size::is(1, 1));
    d.push_draw(DrawCall::DrawPixels);
    d.render(&mut hook);
    assert_eq!(d.buffer().len(), 0);
}
